use vstd::prelude::*;

verus! {

#[derive(Debug, Clone, Copy, PartialEq, Eq, Structural)]
pub enum Faction {
    Player,
    Enemy,
}

impl Faction {
    pub fn is_friendly(&self, other: &Faction) -> (r: bool)
        ensures
            r == (*self == *other),
    {
        match (self, other) {
            (Faction::Player, Faction::Player) => true,
            (Faction::Enemy, Faction::Enemy) => true,
            _ => false,
        }
    }

    pub fn is_enemy(&self, other: &Faction) -> (r: bool)
        ensures
            r == (*self != *other),
    {
        !self.is_friendly(other)
    }

    /// The one combatant of `combatants` that is hostile to `self`, if there is exactly one.
    pub fn find_single_enemy(&self, combatants: &Vec<(usize, Faction)>) -> (r: Option<(usize, Faction)>)
        ensures
            match r {
                Some(found) => exists|k: int|
                    0 <= k < combatants.len() && combatants@[k] == found && found.1 != *self
                        && forall|j: int|
                        0 <= j < combatants.len() && j != k ==> combatants@[j].1 == *self,
                None => forall|k: int|
                    0 <= k < combatants.len() && combatants@[k].1 != *self ==> exists|j: int|
                        0 <= j < combatants.len() && j != k && combatants@[j].1 != *self,
            },
    {
        let mut found: Option<usize> = None;
        let mut i: usize = 0;
        while i < combatants.len()
            invariant
                0 <= i <= combatants.len(),
                match found {
                    Some(k) => k < i && combatants@[k as int].1 != *self && forall|j: int|
                        0 <= j < i && j != k ==> combatants@[j].1 == *self,
                    None => forall|j: int| 0 <= j < i ==> combatants@[j].1 == *self,
                },
            decreases combatants.len() - i,
        {
            if self.is_enemy(&combatants[i].1) {
                match found {
                    Some(k) => {
                        proof {
                            assert forall|m: int|
                                0 <= m < combatants.len() && combatants@[m].1 != *self implies exists|j: int|
                                0 <= j < combatants.len() && j != m && combatants@[j].1 != *self by {
                                if m == k as int {
                                    assert(combatants@[i as int].1 != *self);
                                } else {
                                    assert(combatants@[k as int].1 != *self);
                                }
                            }
                        }
                        return None;
                    },
                    None => {
                        found = Some(i);
                    },
                }
            }
            i = i + 1;
        }
        match found {
            Some(k) => Some(combatants[k]),
            None => None,
        }
    }
}

/// A fight's clock: elapsed nanoseconds, counted only while unpaused. A new clock is paused.
#[derive(Debug, Clone, Copy, PartialEq, Eq, Structural)]
pub struct FightTime {
    pub paused: bool,
    pub elapsed: u64,
}

impl FightTime {
    pub fn new() -> (r: FightTime)
        ensures
            r == (FightTime { paused: true, elapsed: 0 }),
    {
        FightTime { paused: true, elapsed: 0 }
    }

    pub fn is_paused(&self) -> (r: bool)
        ensures
            r == self.paused,
    {
        self.paused
    }

    pub fn set_paused(&mut self, should_pause: bool)
        ensures
            *final(self) == (FightTime { paused: should_pause, elapsed: old(self).elapsed }),
    {
        self.paused = should_pause;
    }

    pub fn elapsed(&self) -> (r: u64)
        ensures
            r == self.elapsed,
    {
        self.elapsed
    }

    /// The clock after `delta` nanoseconds pass: unchanged while paused, else advanced,
    /// saturating at `u64::MAX`.
    pub open spec fn ticked(self, delta: int) -> FightTime {
        if self.paused {
            self
        } else {
            let sum = self.elapsed + delta;
            FightTime {
                paused: false,
                elapsed: if sum > u64::MAX { u64::MAX } else { sum as u64 },
            }
        }
    }

    pub fn tick(&mut self, delta: u64)
        ensures
            *final(self) == old(self).ticked(delta as int),
    {
        if !self.paused {
            self.elapsed = self.elapsed.saturating_add(delta);
        }
    }
}

#[derive(Debug, Clone, Copy, PartialEq, Eq, Structural)]
pub enum FightResult {
    FactionVictory { which: Faction },
}

#[derive(Debug, Clone, Copy, PartialEq, Eq, Structural)]
pub enum FightStatus {
    Ongoing,
    Ended,
}

impl FightStatus {
    pub fn is_ended(&self) -> (r: bool)
        ensures
            r == (*self == FightStatus::Ended),
    {
        match self {
            FightStatus::Ended => true,
            FightStatus::Ongoing => false,
        }
    }
}

/// An encounter: its clock and, once decided, its result.
#[derive(Debug, Clone, Copy, PartialEq, Eq, Structural)]
pub struct Fight {
    pub time: FightTime,
    pub result: Option<FightResult>,
}

impl Fight {
    pub fn new() -> (r: Fight)
        ensures
            r == (Fight { time: FightTime { paused: true, elapsed: 0 }, result: None }),
    {
        Fight { time: FightTime::new(), result: None }
    }

    pub fn status(&self) -> (r: FightStatus)
        ensures
            r == (if self.result.is_some() { FightStatus::Ended } else { FightStatus::Ongoing }),
    {
        match self.result {
            Some(_) => FightStatus::Ended,
            None => FightStatus::Ongoing,
        }
    }
}

} // verus!
