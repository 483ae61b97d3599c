use vstd::prelude::*;

verus! {

/// Hit points, current and maximum. A combatant is alive while its current hit points are
/// above zero.
#[derive(Debug, Clone, Copy, PartialEq, Eq, Structural)]
pub struct Health {
    pub current: i64,
    pub max: i64,
}

#[derive(Debug, Clone, Copy, PartialEq, Eq, Structural)]
pub struct AlreadyDeadError;

/// A combatant went from alive to dead.
#[derive(Debug, Clone, Copy, PartialEq, Eq, Structural)]
pub enum LivenessChangeEvent {
    EntityDied { which: usize },
}

impl Health {
    pub open spec fn alive(self) -> bool {
        self.current > 0
    }

    pub fn new(current_and_max: i64) -> (r: Health)
        ensures
            r == (Health { current: current_and_max, max: current_and_max }),
    {
        Health { current: current_and_max, max: current_and_max }
    }

    pub fn is_alive(&self) -> (r: bool)
        ensures
            r == self.alive(),
    {
        self.current > 0
    }

    pub fn is_dead(&self) -> (r: bool)
        ensures
            r == !self.alive(),
    {
        !self.is_alive()
    }

    pub fn current(&self) -> (r: i64)
        ensures
            r == self.current,
    {
        self.current
    }

    pub fn max(&self) -> (r: i64)
        ensures
            r == self.max,
    {
        self.max
    }

    /// Takes `amount` hit points from a living combatant; returns whether this killed it.
    /// A dead combatant takes no damage.
    pub fn lose_hp(&mut self, amount: u32) -> (r: Result<bool, AlreadyDeadError>)
        ensures
            old(self).alive() ==> {
                &&& *final(self) == (Health { current: (old(self).current - amount) as i64, max: old(self).max })
                &&& r == Ok::<bool, AlreadyDeadError>(!final(self).alive())
            },
            !old(self).alive() ==> *final(self) == *old(self) && r == Err::<bool, AlreadyDeadError>(AlreadyDeadError),
    {
        if self.current > 0 {
            self.current = self.current - amount as i64;
            Ok(self.current <= 0)
        } else {
            Err(AlreadyDeadError)
        }
    }
}

} // verus!
