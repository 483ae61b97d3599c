use vstd::prelude::*;

use crate::effects::DamageInstance;
use crate::fight::{Faction, Fight, FightResult, FightTime};
use crate::health::{AlreadyDeadError, Health, LivenessChangeEvent};
use crate::world::{lemma_wf_frame, Actor, World};

verus! {

/// What an end check found in a fight.
#[derive(Debug, Clone, Copy, PartialEq, Eq, Structural)]
pub enum EndCheckOutcome {
    /// More than one faction still stands.
    Ongoing,
    /// Exactly one faction stands; the fight is over.
    Victory { which: Faction },
    /// No faction stands: a state the end condition should never reach. The fight is left
    /// undecided.
    NoSurvivors,
}

/// `h` after a hit of `amount`, which only a living combatant takes.
pub open spec fn health_after_hit(h: Health, amount: u32) -> Health {
    if h.alive() {
        Health { current: (h.current - amount) as i64, max: h.max }
    } else {
        h
    }
}

impl World {
    /// The health of actor `a` after the first `n` hits of `damage`.
    pub open spec fn health_after_hits(self, damage: Seq<DamageInstance>, a: int, n: int) -> Health
        decreases n,
    {
        if n <= 0 {
            self.actors@[a].health
        } else {
            let h = self.health_after_hits(damage, a, n - 1);
            if damage[n - 1].target == a {
                health_after_hit(h, damage[n - 1].amount)
            } else {
                h
            }
        }
    }

    /// The deaths that the first `n` hits of `damage` cause, in order.
    pub open spec fn deaths_from(self, damage: Seq<DamageInstance>, n: int) -> Seq<LivenessChangeEvent>
        decreases n,
    {
        if n <= 0 {
            seq![]
        } else {
            let d = damage[n - 1];
            let h = self.health_after_hits(damage, d.target as int, n - 1);
            let prev = self.deaths_from(damage, n - 1);
            if h.alive() && !health_after_hit(h, d.amount).alive() {
                prev.push(LivenessChangeEvent::EntityDied { which: d.target })
            } else {
                prev
            }
        }
    }

    pub open spec fn damage_resolves(self, damage: Seq<DamageInstance>) -> bool {
        forall|k: int| 0 <= k < damage.len() ==> (#[trigger] damage[k]).target < self.actors@.len()
    }

    /// Takes `amount` hit points from actor `target`; returns whether this killed it. A dead
    /// actor takes no damage.
    pub fn lose_hp(&mut self, target: usize, amount: u32) -> (r: Result<bool, AlreadyDeadError>)
        requires
            old(self).wf(),
            target < old(self).actors@.len(),
        ensures
            final(self).wf(),
            final(self).actors@ == old(self).actors@.update(
                target as int,
                Actor { health: health_after_hit(old(self).actors@[target as int].health, amount), ..old(self).actors@[target as int] },
            ),
            r == if old(self).actors@[target as int].health.alive() {
                Ok::<bool, AlreadyDeadError>(!health_after_hit(old(self).actors@[target as int].health, amount).alive())
            } else {
                Err::<bool, AlreadyDeadError>(AlreadyDeadError)
            },
            final(self).fights == old(self).fights,
            final(self).slots == old(self).slots,
            final(self).abilities == old(self).abilities,
            final(self).effects_holders == old(self).effects_holders,
            final(self).effects == old(self).effects,
    {
        let mut actor = self.actors[target];
        let r = actor.health.lose_hp(amount);
        self.actors.set(target, actor);
        proof {
            lemma_wf_frame(*old(self), *self);
            assert(self.actors@ =~= old(self).actors@.update(
                target as int,
                Actor { health: health_after_hit(old(self).actors@[target as int].health, amount), ..old(self).actors@[target as int] },
            ));
        }
        r
    }

    /// Applies each hit of `damage` in order; returns a death for each hit that killed its
    /// target. Hits on the dead are passed over.
    pub fn resolve_damage(&mut self, damage: &Vec<DamageInstance>) -> (deaths: Vec<LivenessChangeEvent>)
        requires
            old(self).wf(),
            old(self).damage_resolves(damage@),
        ensures
            final(self).wf(),
            deaths@ == old(self).deaths_from(damage@, damage@.len() as int),
            final(self).actors@.len() == old(self).actors@.len(),
            forall|a: int|
                0 <= a < old(self).actors@.len() ==> #[trigger] final(self).actors@[a] == (Actor {
                    health: old(self).health_after_hits(damage@, a, damage@.len() as int),
                    ..old(self).actors@[a]
                }),
            final(self).fights == old(self).fights,
            final(self).slots == old(self).slots,
            final(self).abilities == old(self).abilities,
            final(self).effects_holders == old(self).effects_holders,
            final(self).effects == old(self).effects,
    {
        let ghost w0 = *self;
        let mut deaths: Vec<LivenessChangeEvent> = Vec::new();
        let n = damage.len();
        let mut i: usize = 0;
        while i < n
            invariant
                0 <= i <= n,
                n == damage@.len(),
                w0.damage_resolves(damage@),
                self.wf(),
                deaths@ == w0.deaths_from(damage@, i as int),
                self.actors@.len() == w0.actors@.len(),
                forall|a: int|
                    0 <= a < w0.actors@.len() ==> #[trigger] self.actors@[a] == (Actor {
                        health: w0.health_after_hits(damage@, a, i as int),
                        ..w0.actors@[a]
                    }),
                self.fights == w0.fights,
                self.slots == w0.slots,
                self.abilities == w0.abilities,
                self.effects_holders == w0.effects_holders,
                self.effects == w0.effects,
            decreases n - i,
        {
            let hit = damage[i];
            proof {
                assert(w0.damage_resolves(damage@));
                let _ = damage@[i as int];
            }
            match self.lose_hp(hit.target, hit.amount) {
                Ok(true) => {
                    deaths.push(LivenessChangeEvent::EntityDied { which: hit.target });
                },
                Ok(false) => {},
                Err(AlreadyDeadError) => {},
            }
            proof {
                assert forall|a: int| 0 <= a < w0.actors@.len() implies #[trigger] self.actors@[a] == (Actor {
                    health: w0.health_after_hits(damage@, a, i as int + 1),
                    ..w0.actors@[a]
                }) by {
                }
            }
            i = i + 1;
        }
        deaths
    }

    /// Some living member of fight `f` belongs to `faction`.
    pub open spec fn faction_alive(self, f: int, faction: Faction) -> bool {
        exists|a: int|
            0 <= a < self.actors@.len() && #[trigger] self.actors@[a].fight == f
                && self.actors@[a].faction == faction && self.actors@[a].health.alive()
    }

    /// What an end check of fight `f` finds.
    pub open spec fn end_check_outcome(self, f: int) -> EndCheckOutcome {
        let player = self.faction_alive(f, Faction::Player);
        let enemy = self.faction_alive(f, Faction::Enemy);
        if player && enemy {
            EndCheckOutcome::Ongoing
        } else if player {
            EndCheckOutcome::Victory { which: Faction::Player }
        } else if enemy {
            EndCheckOutcome::Victory { which: Faction::Enemy }
        } else {
            EndCheckOutcome::NoSurvivors
        }
    }

    /// Fight `f` after an end check: decided and paused if exactly one faction stands,
    /// else as it was.
    pub open spec fn fight_after_end_check(self, f: int) -> Fight {
        match self.end_check_outcome(f) {
            EndCheckOutcome::Victory { which } => Fight {
                time: FightTime { paused: true, elapsed: self.fights@[f].time.elapsed },
                result: Some(FightResult::FactionVictory { which }),
            },
            _ => self.fights@[f],
        }
    }

    /// Collects the factions still standing among the members of fight `fight_e`; if exactly
    /// one stands, records its victory and pauses the fight's clock.
    pub fn check_fight_end(&mut self, fight_e: usize) -> (r: EndCheckOutcome)
        requires
            old(self).wf(),
            fight_e < old(self).fights@.len(),
        ensures
            final(self).wf(),
            r == old(self).end_check_outcome(fight_e as int),
            final(self).fights@ == old(self).fights@.update(
                fight_e as int,
                old(self).fight_after_end_check(fight_e as int),
            ),
            final(self).actors == old(self).actors,
            final(self).slots == old(self).slots,
            final(self).abilities == old(self).abilities,
            final(self).effects_holders == old(self).effects_holders,
            final(self).effects == old(self).effects,
    {
        let mut player_alive = false;
        let mut enemy_alive = false;
        let n = self.actors.len();
        let mut i: usize = 0;
        while i < n
            invariant
                0 <= i <= n,
                n == self.actors@.len(),
                player_alive <==> exists|a: int|
                    0 <= a < i && #[trigger] self.actors@[a].fight == fight_e
                        && self.actors@[a].faction == Faction::Player && self.actors@[a].health.alive(),
                enemy_alive <==> exists|a: int|
                    0 <= a < i && #[trigger] self.actors@[a].fight == fight_e
                        && self.actors@[a].faction == Faction::Enemy && self.actors@[a].health.alive(),
            decreases n - i,
        {
            let actor = self.actors[i];
            if actor.fight == fight_e && actor.health.is_alive() {
                match actor.faction {
                    Faction::Player => {
                        player_alive = true;
                    },
                    Faction::Enemy => {
                        enemy_alive = true;
                    },
                }
            }
            i = i + 1;
        }
        let outcome = if player_alive && enemy_alive {
            EndCheckOutcome::Ongoing
        } else if player_alive {
            EndCheckOutcome::Victory { which: Faction::Player }
        } else if enemy_alive {
            EndCheckOutcome::Victory { which: Faction::Enemy }
        } else {
            EndCheckOutcome::NoSurvivors
        };
        match outcome {
            EndCheckOutcome::Victory { which } => {
                let mut fight = self.fights[fight_e];
                fight.result = Some(FightResult::FactionVictory { which });
                fight.time.set_paused(true);
                self.fights.set(fight_e, fight);
                proof {
                    lemma_wf_frame(*old(self), *self);
                }
            },
            _ => {
                proof {
                    assert(self.fights@ =~= old(self).fights@.update(
                        fight_e as int,
                        old(self).fight_after_end_check(fight_e as int),
                    ));
                }
            },
        }
        outcome
    }

    /// Some death among the first `n` of `deaths` is of a member of fight `f`.
    pub open spec fn death_in_fight(self, deaths: Seq<LivenessChangeEvent>, n: int, f: int) -> bool {
        exists|k: int|
            0 <= k < n && match #[trigger] deaths[k] {
                LivenessChangeEvent::EntityDied { which } => self.fight_of(which as int) == f,
            }
    }

    pub open spec fn deaths_resolve(self, deaths: Seq<LivenessChangeEvent>) -> bool {
        forall|k: int|
            0 <= k < deaths.len() ==> match #[trigger] deaths[k] {
                LivenessChangeEvent::EntityDied { which } => which < self.actors@.len(),
            }
    }

    /// Runs the end check of every undecided fight that one of `deaths` took place in.
    /// Returns each such fight in which no faction was left standing.
    pub fn single_faction_survives_check(&mut self, deaths: &Vec<LivenessChangeEvent>) -> (no_survivors: Vec<usize>)
        requires
            old(self).wf(),
            old(self).deaths_resolve(deaths@),
        ensures
            final(self).wf(),
            final(self).fights@.len() == old(self).fights@.len(),
            forall|f: int|
                0 <= f < old(self).fights@.len() ==> #[trigger] final(self).fights@[f] == if old(self).death_in_fight(
                    deaths@,
                    deaths@.len() as int,
                    f,
                ) && !old(self).fight_ended(f) {
                    old(self).fight_after_end_check(f)
                } else {
                    old(self).fights@[f]
                },
            forall|k: int|
                0 <= k < no_survivors@.len() ==> {
                    let f = #[trigger] no_survivors@[k] as int;
                    &&& 0 <= f < old(self).fights@.len()
                    &&& old(self).death_in_fight(deaths@, deaths@.len() as int, f)
                    &&& !old(self).fight_ended(f)
                    &&& old(self).end_check_outcome(f) == EndCheckOutcome::NoSurvivors
                },
            forall|f: int|
                0 <= f < old(self).fights@.len() && old(self).death_in_fight(deaths@, deaths@.len() as int, f)
                    && !old(self).fight_ended(f) && old(self).end_check_outcome(f)
                    == EndCheckOutcome::NoSurvivors ==> #[trigger] no_survivors@.contains(f as usize),
            final(self).actors == old(self).actors,
            final(self).slots == old(self).slots,
            final(self).abilities == old(self).abilities,
            final(self).effects_holders == old(self).effects_holders,
            final(self).effects == old(self).effects,
    {
        let ghost w0 = *self;
        let mut no_survivors: Vec<usize> = Vec::new();
        let n = deaths.len();
        let mut i: usize = 0;
        while i < n
            invariant
                0 <= i <= n,
                n == deaths@.len(),
                w0.wf(),
                w0.deaths_resolve(deaths@),
                self.wf(),
                self.fights@.len() == w0.fights@.len(),
                forall|f: int|
                    0 <= f < w0.fights@.len() ==> #[trigger] self.fights@[f] == if w0.death_in_fight(deaths@, i as int, f)
                        && !w0.fight_ended(f) {
                        w0.fight_after_end_check(f)
                    } else {
                        w0.fights@[f]
                    },
                forall|k: int|
                    0 <= k < no_survivors@.len() ==> {
                        let f = #[trigger] no_survivors@[k] as int;
                        &&& 0 <= f < w0.fights@.len()
                        &&& w0.death_in_fight(deaths@, i as int, f)
                        &&& !w0.fight_ended(f)
                        &&& w0.end_check_outcome(f) == EndCheckOutcome::NoSurvivors
                    },
                forall|f: int|
                    0 <= f < w0.fights@.len() && w0.death_in_fight(deaths@, i as int, f) && !w0.fight_ended(f)
                        && w0.end_check_outcome(f) == EndCheckOutcome::NoSurvivors
                        ==> #[trigger] no_survivors@.contains(f as usize),
                self.actors == w0.actors,
                self.slots == w0.slots,
                self.abilities == w0.abilities,
                self.effects_holders == w0.effects_holders,
                self.effects == w0.effects,
            decreases n - i,
        {
            let which = match deaths[i] {
                LivenessChangeEvent::EntityDied { which } => which,
            };
            proof {
                assert(w0.deaths_resolve(deaths@));
                let _ = deaths@[i as int];
            }
            let fight_e = self.get_fight_of_entity(which);
            let ghost before = *self;
            let ghost before_list = no_survivors@;
            if self.fights[fight_e].result.is_none() {
                proof {
                    assert(!w0.fight_ended(fight_e as int));
                    assert(self.fights@[fight_e as int] == w0.fights@[fight_e as int]);
                    assert(before.end_check_outcome(fight_e as int) == w0.end_check_outcome(fight_e as int));
                }
                let outcome = self.check_fight_end(fight_e);
                match outcome {
                    EndCheckOutcome::NoSurvivors => {
                        no_survivors.push(fight_e);
                    },
                    _ => {},
                }
            }
            proof {
                assert(w0.death_in_fight(deaths@, i as int + 1, fight_e as int)) by {
                    let _ = deaths@[i as int];
                }
                assert forall|f: int| 0 <= f < w0.fights@.len() && f != fight_e implies
                    w0.death_in_fight(deaths@, i as int + 1, f) == w0.death_in_fight(deaths@, i as int, f) by {
                    if w0.death_in_fight(deaths@, i as int + 1, f) {
                        let k = choose|k: int|
                            0 <= k < i + 1 && match #[trigger] deaths@[k] {
                                LivenessChangeEvent::EntityDied { which } => w0.fight_of(which as int) == f,
                            };
                        assert(k != i);
                    }
                }
                assert forall|k: int| 0 <= k < no_survivors@.len() implies {
                    let f = #[trigger] no_survivors@[k] as int;
                    &&& 0 <= f < w0.fights@.len()
                    &&& w0.death_in_fight(deaths@, i as int + 1, f)
                    &&& !w0.fight_ended(f)
                    &&& w0.end_check_outcome(f) == EndCheckOutcome::NoSurvivors
                } by {
                    if k < before_list.len() {
                        assert(before_list[k] == no_survivors@[k]);
                    }
                }
                assert forall|f: int|
                    0 <= f < w0.fights@.len() && w0.death_in_fight(deaths@, i as int + 1, f) && !w0.fight_ended(f)
                        && w0.end_check_outcome(f) == EndCheckOutcome::NoSurvivors
                        implies #[trigger] no_survivors@.contains(f as usize) by {
                    if f == fight_e as int {
                        if before.fights@[fight_e as int].result.is_some() {
                            assert(w0.death_in_fight(deaths@, i as int, f));
                        } else {
                            assert(no_survivors@[no_survivors@.len() - 1] == fight_e);
                        }
                    } else {
                        assert(before_list.contains(f as usize));
                        let j = choose|j: int| 0 <= j < before_list.len() && before_list[j] == f as usize;
                        assert(no_survivors@[j] == f as usize);
                    }
                }
            }
            i = i + 1;
        }
        no_survivors
    }
}

} // verus!
