use vstd::prelude::*;

use crate::ability::{AbilitySlot, CastEvent, Cooldown};
use crate::fight::FightResult;
use crate::resolution::EndCheckOutcome;
use crate::timer::CountdownTimer;
use crate::effects::{fresh_effect_timer, DamageInstance};
use crate::health::LivenessChangeEvent;
use crate::ticking::{cast_after, cooldown_after};
use crate::world::World;

verus! {

/// What one fixed step produced: the completion signals of casts, the hits dealt (effects'
/// ticks first, then performed abilities), the deaths they caused, and the fights whose end
/// check found no faction standing.
#[derive(Debug)]
pub struct StepReport {
    pub cast_events: Vec<CastEvent>,
    pub damage: Vec<DamageInstance>,
    pub deaths: Vec<LivenessChangeEvent>,
    pub fights_without_survivors: Vec<usize>,
}

proof fn lemma_finish_events_frame(wa: World, wb: World, n: int, delta: int)
    requires
        0 <= n <= wa.slots@.len(),
        n <= wb.slots@.len(),
        forall|s: int|
            0 <= s < n ==> (#[trigger] wa.slots@[s]).ongoing_cast == wb.slots@[s].ongoing_cast
                && wa.slot_paused(s) == wb.slot_paused(s),
    ensures
        wa.finish_events(n, delta) == wb.finish_events(n, delta),
    decreases n,
{
    if n > 0 {
        lemma_finish_events_frame(wa, wb, n - 1, delta);
        let _ = wa.slots@[n - 1];
    }
}

proof fn lemma_finish_events_resolve(w: World, n: int, delta: int)
    requires
        w.wf(),
        0 <= n <= w.slots@.len(),
    ensures
        w.events_resolve(w.finish_events(n, delta)),
    decreases n,
{
    if n > 0 {
        lemma_finish_events_resolve(w, n - 1, delta);
        assert(w.slot_wf(n - 1));
        let prev = w.finish_events(n - 1, delta);
        let cur = w.finish_events(n, delta);
        assert forall|k: int| 0 <= k < cur.len() implies match #[trigger] cur[k] {
            CastEvent::FinishedSuccessfully { ability_entity, cast_target, .. } => {
                &&& ability_entity < w.abilities@.len()
                &&& cast_target matches Some(t) ==> t < w.actors@.len()
            },
            CastEvent::Aborted { .. } => true,
        } by {
            if k < prev.len() {
                assert(cur[k] == prev[k]);
                let _ = prev[k];
            }
        }
    }
}

proof fn lemma_effects_damage_frame(wa: World, wb: World, n: int, delta: int)
    requires
        0 <= n <= wa.effects@.len(),
        wa.effects@ == wb.effects@,
        forall|e: int|
            0 <= e < n ==> #[trigger] wa.effect_paused(e) == wb.effect_paused(e) && wa.target_of(e)
                == wb.target_of(e),
    ensures
        wa.effects_damage(n, delta) == wb.effects_damage(n, delta),
    decreases n,
{
    if n > 0 {
        lemma_effects_damage_frame(wa, wb, n - 1, delta);
        assert(wa.effect_paused(n - 1) == wb.effect_paused(n - 1));
        assert(wa.effect_damage(n - 1, delta) =~= wb.effect_damage(n - 1, delta));
    }
}

proof fn lemma_effects_after_frame(wa: World, wb: World, n: int, delta: int)
    requires
        0 <= n <= wa.effects@.len(),
        wa.effects@ == wb.effects@,
        forall|e: int| 0 <= e < n ==> #[trigger] wa.effect_paused(e) == wb.effect_paused(e),
    ensures
        wa.effects_after(n, delta) == wb.effects_after(n, delta),
    decreases n,
{
    if n > 0 {
        lemma_effects_after_frame(wa, wb, n - 1, delta);
        assert(wa.effect_paused(n - 1) == wb.effect_paused(n - 1));
    }
}

proof fn lemma_effects_damage_resolve(w: World, n: int, delta: int)
    requires
        w.wf(),
        0 <= n <= w.effects@.len(),
    ensures
        w.damage_resolves(w.effects_damage(n, delta)),
    decreases n,
{
    if n > 0 {
        lemma_effects_damage_resolve(w, n - 1, delta);
        assert(w.effect_wf(n - 1));
        assert(w.holder_wf(w.effects@[n - 1].holder as int));
        let prev = w.effects_damage(n - 1, delta);
        let cur = w.effects_damage(n, delta);
        assert forall|k: int| 0 <= k < cur.len() implies (#[trigger] cur[k]).target < w.actors@.len() by {
            if k < prev.len() {
                assert(cur[k] == prev[k]);
            } else {
                assert(cur[k] == w.effect_damage(n - 1, delta)[k - prev.len()]);
            }
        }
    }
}

proof fn lemma_events_damage_frame(wa: World, wb: World, events: Seq<CastEvent>, n: int)
    requires
        0 <= n <= events.len(),
        wa.events_resolve(events),
        wa.abilities@.len() == wb.abilities@.len(),
        forall|b: int|
            0 <= b < wa.abilities@.len() ==> (#[trigger] wa.abilities@[b]).id == wb.abilities@[b].id
                && wa.abilities@[b].holder == wb.abilities@[b].holder,
    ensures
        wa.events_damage(events, n) == wb.events_damage(events, n),
    decreases n,
{
    if n > 0 {
        lemma_events_damage_frame(wa, wb, events, n - 1);
        let _ = events[n - 1];
        match events[n - 1] {
            CastEvent::FinishedSuccessfully { ability_entity, .. } => {
                let _ = wa.abilities@[ability_entity as int];
            },
            CastEvent::Aborted { .. } => {},
        }
    }
}

proof fn lemma_events_damage_resolve(w: World, events: Seq<CastEvent>, n: int)
    requires
        0 <= n <= events.len(),
        w.events_resolve(events),
    ensures
        w.damage_resolves(w.events_damage(events, n)),
    decreases n,
{
    if n > 0 {
        lemma_events_damage_resolve(w, events, n - 1);
        let prev = w.events_damage(events, n - 1);
        let cur = w.events_damage(events, n);
        let _ = events[n - 1];
        assert forall|k: int| 0 <= k < cur.len() implies (#[trigger] cur[k]).target < w.actors@.len() by {
            if k < prev.len() {
                assert(cur[k] == prev[k]);
            }
        }
    }
}

proof fn lemma_health_after_hits_frame(wa: World, wb: World, damage: Seq<DamageInstance>, a: int, n: int)
    requires
        0 <= n <= damage.len(),
        wa.actors@[a].health == wb.actors@[a].health,
    ensures
        wa.health_after_hits(damage, a, n) == wb.health_after_hits(damage, a, n),
    decreases n,
{
    if n > 0 {
        lemma_health_after_hits_frame(wa, wb, damage, a, n - 1);
    }
}

proof fn lemma_deaths_frame(wa: World, wb: World, damage: Seq<DamageInstance>, n: int)
    requires
        0 <= n <= damage.len(),
        wa.damage_resolves(damage),
        wa.actors@.len() == wb.actors@.len(),
        forall|a: int| 0 <= a < wa.actors@.len() ==> (#[trigger] wa.actors@[a]).health == wb.actors@[a].health,
    ensures
        wa.deaths_from(damage, n) == wb.deaths_from(damage, n),
    decreases n,
{
    if n > 0 {
        lemma_deaths_frame(wa, wb, damage, n - 1);
        let t = damage[n - 1].target as int;
        let _ = wa.actors@[t];
        lemma_health_after_hits_frame(wa, wb, damage, t, n - 1);
    }
}

proof fn lemma_deaths_resolve(w: World, damage: Seq<DamageInstance>, n: int)
    requires
        0 <= n <= damage.len(),
        w.damage_resolves(damage),
    ensures
        w.deaths_resolve(w.deaths_from(damage, n)),
    decreases n,
{
    if n > 0 {
        lemma_deaths_resolve(w, damage, n - 1);
        let prev = w.deaths_from(damage, n - 1);
        let cur = w.deaths_from(damage, n);
        let _ = damage[n - 1];
        assert forall|k: int| 0 <= k < cur.len() implies match #[trigger] cur[k] {
            LivenessChangeEvent::EntityDied { which } => which < w.actors@.len(),
        } by {
            if k < prev.len() {
                assert(cur[k] == prev[k]);
                let _ = prev[k];
            }
        }
    }
}

impl World {
    /// One fixed step of `delta` nanoseconds: fight clocks advance, then cooldowns, effects
    /// and casts tick (each only while its fight is unpaused); finished casts are performed
    /// and their abilities' cooldowns put on; the hits are applied; and every undecided fight
    /// in which someone died gets its end check.
    pub fn step(&mut self, delta: u64) -> (report: StepReport)
        requires
            old(self).wf(),
        ensures
            final(self).wf(),
            report.cast_events@ == old(self).finish_events(old(self).slots@.len() as int, delta as int),
            report.damage@ == old(self).effects_damage(old(self).effects@.len() as int, delta as int)
                + old(self).events_damage(report.cast_events@, report.cast_events@.len() as int),
            report.deaths@ == old(self).deaths_from(report.damage@, report.damage@.len() as int),
            final(self).slots@.len() == old(self).slots@.len(),
            forall|s: int|
                0 <= s < old(self).slots@.len() ==> (#[trigger] final(self).slots@[s]).ongoing_cast == cast_after(
                    old(self).slots@[s].ongoing_cast,
                    old(self).slot_paused(s),
                    delta as int,
                ),
            forall|s: int|
                0 <= s < old(self).slots@.len() ==> (#[trigger] final(self).slots@[s]).cooldown == cooldown_after(
                    old(self).slots@[s].cooldown,
                    old(self).slot_paused(s),
                    delta as int,
                ),
            final(self).abilities@.len() == old(self).abilities@.len(),
            forall|b: int|
                0 <= b < old(self).abilities@.len() ==> (#[trigger] final(self).abilities@[b]).cooldown == if World::finished_among(
                    report.cast_events@,
                    report.cast_events@.len() as int,
                    b,
                ) && old(self).abilities@[b].cooldown_duration.is_some() {
                    Some(
                        Cooldown {
                            cooldown_timer: CountdownTimer {
                                duration: old(self).abilities@[b].cooldown_duration.unwrap(),
                                elapsed: 0,
                                finished: false,
                            },
                        },
                    )
                } else {
                    cooldown_after(old(self).abilities@[b].cooldown, old(self).ability_paused(b), delta as int)
                },
            forall|k: int|
                0 <= k < report.cast_events@.len() ==> (#[trigger] old(self).event_effect(report.cast_events@[k])).is_some()
                    ==> final(self).has_fresh_effect(
                    old(self).event_effect(report.cast_events@[k]).unwrap().0 as int,
                    old(self).event_effect(report.cast_events@[k]).unwrap().1,
                ),
            final(self).actors@.len() == old(self).actors@.len(),
            forall|a: int|
                0 <= a < old(self).actors@.len() ==> (#[trigger] final(self).actors@[a]).health
                    == old(self).health_after_hits(report.damage@, a, report.damage@.len() as int),
            final(self).fights@.len() == old(self).fights@.len(),
            forall|f: int|
                0 <= f < old(self).fights@.len() ==> (#[trigger] final(self).fights@[f]).time.elapsed
                    == old(self).fights@[f].time.ticked(delta as int).elapsed,
            forall|f: int|
                0 <= f < old(self).fights@.len() ==> (#[trigger] final(self).fights@[f]).time.paused == (
                old(self).fight_paused(f) || (!old(self).fight_ended(f) && final(self).fights@[f].result.is_some())),
            (forall|k: int|
                0 <= k < report.cast_events@.len() ==> (#[trigger] old(self).event_effect(report.cast_events@[k])) is None)
                ==> final(self).effects@ == old(self).effects_after(old(self).effects@.len() as int, delta as int),
            forall|f: int|
                0 <= f < old(self).fights@.len() ==> (#[trigger] final(self).fights@[f]).result == if old(self).fight_ended(f) {
                    old(self).fights@[f].result
                } else if final(self).death_in_fight(report.deaths@, report.deaths@.len() as int, f) {
                    match final(self).end_check_outcome(f) {
                        EndCheckOutcome::Victory { which } => Some(FightResult::FactionVictory { which }),
                        _ => None,
                    }
                } else {
                    None
                },
    {
        let ghost w0 = *self;
        self.tick_fight_times(delta);
        let ghost w1 = *self;
        self.tick_cooldowns(delta);
        let ghost w2 = *self;
        let mut damage = self.tick_effects(delta);
        let ghost w3 = *self;
        proof {
            assert forall|e: int| 0 <= e < w0.effects@.len() implies #[trigger] w0.effect_paused(e)
                == w2.effect_paused(e) && w0.target_of(e) == w2.target_of(e) by {
                assert(w0.effect_wf(e));
                assert(w0.holder_wf(w0.effects@[e].holder as int));
                assert(w0.actor_wf(w0.target_of(e)));
            }
            lemma_effects_damage_frame(w0, w2, w0.effects@.len() as int, delta as int);
            lemma_effects_after_frame(w0, w2, w0.effects@.len() as int, delta as int);
            lemma_effects_damage_resolve(w2, w2.effects@.len() as int, delta as int);
        }
        let cast_events = self.tick_ongoing_casts(delta);
        let ghost w4 = *self;
        proof {
            assert forall|s: int| 0 <= s < w0.slots@.len() implies (#[trigger] w0.slots@[s]).ongoing_cast
                == w3.slots@[s].ongoing_cast && w0.slot_paused(s) == w3.slot_paused(s) by {
                assert(w0.slot_wf(s));
                assert(w0.actor_wf(w0.slots@[s].holder as int));
                assert(w2.slots@[s] == (AbilitySlot {
                    cooldown: w2.slots@[s].cooldown,
                    ..w0.slots@[s]
                }));
            }
            lemma_finish_events_frame(w0, w3, w0.slots@.len() as int, delta as int);
            lemma_finish_events_resolve(w3, w3.slots@.len() as int, delta as int);
            assert(w4.events_resolve(cast_events@));
        }
        let mut performed = self.perform_finished_casts(&cast_events);
        proof {
            assert forall|b: int| 0 <= b < w4.abilities@.len() implies (#[trigger] w4.abilities@[b]).id
                == w0.abilities@[b].id && w4.abilities@[b].holder == w0.abilities@[b].holder by {
                assert(w1.abilities@[b] == w0.abilities@[b]);
            }
            lemma_events_damage_frame(w4, w0, cast_events@, cast_events@.len() as int);
            lemma_events_damage_resolve(w4, cast_events@, cast_events@.len() as int);
        }
        let ghost w5 = *self;
        let ghost effect_hits = damage@;
        damage.append(&mut performed);
        proof {
            assert forall|k: int| 0 <= k < damage@.len() implies (#[trigger] damage@[k]).target < w5.actors@.len() by {
                if k < effect_hits.len() {
                    assert(damage@[k] == effect_hits[k]);
                } else {
                    assert(damage@[k] == w4.events_damage(cast_events@, cast_events@.len() as int)[k - effect_hits.len()]);
                }
            }
        }
        let deaths = self.resolve_damage(&damage);
        proof {
            assert forall|a: int| 0 <= a < w5.actors@.len() implies (#[trigger] w5.actors@[a]).health
                == w0.actors@[a].health by {
            }
            lemma_deaths_frame(w5, w0, damage@, damage@.len() as int);
            lemma_deaths_resolve(w5, damage@, damage@.len() as int);
        }
        let ghost w6 = *self;
        let fights_without_survivors = self.single_faction_survives_check(&deaths);
        proof {
            assert forall|b: int| 0 <= b < w0.abilities@.len() implies (#[trigger] self.abilities@[b]).cooldown
                == if World::finished_among(cast_events@, cast_events@.len() as int, b)
                && w0.abilities@[b].cooldown_duration.is_some() {
                Some(
                    Cooldown {
                        cooldown_timer: CountdownTimer {
                            duration: w0.abilities@[b].cooldown_duration.unwrap(),
                            elapsed: 0,
                            finished: false,
                        },
                    },
                )
            } else {
                cooldown_after(w0.abilities@[b].cooldown, w0.ability_paused(b), delta as int)
            } by {
                assert(w0.ability_wf(b));
                assert(w0.actor_wf(w0.abilities@[b].holder as int));
                assert(w1.ability_paused(b) == w0.ability_paused(b));
                assert(self.abilities@[b] == w4.ability_after_finish(
                    b,
                    World::finished_among(cast_events@, cast_events@.len() as int, b),
                ));
                assert(w4.abilities@[b] == w2.abilities@[b]);
            }
            assert forall|k: int|
                0 <= k < cast_events@.len() && (#[trigger] w0.event_effect(cast_events@[k])).is_some()
                    implies self.has_fresh_effect(
                    w0.event_effect(cast_events@[k]).unwrap().0 as int,
                    w0.event_effect(cast_events@[k]).unwrap().1,
                ) by {
                let _ = cast_events@[k];
                match cast_events@[k] {
                    CastEvent::FinishedSuccessfully { ability_entity, .. } => {
                        assert(w4.abilities@[ability_entity as int].id == w0.abilities@[ability_entity as int].id);
                        assert(w4.ability_wf(ability_entity as int));
                    },
                    CastEvent::Aborted { .. } => {},
                }
                assert(w4.event_effect(cast_events@[k]) == w0.event_effect(cast_events@[k]));
                let p = w0.event_effect(cast_events@[k]).unwrap();
                assert(w5.has_fresh_effect(p.0 as int, p.1));
                let e = choose|e: int| w5.effect_of(p.0 as int, p.1, e) && w5.effects@[e].timer == fresh_effect_timer(p.1);
                assert(p.0 < w5.actors@.len());
                assert(w6.actors@[p.0 as int].effects_holder == w5.actors@[p.0 as int].effects_holder);
                assert(self.effect_of(p.0 as int, p.1, e));
            }
            assert forall|f: int| 0 <= f < w0.fights@.len() implies (#[trigger] self.fights@[f]).time.paused == (
                w0.fight_paused(f) || (!w0.fight_ended(f) && self.fights@[f].result.is_some())) by {
                assert(w6.fights@[f].time.paused == w0.fights@[f].time.paused);
                assert(w6.fights@[f].result == w0.fights@[f].result);
            }
            if forall|k: int| 0 <= k < cast_events@.len() ==> (#[trigger] w0.event_effect(cast_events@[k])) is None {
                assert forall|k: int| 0 <= k < cast_events@.len() implies (#[trigger] w4.event_effect(cast_events@[k])) is None by {
                    let _ = w0.event_effect(cast_events@[k]);
                    match cast_events@[k] {
                        CastEvent::FinishedSuccessfully { ability_entity, .. } => {
                            assert(w4.abilities@[ability_entity as int].id == w0.abilities@[ability_entity as int].id);
                            assert(w4.abilities@[ability_entity as int].holder == w0.abilities@[ability_entity as int].holder);
                        },
                        CastEvent::Aborted { .. } => {},
                    }
                }
                assert(w5.effects == w4.effects);
            }
            assert forall|a: int| 0 <= a < w0.actors@.len() implies (#[trigger] self.actors@[a]).health
                == w0.health_after_hits(damage@, a, damage@.len() as int) by {
                lemma_health_after_hits_frame(w5, w0, damage@, a, damage@.len() as int);
            }
            assert forall|f: int| 0 <= f < w0.fights@.len() implies (#[trigger] self.fights@[f]).result
                == if w0.fight_ended(f) {
                w0.fights@[f].result
            } else if self.death_in_fight(deaths@, deaths@.len() as int, f) {
                match self.end_check_outcome(f) {
                    EndCheckOutcome::Victory { which } => Some(FightResult::FactionVictory { which }),
                    _ => None,
                }
            } else {
                None
            } by {
                assert(w6.fights@[f].result == w0.fights@[f].result);
                assert(w6.fights@[f].time.paused == w0.fights@[f].time.paused);
                assert(w6.death_in_fight(deaths@, deaths@.len() as int, f) == self.death_in_fight(deaths@, deaths@.len() as int, f));
                assert(w6.end_check_outcome(f) == self.end_check_outcome(f));
            }
        }
        StepReport { cast_events, damage, deaths, fights_without_survivors }
    }
}

} // verus!
