use vstd::prelude::*;

use crate::ability::{Ability, AbilitySlot, CastEvent, Cooldown, OngoingCast};
use crate::fight::Fight;
use crate::timer::CountdownTimer;
use crate::world::{lemma_wf_frame, CooldownOwner, World};

verus! {

/// A cooldown after `delta` nanoseconds: frozen while its fight is paused; otherwise ticked,
/// and gone once its countdown is done (a cooldown found already done is dropped untouched).
pub open spec fn cooldown_after(c: Option<Cooldown>, paused: bool, delta: int) -> Option<Cooldown> {
    match c {
        None => None,
        Some(cd) => if paused {
            Some(cd)
        } else if cd.cooldown_timer.finished {
            None
        } else {
            let t = cd.cooldown_timer.ticked(delta);
            if t.finished {
                None
            } else {
                Some(Cooldown { cooldown_timer: t })
            }
        },
    }
}

/// A cast after `delta` nanoseconds: frozen while its fight is paused; otherwise ticked, and
/// gone once its countdown is done (a cast found already done is dropped untouched).
pub open spec fn cast_after(c: Option<OngoingCast>, paused: bool, delta: int) -> Option<OngoingCast> {
    match c {
        None => None,
        Some(cast) => if paused {
            Some(cast)
        } else if cast.cast_timer.finished {
            None
        } else {
            let t = cast.cast_timer.ticked(delta);
            if t.finished {
                None
            } else {
                Some(OngoingCast { ability_e: cast.ability_e, target: cast.target, cast_timer: t })
            }
        },
    }
}

/// The cast `c` reaches its duration during a tick of `delta` nanoseconds.
pub open spec fn cast_finishes(c: Option<OngoingCast>, paused: bool, delta: int) -> bool {
    match c {
        None => false,
        Some(cast) => !paused && !cast.cast_timer.finished && cast.cast_timer.elapsed + delta
            >= cast.cast_timer.duration,
    }
}

/// How many of `events` report that the cast on slot `s` finished.
pub open spec fn finish_count(events: Seq<CastEvent>, s: int) -> nat
    decreases events.len(),
{
    if events.len() == 0 {
        0
    } else {
        let last = events[events.len() - 1];
        finish_count(events.drop_last(), s) + match last {
            CastEvent::FinishedSuccessfully { slot_entity, .. } => if slot_entity == s {
                1nat
            } else {
                0nat
            },
            CastEvent::Aborted { .. } => 0nat,
        }
    }
}

/// While its fight is paused, a cast does not move: its countdown keeps its exact value.
/// Once unpaused, it resumes from that value: a tick of `delta` that does not finish it
/// adds exactly `delta` to what has elapsed.
pub proof fn lemma_paused_cast_frozen(c: OngoingCast, delta: int)
    requires
        c.cast_timer.wf(),
        !c.cast_timer.finished,
        0 <= delta,
    ensures
        cast_after(Some(c), true, delta) == Some(c),
        c.cast_timer.elapsed + delta < c.cast_timer.duration ==> cast_after(Some(c), false, delta) == Some(
            OngoingCast {
                cast_timer: CountdownTimer {
                    elapsed: (c.cast_timer.elapsed + delta) as u64,
                    ..c.cast_timer
                },
                ..c
            },
        ),
{
}

/// A cast after one paused step for each of `deltas`.
pub open spec fn cast_after_paused_steps(c: Option<OngoingCast>, deltas: Seq<int>) -> Option<OngoingCast>
    decreases deltas.len(),
{
    if deltas.len() == 0 {
        c
    } else {
        cast_after(cast_after_paused_steps(c, deltas.drop_last()), true, deltas.last())
    }
}

/// Any number of paused steps leave a cast exactly as it was; the first unpaused step after
/// them resumes from that value, counting only its own `delta`.
pub proof fn lemma_cast_frozen_over_paused_steps(c: OngoingCast, deltas: Seq<int>, delta: int)
    requires
        c.cast_timer.wf(),
        !c.cast_timer.finished,
        0 <= delta,
    ensures
        cast_after_paused_steps(Some(c), deltas) == Some(c),
        c.cast_timer.elapsed + delta < c.cast_timer.duration ==> cast_after(
            cast_after_paused_steps(Some(c), deltas),
            false,
            delta,
        ) == Some(
            OngoingCast {
                cast_timer: CountdownTimer {
                    elapsed: (c.cast_timer.elapsed + delta) as u64,
                    ..c.cast_timer
                },
                ..c
            },
        ),
    decreases deltas.len(),
{
    if deltas.len() > 0 {
        lemma_cast_frozen_over_paused_steps(c, deltas.drop_last(), delta);
    }
    lemma_paused_cast_frozen(c, delta);
}

impl World {
    /// In a tick of `delta`, the cast on slot `s` is signalled finished exactly once if it
    /// reaches its duration while its fight is unpaused, and not at all otherwise; when it
    /// finishes, it is gone from its slot in the same tick.
    pub proof fn lemma_finish_signalled_once(self, s: int, delta: int)
        requires
            0 <= s < self.slots@.len(),
            self.slots@.len() <= usize::MAX,
        ensures
            finish_count(self.finish_events(self.slots@.len() as int, delta), s) == if self.slot_cast_finishes(
                s,
                delta,
            ) {
                1nat
            } else {
                0nat
            },
            self.slot_cast_finishes(s, delta) ==> cast_after(
                self.slots@[s].ongoing_cast,
                self.slot_paused(s),
                delta,
            ) is None,
    {
        self.lemma_finish_count_prefix(s, self.slots@.len() as int, delta);
    }

    proof fn lemma_finish_count_prefix(self, s: int, n: int, delta: int)
        requires
            0 <= s,
            0 <= n <= self.slots@.len(),
            self.slots@.len() <= usize::MAX,
        ensures
            finish_count(self.finish_events(n, delta), s) == if s < n && self.slot_cast_finishes(s, delta) {
                1nat
            } else {
                0nat
            },
        decreases n,
    {
        if n > 0 {
            self.lemma_finish_count_prefix(s, n - 1, delta);
            let prev = self.finish_events(n - 1, delta);
            if self.slot_cast_finishes(n - 1, delta) {
                let cur = self.finish_events(n, delta);
                assert(cur.drop_last() =~= prev);
                assert(((n - 1) as usize) as int == n - 1);
                let c = self.slots@[n - 1].ongoing_cast.unwrap();
                assert(cur[cur.len() - 1] == CastEvent::FinishedSuccessfully {
                    slot_entity: (n - 1) as usize,
                    ability_entity: c.ability_e,
                    cast_target: c.target,
                });
            }
        }
    }

    /// The fight of the actor holding slot `s` is paused.
    pub open spec fn slot_paused(self, s: int) -> bool {
        self.fight_paused(self.fight_of(self.slots@[s].holder as int))
    }

    /// The fight of the actor holding ability `b` is paused.
    pub open spec fn ability_paused(self, b: int) -> bool {
        self.fight_paused(self.fight_of(self.abilities@[b].holder as int))
    }

    pub open spec fn slot_cast_finishes(self, s: int, delta: int) -> bool {
        cast_finishes(self.slots@[s].ongoing_cast, self.slot_paused(s), delta)
    }

    /// The completion signals of one tick of `delta` nanoseconds over the first `n` slots, in
    /// slot order.
    pub open spec fn finish_events(self, n: int, delta: int) -> Seq<CastEvent>
        decreases n,
    {
        if n <= 0 {
            seq![]
        } else {
            let prev = self.finish_events(n - 1, delta);
            if self.slot_cast_finishes(n - 1, delta) {
                let c = self.slots@[n - 1].ongoing_cast.unwrap();
                prev.push(
                    CastEvent::FinishedSuccessfully {
                        slot_entity: (n - 1) as usize,
                        ability_entity: c.ability_e,
                        cast_target: c.target,
                    },
                )
            } else {
                prev
            }
        }
    }

    /// Advances the clock of every unpaused fight by `delta` nanoseconds.
    pub fn tick_fight_times(&mut self, delta: u64)
        requires
            old(self).wf(),
        ensures
            final(self).wf(),
            final(self).fights@.len() == old(self).fights@.len(),
            forall|f: int|
                0 <= f < old(self).fights@.len() ==> #[trigger] final(self).fights@[f] == (Fight {
                    time: old(self).fights@[f].time.ticked(delta as int),
                    result: old(self).fights@[f].result,
                }),
            final(self).actors == old(self).actors,
            final(self).slots == old(self).slots,
            final(self).abilities == old(self).abilities,
            final(self).effects_holders == old(self).effects_holders,
            final(self).effects == old(self).effects,
    {
        let n = self.fights.len();
        let mut i: usize = 0;
        while i < n
            invariant
                0 <= i <= n,
                n == old(self).fights@.len(),
                self.fights@.len() == n,
                forall|f: int|
                    0 <= f < i ==> #[trigger] self.fights@[f] == (Fight {
                        time: old(self).fights@[f].time.ticked(delta as int),
                        result: old(self).fights@[f].result,
                    }),
                forall|f: int| i <= f < n ==> #[trigger] self.fights@[f] == old(self).fights@[f],
                self.actors == old(self).actors,
                self.slots == old(self).slots,
                self.abilities == old(self).abilities,
                self.effects_holders == old(self).effects_holders,
                self.effects == old(self).effects,
            decreases n - i,
        {
            let mut fight = self.fights[i];
            fight.time.tick(delta);
            self.fights.set(i, fight);
            i = i + 1;
        }
        proof {
            lemma_wf_frame(*old(self), *self);
        }
    }

    /// Advances every cooldown whose owner's fight is unpaused by `delta` nanoseconds, and
    /// removes each that is done. An ability's owner is found through the ability's holder,
    /// a slot's through the slot's holder.
    pub fn tick_cooldowns(&mut self, delta: u64)
        requires
            old(self).wf(),
        ensures
            final(self).wf(),
            final(self).abilities@.len() == old(self).abilities@.len(),
            final(self).slots@.len() == old(self).slots@.len(),
            forall|b: int|
                0 <= b < old(self).abilities@.len() ==> #[trigger] final(self).abilities@[b] == (Ability {
                    cooldown: cooldown_after(
                        old(self).abilities@[b].cooldown,
                        old(self).ability_paused(b),
                        delta as int,
                    ),
                    ..old(self).abilities@[b]
                }),
            forall|s: int|
                0 <= s < old(self).slots@.len() ==> #[trigger] final(self).slots@[s] == (AbilitySlot {
                    cooldown: cooldown_after(old(self).slots@[s].cooldown, old(self).slot_paused(s), delta as int),
                    ..old(self).slots@[s]
                }),
            forall|b: int|
                0 <= b < old(self).abilities@.len() && !old(self).ability_paused(b)
                    && (#[trigger] old(self).abilities@[b].cooldown).is_some()
                    && old(self).abilities@[b].cooldown.unwrap().cooldown_timer.elapsed + delta
                    >= old(self).abilities@[b].cooldown.unwrap().cooldown_timer.duration
                    ==> final(self).abilities@[b].cooldown is None,
            forall|s: int|
                0 <= s < old(self).slots@.len() && !old(self).slot_paused(s)
                    && (#[trigger] old(self).slots@[s].cooldown).is_some()
                    && old(self).slots@[s].cooldown.unwrap().cooldown_timer.elapsed + delta
                    >= old(self).slots@[s].cooldown.unwrap().cooldown_timer.duration
                    ==> final(self).slots@[s].cooldown is None,
            final(self).fights == old(self).fights,
            final(self).actors == old(self).actors,
            final(self).effects_holders == old(self).effects_holders,
            final(self).effects == old(self).effects,
    {
        let nb = self.abilities.len();
        let mut i: usize = 0;
        while i < nb
            invariant
                0 <= i <= nb,
                nb == old(self).abilities@.len(),
                self.abilities@.len() == nb,
                self.wf(),
                forall|b: int|
                    0 <= b < i ==> #[trigger] self.abilities@[b] == (Ability {
                        cooldown: cooldown_after(
                            old(self).abilities@[b].cooldown,
                            old(self).ability_paused(b),
                            delta as int,
                        ),
                        ..old(self).abilities@[b]
                    }),
                forall|b: int| i <= b < nb ==> #[trigger] self.abilities@[b] == old(self).abilities@[b],
                self.fights == old(self).fights,
                self.actors == old(self).actors,
                self.slots == old(self).slots,
                self.effects_holders == old(self).effects_holders,
                self.effects == old(self).effects,
            decreases nb - i,
        {
            let mut ability = self.abilities[i];
            match ability.cooldown {
                Some(cd) => {
                    let character = self.find_character_of_cooldown(CooldownOwner::Ability(i));
                    let fight_e = self.get_fight_of_entity(character);
                    if !self.is_fight_paused(fight_e) {
                        proof {
                            assert(self.ability_wf(i as int));
                        }
                        if cd.cooldown_timer.is_finished() {
                            ability.cooldown = None;
                        } else {
                            let mut timer = cd.cooldown_timer;
                            timer.tick(delta);
                            if timer.is_finished() {
                                ability.cooldown = None;
                            } else {
                                ability.cooldown = Some(Cooldown { cooldown_timer: timer });
                            }
                        }
                        let ghost mid = *self;
                        self.abilities.set(i, ability);
                        proof {
                            lemma_wf_frame(mid, *self);
                        }
                    }
                },
                None => {},
            }
            i = i + 1;
        }
        let ns = self.slots.len();
        let mut j: usize = 0;
        while j < ns
            invariant
                0 <= j <= ns,
                ns == old(self).slots@.len(),
                self.slots@.len() == ns,
                self.wf(),
                forall|b: int|
                    0 <= b < nb ==> #[trigger] self.abilities@[b] == (Ability {
                        cooldown: cooldown_after(
                            old(self).abilities@[b].cooldown,
                            old(self).ability_paused(b),
                            delta as int,
                        ),
                        ..old(self).abilities@[b]
                    }),
                self.abilities@.len() == nb,
                forall|s: int|
                    0 <= s < j ==> #[trigger] self.slots@[s] == (AbilitySlot {
                        cooldown: cooldown_after(old(self).slots@[s].cooldown, old(self).slot_paused(s), delta as int),
                        ..old(self).slots@[s]
                    }),
                forall|s: int| j <= s < ns ==> #[trigger] self.slots@[s] == old(self).slots@[s],
                self.fights == old(self).fights,
                self.actors == old(self).actors,
                self.effects_holders == old(self).effects_holders,
                self.effects == old(self).effects,
            decreases ns - j,
        {
            let mut slot = self.slots[j];
            match slot.cooldown {
                Some(cd) => {
                    let character = self.find_character_of_cooldown(CooldownOwner::Slot(j));
                    let fight_e = self.get_fight_of_entity(character);
                    if !self.is_fight_paused(fight_e) {
                        proof {
                            assert(self.slot_wf(j as int));
                        }
                        if cd.cooldown_timer.is_finished() {
                            slot.cooldown = None;
                        } else {
                            let mut timer = cd.cooldown_timer;
                            timer.tick(delta);
                            if timer.is_finished() {
                                slot.cooldown = None;
                            } else {
                                slot.cooldown = Some(Cooldown { cooldown_timer: timer });
                            }
                        }
                        let ghost mid = *self;
                        self.slots.set(j, slot);
                        proof {
                            lemma_wf_frame(mid, *self);
                        }
                    }
                },
                None => {},
            }
            j = j + 1;
        }
    }

    /// Advances every cast whose fight is unpaused by `delta` nanoseconds. Each cast that
    /// reaches its duration is removed and signalled as finished, once, in slot order.
    pub fn tick_ongoing_casts(&mut self, delta: u64) -> (events: Vec<CastEvent>)
        requires
            old(self).wf(),
        ensures
            final(self).wf(),
            events@ == old(self).finish_events(old(self).slots@.len() as int, delta as int),
            final(self).slots@.len() == old(self).slots@.len(),
            forall|s: int|
                0 <= s < old(self).slots@.len() ==> #[trigger] final(self).slots@[s] == (AbilitySlot {
                    ongoing_cast: cast_after(old(self).slots@[s].ongoing_cast, old(self).slot_paused(s), delta as int),
                    ..old(self).slots@[s]
                }),
            final(self).fights == old(self).fights,
            final(self).actors == old(self).actors,
            final(self).abilities == old(self).abilities,
            final(self).effects_holders == old(self).effects_holders,
            final(self).effects == old(self).effects,
    {
        let mut events: Vec<CastEvent> = Vec::new();
        let ns = self.slots.len();
        let mut j: usize = 0;
        while j < ns
            invariant
                0 <= j <= ns,
                ns == old(self).slots@.len(),
                self.slots@.len() == ns,
                self.wf(),
                events@ == old(self).finish_events(j as int, delta as int),
                forall|s: int|
                    0 <= s < j ==> #[trigger] self.slots@[s] == (AbilitySlot {
                        ongoing_cast: cast_after(old(self).slots@[s].ongoing_cast, old(self).slot_paused(s), delta as int),
                        ..old(self).slots@[s]
                    }),
                forall|s: int| j <= s < ns ==> #[trigger] self.slots@[s] == old(self).slots@[s],
                self.fights == old(self).fights,
                self.actors == old(self).actors,
                self.abilities == old(self).abilities,
                self.effects_holders == old(self).effects_holders,
                self.effects == old(self).effects,
            decreases ns - j,
        {
            let mut slot = self.slots[j];
            proof {
                assert(self.slot_wf(j as int));
            }
            match slot.ongoing_cast {
                Some(cast) => {
                    let fight_e = self.get_fight_of_entity(slot.holder);
                    if !self.is_fight_paused(fight_e) {
                        if cast.cast_timer.is_finished() {
                            slot.ongoing_cast = None;
                        } else {
                            let mut timer = cast.cast_timer;
                            let just_finished = timer.tick(delta);
                            if just_finished {
                                events.push(CastEvent::FinishedSuccessfully {
                                    slot_entity: j,
                                    ability_entity: cast.ability_e,
                                    cast_target: cast.target,
                                });
                                slot.ongoing_cast = None;
                            } else {
                                slot.ongoing_cast = Some(OngoingCast {
                                    ability_e: cast.ability_e,
                                    target: cast.target,
                                    cast_timer: timer,
                                });
                            }
                        }
                        let ghost mid = *self;
                        self.slots.set(j, slot);
                        proof {
                            lemma_wf_frame(mid, *self);
                        }
                    }
                },
                None => {},
            }
            j = j + 1;
        }
        events
    }
}

} // verus!
