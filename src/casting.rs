use vstd::prelude::*;

use crate::ability::{AbilityId, AbilitySlot, AbilitySlotType, CastEvent, Cooldown, OngoingCast};
use crate::commands::{GameCommand, GameCommandKind, GameCommandSource, InvalidCastReason, UseAbility};
use crate::timer::CountdownTimer;
use crate::world::{lemma_wf_frame, World};

verus! {

/// The signal owed when `cast` leaves slot `slot_e` before its countdown is done.
pub open spec fn abort_of(slot_e: usize, cast: Option<OngoingCast>) -> Option<CastEvent> {
    match cast {
        Some(c) => if c.cast_timer.finished {
            None
        } else {
            Some(
                CastEvent::Aborted {
                    slot_entity: slot_e,
                    ability_entity: c.ability_e,
                    cast_target: c.target,
                },
            )
        },
        None => None,
    }
}

/// `slot` with its cast replaced by `cast`.
pub open spec fn with_cast(slot: AbilitySlot, cast: Option<OngoingCast>) -> AbilitySlot {
    AbilitySlot {
        holder: slot.holder,
        tpe: slot.tpe,
        on_use_cooldown: slot.on_use_cooldown,
        cooldown: slot.cooldown,
        ongoing_cast: cast,
    }
}

/// `slot` once a cast of `cast` has started on it: its own on-use cooldown, if it has one,
/// starts afresh, and `cast` is its only cast.
pub open spec fn slot_after_use(slot: AbilitySlot, cast: OngoingCast) -> AbilitySlot {
    AbilitySlot {
        holder: slot.holder,
        tpe: slot.tpe,
        on_use_cooldown: slot.on_use_cooldown,
        cooldown: match slot.on_use_cooldown {
            Some(d) => Some(
                Cooldown { cooldown_timer: CountdownTimer { duration: d, elapsed: 0, finished: false } },
            ),
            None => slot.cooldown,
        },
        ongoing_cast: Some(cast),
    }
}

impl World {
    /// Every request into a fight that has ended is turned down as such, whatever else it
    /// names.
    pub proof fn lemma_ended_fight_rejects(self, req: UseAbility)
        requires
            self.fight_ended(req.fight_e as int),
        ensures
            self.cast_rejection(req) == Some(InvalidCastReason::FightEnded),
    {
    }

    /// A request whose ability or slot carries a cooldown is turned down.
    pub proof fn lemma_cooldown_rejects(self, req: UseAbility)
        requires
            self.request_on_cooldown(req),
        ensures
            self.cast_rejection(req) is Some,
    {
    }

    /// Whether the ids of `req` other than its slot name records of this world.
    pub open spec fn request_resolves(self, req: UseAbility) -> bool {
        &&& req.caster_e < self.actors@.len()
        &&& req.ability_e < self.abilities@.len()
        &&& req.fight_e < self.fights@.len()
        &&& req.target matches Some(t) ==> t < self.actors@.len()
    }

    pub open spec fn slot_resolves(self, slot_e: usize) -> bool {
        slot_e < self.slots@.len()
    }

    /// The ability of `req`, or its slot, carries a cooldown.
    pub open spec fn request_on_cooldown(self, req: UseAbility) -> bool {
        ||| self.abilities@[req.ability_e as int].cooldown.is_some()
        ||| (self.slot_resolves(req.slot_e) && self.slots@[req.slot_e as int].cooldown.is_some())
    }

    /// The slot of `req` does not resolve, or is not of the type its ability requires.
    pub open spec fn request_slot_mismatch(self, req: UseAbility) -> bool {
        !self.abilities@[req.ability_e as int].can_use_spec(
            if self.slot_resolves(req.slot_e) {
                Some(self.slots@[req.slot_e as int])
            } else {
                None
            },
        )
    }

    /// The reason `req` is turned down, if any; the checks are taken in this order and the
    /// first that fails is reported.
    pub open spec fn cast_rejection(self, req: UseAbility) -> Option<InvalidCastReason> {
        if self.fight_ended(req.fight_e as int) {
            Some(InvalidCastReason::FightEnded)
        } else if self.request_on_cooldown(req) {
            Some(InvalidCastReason::AbilityOrSlotOnCooldown)
        } else if self.request_slot_mismatch(req) {
            Some(InvalidCastReason::SlotRequirementMismatch)
        } else {
            None
        }
    }

    /// Whether the fight of `cast` has already ended.
    pub fn check_fight_ended(&self, cast: &UseAbility) -> (r: bool)
        requires
            self.request_resolves(*cast),
        ensures
            r == self.fight_ended(cast.fight_e as int),
    {
        self.fights[cast.fight_e].result.is_some()
    }

    /// Whether the ability of `cast` carries a cooldown.
    pub fn check_ability_cooldowns(&self, cast: &UseAbility) -> (r: bool)
        requires
            self.request_resolves(*cast),
        ensures
            r == self.abilities@[cast.ability_e as int].cooldown.is_some(),
    {
        self.abilities[cast.ability_e].cooldown.is_some()
    }

    /// Whether the slot of `cast` resolves and carries a cooldown.
    pub fn check_slot_cooldowns(&self, cast: &UseAbility) -> (r: bool)
        ensures
            r == (self.slot_resolves(cast.slot_e) && self.slots@[cast.slot_e as int].cooldown.is_some()),
    {
        cast.slot_e < self.slots.len() && self.slots[cast.slot_e].cooldown.is_some()
    }

    /// Whether the slot of `cast` fails to resolve or to meet its ability's slot requirement.
    pub fn check_slot_requirements(&self, cast: &UseAbility) -> (r: bool)
        requires
            self.request_resolves(*cast),
        ensures
            r == self.request_slot_mismatch(*cast),
    {
        let ability = &self.abilities[cast.ability_e];
        if cast.slot_e < self.slots.len() {
            !ability.can_use(Some(&self.slots[cast.slot_e]))
        } else {
            !ability.can_use(None)
        }
    }

    /// Runs every check on `cast` and reports the first that fails.
    pub fn is_valid_cast(&self, cast: &UseAbility) -> (r: Result<(), InvalidCastReason>)
        requires
            self.request_resolves(*cast),
        ensures
            r == match self.cast_rejection(*cast) {
                Some(reason) => Err(reason),
                None => Ok(()),
            },
            self.fight_ended(cast.fight_e as int) ==> r == Err::<(), InvalidCastReason>(InvalidCastReason::FightEnded),
            self.request_on_cooldown(*cast) ==> r is Err,
    {
        let fight_ended = self.check_fight_ended(cast);
        let on_cooldown = self.check_ability_cooldowns(cast) || self.check_slot_cooldowns(cast);
        let mismatch = self.check_slot_requirements(cast);
        if fight_ended {
            Err(InvalidCastReason::FightEnded)
        } else if on_cooldown {
            Err(InvalidCastReason::AbilityOrSlotOnCooldown)
        } else if mismatch {
            Err(InvalidCastReason::SlotRequirementMismatch)
        } else {
            Ok(())
        }
    }

    /// Whether `cast` asks for an ability of kind `id`.
    pub fn is_matching_cast(&self, cast: &UseAbility, id: &AbilityId) -> (r: bool)
        requires
            self.request_resolves(*cast),
        ensures
            r == (self.abilities@[cast.ability_e as int].id == *id),
    {
        self.abilities[cast.ability_e].id == *id
    }

    /// Whether slot `slot_e` exists and is of type `ability_slot_type`.
    pub fn can_cast_on_slot(&self, slot_e: usize, ability_slot_type: AbilitySlotType) -> (r: bool)
        ensures
            r == (self.slot_resolves(slot_e) && self.slots@[slot_e as int].tpe == ability_slot_type),
    {
        if slot_e < self.slots.len() {
            self.slots[slot_e].tpe == ability_slot_type
        } else {
            false
        }
    }

    /// Removes the cast on slot `slot_e`, if any. A cast whose countdown is not done yet is
    /// aborted: the returned signal carries its ability and target.
    pub fn cancel_ongoing_cast(&mut self, slot_e: usize) -> (r: Option<CastEvent>)
        requires
            old(self).wf(),
            slot_e < old(self).slots@.len(),
        ensures
            final(self).wf(),
            r == abort_of(slot_e, old(self).slots@[slot_e as int].ongoing_cast),
            final(self).slots@ == old(self).slots@.update(
                slot_e as int,
                with_cast(old(self).slots@[slot_e as int], None),
            ),
            final(self).fights == old(self).fights,
            final(self).actors == old(self).actors,
            final(self).abilities == old(self).abilities,
            final(self).effects_holders == old(self).effects_holders,
            final(self).effects == old(self).effects,
    {
        let mut slot = self.slots[slot_e];
        let r = match slot.ongoing_cast {
            Some(c) => if c.cast_timer.is_finished() {
                None
            } else {
                Some(CastEvent::Aborted { slot_entity: slot_e, ability_entity: c.ability_e, cast_target: c.target })
            },
            None => None,
        };
        slot.ongoing_cast = None;
        self.slots.set(slot_e, slot);
        proof {
            assert(old(self).slot_wf(slot_e as int));
            assert(self.slot_wf(slot_e as int));
            lemma_wf_frame(*old(self), *self);
        }
        r
    }

    /// Puts `cast` on slot `slot_e`, aborting whatever cast was there first.
    pub fn start_new_cast(&mut self, slot_e: usize, cast: OngoingCast) -> (r: Option<CastEvent>)
        requires
            old(self).wf(),
            slot_e < old(self).slots@.len(),
            old(self).cast_wf(cast),
        ensures
            final(self).wf(),
            r == abort_of(slot_e, old(self).slots@[slot_e as int].ongoing_cast),
            final(self).slots@ == old(self).slots@.update(
                slot_e as int,
                with_cast(old(self).slots@[slot_e as int], Some(cast)),
            ),
            final(self).fights == old(self).fights,
            final(self).actors == old(self).actors,
            final(self).abilities == old(self).abilities,
            final(self).effects_holders == old(self).effects_holders,
            final(self).effects == old(self).effects,
    {
        let r = self.cancel_ongoing_cast(slot_e);
        let mut slot = self.slots[slot_e];
        slot.ongoing_cast = Some(cast);
        let ghost mid = *self;
        self.slots.set(slot_e, slot);
        proof {
            assert(mid.slot_wf(slot_e as int));
            assert(self.slot_wf(slot_e as int));
            lemma_wf_frame(mid, *self);
            assert(self.slots@ =~= old(self).slots@.update(
                slot_e as int,
                with_cast(old(self).slots@[slot_e as int], Some(cast)),
            ));
        }
        r
    }

    /// Uses slot `slot_e` for an instant ability: aborts any cast on it.
    pub fn use_slot(&mut self, slot_e: usize) -> (r: Option<CastEvent>)
        requires
            old(self).wf(),
            slot_e < old(self).slots@.len(),
        ensures
            final(self).wf(),
            r == abort_of(slot_e, old(self).slots@[slot_e as int].ongoing_cast),
            final(self).slots@ == old(self).slots@.update(
                slot_e as int,
                with_cast(old(self).slots@[slot_e as int], None),
            ),
            final(self).fights == old(self).fights,
            final(self).actors == old(self).actors,
            final(self).abilities == old(self).abilities,
            final(self).effects_holders == old(self).effects_holders,
            final(self).effects == old(self).effects,
    {
        self.cancel_ongoing_cast(slot_e)
    }

    /// Starts `cast` on slot `slot_e`, aborting any cast already there.
    pub fn start_cast(&mut self, slot_e: usize, cast: OngoingCast) -> (r: Option<CastEvent>)
        requires
            old(self).wf(),
            slot_e < old(self).slots@.len(),
            old(self).cast_wf(cast),
        ensures
            final(self).wf(),
            r == abort_of(slot_e, old(self).slots@[slot_e as int].ongoing_cast),
            final(self).slots@ == old(self).slots@.update(
                slot_e as int,
                with_cast(old(self).slots@[slot_e as int], Some(cast)),
            ),
            final(self).fights == old(self).fights,
            final(self).actors == old(self).actors,
            final(self).abilities == old(self).abilities,
            final(self).effects_holders == old(self).effects_holders,
            final(self).effects == old(self).effects,
    {
        self.start_new_cast(slot_e, cast)
    }

    /// The cast that an accepted `req` starts: its countdown runs for the ability's cast time,
    /// zero for an instant ability.
    pub open spec fn new_cast_of(self, req: UseAbility) -> OngoingCast {
        OngoingCast {
            ability_e: req.ability_e,
            target: req.target,
            cast_timer: CountdownTimer {
                duration: match self.abilities@[req.ability_e as int].cast_time {
                    Some(t) => t,
                    None => 0,
                },
                elapsed: 0,
                finished: false,
            },
        }
    }

    /// Carries out an accepted request: aborts the slot's cast, puts the slot's own on-use
    /// cooldown on it, and starts the new cast. Returns the abort signal, if one was owed.
    pub fn process_cast(&mut self, req: &UseAbility) -> (r: Option<CastEvent>)
        requires
            old(self).wf(),
            old(self).request_resolves(*req),
            old(self).slot_resolves(req.slot_e),
        ensures
            final(self).wf(),
            r == abort_of(req.slot_e, old(self).slots@[req.slot_e as int].ongoing_cast),
            final(self).slots@ == old(self).slots@.update(
                req.slot_e as int,
                slot_after_use(old(self).slots@[req.slot_e as int], old(self).new_cast_of(*req)),
            ),
            final(self).fights == old(self).fights,
            final(self).actors == old(self).actors,
            final(self).abilities == old(self).abilities,
            final(self).effects_holders == old(self).effects_holders,
            final(self).effects == old(self).effects,
    {
        let slot_e = req.slot_e;
        let aborted = self.use_slot(slot_e);
        let mut slot = self.slots[slot_e];
        match slot.on_use_cooldown {
            Some(d) => {
                slot.cooldown = Some(Cooldown::new(d));
            },
            None => {},
        }
        let duration = match self.abilities[req.ability_e].cast_time {
            Some(t) => t,
            None => 0,
        };
        let cast = OngoingCast {
            ability_e: req.ability_e,
            target: req.target,
            cast_timer: CountdownTimer::new(duration),
        };
        slot.ongoing_cast = Some(cast);
        let ghost mid = *self;
        self.slots.set(slot_e, slot);
        proof {
            assert(mid.slot_wf(slot_e as int));
            assert(self.slot_wf(slot_e as int));
            lemma_wf_frame(mid, *self);
            assert(self.slots@ =~= old(self).slots@.update(
                req.slot_e as int,
                slot_after_use(old(self).slots@[req.slot_e as int], old(self).new_cast_of(*req)),
            ));
        }
        aborted
    }

    /// Takes a command in: a command from the user unpauses its fight (unless the fight has
    /// ended); then the request is checked, and carried out only if no check fails. A
    /// rejected request changes nothing else.
    pub fn submit_command(&mut self, command: &GameCommand) -> (r: Result<Option<CastEvent>, InvalidCastReason>)
        requires
            old(self).wf(),
            match command.kind {
                GameCommandKind::UseAbility(req) => old(self).request_resolves(req),
            },
        ensures
            final(self).wf(),
            match command.kind {
                GameCommandKind::UseAbility(req) => {
                    let f = req.fight_e as int;
                    &&& final(self).fights@.len() == old(self).fights@.len()
                    &&& forall|g: int| 0 <= g < old(self).fights@.len() && g != f
                        ==> final(self).fights@[g] == old(self).fights@[g]
                    &&& final(self).fights@[f].result == old(self).fights@[f].result
                    &&& final(self).fights@[f].time.elapsed == old(self).fights@[f].time.elapsed
                    &&& final(self).fights@[f].time.paused == if command.source
                        == GameCommandSource::UserInteraction && !old(self).fight_ended(f) {
                        false
                    } else {
                        old(self).fight_paused(f)
                    }
                    &&& final(self).actors == old(self).actors
                    &&& final(self).abilities == old(self).abilities
                    &&& final(self).effects_holders == old(self).effects_holders
                    &&& final(self).effects == old(self).effects
                    &&& old(self).fight_ended(f) ==> r == Err::<Option<CastEvent>, InvalidCastReason>(
                        InvalidCastReason::FightEnded,
                    ) && final(self).slots == old(self).slots
                    &&& old(self).request_on_cooldown(req) ==> r is Err && final(self).slots == old(self).slots
                    &&& match old(self).cast_rejection(req) {
                        Some(reason) => {
                            &&& r == Err::<Option<CastEvent>, InvalidCastReason>(reason)
                            &&& final(self).slots == old(self).slots
                        },
                        None => {
                            &&& r == Ok::<Option<CastEvent>, InvalidCastReason>(
                                abort_of(req.slot_e, old(self).slots@[req.slot_e as int].ongoing_cast),
                            )
                            &&& final(self).slots@ == old(self).slots@.update(
                                req.slot_e as int,
                                slot_after_use(
                                    old(self).slots@[req.slot_e as int],
                                    old(self).new_cast_of(req),
                                ),
                            )
                        },
                    }
                },
            },
    {
        match command.kind {
            GameCommandKind::UseAbility(req) => {
                match command.source {
                    GameCommandSource::UserInteraction => self.set_fight_paused(req.fight_e, false),
                    GameCommandSource::AIAction => {},
                }
                match self.is_valid_cast(&req) {
                    Err(reason) => Err(reason),
                    Ok(()) => Ok(self.process_cast(&req)),
                }
            },
        }
    }
}

} // verus!
