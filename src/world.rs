use vstd::prelude::*;

use crate::ability::{definition_of, Ability, AbilityId, AbilitySlot, AbilitySlotType, OngoingCast};
use crate::effects::{Effect, EffectsHolder};
use crate::fight::{Faction, Fight, FightResult, FightStatus, FightTime};
use crate::health::Health;

verus! {

/// A combatant: the fight it takes part in, its faction, its hit points, and the record that
/// gathers its effects once it has any.
#[derive(Debug, Clone, Copy, PartialEq, Eq, Structural)]
pub struct Actor {
    pub fight: usize,
    pub faction: Faction,
    pub health: Health,
    pub effects_holder: Option<usize>,
}

/// Who carries a cooldown.
#[derive(Debug, Clone, Copy, PartialEq, Eq, Structural)]
pub enum CooldownOwner {
    Ability(usize),
    Slot(usize),
}

/// All combat state, as tables indexed by id: fights, actors, slots, abilities, effect holders
/// and live effects. Each record names the records it belongs to by their index.
#[derive(Debug)]
pub struct World {
    pub fights: Vec<Fight>,
    pub actors: Vec<Actor>,
    pub slots: Vec<AbilitySlot>,
    pub abilities: Vec<Ability>,
    pub effects_holders: Vec<EffectsHolder>,
    pub effects: Vec<Effect>,
}

impl World {
    pub open spec fn actor_wf(self, a: int) -> bool {
        let actor = self.actors@[a];
        &&& actor.fight < self.fights@.len()
        &&& actor.effects_holder matches Some(h) ==> h < self.effects_holders@.len()
            && self.effects_holders@[h as int].holding_entity == a
    }

    pub open spec fn cast_wf(self, cast: OngoingCast) -> bool {
        &&& cast.ability_e < self.abilities@.len()
        &&& cast.target matches Some(t) ==> t < self.actors@.len()
        &&& cast.cast_timer.wf()
    }

    pub open spec fn slot_wf(self, s: int) -> bool {
        let slot = self.slots@[s];
        &&& slot.holder < self.actors@.len()
        &&& slot.cooldown matches Some(c) ==> c.cooldown_timer.wf()
        &&& slot.ongoing_cast matches Some(c) ==> self.cast_wf(c)
    }

    pub open spec fn ability_wf(self, b: int) -> bool {
        let ability = self.abilities@[b];
        &&& ability.holder < self.actors@.len()
        &&& ability.cooldown matches Some(c) ==> c.cooldown_timer.wf()
    }

    pub open spec fn holder_wf(self, h: int) -> bool {
        let target = self.effects_holders@[h].holding_entity;
        &&& target < self.actors@.len()
        &&& self.actors@[target as int].effects_holder == Some(h as usize)
    }

    pub open spec fn effect_wf(self, e: int) -> bool {
        &&& self.effects@[e].holder < self.effects_holders@.len()
        &&& self.effects@[e].timer.wf()
    }

    /// No target holds two effects of one kind.
    pub open spec fn effects_unique(effects: Seq<Effect>) -> bool {
        forall|i: int, j: int|
            0 <= i < effects.len() && 0 <= j < effects.len() && i != j
                && #[trigger] effects[i].holder == #[trigger] effects[j].holder ==> effects[i].kind
                != effects[j].kind
    }

    pub open spec fn wf(self) -> bool {
        &&& forall|a: int| 0 <= a < self.actors@.len() ==> #[trigger] self.actor_wf(a)
        &&& forall|s: int| 0 <= s < self.slots@.len() ==> #[trigger] self.slot_wf(s)
        &&& forall|b: int| 0 <= b < self.abilities@.len() ==> #[trigger] self.ability_wf(b)
        &&& forall|h: int| 0 <= h < self.effects_holders@.len() ==> #[trigger] self.holder_wf(h)
        &&& forall|e: int| 0 <= e < self.effects@.len() ==> #[trigger] self.effect_wf(e)
        &&& Self::effects_unique(self.effects@)
    }

    /// The fight that actor `a` takes part in.
    pub open spec fn fight_of(self, a: int) -> int {
        self.actors@[a].fight as int
    }

    pub open spec fn fight_paused(self, f: int) -> bool {
        self.fights@[f].time.paused
    }

    pub open spec fn fight_ended(self, f: int) -> bool {
        self.fights@[f].result.is_some()
    }

    pub fn new() -> (r: World)
        ensures
            r.wf(),
            r.fights@.len() == 0,
            r.actors@.len() == 0,
            r.slots@.len() == 0,
            r.abilities@.len() == 0,
            r.effects_holders@.len() == 0,
            r.effects@.len() == 0,
    {
        World {
            fights: Vec::new(),
            actors: Vec::new(),
            slots: Vec::new(),
            abilities: Vec::new(),
            effects_holders: Vec::new(),
            effects: Vec::new(),
        }
    }

    /// Adds a fight, with its clock paused at zero; returns its id.
    pub fn spawn_fight(&mut self) -> (r: usize)
        requires
            old(self).wf(),
        ensures
            final(self).wf(),
            r == old(self).fights@.len(),
            final(self).fights@ == old(self).fights@.push(
                Fight { time: FightTime { paused: true, elapsed: 0 }, result: None },
            ),
            final(self).actors == old(self).actors,
            final(self).slots == old(self).slots,
            final(self).abilities == old(self).abilities,
            final(self).effects_holders == old(self).effects_holders,
            final(self).effects == old(self).effects,
    {
        let r = self.fights.len();
        self.fights.push(Fight::new());
        proof {
            lemma_wf_append(*old(self), *self);
        }
        r
    }

    /// Adds an actor to fight `fight`; returns its id.
    pub fn spawn_actor(&mut self, fight: usize, faction: Faction, health: Health) -> (r: usize)
        requires
            old(self).wf(),
            fight < old(self).fights@.len(),
        ensures
            final(self).wf(),
            r == old(self).actors@.len(),
            final(self).actors@ == old(self).actors@.push(
                Actor { fight, faction, health, effects_holder: None },
            ),
            final(self).fights == old(self).fights,
            final(self).slots == old(self).slots,
            final(self).abilities == old(self).abilities,
            final(self).effects_holders == old(self).effects_holders,
            final(self).effects == old(self).effects,
    {
        let r = self.actors.len();
        self.actors.push(Actor { fight, faction, health, effects_holder: None });
        proof {
            lemma_wf_append(*old(self), *self);
        }
        r
    }

    /// Adds a slot of type `tpe` to actor `holder`; returns its id.
    pub fn spawn_slot(&mut self, holder: usize, tpe: AbilitySlotType, on_use_cooldown: Option<u64>) -> (r: usize)
        requires
            old(self).wf(),
            holder < old(self).actors@.len(),
        ensures
            final(self).wf(),
            r == old(self).slots@.len(),
            final(self).slots@ == old(self).slots@.push(
                AbilitySlot { holder, tpe, on_use_cooldown, cooldown: None, ongoing_cast: None },
            ),
            final(self).fights == old(self).fights,
            final(self).actors == old(self).actors,
            final(self).abilities == old(self).abilities,
            final(self).effects_holders == old(self).effects_holders,
            final(self).effects == old(self).effects,
    {
        let r = self.slots.len();
        self.slots.push(AbilitySlot { holder, tpe, on_use_cooldown, cooldown: None, ongoing_cast: None });
        proof {
            lemma_wf_append(*old(self), *self);
        }
        r
    }

    /// Gives actor `holder` an ability with the given slot requirement, own cooldown and cast
    /// time; returns its id.
    pub fn spawn_ability_with(
        &mut self,
        holder: usize,
        id: AbilityId,
        slot_requirement: Option<AbilitySlotType>,
        cooldown_duration: Option<u64>,
        cast_time: Option<u64>,
    ) -> (r: usize)
        requires
            old(self).wf(),
            holder < old(self).actors@.len(),
        ensures
            final(self).wf(),
            r == old(self).abilities@.len(),
            final(self).abilities@ == old(self).abilities@.push(
                Ability { holder, id, slot_requirement, cooldown_duration, cast_time, cooldown: None },
            ),
            final(self).fights == old(self).fights,
            final(self).actors == old(self).actors,
            final(self).slots == old(self).slots,
            final(self).effects_holders == old(self).effects_holders,
            final(self).effects == old(self).effects,
    {
        let r = self.abilities.len();
        self.abilities.push(Ability { holder, id, slot_requirement, cooldown_duration, cast_time, cooldown: None });
        proof {
            lemma_wf_append(*old(self), *self);
        }
        r
    }

    /// Gives actor `holder` the catalog's ability `id`; returns its id.
    pub fn spawn_ability(&mut self, holder: usize, id: AbilityId) -> (r: usize)
        requires
            old(self).wf(),
            holder < old(self).actors@.len(),
        ensures
            final(self).wf(),
            r == old(self).abilities@.len(),
            final(self).abilities@ == old(self).abilities@.push(
                Ability {
                    holder,
                    id,
                    slot_requirement: definition_of(id).slot_requirement,
                    cooldown_duration: definition_of(id).cooldown,
                    cast_time: Some(definition_of(id).cast_time),
                    cooldown: None,
                },
            ),
            final(self).fights == old(self).fights,
            final(self).actors == old(self).actors,
            final(self).slots == old(self).slots,
            final(self).effects_holders == old(self).effects_holders,
            final(self).effects == old(self).effects,
    {
        let def = id.definition();
        self.spawn_ability_with(holder, id, def.slot_requirement, def.cooldown, Some(def.cast_time))
    }

    pub fn get_fight_result(&self, fight_e: usize) -> (r: Option<FightResult>)
        requires
            fight_e < self.fights@.len(),
        ensures
            r == self.fights@[fight_e as int].result,
    {
        self.fights[fight_e].result
    }

    pub fn get_fight_status(&self, fight_e: usize) -> (r: FightStatus)
        requires
            fight_e < self.fights@.len(),
        ensures
            r == (if self.fight_ended(fight_e as int) { FightStatus::Ended } else { FightStatus::Ongoing }),
    {
        self.fights[fight_e].status()
    }

    /// The fight that actor `entity` takes part in.
    pub fn get_fight_of_entity(&self, entity: usize) -> (r: usize)
        requires
            self.wf(),
            entity < self.actors@.len(),
        ensures
            r == self.fight_of(entity as int),
            r < self.fights@.len(),
    {
        proof {
            assert(self.actor_wf(entity as int));
        }
        self.actors[entity].fight
    }

    pub fn is_fight_paused(&self, fight_e: usize) -> (r: bool)
        requires
            fight_e < self.fights@.len(),
        ensures
            r == self.fight_paused(fight_e as int),
    {
        self.fights[fight_e].time.is_paused()
    }

    pub fn get_elapsed_fight_time(&self, fight_e: usize) -> (r: u64)
        requires
            fight_e < self.fights@.len(),
        ensures
            r == self.fights@[fight_e as int].time.elapsed,
    {
        self.fights[fight_e].time.elapsed()
    }

    /// Pauses fight `fight_e`, or unpauses it unless it has ended.
    pub fn set_fight_paused(&mut self, fight_e: usize, should_pause: bool)
        requires
            old(self).wf(),
            fight_e < old(self).fights@.len(),
        ensures
            final(self).wf(),
            final(self).fights@ == old(self).fights@.update(
                fight_e as int,
                Fight {
                    time: FightTime {
                        paused: if should_pause { true } else if old(self).fight_ended(fight_e as int) {
                            old(self).fight_paused(fight_e as int)
                        } else {
                            false
                        },
                        elapsed: old(self).fights@[fight_e as int].time.elapsed,
                    },
                    result: old(self).fights@[fight_e as int].result,
                },
            ),
            final(self).actors == old(self).actors,
            final(self).slots == old(self).slots,
            final(self).abilities == old(self).abilities,
            final(self).effects_holders == old(self).effects_holders,
            final(self).effects == old(self).effects,
    {
        let mut fight = self.fights[fight_e];
        if should_pause {
            fight.time.set_paused(true);
        } else if fight.result.is_none() {
            fight.time.set_paused(false);
        }
        self.fights.set(fight_e, fight);
        proof {
            lemma_wf_frame(*old(self), *self);
        }
    }

    /// Whether `owner` resolves to an ability or slot of this world.
    pub open spec fn owner_resolves(self, owner: CooldownOwner) -> bool {
        match owner {
            CooldownOwner::Ability(b) => b < self.abilities@.len(),
            CooldownOwner::Slot(s) => s < self.slots@.len(),
        }
    }

    /// The actor that holds the owner of a cooldown: an ability's holder, else a slot's.
    pub open spec fn character_of(self, owner: CooldownOwner) -> int {
        match owner {
            CooldownOwner::Ability(b) => self.abilities@[b as int].holder as int,
            CooldownOwner::Slot(s) => self.slots@[s as int].holder as int,
        }
    }

    pub fn find_character_of_cooldown(&self, owner: CooldownOwner) -> (r: usize)
        requires
            self.wf(),
            self.owner_resolves(owner),
        ensures
            r == self.character_of(owner),
            r < self.actors@.len(),
    {
        match owner {
            CooldownOwner::Ability(b) => {
                proof {
                    assert(self.ability_wf(b as int));
                }
                self.abilities[b].holder
            },
            CooldownOwner::Slot(s) => {
                proof {
                    assert(self.slot_wf(s as int));
                }
                self.slots[s].holder
            },
        }
    }

    pub fn get_ongoing_cast(&self, slot_e: usize) -> (r: Option<OngoingCast>)
        requires
            slot_e < self.slots@.len(),
        ensures
            r == self.slots@[slot_e as int].ongoing_cast,
    {
        self.slots[slot_e].ongoing_cast
    }
}

/// The table invariant survives adding records at the end of the fight, actor, slot and
/// ability tables, when the records added are well-formed and no actor added has an effect
/// holder yet.
pub proof fn lemma_wf_append(w0: World, w1: World)
    requires
        w0.wf(),
        w1.fights@.len() >= w0.fights@.len(),
        w1.actors@.len() >= w0.actors@.len(),
        w1.slots@.len() >= w0.slots@.len(),
        w1.abilities@.len() >= w0.abilities@.len(),
        w1.effects_holders@ == w0.effects_holders@,
        w1.effects@ == w0.effects@,
        forall|a: int| 0 <= a < w0.actors@.len() ==> #[trigger] w1.actors@[a] == w0.actors@[a],
        forall|s: int| 0 <= s < w0.slots@.len() ==> #[trigger] w1.slots@[s] == w0.slots@[s],
        forall|b: int| 0 <= b < w0.abilities@.len() ==> #[trigger] w1.abilities@[b] == w0.abilities@[b],
        forall|a: int|
            w0.actors@.len() <= a < w1.actors@.len() ==> #[trigger] w1.actors@[a].fight < w1.fights@.len()
                && w1.actors@[a].effects_holder is None,
        forall|s: int| w0.slots@.len() <= s < w1.slots@.len() ==> #[trigger] w1.slot_wf(s),
        forall|b: int| w0.abilities@.len() <= b < w1.abilities@.len() ==> #[trigger] w1.ability_wf(b),
    ensures
        w1.wf(),
{
    assert forall|a: int| 0 <= a < w1.actors@.len() implies #[trigger] w1.actor_wf(a) by {
        if a < w0.actors@.len() {
            assert(w0.actor_wf(a));
        }
    }
    assert forall|s: int| 0 <= s < w1.slots@.len() implies #[trigger] w1.slot_wf(s) by {
        if s < w0.slots@.len() {
            assert(w0.slot_wf(s));
        }
    }
    assert forall|b: int| 0 <= b < w1.abilities@.len() implies #[trigger] w1.ability_wf(b) by {
        if b < w0.abilities@.len() {
            assert(w0.ability_wf(b));
        }
    }
    assert forall|h: int| 0 <= h < w1.effects_holders@.len() implies #[trigger] w1.holder_wf(h) by {
        assert(w0.holder_wf(h));
    }
    assert forall|e: int| 0 <= e < w1.effects@.len() implies #[trigger] w1.effect_wf(e) by {
        assert(w0.effect_wf(e));
    }
}

/// The table invariant survives a change that keeps every table's length, every actor's fight
/// and effect holder, the holders and the effects, and leaves each slot and ability either as
/// it was or well-formed.
pub proof fn lemma_wf_frame(w0: World, w1: World)
    requires
        w0.wf(),
        w1.fights@.len() == w0.fights@.len(),
        w1.actors@.len() == w0.actors@.len(),
        w1.slots@.len() == w0.slots@.len(),
        w1.abilities@.len() == w0.abilities@.len(),
        w1.effects_holders@ == w0.effects_holders@,
        w1.effects@ == w0.effects@,
        forall|a: int|
            0 <= a < w1.actors@.len() ==> (#[trigger] w1.actors@[a]).fight == w0.actors@[a].fight
                && w1.actors@[a].effects_holder == w0.actors@[a].effects_holder,
        forall|s: int|
            0 <= s < w1.slots@.len() ==> #[trigger] w1.slots@[s] == w0.slots@[s] || w1.slot_wf(s),
        forall|b: int|
            0 <= b < w1.abilities@.len() ==> #[trigger] w1.abilities@[b] == w0.abilities@[b]
                || w1.ability_wf(b),
    ensures
        w1.wf(),
{
    assert forall|a: int| 0 <= a < w1.actors@.len() implies #[trigger] w1.actor_wf(a) by {
        assert(w0.actor_wf(a));
        assert(w1.actors@[a].fight == w0.actors@[a].fight);
    }
    assert forall|s: int| 0 <= s < w1.slots@.len() implies #[trigger] w1.slot_wf(s) by {
        assert(w0.slot_wf(s));
        if w1.slots@[s] == w0.slots@[s] {
        }
    }
    assert forall|b: int| 0 <= b < w1.abilities@.len() implies #[trigger] w1.ability_wf(b) by {
        assert(w0.ability_wf(b));
        if w1.abilities@[b] == w0.abilities@[b] {
        }
    }
    assert forall|h: int| 0 <= h < w1.effects_holders@.len() implies #[trigger] w1.holder_wf(h) by {
        assert(w0.holder_wf(h));
        let t = w0.effects_holders@[h].holding_entity as int;
        assert(w1.actors@[t].effects_holder == w0.actors@[t].effects_holder);
    }
    assert forall|e: int| 0 <= e < w1.effects@.len() implies #[trigger] w1.effect_wf(e) by {
        assert(w0.effect_wf(e));
    }
}

} // verus!
