use vstd::prelude::*;

use crate::ability::{AbilityId, AbilitySlotType};
use crate::commands::{GameCommand, GameCommandKind, GameCommandSource, UseAbility};
use crate::world::World;

verus! {

impl World {
    /// Ability `b` is a weapon attack held by `actor`.
    pub open spec fn is_attack_ability(self, actor: int, b: int) -> bool {
        &&& 0 <= b < self.abilities@.len()
        &&& self.abilities@[b].holder == actor
        &&& self.abilities@[b].id == AbilityId::WeaponAttack
    }

    pub open spec fn is_first_attack_ability(self, actor: int, b: int) -> bool {
        self.is_attack_ability(actor, b) && forall|c: int| 0 <= c < b ==> !#[trigger] self.is_attack_ability(actor, c)
    }

    /// Slot `s` is a weapon slot held by `actor`.
    pub open spec fn is_weapon_slot(self, actor: int, s: int) -> bool {
        &&& 0 <= s < self.slots@.len()
        &&& self.slots@[s].holder == actor
        &&& self.slots@[s].tpe == AbilitySlotType::WeaponAttack
    }

    pub open spec fn is_first_weapon_slot(self, actor: int, s: int) -> bool {
        self.is_weapon_slot(actor, s) && forall|c: int| 0 <= c < s ==> !#[trigger] self.is_weapon_slot(actor, c)
    }

    /// Actor `t` takes part in the fight of `actor`, on another side.
    pub open spec fn is_hostile_member(self, actor: int, t: int) -> bool {
        &&& 0 <= t < self.actors@.len()
        &&& self.actors@[t].fight == self.actors@[actor].fight
        &&& self.actors@[t].faction != self.actors@[actor].faction
    }

    pub open spec fn is_first_hostile_member(self, actor: int, t: int) -> bool {
        self.is_hostile_member(actor, t) && forall|c: int| 0 <= c < t ==> !#[trigger] self.is_hostile_member(actor, c)
    }

    /// `req` is the weapon attack that `actor` would try: its first weapon attack, from its
    /// first weapon slot, on the first member of its fight from another side.
    pub open spec fn is_attack_plan(self, actor: int, req: UseAbility) -> bool {
        &&& req.caster_e == actor
        &&& req.fight_e == self.fight_of(actor)
        &&& self.is_first_attack_ability(actor, req.ability_e as int)
        &&& self.is_first_weapon_slot(actor, req.slot_e as int)
        &&& req.target matches Some(t) && self.is_first_hostile_member(actor, t as int)
    }

    fn find_attack_ability(&self, actor: usize) -> (r: Option<usize>)
        ensures
            match r {
                Some(b) => self.is_first_attack_ability(actor as int, b as int),
                None => forall|b: int| !#[trigger] self.is_attack_ability(actor as int, b),
            },
    {
        let mut i: usize = 0;
        while i < self.abilities.len()
            invariant
                0 <= i <= self.abilities@.len(),
                forall|c: int| 0 <= c < i ==> !#[trigger] self.is_attack_ability(actor as int, c),
            decreases self.abilities@.len() - i,
        {
            let ability = &self.abilities[i];
            if ability.holder == actor && ability.id == AbilityId::WeaponAttack {
                return Some(i);
            }
            i = i + 1;
        }
        None
    }

    fn find_weapon_slot(&self, actor: usize) -> (r: Option<usize>)
        ensures
            match r {
                Some(s) => self.is_first_weapon_slot(actor as int, s as int),
                None => forall|s: int| !#[trigger] self.is_weapon_slot(actor as int, s),
            },
    {
        let mut i: usize = 0;
        while i < self.slots.len()
            invariant
                0 <= i <= self.slots@.len(),
                forall|c: int| 0 <= c < i ==> !#[trigger] self.is_weapon_slot(actor as int, c),
            decreases self.slots@.len() - i,
        {
            let slot = &self.slots[i];
            if slot.holder == actor && slot.tpe == AbilitySlotType::WeaponAttack {
                return Some(i);
            }
            i = i + 1;
        }
        None
    }

    fn find_hostile_member(&self, actor: usize) -> (r: Option<usize>)
        requires
            actor < self.actors@.len(),
        ensures
            match r {
                Some(t) => self.is_first_hostile_member(actor as int, t as int),
                None => forall|t: int| !#[trigger] self.is_hostile_member(actor as int, t),
            },
    {
        let own = self.actors[actor];
        let mut i: usize = 0;
        while i < self.actors.len()
            invariant
                0 <= i <= self.actors@.len(),
                own == self.actors@[actor as int],
                forall|c: int| 0 <= c < i ==> !#[trigger] self.is_hostile_member(actor as int, c),
            decreases self.actors@.len() - i,
        {
            let other = &self.actors[i];
            if other.fight == own.fight && other.faction.is_enemy(&own.faction) {
                return Some(i);
            }
            i = i + 1;
        }
        None
    }

    /// The weapon attack that `actor` can make now, if any: none while its fight is paused,
    /// none if it lacks a weapon attack, a weapon slot or an opponent, and none if the
    /// request would be turned down.
    pub fn plan_attack(&self, actor: usize) -> (r: Option<UseAbility>)
        requires
            self.wf(),
            actor < self.actors@.len(),
        ensures
            match r {
                Some(req) => {
                    &&& !self.fight_paused(self.fight_of(actor as int))
                    &&& self.is_attack_plan(actor as int, req)
                    &&& self.request_resolves(req)
                    &&& self.cast_rejection(req) is None
                },
                None => self.fight_paused(self.fight_of(actor as int)) || forall|req: UseAbility|
                    #[trigger] self.is_attack_plan(actor as int, req) ==> self.cast_rejection(req) is Some,
            },
    {
        let fight_e = self.get_fight_of_entity(actor);
        if self.is_fight_paused(fight_e) {
            return None;
        }
        let ability_e = match self.find_attack_ability(actor) {
            Some(b) => b,
            None => {
                return None;
            },
        };
        let slot_e = match self.find_weapon_slot(actor) {
            Some(s) => s,
            None => {
                return None;
            },
        };
        let target_e = match self.find_hostile_member(actor) {
            Some(t) => t,
            None => {
                return None;
            },
        };
        let req = UseAbility { caster_e: actor, slot_e, ability_e, target: Some(target_e), fight_e };
        proof {
            assert forall|other: UseAbility| #[trigger] self.is_attack_plan(actor as int, other) implies other == req by {
                let t = other.target.unwrap() as int;
                if other.ability_e != ability_e {
                    if (other.ability_e as int) < (ability_e as int) {
                        assert(!self.is_attack_ability(actor as int, other.ability_e as int));
                    } else {
                        assert(!self.is_attack_ability(actor as int, ability_e as int));
                    }
                }
                if other.slot_e != slot_e {
                    if (other.slot_e as int) < (slot_e as int) {
                        assert(!self.is_weapon_slot(actor as int, other.slot_e as int));
                    } else {
                        assert(!self.is_weapon_slot(actor as int, slot_e as int));
                    }
                }
                if t != target_e as int {
                    if t < target_e as int {
                        assert(!self.is_hostile_member(actor as int, t));
                    } else {
                        assert(!self.is_hostile_member(actor as int, target_e as int));
                    }
                }
            }
        }
        match self.is_valid_cast(&req) {
            Ok(()) => Some(req),
            Err(_) => None,
        }
    }

    /// Whether `actor` can make a weapon attack now.
    pub fn can_attack_player(&self, actor: usize) -> (r: bool)
        requires
            self.wf(),
            actor < self.actors@.len(),
        ensures
            r == exists|req: UseAbility| {
                &&& !self.fight_paused(self.fight_of(actor as int))
                &&& #[trigger] self.is_attack_plan(actor as int, req)
                &&& self.cast_rejection(req) is None
            },
    {
        match self.plan_attack(actor) {
            Some(req) => {
                assert(self.is_attack_plan(actor as int, req));
                true
            },
            None => false,
        }
    }

    /// The command with which `actor`, driven by the computer, makes its weapon attack, if it
    /// can make one now.
    pub fn attack_player_action(&self, actor: usize) -> (r: Option<GameCommand>)
        requires
            self.wf(),
            actor < self.actors@.len(),
        ensures
            match r {
                Some(cmd) => {
                    &&& cmd.source == GameCommandSource::AIAction
                    &&& cmd.kind matches GameCommandKind::UseAbility(req) && {
                        &&& !self.fight_paused(self.fight_of(actor as int))
                        &&& self.is_attack_plan(actor as int, req)
                        &&& self.request_resolves(req)
                        &&& self.cast_rejection(req) is None
                    }
                },
                None => self.fight_paused(self.fight_of(actor as int)) || forall|req: UseAbility|
                    #[trigger] self.is_attack_plan(actor as int, req) ==> self.cast_rejection(req) is Some,
            },
    {
        match self.plan_attack(actor) {
            Some(req) => Some(GameCommand::new(GameCommandSource::AIAction, GameCommandKind::UseAbility(req))),
            None => None,
        }
    }
}

} // verus!
