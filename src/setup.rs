use vstd::prelude::*;

use crate::ability::{definition_of, Ability, AbilityId, AbilitySlot, AbilitySlotType, NANOS_PER_SECOND};
use crate::fight::{Faction, Fight, FightTime};
use crate::health::Health;
use crate::world::{Actor, World};

verus! {

pub const BASIC_FIGHT_HIT_POINTS: i64 = 100;

pub const WEAPON_SLOT_ON_USE_COOLDOWN: u64 = NANOS_PER_SECOND;

pub const MAGIC_SLOT_ON_USE_COOLDOWN: u64 = 2_000_000_000;

/// The ids of the records that make up a basic fight.
#[derive(Debug, Clone, Copy, PartialEq, Eq, Structural)]
pub struct BasicFight {
    pub fight_e: usize,
    pub player_e: usize,
    pub enemy_e: usize,
}

pub open spec fn catalog_ability(holder: usize, id: AbilityId) -> Ability {
    Ability {
        holder,
        id,
        slot_requirement: definition_of(id).slot_requirement,
        cooldown_duration: definition_of(id).cooldown,
        cast_time: Some(definition_of(id).cast_time),
        cooldown: None,
    }
}

pub open spec fn empty_slot(holder: usize, tpe: AbilitySlotType, on_use_cooldown: Option<u64>) -> AbilitySlot {
    AbilitySlot { holder, tpe, on_use_cooldown, cooldown: None, ongoing_cast: None }
}

impl World {
    /// Sets up a fight between a player character and one enemy, both at full health. The
    /// player has a weapon slot, a shield slot and a magic slot, and knows the weapon attack,
    /// the needling hex and the charged strike; the enemy has a weapon slot and the weapon
    /// attack. The fight's clock starts paused.
    pub fn spawn_basic_fight(&mut self) -> (r: BasicFight)
        requires
            old(self).wf(),
        ensures
            final(self).wf(),
            r.fight_e == old(self).fights@.len(),
            r.player_e == old(self).actors@.len(),
            r.enemy_e == old(self).actors@.len() + 1,
            final(self).fights@ == old(self).fights@.push(
                Fight { time: FightTime { paused: true, elapsed: 0 }, result: None },
            ),
            final(self).actors@ == old(self).actors@ + seq![
                Actor {
                    fight: r.fight_e,
                    faction: Faction::Player,
                    health: Health { current: BASIC_FIGHT_HIT_POINTS, max: BASIC_FIGHT_HIT_POINTS },
                    effects_holder: None,
                },
                Actor {
                    fight: r.fight_e,
                    faction: Faction::Enemy,
                    health: Health { current: BASIC_FIGHT_HIT_POINTS, max: BASIC_FIGHT_HIT_POINTS },
                    effects_holder: None,
                },
            ],
            final(self).slots@ == old(self).slots@ + seq![
                empty_slot(r.player_e, AbilitySlotType::WeaponAttack, Some(WEAPON_SLOT_ON_USE_COOLDOWN)),
                empty_slot(r.player_e, AbilitySlotType::ShieldDefend, None),
                empty_slot(r.player_e, AbilitySlotType::Magic, Some(MAGIC_SLOT_ON_USE_COOLDOWN)),
                empty_slot(r.enemy_e, AbilitySlotType::WeaponAttack, Some(WEAPON_SLOT_ON_USE_COOLDOWN)),
            ],
            final(self).abilities@ == old(self).abilities@ + seq![
                catalog_ability(r.player_e, AbilityId::WeaponAttack),
                catalog_ability(r.player_e, AbilityId::NeedlingHex),
                catalog_ability(r.player_e, AbilityId::ChargedStrike),
                catalog_ability(r.enemy_e, AbilityId::WeaponAttack),
            ],
            final(self).effects_holders == old(self).effects_holders,
            final(self).effects == old(self).effects,
    {
        let fight_e = self.spawn_fight();
        let player_e = self.spawn_actor(fight_e, Faction::Player, Health::new(BASIC_FIGHT_HIT_POINTS));
        let enemy_e = self.spawn_actor(fight_e, Faction::Enemy, Health::new(BASIC_FIGHT_HIT_POINTS));
        self.spawn_slot(player_e, AbilitySlotType::WeaponAttack, Some(WEAPON_SLOT_ON_USE_COOLDOWN));
        self.spawn_slot(player_e, AbilitySlotType::ShieldDefend, None);
        self.spawn_slot(player_e, AbilitySlotType::Magic, Some(MAGIC_SLOT_ON_USE_COOLDOWN));
        self.spawn_ability(player_e, AbilityId::WeaponAttack);
        self.spawn_ability(player_e, AbilityId::NeedlingHex);
        self.spawn_ability(player_e, AbilityId::ChargedStrike);
        self.spawn_slot(enemy_e, AbilitySlotType::WeaponAttack, Some(WEAPON_SLOT_ON_USE_COOLDOWN));
        self.spawn_ability(enemy_e, AbilityId::WeaponAttack);
        let r = BasicFight { fight_e, player_e, enemy_e };
        proof {
            assert(self.actors@ =~= old(self).actors@ + seq![
                Actor {
                    fight: r.fight_e,
                    faction: Faction::Player,
                    health: Health { current: BASIC_FIGHT_HIT_POINTS, max: BASIC_FIGHT_HIT_POINTS },
                    effects_holder: None,
                },
                Actor {
                    fight: r.fight_e,
                    faction: Faction::Enemy,
                    health: Health { current: BASIC_FIGHT_HIT_POINTS, max: BASIC_FIGHT_HIT_POINTS },
                    effects_holder: None,
                },
            ]);
            assert(self.slots@ =~= old(self).slots@ + seq![
                empty_slot(r.player_e, AbilitySlotType::WeaponAttack, Some(WEAPON_SLOT_ON_USE_COOLDOWN)),
                empty_slot(r.player_e, AbilitySlotType::ShieldDefend, None),
                empty_slot(r.player_e, AbilitySlotType::Magic, Some(MAGIC_SLOT_ON_USE_COOLDOWN)),
                empty_slot(r.enemy_e, AbilitySlotType::WeaponAttack, Some(WEAPON_SLOT_ON_USE_COOLDOWN)),
            ]);
            assert(self.abilities@ =~= old(self).abilities@ + seq![
                catalog_ability(r.player_e, AbilityId::WeaponAttack),
                catalog_ability(r.player_e, AbilityId::NeedlingHex),
                catalog_ability(r.player_e, AbilityId::ChargedStrike),
                catalog_ability(r.enemy_e, AbilityId::WeaponAttack),
            ]);
        }
        r
    }
}

} // verus!
