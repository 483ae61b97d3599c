use vstd::prelude::*;

use crate::timer::CountdownTimer;

verus! {

pub const NANOS_PER_SECOND: u64 = 1_000_000_000;

pub const WEAPON_ATTACK_COOLDOWN: u64 = 5_000_000_000;

pub const WEAPON_ATTACK_DAMAGE: u32 = 10;

pub const NEEDLING_HEX_COOLDOWN: u64 = 30_000_000_000;

pub const CHARGED_STRIKE_COOLDOWN: u64 = 20_000_000_000;

pub const CHARGED_STRIKE_CAST_TIME: u64 = 2_000_000_000;

pub const CHARGED_STRIKE_DAMAGE: u32 = 25;

pub const PREPARED_BLOCK_COOLDOWN: u64 = 30_000_000_000;

pub const PREPARED_BLOCK_CAST_TIME: u64 = 1_000_000_000;

#[derive(Debug, Clone, Copy, PartialEq, Eq, Structural)]
pub enum AbilityId {
    WeaponAttack,
    NeedlingHex,
    ChargedStrike,
    PreparedBlock,
}

#[derive(Debug, Clone, Copy, PartialEq, Eq, Structural)]
pub enum AbilitySlotType {
    WeaponAttack,
    ShieldDefend,
    Magic,
}

/// What the catalog knows of an ability: the slot type it needs, the cooldown it puts on
/// itself after a successful cast, and how long casting it takes (nanoseconds).
#[derive(Debug, Clone, Copy, PartialEq, Eq, Structural)]
pub struct AbilityDefinition {
    pub slot_requirement: Option<AbilitySlotType>,
    pub cooldown: Option<u64>,
    pub cast_time: u64,
}

pub open spec fn definition_of(id: AbilityId) -> AbilityDefinition {
    match id {
        AbilityId::WeaponAttack => AbilityDefinition {
            slot_requirement: Some(AbilitySlotType::WeaponAttack),
            cooldown: Some(WEAPON_ATTACK_COOLDOWN),
            cast_time: 0,
        },
        AbilityId::NeedlingHex => AbilityDefinition {
            slot_requirement: Some(AbilitySlotType::Magic),
            cooldown: Some(NEEDLING_HEX_COOLDOWN),
            cast_time: 0,
        },
        AbilityId::ChargedStrike => AbilityDefinition {
            slot_requirement: Some(AbilitySlotType::WeaponAttack),
            cooldown: Some(CHARGED_STRIKE_COOLDOWN),
            cast_time: CHARGED_STRIKE_CAST_TIME,
        },
        AbilityId::PreparedBlock => AbilityDefinition {
            slot_requirement: Some(AbilitySlotType::ShieldDefend),
            cooldown: Some(PREPARED_BLOCK_COOLDOWN),
            cast_time: PREPARED_BLOCK_CAST_TIME,
        },
    }
}

impl AbilityId {
    pub fn definition(&self) -> (r: AbilityDefinition)
        ensures
            r == definition_of(*self),
    {
        match self {
            AbilityId::WeaponAttack => AbilityDefinition {
                slot_requirement: Some(AbilitySlotType::WeaponAttack),
                cooldown: Some(WEAPON_ATTACK_COOLDOWN),
                cast_time: 0,
            },
            AbilityId::NeedlingHex => AbilityDefinition {
                slot_requirement: Some(AbilitySlotType::Magic),
                cooldown: Some(NEEDLING_HEX_COOLDOWN),
                cast_time: 0,
            },
            AbilityId::ChargedStrike => AbilityDefinition {
                slot_requirement: Some(AbilitySlotType::WeaponAttack),
                cooldown: Some(CHARGED_STRIKE_COOLDOWN),
                cast_time: CHARGED_STRIKE_CAST_TIME,
            },
            AbilityId::PreparedBlock => AbilityDefinition {
                slot_requirement: Some(AbilitySlotType::ShieldDefend),
                cooldown: Some(PREPARED_BLOCK_COOLDOWN),
                cast_time: PREPARED_BLOCK_CAST_TIME,
            },
        }
    }
}

/// A countdown that blocks reuse of the ability or slot carrying it.
#[derive(Debug, Clone, Copy, PartialEq, Eq, Structural)]
pub struct Cooldown {
    pub cooldown_timer: CountdownTimer,
}

impl Cooldown {
    pub fn new(cooldown_duration: u64) -> (r: Cooldown)
        ensures
            r.cooldown_timer == (CountdownTimer { duration: cooldown_duration, elapsed: 0, finished: false }),
    {
        Cooldown { cooldown_timer: CountdownTimer::new(cooldown_duration) }
    }

    /// How long this cooldown still runs, in nanoseconds.
    pub fn remaining_cooldown(&self) -> (r: u64)
        requires
            self.cooldown_timer.wf(),
        ensures
            r == self.cooldown_timer.remaining_spec(),
    {
        self.cooldown_timer.remaining()
    }
}

/// A cast in progress on a slot: the ability being cast, its target, and its countdown.
#[derive(Debug, Clone, Copy, PartialEq, Eq, Structural)]
pub struct OngoingCast {
    pub ability_e: usize,
    pub target: Option<usize>,
    pub cast_timer: CountdownTimer,
}

/// A socket on an actor that gates which abilities it can cast, and that may put a cooldown
/// on itself whenever it is used.
#[derive(Debug, Clone, Copy, PartialEq, Eq, Structural)]
pub struct AbilitySlot {
    pub holder: usize,
    pub tpe: AbilitySlotType,
    pub on_use_cooldown: Option<u64>,
    pub cooldown: Option<Cooldown>,
    pub ongoing_cast: Option<OngoingCast>,
}

/// An ability held by an actor.
#[derive(Debug, Clone, Copy, PartialEq, Eq, Structural)]
pub struct Ability {
    pub holder: usize,
    pub id: AbilityId,
    pub slot_requirement: Option<AbilitySlotType>,
    pub cooldown_duration: Option<u64>,
    pub cast_time: Option<u64>,
    pub cooldown: Option<Cooldown>,
}

impl Ability {
    /// Whether this ability may be cast on `slot`: there must be a slot, and its type must
    /// be the one the ability requires, if it requires one.
    pub open spec fn can_use_spec(self, slot: Option<AbilitySlot>) -> bool {
        match slot {
            Some(s) => match self.slot_requirement {
                Some(req) => req == s.tpe,
                None => true,
            },
            None => false,
        }
    }

    pub fn can_use(&self, selected_ability_slot: Option<&AbilitySlot>) -> (r: bool)
        ensures
            r == self.can_use_spec(
                match selected_ability_slot {
                    Some(s) => Some(*s),
                    None => None,
                },
            ),
    {
        match selected_ability_slot {
            Some(s) => match self.slot_requirement {
                Some(req) => req == s.tpe,
                None => true,
            },
            None => false,
        }
    }
}

/// A notice that a cast left its slot: either its countdown ran out, or it was removed
/// before that.
#[derive(Debug, Clone, Copy, PartialEq, Eq, Structural)]
pub enum CastEvent {
    FinishedSuccessfully { slot_entity: usize, ability_entity: usize, cast_target: Option<usize> },
    Aborted { slot_entity: usize, ability_entity: usize, cast_target: Option<usize> },
}

} // verus!
