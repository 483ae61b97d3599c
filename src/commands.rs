use vstd::prelude::*;

verus! {

/// A request to cast `ability_e` from `slot_e` of `caster_e`, in `fight_e`.
#[derive(Debug, Clone, Copy, PartialEq, Eq, Structural)]
pub struct UseAbility {
    pub caster_e: usize,
    pub slot_e: usize,
    pub ability_e: usize,
    pub target: Option<usize>,
    pub fight_e: usize,
}

#[derive(Debug, Clone, Copy, PartialEq, Eq, Structural)]
pub enum GameCommandSource {
    UserInteraction,
    AIAction,
}

#[derive(Debug, Clone, Copy, PartialEq, Eq, Structural)]
pub enum GameCommandKind {
    UseAbility(UseAbility),
}

impl GameCommandKind {
    pub open spec fn fight_of(self) -> Option<usize> {
        match self {
            GameCommandKind::UseAbility(u) => Some(u.fight_e),
        }
    }

    pub fn get_fight_e(&self) -> (r: Option<usize>)
        ensures
            r == self.fight_of(),
    {
        match self {
            GameCommandKind::UseAbility(use_ability) => Some(use_ability.fight_e),
        }
    }
}

#[derive(Debug, Clone, Copy, PartialEq, Eq, Structural)]
pub struct GameCommand {
    pub source: GameCommandSource,
    pub kind: GameCommandKind,
}

impl GameCommand {
    pub fn new(source: GameCommandSource, kind: GameCommandKind) -> (r: GameCommand)
        ensures
            r == (GameCommand { source, kind }),
    {
        GameCommand { source, kind }
    }

    pub fn new_from_user(kind: GameCommandKind) -> (r: GameCommand)
        ensures
            r == (GameCommand { source: GameCommandSource::UserInteraction, kind }),
    {
        GameCommand::new(GameCommandSource::UserInteraction, kind)
    }
}

/// Why a cast request was turned down.
#[derive(Debug, Clone, Copy, PartialEq, Eq, Structural)]
pub enum InvalidCastReason {
    FightEnded,
    AbilityOrSlotOnCooldown,
    SlotRequirementMismatch,
}

} // verus!
