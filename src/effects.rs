use vstd::prelude::*;

use crate::timer::FiniteRepeatingTimer;

verus! {

/// The kinds of timed, repeating status effects; a target holds at most one of each kind.
#[derive(Debug, Clone, Copy, PartialEq, Eq, Structural)]
pub enum EffectKind {
    NeedlingHex,
    PreparedBlock,
}

pub const NEEDLING_HEX_TICK_INTERVAL: u64 = 500_000_000;

pub const NEEDLING_HEX_NUM_TICKS: u32 = 5;

pub const NEEDLING_HEX_DMG_PER_TICK: u32 = 5;

pub const PREPARED_BLOCK_TICK_INTERVAL: u64 = 500_000_000;

pub const PREPARED_BLOCK_NUM_TICKS: u32 = 5;

pub const PREPARED_BLOCK_DMG_PER_TICK: u32 = 5;

/// The damage each tick of an effect of `kind` deals to its target.
pub open spec fn damage_per_tick(kind: EffectKind) -> u32 {
    match kind {
        EffectKind::NeedlingHex => NEEDLING_HEX_DMG_PER_TICK,
        EffectKind::PreparedBlock => PREPARED_BLOCK_DMG_PER_TICK,
    }
}

/// A timer for a new effect of `kind`: all its ticks still to come.
pub open spec fn fresh_effect_timer(kind: EffectKind) -> FiniteRepeatingTimer {
    match kind {
        EffectKind::NeedlingHex => FiniteRepeatingTimer::fresh(NEEDLING_HEX_TICK_INTERVAL, NEEDLING_HEX_NUM_TICKS),
        EffectKind::PreparedBlock => FiniteRepeatingTimer::fresh(
            PREPARED_BLOCK_TICK_INTERVAL,
            PREPARED_BLOCK_NUM_TICKS,
        ),
    }
}

impl EffectKind {
    pub fn dmg_per_tick(&self) -> (r: u32)
        ensures
            r == damage_per_tick(*self),
    {
        match self {
            EffectKind::NeedlingHex => NEEDLING_HEX_DMG_PER_TICK,
            EffectKind::PreparedBlock => PREPARED_BLOCK_DMG_PER_TICK,
        }
    }

    /// A fresh timer for an effect of this kind: all its ticks still to come.
    pub fn new_timer(&self) -> (r: FiniteRepeatingTimer)
        ensures
            r == fresh_effect_timer(*self),
            r.wf(),
            r.elapsed_spec() == 0,
            r.interval_spec() == match *self {
                EffectKind::NeedlingHex => NEEDLING_HEX_TICK_INTERVAL,
                EffectKind::PreparedBlock => PREPARED_BLOCK_TICK_INTERVAL,
            },
            r.remaining_ticks_spec() == match *self {
                EffectKind::NeedlingHex => NEEDLING_HEX_NUM_TICKS,
                EffectKind::PreparedBlock => PREPARED_BLOCK_NUM_TICKS,
            },
    {
        match self {
            EffectKind::NeedlingHex => FiniteRepeatingTimer::new(
                NEEDLING_HEX_TICK_INTERVAL,
                NEEDLING_HEX_NUM_TICKS,
            ),
            EffectKind::PreparedBlock => FiniteRepeatingTimer::new(
                PREPARED_BLOCK_TICK_INTERVAL,
                PREPARED_BLOCK_NUM_TICKS,
            ),
        }
    }
}

/// The record that gathers the effects on one target.
#[derive(Debug, Clone, Copy, PartialEq, Eq, Structural)]
pub struct EffectsHolder {
    pub holding_entity: usize,
}

/// One live effect, held by the holder record `holder`.
#[derive(Debug, Clone, Copy, PartialEq, Eq, Structural)]
pub struct Effect {
    pub holder: usize,
    pub kind: EffectKind,
    pub timer: FiniteRepeatingTimer,
}

/// One hit of damage, to be taken from `target`'s hit points.
#[derive(Debug, Clone, Copy, PartialEq, Eq, Structural)]
pub struct DamageInstance {
    pub source: Option<usize>,
    pub target: usize,
    pub amount: u32,
}

} // verus!
