pub mod ability;
pub mod ai;
pub mod casting;
pub mod commands;
pub mod effect_ticking;
pub mod effects;
pub mod fight;
pub mod health;
pub mod perform;
pub mod resolution;
pub mod setup;
pub mod split_duration;
pub mod step;
pub mod ticking;
pub mod timer;
pub mod unique_effects;
pub mod world;
