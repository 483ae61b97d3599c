use std::time::Duration;

use fight_core::ability::{AbilityId, AbilitySlotType, CastEvent, Cooldown, OngoingCast};
use fight_core::commands::{GameCommand, GameCommandKind, GameCommandSource, InvalidCastReason, UseAbility};
use fight_core::fight::{Faction, FightResult};
use fight_core::health::Health;
use fight_core::timer::CountdownTimer;
use fight_core::world::World;

fn ns(d: Duration) -> u64 {
    u64::try_from(d.as_nanos()).unwrap_or(u64::MAX)
}

struct CastingFight {
    world: World,
    fight_e: usize,
    caster_e: usize,
    slot_e: usize,
    ability_e: usize,
    enemy_e: usize,
}

/// A player with a weapon slot (1 s on-use cooldown) and the weapon attack, against an enemy
/// with the same; both at 100 hit points.
fn spawn_casting_fight() -> CastingFight {
    let mut world = World::new();
    let fight_e = world.spawn_fight();
    let caster_e = world.spawn_actor(fight_e, Faction::Player, Health::new(100));
    let slot_e = world.spawn_slot(caster_e, AbilitySlotType::WeaponAttack, Some(ns(Duration::from_secs(1))));
    let ability_e = world.spawn_ability(caster_e, AbilityId::WeaponAttack);
    let enemy_e = world.spawn_actor(fight_e, Faction::Enemy, Health::new(100));
    world.spawn_slot(enemy_e, AbilitySlotType::WeaponAttack, Some(ns(Duration::from_secs(1))));
    world.spawn_ability(enemy_e, AbilityId::WeaponAttack);
    CastingFight { world, fight_e, caster_e, slot_e, ability_e, enemy_e }
}

/// A caster with a weapon slot without on-use cooldown and an instant attack with no cooldown
/// of its own, against a 100 hit point enemy.
fn spawn_plain_fight() -> CastingFight {
    let mut world = World::new();
    let fight_e = world.spawn_fight();
    let caster_e = world.spawn_actor(fight_e, Faction::Player, Health::new(100));
    let slot_e = world.spawn_slot(caster_e, AbilitySlotType::WeaponAttack, None);
    let ability_e = world.spawn_ability_with(caster_e, AbilityId::WeaponAttack, None, None, Some(0));
    let enemy_e = world.spawn_actor(fight_e, Faction::Enemy, Health::new(100));
    CastingFight { world, fight_e, caster_e, slot_e, ability_e, enemy_e }
}

fn use_ability(f: &CastingFight, target: Option<usize>) -> UseAbility {
    UseAbility { caster_e: f.caster_e, slot_e: f.slot_e, ability_e: f.ability_e, target, fight_e: f.fight_e }
}

#[test]
fn test_fight_timer_starts_on_ability_use() {
    let mut f = spawn_plain_fight();
    assert!(f.world.is_fight_paused(f.fight_e));

    let cmd = GameCommand::new_from_user(GameCommandKind::UseAbility(use_ability(&f, None)));
    assert!(f.world.submit_command(&cmd).is_ok());
    f.world.step(ns(Duration::from_millis(16)));

    assert!(!f.world.is_fight_paused(f.fight_e), "Fight timer should be unpaused");
}

#[test]
fn test_fight_timer_unpauses_on_user_command() {
    let mut f = spawn_casting_fight();
    assert!(f.world.is_fight_paused(f.fight_e));

    let cmd = GameCommand::new_from_user(GameCommandKind::UseAbility(use_ability(&f, None)));
    f.world.submit_command(&cmd).unwrap();
    f.world.step(ns(Duration::from_millis(16)));

    assert!(!f.world.is_fight_paused(f.fight_e), "Fight timer should be unpaused");
}

#[test]
fn ai_command_does_not_unpause_the_fight() {
    let mut f = spawn_casting_fight();
    let cmd = GameCommand::new(GameCommandSource::AIAction, GameCommandKind::UseAbility(use_ability(&f, None)));
    assert!(f.world.submit_command(&cmd).is_ok());
    assert!(f.world.is_fight_paused(f.fight_e));
}

#[test]
fn test_ability_cooldown_applied_on_finish() {
    let mut f = spawn_plain_fight();
    let ability_e = f.world.spawn_ability_with(
        f.caster_e,
        AbilityId::WeaponAttack,
        None,
        Some(ns(Duration::from_secs(5))),
        None,
    );

    f.world.perform_finished_casts(&vec![CastEvent::FinishedSuccessfully {
        slot_entity: f.slot_e,
        ability_entity: ability_e,
        cast_target: None,
    }]);

    assert!(f.world.abilities[ability_e].cooldown.is_some(), "Ability should have Cooldown component");
}

#[test]
fn test_interruption_does_not_apply_cooldown() {
    let mut f = spawn_plain_fight();
    let ability_e = f.world.spawn_ability_with(
        f.caster_e,
        AbilityId::WeaponAttack,
        None,
        Some(ns(Duration::from_secs(5))),
        None,
    );
    let slot_e = f.world.spawn_slot(f.caster_e, AbilitySlotType::WeaponAttack, Some(ns(Duration::from_secs(1))));

    let aborted = f.world.start_new_cast(
        slot_e,
        OngoingCast { ability_e, target: None, cast_timer: CountdownTimer::new(ns(Duration::from_secs(1))) },
    );
    assert_eq!(aborted, None);

    let aborted = f.world.cancel_ongoing_cast(slot_e);
    assert_eq!(
        aborted,
        Some(CastEvent::Aborted { slot_entity: slot_e, ability_entity: ability_e, cast_target: None })
    );
    f.world.step(ns(Duration::from_millis(16)));

    assert!(f.world.abilities[ability_e].cooldown.is_none(), "Ability should NOT have Cooldown component");
    assert!(f.world.slots[slot_e].cooldown.is_none(), "Slot should NOT have Cooldown component");
}

#[test]
fn test_cooldown_applied_after_cast_completion() {
    let mut f = spawn_plain_fight();
    let ability_e = f.world.spawn_ability_with(
        f.caster_e,
        AbilityId::WeaponAttack,
        None,
        Some(ns(Duration::from_secs(5))),
        None,
    );

    f.world.perform_finished_casts(&vec![CastEvent::FinishedSuccessfully {
        slot_entity: f.slot_e,
        ability_entity: ability_e,
        cast_target: None,
    }]);

    assert!(f.world.abilities[ability_e].cooldown.is_some(), "Ability should have Cooldown component");
    assert!(f.world.slots[f.slot_e].cooldown.is_none(), "Slot should not have Cooldown component");
}

#[test]
fn test_slot_cooldown_applied_after_cast_completion() {
    let mut f = spawn_plain_fight();
    let slot_e = f.world.spawn_slot(f.caster_e, AbilitySlotType::WeaponAttack, Some(ns(Duration::from_secs(3))));
    let req = UseAbility { caster_e: f.caster_e, slot_e, ability_e: f.ability_e, target: None, fight_e: f.fight_e };

    f.world.submit_command(&GameCommand::new_from_user(GameCommandKind::UseAbility(req))).unwrap();
    let report = f.world.step(ns(Duration::from_millis(16)));
    assert_eq!(report.cast_events.len(), 1);

    assert!(f.world.slots[slot_e].cooldown.is_some(), "Slot should have Cooldown component");
    assert!(f.world.abilities[f.ability_e].cooldown.is_none(), "Ability should not have Cooldown component");
}

#[test]
fn test_cooldown_ticks_and_removes() {
    let mut f = spawn_plain_fight();
    f.world.set_fight_paused(f.fight_e, false);
    f.world.abilities[f.ability_e].cooldown = Some(Cooldown::new(ns(Duration::from_millis(100))));
    assert!(f.world.abilities[f.ability_e].cooldown.is_some(), "Ability should have Cooldown component");

    f.world.step(ns(Duration::from_millis(55)));
    let cooldown = f.world.abilities[f.ability_e].cooldown;
    assert!(cooldown.is_some(), "Cooldown should still exist after 55ms");
    assert!(cooldown.unwrap().remaining_cooldown() > 0, "Cooldown should have time remaining");

    f.world.step(ns(Duration::from_millis(55)));
    assert!(f.world.abilities[f.ability_e].cooldown.is_none(), "Cooldown should be removed after finishing");
}

#[test]
fn test_cooldown_expires_after_duration() {
    let mut f = spawn_casting_fight();
    f.world.set_fight_paused(f.fight_e, false);
    f.world.abilities[f.ability_e].cooldown = Some(Cooldown::new(ns(Duration::from_millis(100))));
    assert!(f.world.abilities[f.ability_e].cooldown.is_some(), "Ability should have Cooldown component");

    f.world.step(ns(Duration::from_millis(65)));
    let cooldown = f.world.abilities[f.ability_e].cooldown;
    assert!(cooldown.is_some(), "Cooldown should still exist after 55ms");
    assert_eq!(cooldown.unwrap().remaining_cooldown(), ns(Duration::from_millis(35)));

    f.world.step(ns(Duration::from_millis(65)));
    assert_eq!(f.world.abilities[f.ability_e].cooldown, None, "Cooldown should be removed after finishing");
}

#[test]
fn cooldown_does_not_tick_while_paused() {
    let mut f = spawn_casting_fight();
    f.world.slots[f.slot_e].cooldown = Some(Cooldown::new(ns(Duration::from_millis(100))));
    f.world.step(ns(Duration::from_secs(10)));
    let cooldown = f.world.slots[f.slot_e].cooldown.unwrap();
    assert_eq!(cooldown.remaining_cooldown(), ns(Duration::from_millis(100)));
}

#[test]
fn finished_cooldown_found_while_ticking_is_removed() {
    let mut f = spawn_casting_fight();
    f.world.set_fight_paused(f.fight_e, false);
    let mut cooldown = Cooldown::new(ns(Duration::from_millis(10)));
    cooldown.cooldown_timer = CountdownTimer { duration: 10, elapsed: 10, finished: true };
    f.world.slots[f.slot_e].cooldown = Some(cooldown);
    f.world.step(0);
    assert!(f.world.slots[f.slot_e].cooldown.is_none());
}

#[test]
fn ended_fight_rejects_every_request() {
    let mut f = spawn_casting_fight();
    f.world.fights[f.fight_e].result = Some(FightResult::FactionVictory { which: Faction::Player });
    f.world.abilities[f.ability_e].cooldown = Some(Cooldown::new(ns(Duration::from_secs(5))));

    let mut req = use_ability(&f, Some(f.enemy_e));
    req.slot_e = 999;
    assert_eq!(f.world.is_valid_cast(&req), Err(InvalidCastReason::FightEnded));
    let before = f.world.slots.clone();
    let r = f.world.submit_command(&GameCommand::new_from_user(GameCommandKind::UseAbility(use_ability(&f, None))));
    assert_eq!(r, Err(InvalidCastReason::FightEnded));
    assert_eq!(f.world.slots, before);
    assert!(f.world.is_fight_paused(f.fight_e));
}

#[test]
fn cooldown_on_ability_or_slot_rejects_the_request() {
    let mut f = spawn_casting_fight();
    let req = use_ability(&f, Some(f.enemy_e));
    let cmd = GameCommand::new_from_user(GameCommandKind::UseAbility(req));
    assert_eq!(f.world.submit_command(&cmd), Ok(None));
    assert!(f.world.check_slot_cooldowns(&req));
    assert_eq!(f.world.submit_command(&cmd), Err(InvalidCastReason::AbilityOrSlotOnCooldown));

    // the attack finishes and puts its own 5 s cooldown on the ability
    f.world.step(ns(Duration::from_millis(100)));
    assert!(f.world.check_ability_cooldowns(&req));
    assert_eq!(f.world.submit_command(&cmd), Err(InvalidCastReason::AbilityOrSlotOnCooldown));

    // the slot's 1 s cooldown is over after 1 s, the ability's after 5 s
    for _ in 0..9 {
        f.world.step(ns(Duration::from_millis(100)));
    }
    assert!(f.world.slots[f.slot_e].cooldown.is_none());
    assert_eq!(f.world.submit_command(&cmd), Err(InvalidCastReason::AbilityOrSlotOnCooldown));
    for _ in 0..40 {
        f.world.step(ns(Duration::from_millis(100)));
    }
    assert!(f.world.abilities[f.ability_e].cooldown.is_some());
    f.world.step(ns(Duration::from_millis(100)));
    assert!(f.world.abilities[f.ability_e].cooldown.is_none());
    assert_eq!(f.world.submit_command(&cmd), Ok(None));
}

#[test]
fn slot_of_the_wrong_type_rejects_the_request() {
    let mut f = spawn_casting_fight();
    let hex_e = f.world.spawn_ability(f.caster_e, AbilityId::NeedlingHex);
    let req = UseAbility { caster_e: f.caster_e, slot_e: f.slot_e, ability_e: hex_e, target: Some(f.enemy_e), fight_e: f.fight_e };
    assert!(f.world.check_slot_requirements(&req));
    assert_eq!(f.world.is_valid_cast(&req), Err(InvalidCastReason::SlotRequirementMismatch));
    assert!(!f.world.is_matching_cast(&req, &AbilityId::WeaponAttack));
    assert!(f.world.is_matching_cast(&req, &AbilityId::NeedlingHex));
}

#[test]
fn unknown_slot_rejects_the_request() {
    let f = spawn_casting_fight();
    let mut req = use_ability(&f, Some(f.enemy_e));
    req.slot_e = 42;
    assert_eq!(f.world.is_valid_cast(&req), Err(InvalidCastReason::SlotRequirementMismatch));
    assert!(!f.world.can_cast_on_slot(42, AbilitySlotType::WeaponAttack));
    assert!(f.world.can_cast_on_slot(f.slot_e, AbilitySlotType::WeaponAttack));
    assert!(!f.world.can_cast_on_slot(f.slot_e, AbilitySlotType::Magic));
}

#[test]
fn new_cast_on_occupied_slot_aborts_the_old_one_first() {
    let mut f = spawn_casting_fight();
    f.world.slots[f.slot_e].on_use_cooldown = None;
    let strike_e = f.world.spawn_ability(f.caster_e, AbilityId::ChargedStrike);
    let strike = UseAbility { caster_e: f.caster_e, slot_e: f.slot_e, ability_e: strike_e, target: Some(f.enemy_e), fight_e: f.fight_e };
    assert_eq!(f.world.submit_command(&GameCommand::new_from_user(GameCommandKind::UseAbility(strike))), Ok(None));
    f.world.step(ns(Duration::from_millis(500)));

    let attack = use_ability(&f, Some(f.caster_e));
    let r = f.world.submit_command(&GameCommand::new_from_user(GameCommandKind::UseAbility(attack)));
    assert_eq!(
        r,
        Ok(Some(CastEvent::Aborted { slot_entity: f.slot_e, ability_entity: strike_e, cast_target: Some(f.enemy_e) }))
    );
    let cast = f.world.get_ongoing_cast(f.slot_e).unwrap();
    assert_eq!(cast.ability_e, f.ability_e);
    assert_eq!(cast.target, Some(f.caster_e));
    assert_eq!(cast.cast_timer.elapsed, 0);
    // the aborted strike put no cooldown on its ability
    assert!(f.world.abilities[strike_e].cooldown.is_none());
}

#[test]
fn finished_cast_is_signalled_once_and_removed() {
    let mut f = spawn_casting_fight();
    let strike_e = f.world.spawn_ability(f.caster_e, AbilityId::ChargedStrike);
    let strike = UseAbility { caster_e: f.caster_e, slot_e: f.slot_e, ability_e: strike_e, target: Some(f.enemy_e), fight_e: f.fight_e };
    f.world.submit_command(&GameCommand::new_from_user(GameCommandKind::UseAbility(strike))).unwrap();

    let report = f.world.step(ns(Duration::from_millis(1999)));
    assert!(report.cast_events.is_empty());
    assert!(f.world.get_ongoing_cast(f.slot_e).is_some());

    let report = f.world.step(ns(Duration::from_millis(1)));
    assert_eq!(
        report.cast_events,
        vec![CastEvent::FinishedSuccessfully { slot_entity: f.slot_e, ability_entity: strike_e, cast_target: Some(f.enemy_e) }]
    );
    assert!(f.world.get_ongoing_cast(f.slot_e).is_none());
    assert_eq!(report.damage.len(), 1);
    assert_eq!(report.damage[0].amount, 25);
    assert_eq!(f.world.actors[f.enemy_e].health.current(), 75);
    assert!(f.world.abilities[strike_e].cooldown.is_some());

    let report = f.world.step(ns(Duration::from_secs(3)));
    assert!(report.cast_events.is_empty());
    assert!(report.damage.is_empty());
}

#[test]
fn use_slot_aborts_the_cast_on_it() {
    let mut f = spawn_casting_fight();
    let cast = OngoingCast { ability_e: f.ability_e, target: None, cast_timer: CountdownTimer::new(10) };
    assert_eq!(f.world.start_cast(f.slot_e, cast), None);
    assert_eq!(
        f.world.use_slot(f.slot_e),
        Some(CastEvent::Aborted { slot_entity: f.slot_e, ability_entity: f.ability_e, cast_target: None })
    );
    assert_eq!(f.world.use_slot(f.slot_e), None);
}
