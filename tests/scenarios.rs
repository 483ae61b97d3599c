use std::time::Duration;

use fight_core::ability::{AbilityId, AbilitySlotType, CastEvent};
use fight_core::commands::{GameCommand, GameCommandKind, GameCommandSource, InvalidCastReason, UseAbility};
use fight_core::effects::{DamageInstance, EffectKind};
use fight_core::fight::{Faction, FightResult, FightStatus};
use fight_core::health::{AlreadyDeadError, Health, LivenessChangeEvent};
use fight_core::resolution::EndCheckOutcome;
use fight_core::split_duration::{RemainingTimeLabel, SplitDuration};
use fight_core::world::{CooldownOwner, World};

fn to_ns(d: Duration) -> u64 {
    u64::try_from(d.as_nanos()).unwrap_or(u64::MAX)
}

struct Duel {
    world: World,
    fight_e: usize,
    a: usize,
    b: usize,
    weapon_slot: usize,
    magic_slot: usize,
    attack: usize,
    hex: usize,
    strike: usize,
}

fn spawn_duel(a_hp: i64, b_hp: i64) -> Duel {
    let mut world = World::new();
    let fight_e = world.spawn_fight();
    let a = world.spawn_actor(fight_e, Faction::Player, Health::new(a_hp));
    let b = world.spawn_actor(fight_e, Faction::Enemy, Health::new(b_hp));
    let weapon_slot = world.spawn_slot(a, AbilitySlotType::WeaponAttack, None);
    let magic_slot = world.spawn_slot(a, AbilitySlotType::Magic, None);
    let attack = world.spawn_ability(a, AbilityId::WeaponAttack);
    let hex = world.spawn_ability(a, AbilityId::NeedlingHex);
    let strike = world.spawn_ability(a, AbilityId::ChargedStrike);
    world.spawn_slot(b, AbilitySlotType::WeaponAttack, None);
    world.spawn_ability(b, AbilityId::WeaponAttack);
    Duel { world, fight_e, a, b, weapon_slot, magic_slot, attack, hex, strike }
}

fn user_cast(d: &Duel, slot_e: usize, ability_e: usize, target: usize) -> GameCommand {
    GameCommand::new_from_user(GameCommandKind::UseAbility(UseAbility {
        caster_e: d.a,
        slot_e,
        ability_e,
        target: Some(target),
        fight_e: d.fight_e,
    }))
}

#[test]
fn weapon_attack_hits_once_and_cools_down() {
    let mut d = spawn_duel(100, 100);
    let cmd = user_cast(&d, d.weapon_slot, d.attack, d.b);
    assert_eq!(d.world.submit_command(&cmd), Ok(None));
    assert!(!d.world.is_fight_paused(d.fight_e));

    let report = d.world.step(to_ns(Duration::from_millis(16)));
    assert_eq!(report.damage, vec![DamageInstance { source: Some(d.a), target: d.b, amount: 10 }]);
    assert_eq!(d.world.actors[d.b].health.current(), 90);
    let cooldown = d.world.abilities[d.attack].cooldown.unwrap();
    assert_eq!(cooldown.cooldown_timer.duration, to_ns(Duration::from_secs(5)));
    assert_eq!(cooldown.remaining_cooldown(), to_ns(Duration::from_secs(5)));
    assert!(!d.world.is_fight_paused(d.fight_e));
}

#[test]
fn needling_hex_ticks_five_times_then_ends() {
    let mut d = spawn_duel(100, 100);
    let cmd = user_cast(&d, d.magic_slot, d.hex, d.b);
    assert_eq!(d.world.submit_command(&cmd), Ok(None));

    let mut hits: Vec<DamageInstance> = Vec::new();
    let report = d.world.step(to_ns(Duration::from_millis(100)));
    assert_eq!(report.cast_events.len(), 1);
    let hex = d.world.get_unique_effect(d.b, EffectKind::NeedlingHex);
    assert!(hex.is_some());
    assert_eq!(d.world.get_target_of_effect(hex.unwrap()), d.b);
    hits.extend(report.damage);
    for _ in 0..25 {
        hits.extend(d.world.step(to_ns(Duration::from_millis(100))).damage);
    }
    assert_eq!(hits.len(), 5);
    assert!(hits.iter().all(|h| *h == DamageInstance { source: None, target: d.b, amount: 5 }));
    assert_eq!(d.world.get_unique_effect(d.b, EffectKind::NeedlingHex), None);
    assert!(d.world.effects.is_empty());
    assert_eq!(d.world.actors[d.b].health.current(), 75);
}

#[test]
fn needling_hex_catches_up_after_a_long_step() {
    let mut d = spawn_duel(100, 100);
    d.world.submit_command(&user_cast(&d, d.magic_slot, d.hex, d.b)).unwrap();
    d.world.step(0);
    let report = d.world.step(to_ns(Duration::from_millis(2600)));
    assert_eq!(report.damage.len(), 5);
    assert!(d.world.effects.is_empty());
}

#[test]
fn pausing_freezes_a_cast_and_unpausing_resumes_it() {
    let mut d = spawn_duel(100, 100);
    d.world.submit_command(&user_cast(&d, d.weapon_slot, d.strike, d.b)).unwrap();
    d.world.step(to_ns(Duration::from_millis(700)));
    let frozen = d.world.get_ongoing_cast(d.weapon_slot).unwrap();
    assert_eq!(frozen.cast_timer.elapsed, to_ns(Duration::from_millis(700)));
    assert_eq!(d.world.get_elapsed_fight_time(d.fight_e), to_ns(Duration::from_millis(700)));

    d.world.set_fight_paused(d.fight_e, true);
    for _ in 0..5 {
        let report = d.world.step(to_ns(Duration::from_secs(1)));
        assert!(report.cast_events.is_empty());
    }
    assert_eq!(d.world.get_ongoing_cast(d.weapon_slot), Some(frozen));
    assert_eq!(d.world.get_elapsed_fight_time(d.fight_e), to_ns(Duration::from_millis(700)));

    d.world.set_fight_paused(d.fight_e, false);
    d.world.step(to_ns(Duration::from_millis(1000)));
    let resumed = d.world.get_ongoing_cast(d.weapon_slot).unwrap();
    assert_eq!(resumed.cast_timer.elapsed, to_ns(Duration::from_millis(1700)));
    let report = d.world.step(to_ns(Duration::from_millis(300)));
    assert_eq!(report.cast_events.len(), 1);
    assert_eq!(d.world.actors[d.b].health.current(), 75);
}

#[test]
fn spawning_an_effect_twice_keeps_one_fresh_instance() {
    let mut d = spawn_duel(100, 100);
    d.world.set_fight_paused(d.fight_e, false);
    d.world.spawn_or_replace_unique_effect(d.b, EffectKind::NeedlingHex, EffectKind::NeedlingHex.new_timer());
    d.world.step(to_ns(Duration::from_millis(1200)));
    let e = d.world.get_unique_effect(d.b, EffectKind::NeedlingHex).unwrap();
    assert_eq!(d.world.effects[e].timer.remaining_ticks(), 3);

    d.world.spawn_or_replace_unique_effect(d.b, EffectKind::NeedlingHex, EffectKind::NeedlingHex.new_timer());
    assert_eq!(d.world.effects.len(), 1);
    assert_eq!(d.world.effects_holders.len(), 1);
    let e = d.world.get_unique_effect(d.b, EffectKind::NeedlingHex).unwrap();
    assert_eq!(d.world.effects[e].timer, EffectKind::NeedlingHex.new_timer());
    assert_eq!(d.world.effects[e].timer.remaining_ticks(), 5);
}

#[test]
fn effects_of_different_kinds_live_side_by_side() {
    let mut d = spawn_duel(100, 100);
    d.world.spawn_or_replace_unique_effect(d.b, EffectKind::NeedlingHex, EffectKind::NeedlingHex.new_timer());
    d.world.spawn_or_replace_unique_effect(d.b, EffectKind::PreparedBlock, EffectKind::PreparedBlock.new_timer());
    d.world.spawn_or_replace_unique_effect(d.a, EffectKind::NeedlingHex, EffectKind::NeedlingHex.new_timer());
    assert_eq!(d.world.effects.len(), 3);
    assert_eq!(d.world.effects_holders.len(), 2);

    assert!(d.world.remove_unique_effect(d.b, EffectKind::NeedlingHex));
    assert!(!d.world.remove_unique_effect(d.b, EffectKind::NeedlingHex));
    assert_eq!(d.world.get_unique_effect(d.b, EffectKind::NeedlingHex), None);
    assert!(d.world.get_unique_effect(d.b, EffectKind::PreparedBlock).is_some());
    let e = d.world.get_unique_effect(d.a, EffectKind::NeedlingHex).unwrap();
    assert_eq!(d.world.get_target_of_effect(e), d.a);
}

#[test]
fn test_ability_specific_effects_applied() {
    let mut d = spawn_duel(100, 100);

    let damage = d.world.perform_finished_casts(&vec![CastEvent::FinishedSuccessfully {
        slot_entity: d.weapon_slot,
        ability_entity: d.attack,
        cast_target: Some(d.b),
    }]);
    assert!(!damage.is_empty(), "Should have DealDamage event");
    assert!(d.world.actors[d.b].effects_holder.is_none(), "Target should have NO HasEffects");

    let hex_e = d.world.spawn_ability(d.a, AbilityId::NeedlingHex);
    let damage = d.world.perform_finished_casts(&vec![CastEvent::FinishedSuccessfully {
        slot_entity: d.weapon_slot,
        ability_entity: hex_e,
        cast_target: Some(d.b),
    }]);
    assert!(damage.is_empty());

    let holder = d.world.actors[d.b].effects_holder;
    assert!(holder.is_some(), "Target should have HasEffects");
    let holder = holder.unwrap();
    assert!(d.world.effects.iter().any(|e| e.holder == holder), "Holder should have children");
    let found = d.world.effects.iter().any(|e| e.holder == holder && e.kind == EffectKind::NeedlingHex);
    assert!(found, "Should find NeedlingHexEffect on a child of the holder");
}

#[test]
fn test_wrong_effects() {
    let mut d = spawn_duel(100, 100);

    let damage = d.world.perform_finished_casts(&vec![CastEvent::FinishedSuccessfully {
        slot_entity: d.weapon_slot,
        ability_entity: d.attack,
        cast_target: Some(d.b),
    }]);
    assert!(!damage.is_empty(), "Should have DealDamage event");
    assert!(d.world.actors[d.b].effects_holder.is_none(), "Target should have NO HasEffects");

    let hex_e = d.world.spawn_ability_with(d.a, AbilityId::NeedlingHex, None, None, None);
    d.world.perform_finished_casts(&vec![CastEvent::FinishedSuccessfully {
        slot_entity: d.weapon_slot,
        ability_entity: hex_e,
        cast_target: Some(d.b),
    }]);

    let holder = d.world.actors[d.b].effects_holder;
    assert!(holder.is_some(), "Target should have HasEffects");
    let holder = holder.unwrap();
    assert!(d.world.effects.iter().any(|e| e.holder == holder), "Holder should have children");
    let found = d.world.effects.iter().any(|e| e.holder == holder && e.kind == EffectKind::NeedlingHex);
    assert!(found, "Should find NeedlingHexEffect on a child of the holder");
}

#[test]
fn abort_signals_are_not_performed() {
    let mut d = spawn_duel(100, 100);
    let damage = d.world.perform_finished_casts(&vec![CastEvent::Aborted {
        slot_entity: d.weapon_slot,
        ability_entity: d.attack,
        cast_target: Some(d.b),
    }]);
    assert!(damage.is_empty());
    assert!(d.world.abilities[d.attack].cooldown.is_none());
}

#[test]
fn prepared_block_goes_on_the_caster() {
    let mut d = spawn_duel(100, 100);
    let block = d.world.spawn_ability(d.a, AbilityId::PreparedBlock);
    d.world.perform_finished_casts(&vec![CastEvent::FinishedSuccessfully {
        slot_entity: d.weapon_slot,
        ability_entity: block,
        cast_target: None,
    }]);
    assert!(d.world.get_unique_effect(d.a, EffectKind::PreparedBlock).is_some());
    assert!(d.world.get_unique_effect(d.b, EffectKind::PreparedBlock).is_none());
}

#[test]
fn last_enemy_dying_ends_the_fight() {
    let mut d = spawn_duel(100, 10);
    d.world.submit_command(&user_cast(&d, d.weapon_slot, d.attack, d.b)).unwrap();
    let report = d.world.step(to_ns(Duration::from_millis(16)));
    assert_eq!(report.deaths, vec![LivenessChangeEvent::EntityDied { which: d.b }]);
    assert_eq!(
        d.world.get_fight_result(d.fight_e),
        Some(FightResult::FactionVictory { which: Faction::Player })
    );
    assert_eq!(d.world.get_fight_status(d.fight_e), FightStatus::Ended);
    assert!(d.world.get_fight_status(d.fight_e).is_ended());
    assert!(d.world.is_fight_paused(d.fight_e));

    // an ended fight cannot be unpaused, and takes no more casts
    d.world.set_fight_paused(d.fight_e, false);
    assert!(d.world.is_fight_paused(d.fight_e));
    let r = d.world.submit_command(&user_cast(&d, d.magic_slot, d.hex, d.b));
    assert_eq!(r, Err(InvalidCastReason::FightEnded));
}

#[test]
fn fight_goes_on_while_both_sides_stand() {
    let mut d = spawn_duel(100, 100);
    assert_eq!(d.world.check_fight_end(d.fight_e), EndCheckOutcome::Ongoing);
    d.world.actors[d.a].health.current = 0;
    assert_eq!(d.world.check_fight_end(d.fight_e), EndCheckOutcome::Victory { which: Faction::Enemy });
    assert_eq!(d.world.get_fight_result(d.fight_e), Some(FightResult::FactionVictory { which: Faction::Enemy }));
}

#[test]
fn fight_with_no_survivors_is_reported_and_left_undecided() {
    let mut d = spawn_duel(5, 5);
    d.world.submit_command(&user_cast(&d, d.weapon_slot, d.attack, d.b)).unwrap();
    let ai = d.world.attack_player_action(d.b).unwrap();
    assert_eq!(ai.source, GameCommandSource::AIAction);
    d.world.submit_command(&ai).unwrap();
    let report = d.world.step(to_ns(Duration::from_millis(16)));
    assert_eq!(report.deaths.len(), 2);
    assert!(report.fights_without_survivors.contains(&d.fight_e));
    assert_eq!(d.world.get_fight_result(d.fight_e), None);
}

#[test]
fn test_ai_attacks_immediately() {
    let mut d = spawn_duel(100, 100);
    // the AI does not act while its fight is paused
    assert!(!d.world.can_attack_player(d.b));
    assert_eq!(d.world.attack_player_action(d.b), None);

    d.world.set_fight_paused(d.fight_e, false);
    assert!(d.world.can_attack_player(d.b));
    let command = d.world.attack_player_action(d.b);
    assert!(command.is_some(), "AI should have submitted a command");
    let command = command.unwrap();
    match command.kind {
        GameCommandKind::UseAbility(use_ability) => {
            assert_eq!(use_ability.caster_e, d.b);
            assert_eq!(use_ability.target, Some(d.a));
        }
    }
    assert_eq!(command.kind.get_fight_e(), Some(d.fight_e));
}

#[test]
fn ai_holds_back_while_its_attack_cools_down() {
    let mut d = spawn_duel(100, 100);
    d.world.set_fight_paused(d.fight_e, false);
    let cmd = d.world.attack_player_action(d.b).unwrap();
    d.world.submit_command(&cmd).unwrap();
    d.world.step(to_ns(Duration::from_millis(16)));
    assert_eq!(d.world.actors[d.a].health.current(), 90);
    assert!(!d.world.can_attack_player(d.b));
}

#[test]
fn basic_fight_is_set_up_paused() {
    let mut world = World::new();
    let basic = world.spawn_basic_fight();
    assert!(world.is_fight_paused(basic.fight_e));
    assert_eq!(world.actors.len(), 2);
    assert_eq!(world.slots.len(), 4);
    assert_eq!(world.abilities.len(), 4);
    assert_eq!(world.get_fight_of_entity(basic.enemy_e), basic.fight_e);
    assert_eq!(world.find_character_of_cooldown(CooldownOwner::Slot(3)), basic.enemy_e);
    assert_eq!(world.find_character_of_cooldown(CooldownOwner::Ability(1)), basic.player_e);
}

#[test]
fn lose_hp_on_the_dead_fails() {
    let mut health = Health::new(10);
    assert_eq!(health.lose_hp(4), Ok(false));
    assert_eq!(health.current(), 6);
    assert_eq!(health.lose_hp(6), Ok(true));
    assert!(health.is_dead());
    assert_eq!(health.lose_hp(1), Err(AlreadyDeadError));
    assert_eq!(health.current(), 0);
    assert_eq!(health.max(), 10);
}

#[test]
fn factions_tell_friend_from_foe() {
    assert!(Faction::Player.is_friendly(&Faction::Player));
    assert!(Faction::Player.is_enemy(&Faction::Enemy));
    let combatants = vec![(0, Faction::Player), (1, Faction::Enemy)];
    assert_eq!(Faction::Player.find_single_enemy(&combatants), Some((1, Faction::Enemy)));
    let crowd = vec![(0, Faction::Player), (1, Faction::Enemy), (2, Faction::Enemy)];
    assert_eq!(Faction::Player.find_single_enemy(&crowd), None);
    assert_eq!(Faction::Enemy.find_single_enemy(&crowd), Some((0, Faction::Player)));
}

#[test]
fn remaining_time_label_picks_the_coarsest_unit() {
    assert_eq!(RemainingTimeLabel::from_nanos(2_300_000_000), RemainingTimeLabel::SecondsAndTenths(2, 3));
    assert_eq!(RemainingTimeLabel::from_nanos(12_300_000_000), RemainingTimeLabel::Seconds(12));
    assert_eq!(RemainingTimeLabel::from_nanos(125_000_000_000), RemainingTimeLabel::Minutes(2));
    let split = SplitDuration::from_millis(3 * 86_400_000 + 5);
    assert_eq!(RemainingTimeLabel::from_split(&split), RemainingTimeLabel::Days(3));
}
