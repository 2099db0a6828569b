use dinocore::{Battle, BattleResult, Dino, Species, Team};

#[test]
fn velociraptor_and_brachiosaurus_trade_into_stalemate() {
    // Round 1: left deals 4 (right at 3), right deals max(1, 1-0) = 1
    // (left at 1). Round 2: right dies at -1, left dies at 0 — both fall
    // in the same round.
    let left = Team::new(vec![Dino::velociraptor()]);
    let right = Team::new(vec![Dino::brachiosaurus()]);
    let result = Battle::new(left, right).battle();
    assert_eq!(result, BattleResult::Stalemate);
}

#[test]
fn triceratops_outlasts_velociraptor() {
    // Round 1: left deals max(1, 3-0) = 3, right dies at -1; right deals
    // max(1, 4-2) = 2, left survives at 2.
    let left = Team::new(vec![Dino::triceratops()]);
    let right = Team::new(vec![Dino::velociraptor()]);
    let result = Battle::new(left, right).battle();
    assert_eq!(result, BattleResult::LeftWins);
}

#[test]
fn two_empty_rosters_are_a_stalemate() {
    let result = Battle::new(Team::new(vec![]), Team::new(vec![])).battle();
    assert_eq!(result, BattleResult::Stalemate);
}

#[test]
fn empty_left_loses_immediately() {
    let left = Team::new(vec![]);
    let right = Team::new(vec![Dino::dilophosaurus()]);
    let result = Battle::new(left, right).battle();
    assert_eq!(result, BattleResult::RightWins);
}

#[test]
fn empty_right_loses_immediately() {
    let left = Team::new(vec![Dino::dilophosaurus()]);
    let right = Team::new(vec![]);
    let result = Battle::new(left, right).battle();
    assert_eq!(result, BattleResult::LeftWins);
}

#[test]
fn infight_thins_tyrannosaurus_teammates() {
    // Left: two Tyrannosaurus (infight 2 each). Right: one Velociraptor
    // with no splash, so teammate B takes no direct enemy damage. After
    // the round, B has lost exactly max(1, 2-1) = 1 health, purely from
    // the active creature's infight; A took 3 from the enemy and 1 from
    // infight and died at 0.
    let left = Team::new(vec![Dino::tyrannosaurus(), Dino::tyrannosaurus()]);
    let right = Team::new(vec![Dino::velociraptor()]);
    let after = Battle::new(left, right).battle_one();
    assert_eq!(after.left.len(), 1);
    let survivor = after.left.dino_at(0);
    assert_eq!(survivor.species, Species::Tyrannosaurus);
    assert_eq!(survivor.health, 3);
    // The Velociraptor took the full 5 attack and died.
    assert!(after.right.is_dead());
}

#[test]
fn tyrannosaurus_pair_beats_lone_velociraptor() {
    let left = Team::new(vec![Dino::tyrannosaurus(), Dino::tyrannosaurus()]);
    let right = Team::new(vec![Dino::velociraptor()]);
    let result = Battle::new(left, right).battle();
    assert_eq!(result, BattleResult::LeftWins);
}

#[test]
fn battle_one_without_active_creature_changes_nothing() {
    let left = Team::new(vec![Dino::triceratops()]);
    let right = Team::new(vec![]);
    let after = Battle::new(left, right).battle_one();
    assert_eq!(after.left.len(), 1);
    assert_eq!(after.left.dino_at(0).health, 4);
    assert!(after.right.is_dead());
}

#[test]
fn mirror_velociraptors_fall_together() {
    let left = Team::new(vec![Dino::velociraptor()]);
    let right = Team::new(vec![Dino::velociraptor()]);
    let result = Battle::new(left, right).battle();
    assert_eq!(result, BattleResult::Stalemate);
}

#[test]
fn heal_applies_before_damage() {
    // Left: two Pteranodons. The active one heals its teammate from 1 to
    // 2 before the Dilophosaurus splash lands, so the teammate survives
    // at 1; without heal-before-damage it would have died.
    let left = Team::new(vec![Dino::pteranodon(), Dino::pteranodon()]);
    let right = Team::new(vec![Dino::dilophosaurus()]);
    let after = Battle::new(left, right).battle_one();
    assert_eq!(after.left.len(), 1);
    assert_eq!(after.left.dino_at(0).species, Species::Pteranodon);
    assert_eq!(after.left.dino_at(0).health, 1);
    assert!(after.right.is_dead());
}

#[test]
fn pteranodon_pair_trades_down_to_stalemate() {
    // Round 1: left active dies (healed teammate survives at 2), right
    // Velociraptor is chipped to 1. Round 2: both remaining creatures
    // fall in the same exchange.
    let left = Team::new(vec![Dino::pteranodon(), Dino::pteranodon()]);
    let right = Team::new(vec![Dino::velociraptor()]);
    let result = Battle::new(left, right).battle();
    assert_eq!(result, BattleResult::Stalemate);
}

#[test]
fn random_battle_reaches_a_verdict() {
    let result = Battle::new(Team::random_team(), Team::random_team()).battle();
    assert!(matches!(
        result,
        BattleResult::LeftWins | BattleResult::RightWins | BattleResult::Stalemate
    ));
}
