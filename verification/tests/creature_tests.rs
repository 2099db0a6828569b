use dinocore::{Dino, Species, TEAM_CAP};

#[test]
fn damage_floor_when_defense_exceeds_attack() {
    // Triceratops has defense 2; incoming 1 still chips the minimum of 1.
    let d = Dino::triceratops().damage(1);
    assert_eq!(d.health, 3);
}

#[test]
fn damage_reduced_by_defense() {
    // Tyrannosaurus has health 4, defense 1: incoming 4 deals 3.
    let d = Dino::tyrannosaurus().damage(4);
    assert_eq!(d.health, 1);
}

#[test]
fn zero_incoming_damage_has_no_effect() {
    let d = Dino::velociraptor().damage(0);
    assert_eq!(d.health, 2);
}

#[test]
fn heal_increases_health_without_cap() {
    let d = Dino::pteranodon().heal(3);
    assert_eq!(d.health, 4);
    let d = d.heal(100);
    assert_eq!(d.health, 104);
}

#[test]
fn heal_zero_is_identity() {
    let d = Dino::brachiosaurus().heal(0);
    assert_eq!(d.health, 7);
}

#[test]
fn dead_iff_health_at_most_zero() {
    let alive = Dino::velociraptor();
    assert!(!alive.is_dead());
    let exactly_dead = alive.damage(2);
    assert_eq!(exactly_dead.health, 0);
    assert!(exactly_dead.is_dead());
    let overkilled = Dino::velociraptor().damage(100);
    assert!(overkilled.health < 0);
    assert!(overkilled.is_dead());
}

#[test]
fn catalog_stats() {
    let t = Dino::tyrannosaurus();
    assert_eq!(
        (t.health, t.attack, t.defense, t.heal, t.splash, t.infight),
        (4, 5, 1, 0, 0, 2)
    );
    let v = Dino::velociraptor();
    assert_eq!(
        (v.health, v.attack, v.defense, v.heal, v.splash, v.infight),
        (2, 4, 0, 0, 0, 0)
    );
    let c = Dino::triceratops();
    assert_eq!(
        (c.health, c.attack, c.defense, c.heal, c.splash, c.infight),
        (4, 3, 2, 0, 0, 0)
    );
    let b = Dino::brachiosaurus();
    assert_eq!(
        (b.health, b.attack, b.defense, b.heal, b.splash, b.infight),
        (7, 1, 0, 0, 0, 0)
    );
    let p = Dino::pteranodon();
    assert_eq!(
        (p.health, p.attack, p.defense, p.heal, p.splash, p.infight),
        (1, 1, 0, 1, 0, 0)
    );
    let d = Dino::dilophosaurus();
    assert_eq!(
        (d.health, d.attack, d.defense, d.heal, d.splash, d.infight),
        (1, 0, 0, 0, 1, 0)
    );
}

#[test]
fn from_species_matches_constructors() {
    for (species, expected) in [
        (Species::Tyrannosaurus, Dino::tyrannosaurus()),
        (Species::Velociraptor, Dino::velociraptor()),
        (Species::Triceratops, Dino::triceratops()),
        (Species::Brachiosaurus, Dino::brachiosaurus()),
        (Species::Pteranodon, Dino::pteranodon()),
        (Species::Dilophosaurus, Dino::dilophosaurus()),
    ] {
        let d = Dino::from_species(species);
        assert_eq!(d.species, expected.species);
        assert_eq!(d.health, expected.health);
        assert_eq!(d.attack, expected.attack);
        assert_eq!(d.defense, expected.defense);
        assert_eq!(d.heal, expected.heal);
        assert_eq!(d.splash, expected.splash);
        assert_eq!(d.infight, expected.infight);
    }
}

#[test]
fn damage_vector_adds_attack_only_to_front() {
    // A creature with attack 5 and splash 1: splash lands everywhere,
    // attack only on the enemy's active slot.
    let d = Dino {
        species: Species::Dilophosaurus,
        health: 3,
        attack: 5,
        defense: 0,
        heal: 0,
        splash: 1,
        infight: 0,
    };
    let v = d.to_damage();
    assert_eq!(v.len(), TEAM_CAP);
    assert_eq!(v[0], 6);
    for i in 1..TEAM_CAP {
        assert_eq!(v[i], 1);
    }
}

#[test]
fn damage_vector_of_pure_attacker() {
    let v = Dino::tyrannosaurus().to_damage();
    assert_eq!(v, vec![5, 0, 0, 0, 0, 0, 0, 0]);
}

#[test]
fn damage_vector_of_splasher() {
    let v = Dino::dilophosaurus().to_damage();
    assert_eq!(v, vec![1, 1, 1, 1, 1, 1, 1, 1]);
}

#[test]
fn heal_vector_excludes_self() {
    let v = Dino::pteranodon().to_healing();
    assert_eq!(v, vec![0, 1, 1, 1, 1, 1, 1, 1]);
}

#[test]
fn heal_vector_front_is_zero_for_any_heal_stat() {
    let d = Dino {
        species: Species::Pteranodon,
        health: 1,
        attack: 1,
        defense: 0,
        heal: 9,
        splash: 0,
        infight: 0,
    };
    let v = d.to_healing();
    assert_eq!(v[0], 0);
    for i in 1..TEAM_CAP {
        assert_eq!(v[i], 9);
    }
}
