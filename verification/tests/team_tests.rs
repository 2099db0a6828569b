use dinocore::{Dino, Species, Team, TEAM_CAP};

fn healths(team: &Team) -> Vec<i64> {
    let mut out = Vec::new();
    for i in 0..team.len() {
        out.push(team.dino_at(i).health);
    }
    out
}

fn species_list(team: &Team) -> Vec<Species> {
    let mut out = Vec::new();
    for i in 0..team.len() {
        out.push(team.dino_at(i).species);
    }
    out
}

#[test]
fn damage_drops_dead_and_preserves_order() {
    let team = Team::new(vec![
        Dino::velociraptor(),
        Dino::brachiosaurus(),
        Dino::triceratops(),
    ]);
    // Velociraptor (health 2) takes 4 and dies; the others are chipped.
    let after = team.damage(vec![4, 1, 1, 0, 0, 0, 0, 0]);
    assert_eq!(
        species_list(&after),
        vec![Species::Brachiosaurus, Species::Triceratops]
    );
    assert_eq!(healths(&after), vec![6, 3]);
}

#[test]
fn damage_vector_indexed_by_live_position() {
    // Both creatures take their own slot's amount: 1 and 3.
    let team = Team::new(vec![Dino::brachiosaurus(), Dino::brachiosaurus()]);
    let after = team.damage(vec![1, 3, 0, 0, 0, 0, 0, 0]);
    assert_eq!(healths(&after), vec![6, 4]);
}

#[test]
fn damage_can_empty_a_team() {
    let team = Team::new(vec![Dino::pteranodon(), Dino::pteranodon()]);
    let after = team.damage(vec![5, 5, 0, 0, 0, 0, 0, 0]);
    assert!(after.is_dead());
    assert_eq!(after.len(), 0);
}

#[test]
fn infight_hits_only_matching_species() {
    let team = Team::new(vec![
        Dino::tyrannosaurus(),
        Dino::velociraptor(),
        Dino::tyrannosaurus(),
    ]);
    // Tyrannosaurus defense 1: infight 2 deals 1 to each of them; the
    // Velociraptor passes through untouched.
    let after = team.infight(2, Species::Tyrannosaurus);
    assert_eq!(
        species_list(&after),
        vec![
            Species::Tyrannosaurus,
            Species::Velociraptor,
            Species::Tyrannosaurus
        ]
    );
    assert_eq!(healths(&after), vec![3, 2, 3]);
}

#[test]
fn infight_drops_matching_dead() {
    let team = Team::new(vec![Dino::pteranodon(), Dino::tyrannosaurus()]);
    // Pteranodon (health 1, defense 0) takes 5 and dies.
    let after = team.infight(5, Species::Pteranodon);
    assert_eq!(species_list(&after), vec![Species::Tyrannosaurus]);
    assert_eq!(healths(&after), vec![4]);
}

#[test]
fn heal_removes_no_one_and_keeps_order() {
    let team = Team::new(vec![Dino::pteranodon(), Dino::velociraptor()]);
    let after = team.heal(vec![0, 2, 0, 0, 0, 0, 0, 0]);
    assert_eq!(
        species_list(&after),
        vec![Species::Pteranodon, Species::Velociraptor]
    );
    assert_eq!(healths(&after), vec![1, 4]);
}

#[test]
fn empty_team_is_dead() {
    let team = Team::new(vec![]);
    assert!(team.is_dead());
    assert!(team.first_dino().is_none());
}

#[test]
fn first_dino_is_front_of_roster() {
    let team = Team::new(vec![Dino::dilophosaurus(), Dino::tyrannosaurus()]);
    assert!(!team.is_dead());
    let front = team.first_dino().unwrap();
    assert_eq!(front.species, Species::Dilophosaurus);
}

#[test]
fn random_team_is_full_of_fresh_catalog_creatures() {
    let team = Team::random_team();
    assert_eq!(team.len(), TEAM_CAP);
    for i in 0..team.len() {
        let d = team.dino_at(i);
        let fresh = Dino::from_species(d.species);
        assert_eq!(d.health, fresh.health);
        assert_eq!(d.attack, fresh.attack);
        assert_eq!(d.defense, fresh.defense);
        assert_eq!(d.heal, fresh.heal);
        assert_eq!(d.splash, fresh.splash);
        assert_eq!(d.infight, fresh.infight);
        assert!(d.health > 0);
    }
}
