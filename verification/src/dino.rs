//! Creatures: the species catalog, per-creature combat operations, and the
//! damage/heal vectors a creature emits each round.

use vstd::prelude::*;

verus! {

/// Maximum number of creatures a team can hold.
pub const TEAM_CAP: usize = 8;

/// The closed catalog of species. Each species maps to exactly one fixed
/// stat template, given by [`species_template`].
#[derive(Copy, Clone, Debug, PartialEq, Eq, Structural)]
pub enum Species {
    Tyrannosaurus,
    Velociraptor,
    Triceratops,
    Brachiosaurus,
    Pteranodon,
    Dilophosaurus,
}

/// Mathematical model of a creature: the species tag plus all stats as
/// unbounded integers. Health is signed and may go negative transiently;
/// a creature is dead iff its health is `<= 0`.
pub ghost struct DinoModel {
    pub species: Species,
    pub health: int,
    pub attack: int,
    pub defense: int,
    pub heal: int,
    pub splash: int,
    pub infight: int,
}

impl DinoModel {
    /// The fixed (non-health) stats are nonnegative, and small enough that
    /// the primary-attack slot of a damage vector fits the machine width.
    pub open spec fn stats_wf(self) -> bool {
        &&& 0 <= self.attack
        &&& 0 <= self.defense
        &&& 0 <= self.heal
        &&& 0 <= self.splash
        &&& 0 <= self.infight
        &&& self.attack + self.splash <= i64::MAX
    }

    /// A creature is dead iff its health is zero or below.
    pub open spec fn is_dead(self) -> bool {
        self.health <= 0
    }

    /// The creature after taking `amount` incoming damage: health drops by
    /// the effective damage, all other stats are unchanged.
    pub open spec fn damaged(self, amount: int) -> DinoModel {
        DinoModel { health: self.health - effective_damage(self.defense, amount), ..self }
    }

    /// The creature after being healed by `amount`: health rises by
    /// `amount`, capped at the machine width; all other stats unchanged.
    /// Overheal is otherwise unbounded (there is no species-level cap).
    pub open spec fn healed(self, amount: int) -> DinoModel {
        DinoModel { health: capped_add(self.health, amount), ..self }
    }
}

/// Effective damage dealt to a creature with the given defense. No incoming
/// damage means no effect; a positive incoming amount is reduced by defense
/// but never fully negated or inverted — the chip floor is always 1.
pub open spec fn effective_damage(defense: int, amount: int) -> int {
    if amount <= 0 {
        0
    } else if amount - defense >= 1 {
        amount - defense
    } else {
        1
    }
}

/// Addition capped at `i64::MAX`, the health ceiling the implementation can
/// represent.
pub open spec fn capped_add(health: int, amount: int) -> int {
    if health + amount <= i64::MAX {
        health + amount
    } else {
        i64::MAX as int
    }
}

/// The damage floor: for every defense `d >= 0` and every positive incoming
/// amount `a`, the effective damage is `max(1, a - d) >= 1` — defense can
/// weaken a hit but never negate or invert it, even when `d >= a`.
pub proof fn lemma_damage_floor(defense: int, amount: int)
    requires
        0 <= defense,
        0 < amount,
    ensures
        effective_damage(defense, amount) >= 1,
        amount - defense >= 1 ==> effective_damage(defense, amount) == amount - defense,
        amount - defense < 1 ==> effective_damage(defense, amount) == 1,
{
}

/// A sequence of machine integers, seen as unbounded integers.
pub open spec fn ints_of(values: Seq<i64>) -> Seq<int> {
    values.map_values(|x: i64| x as int)
}

/// The damage vector a creature emits: `splash` lands on every enemy slot,
/// and `attack` is added on top of splash at slot 0, the enemy's active
/// slot.
pub open spec fn damage_vector(dino: DinoModel) -> Seq<int> {
    Seq::new(TEAM_CAP as nat, |i: int| if i == 0 { dino.attack + dino.splash } else { dino.splash })
}

/// The heal vector a creature emits towards its own team: `heal` for every
/// slot except slot 0, which is forced to 0 — slot 0 is the healer itself,
/// and healers do not self-heal.
pub open spec fn heal_vector(dino: DinoModel) -> Seq<int> {
    Seq::new(TEAM_CAP as nat, |i: int| if i == 0 { 0 } else { dino.heal })
}

/// The fixed stat template of each species.
pub open spec fn species_template(species: Species) -> DinoModel {
    match species {
        Species::Tyrannosaurus => DinoModel {
            species,
            health: 4,
            attack: 5,
            defense: 1,
            heal: 0,
            splash: 0,
            infight: 2,
        },
        Species::Velociraptor => DinoModel {
            species,
            health: 2,
            attack: 4,
            defense: 0,
            heal: 0,
            splash: 0,
            infight: 0,
        },
        Species::Triceratops => DinoModel {
            species,
            health: 4,
            attack: 3,
            defense: 2,
            heal: 0,
            splash: 0,
            infight: 0,
        },
        Species::Brachiosaurus => DinoModel {
            species,
            health: 7,
            attack: 1,
            defense: 0,
            heal: 0,
            splash: 0,
            infight: 0,
        },
        Species::Pteranodon => DinoModel {
            species,
            health: 1,
            attack: 1,
            defense: 0,
            heal: 1,
            splash: 0,
            infight: 0,
        },
        Species::Dilophosaurus => DinoModel {
            species,
            health: 1,
            attack: 0,
            defense: 0,
            heal: 0,
            splash: 1,
            infight: 0,
        },
    }
}

/// Every catalog template is well formed and starts alive.
pub proof fn lemma_template_wf(species: Species)
    ensures
        species_template(species).stats_wf(),
        species_template(species).health > 0,
        species_template(species).species == species,
        species_template(species).attack + species_template(species).splash >= 1,
{
}

/// One creature. Stats other than health are fixed per species; health
/// changes across rounds and may go negative transiently (death is decided
/// by [`Dino::is_dead`], not by flooring at zero).
#[derive(Copy, Clone, Debug)]
pub struct Dino {
    pub species: Species,
    pub health: i64,
    pub attack: i64,
    pub defense: i64,
    pub heal: i64,
    pub splash: i64,
    pub infight: i64,
}

impl View for Dino {
    type V = DinoModel;

    open spec fn view(&self) -> DinoModel {
        DinoModel {
            species: self.species,
            health: self.health as int,
            attack: self.attack as int,
            defense: self.defense as int,
            heal: self.heal as int,
            splash: self.splash as int,
            infight: self.infight as int,
        }
    }
}

impl Dino {
    pub fn tyrannosaurus() -> (dino: Dino)
        ensures
            dino@ == species_template(Species::Tyrannosaurus),
    {
        Dino {
            species: Species::Tyrannosaurus,
            health: 4,
            attack: 5,
            defense: 1,
            heal: 0,
            splash: 0,
            infight: 2,
        }
    }

    pub fn velociraptor() -> (dino: Dino)
        ensures
            dino@ == species_template(Species::Velociraptor),
    {
        Dino {
            species: Species::Velociraptor,
            health: 2,
            attack: 4,
            defense: 0,
            heal: 0,
            splash: 0,
            infight: 0,
        }
    }

    pub fn triceratops() -> (dino: Dino)
        ensures
            dino@ == species_template(Species::Triceratops),
    {
        Dino {
            species: Species::Triceratops,
            health: 4,
            attack: 3,
            defense: 2,
            heal: 0,
            splash: 0,
            infight: 0,
        }
    }

    pub fn brachiosaurus() -> (dino: Dino)
        ensures
            dino@ == species_template(Species::Brachiosaurus),
    {
        Dino {
            species: Species::Brachiosaurus,
            health: 7,
            attack: 1,
            defense: 0,
            heal: 0,
            splash: 0,
            infight: 0,
        }
    }

    pub fn pteranodon() -> (dino: Dino)
        ensures
            dino@ == species_template(Species::Pteranodon),
    {
        Dino {
            species: Species::Pteranodon,
            health: 1,
            attack: 1,
            defense: 0,
            heal: 1,
            splash: 0,
            infight: 0,
        }
    }

    pub fn dilophosaurus() -> (dino: Dino)
        ensures
            dino@ == species_template(Species::Dilophosaurus),
    {
        Dino {
            species: Species::Dilophosaurus,
            health: 1,
            attack: 0,
            defense: 0,
            heal: 0,
            splash: 1,
            infight: 0,
        }
    }

    /// The fresh creature of the given species, straight from the catalog.
    pub fn from_species(species: Species) -> (dino: Dino)
        ensures
            dino@ == species_template(species),
    {
        match species {
            Species::Tyrannosaurus => Dino::tyrannosaurus(),
            Species::Velociraptor => Dino::velociraptor(),
            Species::Triceratops => Dino::triceratops(),
            Species::Brachiosaurus => Dino::brachiosaurus(),
            Species::Pteranodon => Dino::pteranodon(),
            Species::Dilophosaurus => Dino::dilophosaurus(),
        }
    }

    /// Apply `amount` incoming damage: health drops by the effective damage
    /// (`amount` minus defense, floored at 1); nothing else changes.
    pub fn damage(self, amount: i64) -> (dino: Dino)
        requires
            0 <= amount,
            0 <= self@.defense,
            0 < self@.health,
        ensures
            dino@ == self@.damaged(amount as int),
    {
        let actual = if amount <= 0 {
            0
        } else {
            let reduced = amount - self.defense;
            if reduced >= 1 {
                reduced
            } else {
                1
            }
        };
        Dino { health: self.health - actual, ..self }
    }

    /// Apply `amount` healing: health rises by `amount` (capped only at the
    /// machine width); nothing else changes. Healing never kills.
    pub fn heal(self, amount: i64) -> (dino: Dino)
        requires
            0 <= amount,
        ensures
            dino@ == self@.healed(amount as int),
    {
        let health = if self.health <= i64::MAX - amount {
            self.health + amount
        } else {
            i64::MAX
        };
        Dino { health, ..self }
    }

    /// A creature is dead iff its health is zero or below.
    pub fn is_dead(self) -> (dead: bool)
        ensures
            dead == self@.is_dead(),
    {
        self.health <= 0
    }

    /// The damage vector this creature emits against the enemy team.
    pub fn to_damage(&self) -> (v: Vec<i64>)
        requires
            0 <= self@.attack,
            0 <= self@.splash,
            self@.attack + self@.splash <= i64::MAX,
        ensures
            ints_of(v@) == damage_vector(self@),
            v@.len() == TEAM_CAP,
            v@[0] == self@.attack + self@.splash,
            forall|i: int| 1 <= i < v@.len() ==> #[trigger] v@[i] == self@.splash,
    {
        let mut v: Vec<i64> = Vec::new();
        v.push(self.attack + self.splash);
        let mut i: usize = 1;
        while i < TEAM_CAP
            invariant
                1 <= i <= TEAM_CAP,
                v@.len() == i,
                v@[0] == self.attack + self.splash,
                forall|j: int| 1 <= j < i ==> #[trigger] v@[j] == self.splash,
            decreases TEAM_CAP - i,
        {
            v.push(self.splash);
            i += 1;
        }
        proof {
            assert(ints_of(v@) =~= damage_vector(self@));
        }
        v
    }

    /// The heal vector this creature emits towards its own team: slot 0 is
    /// always 0 (no self-heal), every other slot gets the heal stat.
    pub fn to_healing(&self) -> (v: Vec<i64>)
        ensures
            ints_of(v@) == heal_vector(self@),
            v@.len() == TEAM_CAP,
            v@[0] == 0,
            forall|i: int| 1 <= i < v@.len() ==> #[trigger] v@[i] == self@.heal,
    {
        let mut v: Vec<i64> = Vec::new();
        v.push(0);
        let mut i: usize = 1;
        while i < TEAM_CAP
            invariant
                1 <= i <= TEAM_CAP,
                v@.len() == i,
                v@[0] == 0,
                forall|j: int| 1 <= j < i ==> #[trigger] v@[j] == self.heal,
            decreases TEAM_CAP - i,
        {
            v.push(self.heal);
            i += 1;
        }
        proof {
            assert(ints_of(v@) =~= heal_vector(self@));
        }
        v
    }
}

} // verus!
