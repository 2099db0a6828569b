//! Teams: an ordered roster of at most [`TEAM_CAP`] live creatures, with the
//! collection-wide transformations of one combat round. Every operation is
//! pure: it returns a new team and leaves the input unchanged. Dead
//! creatures are dropped immediately; the relative order of survivors is
//! always preserved.

use vstd::prelude::*;
use crate::dino::{Dino, DinoModel, Species, TEAM_CAP, ints_of, lemma_template_wf, species_template};

verus! {

/// The models of a sequence of creatures.
pub open spec fn dinos_view(dinos: Seq<Dino>) -> Seq<DinoModel> {
    dinos.map_values(|d: Dino| d@)
}

/// A well-formed team: at most [`TEAM_CAP`] creatures, every creature has
/// well-formed stats, and every creature is alive (dead ones are removed
/// the moment they die, so they never sit in a roster).
pub open spec fn team_wf(team: Seq<DinoModel>) -> bool {
    &&& team.len() <= TEAM_CAP
    &&& forall|i: int|
        0 <= i < team.len() ==> ((#[trigger] team[i]).stats_wf() && 0 < team[i].health <= i64::MAX)
}

/// Every creature of the team threatens: its attack and splash together
/// deal at least 1, so the enemy's active creature can never be left
/// untouched by a round. Every catalog species satisfies this; it is what
/// guarantees that a battle between such teams terminates.
pub open spec fn team_threat(team: Seq<DinoModel>) -> bool {
    forall|i: int| 0 <= i < team.len() ==> 1 <= (#[trigger] team[i]).attack + team[i].splash
}

/// What one creature contributes to the after-damage roster: the damaged
/// creature if it survives the hit, nothing if it dies.
pub open spec fn damage_survivor(dino: DinoModel, amount: int) -> Seq<DinoModel> {
    if dino.damaged(amount).is_dead() {
        Seq::empty()
    } else {
        seq![dino.damaged(amount)]
    }
}

/// What one creature contributes to the after-infight roster: creatures of
/// other species pass through untouched; creatures of the infighter's own
/// species take the infight damage and are dropped if they die.
pub open spec fn infight_survivor(dino: DinoModel, amount: int, species: Species) -> Seq<
    DinoModel,
> {
    if dino.species == species {
        damage_survivor(dino, amount)
    } else {
        seq![dino]
    }
}

/// Apply a damage vector: the creature at live position `i` takes
/// `v[i]` damage; survivors are kept in order, the dead are dropped.
pub open spec fn apply_damage(team: Seq<DinoModel>, v: Seq<int>) -> Seq<DinoModel>
    decreases team.len(),
{
    if team.len() == 0 {
        Seq::empty()
    } else {
        damage_survivor(team[0], v[0]) + apply_damage(team.drop_first(), v.drop_first())
    }
}

/// Apply infight damage: every creature of the given species takes
/// `amount` damage and is dropped if it dies; all others pass through.
pub open spec fn apply_infight(team: Seq<DinoModel>, amount: int, species: Species) -> Seq<
    DinoModel,
>
    decreases team.len(),
{
    if team.len() == 0 {
        Seq::empty()
    } else {
        infight_survivor(team[0], amount, species) + apply_infight(
            team.drop_first(),
            amount,
            species,
        )
    }
}

/// Apply a heal vector: the creature at position `i` is healed by `v[i]`.
/// Healing removes no one.
pub open spec fn apply_heal(team: Seq<DinoModel>, v: Seq<int>) -> Seq<DinoModel> {
    Seq::new(team.len(), |i: int| team[i].healed(v[i]))
}

proof fn lemma_apply_damage_push(team: Seq<DinoModel>, v: Seq<int>, dino: DinoModel)
    requires
        team.len() < v.len(),
    ensures
        apply_damage(team.push(dino), v) == apply_damage(team, v) + damage_survivor(
            dino,
            v[team.len() as int],
        ),
    decreases team.len(),
{
    let grown = team.push(dino);
    if team.len() == 0 {
        reveal_with_fuel(apply_damage, 2);
        assert(grown.drop_first() =~= Seq::<DinoModel>::empty());
        assert(apply_damage(grown, v) =~= apply_damage(team, v) + damage_survivor(dino, v[0]));
    } else {
        assert(grown.drop_first() =~= team.drop_first().push(dino));
        lemma_apply_damage_push(team.drop_first(), v.drop_first(), dino);
        assert(v.drop_first()[team.len() - 1] == v[team.len() as int]);
        assert(apply_damage(grown, v) =~= apply_damage(team, v) + damage_survivor(
            dino,
            v[team.len() as int],
        ));
    }
}

proof fn lemma_apply_infight_push(
    team: Seq<DinoModel>,
    amount: int,
    species: Species,
    dino: DinoModel,
)
    ensures
        apply_infight(team.push(dino), amount, species) == apply_infight(team, amount, species)
            + infight_survivor(dino, amount, species),
    decreases team.len(),
{
    let grown = team.push(dino);
    if team.len() == 0 {
        reveal_with_fuel(apply_infight, 2);
        assert(grown.drop_first() =~= Seq::<DinoModel>::empty());
        assert(apply_infight(grown, amount, species) =~= apply_infight(team, amount, species)
            + infight_survivor(dino, amount, species));
    } else {
        assert(grown.drop_first() =~= team.drop_first().push(dino));
        lemma_apply_infight_push(team.drop_first(), amount, species, dino);
        assert(apply_infight(grown, amount, species) =~= apply_infight(team, amount, species)
            + infight_survivor(dino, amount, species));
    }
}

/// Facts about a damage application: the roster never grows, a well-formed
/// team stays well formed, and when nobody died the active slot holds
/// exactly the damaged active creature.
pub proof fn lemma_apply_damage_props(team: Seq<DinoModel>, v: Seq<int>)
    ensures
        apply_damage(team, v).len() <= team.len(),
        team_wf(team) ==> team_wf(apply_damage(team, v)),
        team_threat(team) ==> team_threat(apply_damage(team, v)),
        team.len() > 0 && apply_damage(team, v).len() == team.len() ==> apply_damage(team, v)[0]
            == team[0].damaged(v[0]),
    decreases team.len(),
{
    if team.len() > 0 {
        lemma_apply_damage_props(team.drop_first(), v.drop_first());
        if team_threat(team) {
            assert forall|i: int| 0 <= i < team.drop_first().len() implies 1 <= (
            #[trigger] team.drop_first()[i]).attack + team.drop_first()[i].splash by {
                assert(team.drop_first()[i] == team[i + 1]);
            }
            let out = apply_damage(team, v);
            assert forall|i: int| 0 <= i < out.len() implies 1 <= (#[trigger] out[i]).attack
                + out[i].splash by {
                let rest = apply_damage(team.drop_first(), v.drop_first());
                if team[0].damaged(v[0]).is_dead() {
                    assert(out[i] == rest[i]);
                } else {
                    if i == 0 {
                        assert(out[0] == team[0].damaged(v[0]));
                    } else {
                        assert(out[i] == rest[i - 1]);
                    }
                }
            }
        }
        if team_wf(team) {
            assert forall|i: int| 0 <= i < team.drop_first().len() implies ((
            #[trigger] team.drop_first()[i]).stats_wf() && 0 < team.drop_first()[i].health
                <= i64::MAX) by {
                assert(team.drop_first()[i] == team[i + 1]);
            }
            let out = apply_damage(team, v);
            assert forall|i: int| 0 <= i < out.len() implies ((#[trigger] out[i]).stats_wf() && 0
                < out[i].health <= i64::MAX) by {
                let rest = apply_damage(team.drop_first(), v.drop_first());
                if team[0].damaged(v[0]).is_dead() {
                    assert(out[i] == rest[i]);
                } else {
                    if i == 0 {
                        assert(out[0] == team[0].damaged(v[0]));
                    } else {
                        assert(out[i] == rest[i - 1]);
                    }
                }
            }
        }
    }
}

/// Facts about an infight application: the roster never grows, a
/// well-formed team stays well formed, and when nobody died the active
/// slot's health has not increased.
pub proof fn lemma_apply_infight_props(team: Seq<DinoModel>, amount: int, species: Species)
    ensures
        apply_infight(team, amount, species).len() <= team.len(),
        team_wf(team) ==> team_wf(apply_infight(team, amount, species)),
        team_threat(team) ==> team_threat(apply_infight(team, amount, species)),
        team.len() > 0 && apply_infight(team, amount, species).len() == team.len()
            ==> apply_infight(team, amount, species)[0].health <= team[0].health,
    decreases team.len(),
{
    if team.len() > 0 {
        lemma_apply_infight_props(team.drop_first(), amount, species);
        if team_threat(team) {
            assert forall|i: int| 0 <= i < team.drop_first().len() implies 1 <= (
            #[trigger] team.drop_first()[i]).attack + team.drop_first()[i].splash by {
                assert(team.drop_first()[i] == team[i + 1]);
            }
            let out = apply_infight(team, amount, species);
            assert forall|i: int| 0 <= i < out.len() implies 1 <= (#[trigger] out[i]).attack
                + out[i].splash by {
                let rest = apply_infight(team.drop_first(), amount, species);
                let head = infight_survivor(team[0], amount, species);
                if i < head.len() {
                    assert(out[i] == head[0]);
                } else {
                    assert(out[i] == rest[i - head.len()]);
                }
            }
        }
        if team_wf(team) {
            assert forall|i: int| 0 <= i < team.drop_first().len() implies ((
            #[trigger] team.drop_first()[i]).stats_wf() && 0 < team.drop_first()[i].health
                <= i64::MAX) by {
                assert(team.drop_first()[i] == team[i + 1]);
            }
            let out = apply_infight(team, amount, species);
            assert forall|i: int| 0 <= i < out.len() implies ((#[trigger] out[i]).stats_wf() && 0
                < out[i].health <= i64::MAX) by {
                let rest = apply_infight(team.drop_first(), amount, species);
                let head = infight_survivor(team[0], amount, species);
                if i < head.len() {
                    assert(out[i] == head[0]);
                } else {
                    assert(out[i] == rest[i - head.len()]);
                }
            }
        }
    }
}

/// Facts about a heal application with nonnegative amounts: nobody is
/// removed, each creature is healed pointwise, a well-formed team stays
/// well formed, and a zero amount at slot 0 leaves the active creature's
/// health untouched.
pub proof fn lemma_apply_heal_props(team: Seq<DinoModel>, v: Seq<int>)
    requires
        forall|i: int| 0 <= i < team.len() ==> 0 <= #[trigger] v[i],
    ensures
        apply_heal(team, v).len() == team.len(),
        forall|i: int|
            0 <= i < team.len() ==> #[trigger] apply_heal(team, v)[i] == team[i].healed(v[i]),
        team_wf(team) ==> team_wf(apply_heal(team, v)),
        team_threat(team) ==> team_threat(apply_heal(team, v)),
        team_wf(team) && team.len() > 0 && v[0] == 0 ==> apply_heal(team, v)[0].health
            == team[0].health,
{
    let out = apply_heal(team, v);
    if team_threat(team) {
        assert forall|i: int| 0 <= i < out.len() implies 1 <= (#[trigger] out[i]).attack
            + out[i].splash by {
            assert(1 <= team[i].attack + team[i].splash);
        }
    }
    if team_wf(team) {
        assert forall|i: int| 0 <= i < out.len() implies ((#[trigger] out[i]).stats_wf() && 0
            < out[i].health <= i64::MAX) by {
            assert(team[i].stats_wf());
            assert(0 <= v[i]);
        }
    }
}

/// All creatures of a team after the damage vector lands, dead or alive,
/// still in their slots.
pub open spec fn all_damaged(team: Seq<DinoModel>, v: Seq<int>) -> Seq<DinoModel> {
    Seq::new(team.len(), |i: int| team[i].damaged(v[i]))
}

/// All creatures of a team after an infight strike, dead or alive, still
/// in their slots: same-species creatures damaged, the rest untouched.
pub open spec fn all_infought(team: Seq<DinoModel>, amount: int, species: Species) -> Seq<
    DinoModel,
> {
    Seq::new(
        team.len(),
        |i: int| if team[i].species == species { team[i].damaged(amount) } else { team[i] },
    )
}

/// The creatures of a sequence that are alive, kept in their original
/// relative order.
pub open spec fn survivors_of(all: Seq<DinoModel>) -> Seq<DinoModel>
    decreases all.len(),
{
    if all.len() == 0 {
        Seq::empty()
    } else {
        if all[0].is_dead() {
            survivors_of(all.drop_first())
        } else {
            seq![all[0]] + survivors_of(all.drop_first())
        }
    }
}

/// Death consistency and order preservation for damage: the team after a
/// damage vector is exactly the damaged creatures that are still alive, in
/// their original relative order — a creature with post-damage health `<= 0`
/// is always excluded, one with positive health is always retained.
pub proof fn lemma_damage_death_and_order(team: Seq<DinoModel>, v: Seq<int>)
    requires
        team.len() <= v.len(),
    ensures
        apply_damage(team, v) == survivors_of(all_damaged(team, v)),
    decreases team.len(),
{
    if team.len() > 0 {
        lemma_damage_death_and_order(team.drop_first(), v.drop_first());
        assert(all_damaged(team, v).drop_first() =~= all_damaged(team.drop_first(), v.drop_first()));
        assert(apply_damage(team, v) =~= survivors_of(all_damaged(team, v)));
    }
}

/// Death consistency and order preservation for infight: on a roster of
/// live creatures, the team after an infight strike is exactly the struck
/// roster's still-alive creatures, in their original relative order.
pub proof fn lemma_infight_death_and_order(team: Seq<DinoModel>, amount: int, species: Species)
    requires
        forall|i: int| 0 <= i < team.len() ==> 0 < (#[trigger] team[i]).health,
    ensures
        apply_infight(team, amount, species) == survivors_of(all_infought(team, amount, species)),
    decreases team.len(),
{
    if team.len() > 0 {
        assert forall|i: int| 0 <= i < team.drop_first().len() implies 0 < (
        #[trigger] team.drop_first()[i]).health by {
            assert(team.drop_first()[i] == team[i + 1]);
        }
        lemma_infight_death_and_order(team.drop_first(), amount, species);
        assert(all_infought(team, amount, species).drop_first() =~= all_infought(
            team.drop_first(),
            amount,
            species,
        ));
        assert(apply_infight(team, amount, species) =~= survivors_of(
            all_infought(team, amount, species),
        ));
    }
}

/// Order preservation for healing: healing removes and reorders no one,
/// it only raises each creature's health in place.
pub proof fn lemma_heal_keeps_all(team: Seq<DinoModel>, v: Seq<int>)
    ensures
        apply_heal(team, v).len() == team.len(),
        forall|i: int|
            0 <= i < team.len() ==> #[trigger] apply_heal(team, v)[i] == team[i].healed(v[i]),
{
}

/// An ordered roster of at most [`TEAM_CAP`] live creatures. The front
/// creature (slot 0) is the active one. All transformations are pure: they
/// build a new team and drop creatures the moment they die, preserving the
/// relative order of the survivors.
#[derive(Debug)]
pub struct Team {
    pub dinos: Vec<Dino>,
}

impl View for Team {
    type V = Seq<DinoModel>;

    open spec fn view(&self) -> Seq<DinoModel> {
        dinos_view(self.dinos@)
    }
}

impl Team {
    /// Build a team from at most [`TEAM_CAP`] live, well-formed creatures.
    /// The capacity ceiling is enforced here, at construction time.
    pub fn new(dinos: Vec<Dino>) -> (team: Team)
        requires
            dinos@.len() <= TEAM_CAP,
            forall|i: int|
                0 <= i < dinos@.len() ==> ((#[trigger] dinos@[i])@.stats_wf() && 0
                    < dinos@[i]@.health),
        ensures
            team@ == dinos_view(dinos@),
            team_wf(team@),
    {
        let team = Team { dinos };
        proof {
            assert forall|i: int| 0 <= i < team@.len() implies ((#[trigger] team@[i]).stats_wf()
                && 0 < team@[i].health <= i64::MAX) by {
                assert(team@[i] == team.dinos@[i]@);
            }
        }
        team
    }

    /// The number of creatures currently in the roster.
    pub fn len(&self) -> (n: usize)
        ensures
            n == self@.len(),
    {
        self.dinos.len()
    }

    /// The creature at position `i` (position 0 is the active creature).
    pub fn dino_at(&self, i: usize) -> (dino: Dino)
        requires
            i < self@.len(),
        ensures
            dino@ == self@[i as int],
    {
        self.dinos[i]
    }

    /// A team is dead iff it has no live creatures left.
    pub fn is_dead(&self) -> (dead: bool)
        ensures
            dead == (self@.len() == 0),
    {
        self.dinos.len() == 0
    }

    /// The active creature: the front of the roster, or `None` if the team
    /// is dead.
    pub fn first_dino(&self) -> (dino: Option<Dino>)
        ensures
            match dino {
                Some(d) => self@.len() > 0 && d@ == self@[0],
                None => self@.len() == 0,
            },
    {
        if self.dinos.len() > 0 {
            Some(self.dinos[0])
        } else {
            None
        }
    }

    /// Apply a damage vector: the creature at live position `i` takes
    /// `v[i]` damage; the dead are dropped, the survivors keep their order.
    pub fn damage(self, v: Vec<i64>) -> (team: Team)
        requires
            team_wf(self@),
            v@.len() == TEAM_CAP,
            forall|i: int| 0 <= i < v@.len() ==> 0 <= #[trigger] v@[i],
        ensures
            team@ == apply_damage(self@, ints_of(v@)),
    {
        let mut survivors: Vec<Dino> = Vec::new();
        let mut i: usize = 0;
        while i < self.dinos.len()
            invariant
                i <= self.dinos.len(),
                team_wf(self@),
                v@.len() == TEAM_CAP,
                self.dinos.len() <= TEAM_CAP,
                forall|j: int| 0 <= j < v@.len() ==> 0 <= #[trigger] v@[j],
                dinos_view(survivors@) == apply_damage(self@.take(i as int), ints_of(v@)),
            decreases self.dinos.len() - i,
        {
            let dino = self.dinos[i];
            proof {
                assert(self@[i as int] == dino@);
                assert(self@[i as int].stats_wf());
            }
            let hit = dino.damage(v[i]);
            if !hit.is_dead() {
                survivors.push(hit);
            }
            proof {
                lemma_apply_damage_push(self@.take(i as int), ints_of(v@), dino@);
                assert(self@.take(i + 1) =~= self@.take(i as int).push(dino@));
                assert(dinos_view(survivors@) =~= apply_damage(self@.take(i + 1), ints_of(v@)));
            }
            i += 1;
        }
        proof {
            assert(self@.take(self.dinos@.len() as int) =~= self@);
        }
        Team { dinos: survivors }
    }

    /// Apply infight damage: every creature of the given species takes
    /// `amount` damage and is dropped if it dies; the others pass through.
    pub fn infight(self, amount: i64, species: Species) -> (team: Team)
        requires
            team_wf(self@),
            0 <= amount,
        ensures
            team@ == apply_infight(self@, amount as int, species),
    {
        let mut survivors: Vec<Dino> = Vec::new();
        let mut i: usize = 0;
        while i < self.dinos.len()
            invariant
                i <= self.dinos.len(),
                team_wf(self@),
                0 <= amount,
                dinos_view(survivors@) == apply_infight(self@.take(i as int), amount as int, species),
            decreases self.dinos.len() - i,
        {
            let dino = self.dinos[i];
            proof {
                assert(self@[i as int] == dino@);
                assert(self@[i as int].stats_wf());
            }
            if dino.species == species {
                let hit = dino.damage(amount);
                if !hit.is_dead() {
                    survivors.push(hit);
                }
            } else {
                survivors.push(dino);
            }
            proof {
                lemma_apply_infight_push(self@.take(i as int), amount as int, species, dino@);
                assert(self@.take(i + 1) =~= self@.take(i as int).push(dino@));
                assert(dinos_view(survivors@) =~= apply_infight(
                    self@.take(i + 1),
                    amount as int,
                    species,
                ));
            }
            i += 1;
        }
        proof {
            assert(self@.take(self.dinos@.len() as int) =~= self@);
        }
        Team { dinos: survivors }
    }

    /// Apply a heal vector: the creature at position `i` is healed by
    /// `v[i]`. Healing removes no one.
    pub fn heal(self, v: Vec<i64>) -> (team: Team)
        requires
            team_wf(self@),
            v@.len() == TEAM_CAP,
            forall|i: int| 0 <= i < v@.len() ==> 0 <= #[trigger] v@[i],
        ensures
            team@ == apply_heal(self@, ints_of(v@)),
    {
        let mut healed: Vec<Dino> = Vec::new();
        let mut i: usize = 0;
        while i < self.dinos.len()
            invariant
                i <= self.dinos.len(),
                team_wf(self@),
                v@.len() == TEAM_CAP,
                self.dinos.len() <= TEAM_CAP,
                forall|j: int| 0 <= j < v@.len() ==> 0 <= #[trigger] v@[j],
                healed@.len() == i,
                forall|j: int|
                    0 <= j < i ==> (#[trigger] healed@[j])@ == self@[j].healed(v@[j] as int),
            decreases self.dinos.len() - i,
        {
            let dino = self.dinos[i];
            proof {
                assert(self@[i as int] == dino@);
            }
            let ghost prev = healed@;
            healed.push(dino.heal(v[i]));
            proof {
                assert forall|j: int| 0 <= j < i + 1 implies (#[trigger] healed@[j])@
                    == self@[j].healed(v@[j] as int) by {
                    if j < i {
                        assert(healed@[j] == prev[j]);
                    }
                }
            }
            i += 1;
        }
        proof {
            assert(dinos_view(healed@) =~= apply_heal(self@, ints_of(v@)));
        }
        Team { dinos: healed }
    }
}

/// Relies on rand's `random_range`: the result of sampling an integer
/// range lies within that range (here `0..6`, one index per species).
#[verifier::external_body]
fn random_species_index() -> (index: u8)
    ensures
        index < 6,
{
    rand::random_range(0..6u8)
}

fn species_of_index(index: u8) -> (species: Species)
    requires
        index < 6,
{
    if index == 0 {
        Species::Tyrannosaurus
    } else if index == 1 {
        Species::Velociraptor
    } else if index == 2 {
        Species::Triceratops
    } else if index == 3 {
        Species::Brachiosaurus
    } else if index == 4 {
        Species::Pteranodon
    } else {
        Species::Dilophosaurus
    }
}

impl Team {
    /// A full roster of [`TEAM_CAP`] creatures of uniformly random species,
    /// each fresh from the catalog.
    pub fn random_team() -> (team: Team)
        ensures
            team@.len() == TEAM_CAP,
            team_wf(team@),
            team_threat(team@),
            forall|i: int|
                0 <= i < team@.len() ==> #[trigger] team@[i] == species_template(team@[i].species),
    {
        let mut dinos: Vec<Dino> = Vec::new();
        let mut i: usize = 0;
        while i < TEAM_CAP
            invariant
                i <= TEAM_CAP,
                dinos@.len() == i,
                forall|j: int|
                    0 <= j < i ==> #[trigger] dinos@[j]@ == species_template(dinos@[j]@.species),
            decreases TEAM_CAP - i,
        {
            let index = random_species_index();
            let species = species_of_index(index);
            let dino = Dino::from_species(species);
            proof {
                lemma_template_wf(species);
            }
            dinos.push(dino);
            i += 1;
        }
        let team = Team { dinos };
        proof {
            assert forall|i: int| 0 <= i < team@.len() implies #[trigger] team@[i]
                == species_template(team@[i].species) by {
                assert(team@[i] == team.dinos@[i]@);
            }
            assert forall|i: int| 0 <= i < team@.len() implies ((#[trigger] team@[i]).stats_wf()
                && 0 < team@[i].health <= i64::MAX) by {
                assert(team@[i] == species_template(team@[i].species));
                lemma_template_wf(team@[i].species);
            }
            assert forall|i: int| 0 <= i < team@.len() implies 1 <= (#[trigger] team@[i]).attack
                + team@[i].splash by {
                assert(team@[i] == species_template(team@[i].species));
                lemma_template_wf(team@[i].species);
            }
        }
        team
    }
}

} // verus!
