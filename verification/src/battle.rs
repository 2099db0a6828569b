//! The battle engine: a pair of teams, the per-round heal → damage →
//! infight pipeline applied to both sides simultaneously from a snapshot of
//! the pre-round state, and the outer loop that drives rounds until one or
//! both rosters are empty.

use vstd::prelude::*;
use crate::dino::{DinoModel, TEAM_CAP, damage_vector, heal_vector, ints_of};
use crate::team::{
    Team, apply_damage, apply_heal, apply_infight, lemma_apply_damage_props,
    lemma_apply_heal_props, lemma_apply_infight_props, team_threat, team_wf,
};

verus! {

/// The only values a finished battle can produce.
#[derive(Copy, Clone, Debug, PartialEq, Eq, Structural)]
pub enum BattleResult {
    LeftWins,
    RightWins,
    Stalemate,
}

/// One side of the roster pair after a full round: the team is healed by
/// its own active creature's heal vector, damaged by the enemy active
/// creature's damage vector, and finally thinned by its own active
/// creature's infight damage. Both `own` and `enemy` are the active
/// creatures of the pre-round snapshot.
pub open spec fn round_one_side(
    team: Seq<DinoModel>,
    own: DinoModel,
    enemy: DinoModel,
) -> Seq<DinoModel> {
    apply_infight(
        apply_damage(apply_heal(team, heal_vector(own)), damage_vector(enemy)),
        own.infight,
        own.species,
    )
}

/// The left team after one round of the pair `(l, r)`, both sides nonempty.
pub open spec fn round_left(l: Seq<DinoModel>, r: Seq<DinoModel>) -> Seq<DinoModel> {
    round_one_side(l, l[0], r[0])
}

/// The right team after one round of the pair `(l, r)`, both sides nonempty.
pub open spec fn round_right(l: Seq<DinoModel>, r: Seq<DinoModel>) -> Seq<DinoModel> {
    round_one_side(r, r[0], l[0])
}

/// The health of a team's active creature (0 for an empty team).
pub open spec fn first_health(team: Seq<DinoModel>) -> int {
    if team.len() == 0 {
        0
    } else {
        team[0].health
    }
}

/// A round keeps a team well formed and threatening, and never grows it;
/// and when the enemy's active creature threatens (attack plus splash at
/// least 1) and the team did not shrink, its active creature has strictly
/// less health than before. The active creature never receives healing
/// (its heal-vector slot is 0), takes at least 1 effective damage from a
/// threatening enemy, and infight can only hurt it further — this is what
/// guarantees that every battle between threatening teams ends.
pub proof fn lemma_round_one_side(team: Seq<DinoModel>, own: DinoModel, enemy: DinoModel)
    requires
        team_wf(team),
        team.len() > 0,
        own.stats_wf(),
    ensures
        team_wf(round_one_side(team, own, enemy)),
        team_threat(team) ==> team_threat(round_one_side(team, own, enemy)),
        round_one_side(team, own, enemy).len() <= team.len(),
        1 <= enemy.attack + enemy.splash && round_one_side(team, own, enemy).len() == team.len()
            ==> round_one_side(team, own, enemy)[0].health < team[0].health,
{
    let hv = heal_vector(own);
    let dv = damage_vector(enemy);
    assert(forall|i: int| 0 <= i < team.len() ==> 0 <= #[trigger] hv[i]);
    lemma_apply_heal_props(team, hv);
    let healed = apply_heal(team, hv);
    lemma_apply_damage_props(healed, dv);
    let hit = apply_damage(healed, dv);
    lemma_apply_infight_props(hit, own.infight, own.species);
    let out = apply_infight(hit, own.infight, own.species);
    if 1 <= enemy.attack + enemy.splash && out.len() == team.len() {
        assert(dv[0] == enemy.attack + enemy.splash);
        assert(hit.len() == team.len());
        assert(hit[0] == healed[0].damaged(dv[0]));
        assert(hit[0].health <= healed[0].health - 1);
        assert(healed[0].health == team[0].health);
        assert(out[0].health <= hit[0].health);
    }
}

/// The terminal outcome a pair of rosters is driven to by repeated rounds:
/// a side with no live creatures at a round's terminal check has lost; if
/// both die at the same check the battle is a stalemate. Well-defined for
/// every pair of well-formed, threatening rosters — every such battle
/// terminates, because each side's active creature is never healed and
/// takes at least 1 damage per round.
pub open spec fn outcome(l: Seq<DinoModel>, r: Seq<DinoModel>) -> BattleResult
    decreases l.len() + r.len(), first_health(l) + first_health(r),
        when team_wf(l) && team_wf(r) && team_threat(l) && team_threat(r)
        via outcome_decreases
{
    if l.len() == 0 && r.len() == 0 {
        BattleResult::Stalemate
    } else if l.len() == 0 {
        BattleResult::RightWins
    } else if r.len() == 0 {
        BattleResult::LeftWins
    } else {
        outcome(round_left(l, r), round_right(l, r))
    }
}

#[via_fn]
proof fn outcome_decreases(l: Seq<DinoModel>, r: Seq<DinoModel>) {
    if l.len() != 0 && r.len() != 0 {
        assert(l[0].stats_wf());
        assert(r[0].stats_wf());
        assert(1 <= l[0].attack + l[0].splash);
        assert(1 <= r[0].attack + r[0].splash);
        lemma_round_one_side(l, l[0], r[0]);
        lemma_round_one_side(r, r[0], l[0]);
        let nl = round_left(l, r);
        let nr = round_right(l, r);
        if nl.len() == l.len() && nr.len() == r.len() {
            assert(first_health(nl) < first_health(l));
            assert(first_health(nr) < first_health(r));
            assert(first_health(nl) > 0);
            assert(first_health(nr) > 0);
        }
    }
}

/// The machine vector realizes the intended spec vector: same length, and
/// every entry nonnegative whenever the spec vector's entries are.
proof fn lemma_vector_entries(v: Seq<i64>, target: Seq<int>)
    requires
        ints_of(v) == target,
        forall|i: int| 0 <= i < target.len() ==> 0 <= #[trigger] target[i],
    ensures
        v.len() == target.len(),
        forall|i: int| 0 <= i < v.len() ==> 0 <= #[trigger] v[i],
{
    assert(ints_of(v).len() == v.len());
    assert forall|i: int| 0 <= i < v.len() implies 0 <= #[trigger] v[i] by {
        assert(ints_of(v)[i] == v[i] as int);
    }
}

/// A battle: a pair of rosters, resolved round by round until one or both
/// are empty.
pub struct Battle {
    pub left: Team,
    pub right: Team,
}

impl Battle {
    /// Both rosters are well formed.
    pub open spec fn wf(self) -> bool {
        team_wf(self.left@) && team_wf(self.right@)
    }

    pub fn new(left: Team, right: Team) -> (battle: Battle)
        ensures
            battle.left@ == left@,
            battle.right@ == right@,
    {
        Battle { left, right }
    }

    /// Resolve one round. Both sides' new rosters are derived from the
    /// pre-round snapshot of both active creatures: neither side observes
    /// the other's post-round state. If either side has no active
    /// creature, nothing happens.
    pub fn battle_one(self) -> (battle: Battle)
        requires
            self.wf(),
        ensures
            battle.wf(),
            self.left@.len() > 0 && self.right@.len() > 0 ==> battle.left@ == round_left(
                self.left@,
                self.right@,
            ) && battle.right@ == round_right(self.left@, self.right@),
            self.left@.len() == 0 || self.right@.len() == 0 ==> battle.left@ == self.left@
                && battle.right@ == self.right@,
    {
        let left_active = self.left.first_dino();
        let right_active = self.right.first_dino();
        match (left_active, right_active) {
            (Some(left_dino), Some(right_dino)) => {
                proof {
                    assert(self.left@[0].stats_wf());
                    assert(self.right@[0].stats_wf());
                }
                let left_heal = left_dino.to_healing();
                let right_heal = right_dino.to_healing();
                let left_dmg = left_dino.to_damage();
                let right_dmg = right_dino.to_damage();
                proof {
                    lemma_vector_entries(left_heal@, heal_vector(left_dino@));
                    lemma_vector_entries(right_heal@, heal_vector(right_dino@));
                    lemma_vector_entries(left_dmg@, damage_vector(left_dino@));
                    lemma_vector_entries(right_dmg@, damage_vector(right_dino@));
                    lemma_apply_heal_props(self.left@, ints_of(left_heal@));
                    lemma_apply_heal_props(self.right@, ints_of(right_heal@));
                    lemma_apply_damage_props(
                        apply_heal(self.left@, ints_of(left_heal@)),
                        ints_of(right_dmg@),
                    );
                    lemma_apply_damage_props(
                        apply_heal(self.right@, ints_of(right_heal@)),
                        ints_of(left_dmg@),
                    );
                    lemma_apply_infight_props(
                        apply_damage(
                            apply_heal(self.left@, ints_of(left_heal@)),
                            ints_of(right_dmg@),
                        ),
                        left_dino@.infight,
                        left_dino@.species,
                    );
                    lemma_apply_infight_props(
                        apply_damage(
                            apply_heal(self.right@, ints_of(right_heal@)),
                            ints_of(left_dmg@),
                        ),
                        right_dino@.infight,
                        right_dino@.species,
                    );
                }
                let new_left = self.left.heal(left_heal).damage(right_dmg).infight(
                    left_dino.infight,
                    left_dino.species,
                );
                let new_right = self.right.heal(right_heal).damage(left_dmg).infight(
                    right_dino.infight,
                    right_dino.species,
                );
                Battle { left: new_left, right: new_right }
            },
            (_, _) => self,
        }
    }

    /// Run the battle to completion and report who won. Terminates for
    /// every pair of well-formed, threatening rosters: each round the
    /// active creatures take unhealed damage until they die, and rosters
    /// only shrink.
    #[verifier::loop_isolation(false)]
    pub fn battle(self) -> (result: BattleResult)
        requires
            self.wf(),
            team_threat(self.left@),
            team_threat(self.right@),
        ensures
            result == outcome(self.left@, self.right@),
    {
        let ghost start_left = self.left@;
        let ghost start_right = self.right@;
        let mut battle = self;
        loop
            invariant
                battle.wf(),
                team_threat(battle.left@),
                team_threat(battle.right@),
                outcome(battle.left@, battle.right@) == outcome(start_left, start_right),
            decreases
                    battle.left@.len() + battle.right@.len(),
                    first_health(battle.left@) + first_health(battle.right@),
        {
            let left_dead = battle.left.is_dead();
            let right_dead = battle.right.is_dead();
            if left_dead && right_dead {
                proof {
                    assert(outcome(battle.left@, battle.right@) == BattleResult::Stalemate);
                }
                return BattleResult::Stalemate;
            }
            if left_dead {
                proof {
                    assert(outcome(battle.left@, battle.right@) == BattleResult::RightWins);
                }
                return BattleResult::RightWins;
            }
            if right_dead {
                proof {
                    assert(outcome(battle.left@, battle.right@) == BattleResult::LeftWins);
                }
                return BattleResult::LeftWins;
            }
            proof {
                assert(battle.left@[0].stats_wf());
                assert(battle.right@[0].stats_wf());
                assert(1 <= battle.left@[0].attack + battle.left@[0].splash);
                assert(1 <= battle.right@[0].attack + battle.right@[0].splash);
                lemma_round_one_side(battle.left@, battle.left@[0], battle.right@[0]);
                lemma_round_one_side(battle.right@, battle.right@[0], battle.left@[0]);
            }
            battle = battle.battle_one();
        }
    }
}

} // verus!

