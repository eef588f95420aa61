//! A calculator for the numbers every game in the series shows in its combat
//! preview: damage, hit, crit and whether a side strikes twice. It leaves out
//! skills, held items and personal weapons, and answers one question: after
//! this round, with what chance is each side left on how many hit points?
use crate::exact::{lemma_round_is_exact, round_is_exact};
use crate::fegame::FEGame;
use crate::mass::{collected, is_canonical, mass_at, merged, raised, total_mass};
use crate::mass::{lemma_collected, lemma_mass_at_bounded, lemma_mass_of_distinct};
use crate::mass::{lemma_mass_of_one, lemma_total_mass_prefix};
use crate::strike::{lemma_branches, lemma_round, lemma_share, lemma_spread, lemma_struck};
use crate::strike::lemma_switch_all;
use vstd::prelude::*;

verus! {

/// The weight of a certain outcome: ten to the thirty-sixth.
///
/// An outcome of weight `w` has probability `w / CERTAIN`. Six strikes, the
/// most a round can hold, each split a weight by a factor of a million, so
/// every weight of a forecast is a whole number of these parts.
pub const CERTAIN: u128 = 1_000_000_000_000_000_000_000_000_000_000_000_000;

/// The stats needed for one side of combat: damage, hit, brave effect, and
/// crit.
#[derive(Copy, Clone, Debug, PartialEq, Eq, Hash)]
pub struct CombatStats {
    /// The damage dealt.
    pub dmg: u32,
    /// The displayed hit rate (0-100).
    pub hit: u32,
    /// The critical rate (0-100).
    pub crit: u32,
    /// Whether the weapon strikes twice per normal strike. Although usually
    /// called brave weapons, other weapons like gauntlets do this as well.
    pub is_brave: bool,
}

/// The results of different speed differentials between attacker (A) and
/// defender (B), resulting in different attack patterns.
#[derive(Copy, Clone, Debug, PartialEq, Eq, Hash)]
pub enum SpeedDiff {
    /// No one doubles: AB
    Even,
    /// Attacker doubles: ABA
    AtkDoubles,
    /// Defender doubles: ABB
    DefDoubles,
}

/// One possible state of a fight, with the weight of the ways that lead to it.
#[derive(Copy, Clone, Debug, PartialEq, Eq)]
pub struct Outcome {
    /// The weight of this outcome, in parts of [`CERTAIN`].
    pub prob: u128,
    /// The hit points the attacker is left with.
    pub atk_hp: u32,
    /// The hit points the defender is left with.
    pub def_hp: u32,
}

/// The part `parts / out_of` of a weight, rounded down.
pub open spec fn share(whole: u128, parts: int, out_of: int) -> int {
    (whole * parts) / out_of
}

/// The hit points left of `hp` after `damage`: never less than none.
pub open spec fn hp_after(hp: u32, damage: int) -> u32 {
    if damage >= hp {
        0
    } else {
        (hp - damage) as u32
    }
}

/// Every outcome of a list seen from the other side.
pub open spec fn switch_all(outcomes: Seq<Outcome>) -> Seq<Outcome> {
    Seq::new(outcomes.len(), |i: int| outcomes[i].switched())
}

/// The outcomes after the defender has taken a turn of their own.
pub open spec fn countered(def: CombatStats, game: FEGame, outcomes: Seq<Outcome>) -> Seq<Outcome> {
    switch_all(def.turn(game, switch_all(outcomes)))
}

/// The outcomes of a round that starts from the given hit points: the
/// attacker's turn, the defender's turn, and a further turn of the side that
/// doubles, if one does.
pub open spec fn round_outcomes(
    game: FEGame,
    atk: CombatStats,
    atk_hp: u32,
    def: CombatStats,
    def_hp: u32,
    speed: SpeedDiff,
) -> Seq<Outcome> {
    let start = seq![Outcome { prob: CERTAIN, atk_hp, def_hp }];
    let exchange = countered(def, game, atk.turn(game, start));
    match speed {
        SpeedDiff::Even => exchange,
        SpeedDiff::AtkDoubles => atk.turn(game, exchange),
        SpeedDiff::DefDoubles => countered(def, game, exchange),
    }
}

/// No entry of the list has either side on more hit points than given.
pub open spec fn within(outcomes: Seq<Outcome>, atk_hp: u32, def_hp: u32) -> bool {
    forall|i: int|
        0 <= i < outcomes.len() ==> (#[trigger] outcomes[i]).atk_hp <= atk_hp && outcomes[i].def_hp
            <= def_hp
}

impl Outcome {
    /// Whether two outcomes leave both sides on the same hit points.
    pub open spec fn same_state(self, other: Outcome) -> bool {
        self.atk_hp == other.atk_hp && self.def_hp == other.def_hp
    }

    /// This outcome seen from the other side.
    pub open spec fn switched(self) -> Outcome {
        Outcome { prob: self.prob, atk_hp: self.def_hp, def_hp: self.atk_hp }
    }

    /// Combines the weights of outcomes with the same hit points and removes
    /// impossible outcomes, returning a list of the same total weight in
    /// which no state occurs twice.
    pub fn collect(outcomes: Vec<Outcome>) -> (merged_outcomes: Vec<Outcome>)
        requires
            total_mass(outcomes@) <= u128::MAX,
        ensures
            merged_outcomes@ == collected(outcomes@),
            is_canonical(merged_outcomes@),
            total_mass(merged_outcomes@) == total_mass(outcomes@),
            forall|atk_hp: u32, def_hp: u32|
                mass_at(merged_outcomes@, atk_hp, def_hp) == mass_at(outcomes@, atk_hp, def_hp),
    {
        let mut acc: Vec<Outcome> = Vec::new();
        let mut i: usize = 0;
        while i < outcomes.len()
            invariant
                i <= outcomes.len(),
                total_mass(outcomes@) <= u128::MAX,
                acc@ == collected(outcomes@.take(i as int)),
            decreases outcomes.len() - i,
        {
            let outcome = outcomes[i];
            proof {
                let before = outcomes@.take(i as int);
                let upto = outcomes@.take(i + 1);
                assert(upto.drop_last() =~= before);
                lemma_total_mass_prefix(outcomes@, i + 1);
                lemma_collected(Seq::empty(), before);
                if outcome.prob != 0 {
                    lemma_mass_at_bounded(before, outcome.atk_hp, outcome.def_hp);
                    assert forall|j: int| 0 <= j < acc@.len() && acc@[j].same_state(outcome)
                    implies outcome.prob + acc@[j].prob <= u128::MAX by {
                        lemma_mass_of_distinct(acc@, j);
                    }
                }
            }
            if outcome.prob != 0 {
                acc = outcome.add_into(acc);
            }
            i += 1;
        }
        proof {
            assert(outcomes@.take(outcomes.len() as int) =~= outcomes@);
            lemma_collected(Seq::empty(), outcomes@);
        }
        acc
    }

    /// Adds the outcome to the list of outcomes. Where the list already
    /// holds its state, the weight goes onto every entry with that state;
    /// where it does not, the outcome is put at the end.
    pub fn add_into(&self, outcomes: Vec<Outcome>) -> (new_outcomes: Vec<Outcome>)
        requires
            forall|i: int|
                0 <= i < outcomes.len() && (#[trigger] outcomes@[i]).same_state(*self)
                    ==> self.prob + outcomes@[i].prob <= u128::MAX,
        ensures
            new_outcomes@ == merged(*self, outcomes@),
    {
        let mut new_outcomes: Vec<Outcome> = Vec::new();
        let mut has_added = false;
        let mut i: usize = 0;
        while i < outcomes.len()
            invariant
                i <= outcomes.len(),
                forall|k: int|
                    0 <= k < outcomes.len() && (#[trigger] outcomes@[k]).same_state(*self)
                        ==> self.prob + outcomes@[k].prob <= u128::MAX,
                new_outcomes@ == raised(*self, outcomes@).take(i as int),
                has_added <==> exists|k: int|
                    0 <= k < i && (#[trigger] outcomes@[k]).same_state(*self),
            decreases outcomes.len() - i,
        {
            let outcome = outcomes[i];
            if self.atk_hp == outcome.atk_hp && self.def_hp == outcome.def_hp {
                new_outcomes.push(
                    Outcome {
                        prob: self.prob + outcome.prob,
                        atk_hp: self.atk_hp,
                        def_hp: self.def_hp,
                    },
                );
                has_added = true;
            } else {
                new_outcomes.push(outcome);
            }
            i += 1;
        }
        if !has_added {
            new_outcomes.push(*self);
        }
        new_outcomes
    }

    /// Switches attacker and defender.
    pub fn switch(&self) -> (other: Outcome)
        ensures
            other == self.switched(),
    {
        Outcome { prob: self.prob, atk_hp: self.def_hp, def_hp: self.atk_hp }
    }
}

impl Default for CombatStats {
    /// A side that does nothing: no damage, no chance to hit.
    fn default() -> (stats: CombatStats)
        ensures
            stats == (CombatStats { dmg: 0, hit: 0, crit: 0, is_brave: false }),
    {
        CombatStats { dmg: 0, hit: 0, crit: 0, is_brave: false }
    }
}

impl CombatStats {
    /// Hit and crit are rates between 0 and 100.
    pub open spec fn wf(self) -> bool {
        self.hit <= 100 && self.crit <= 100
    }

    /// Of a weight, the part on which a strike lands, rounded down.
    pub open spec fn landing(self, game: FEGame, prob: u128) -> int {
        share(prob, game.true_hit_spec(self.hit), 10_000)
    }

    /// Of a weight, the part on which a strike lands as a critical hit,
    /// rounded down.
    pub open spec fn landing_crit(self, game: FEGame, prob: u128) -> int {
        share(prob, game.true_hit_spec(self.hit) * self.crit, 1_000_000)
    }

    /// What one strike makes of one state. A dead attacker does nothing.
    /// Otherwise the weight of the state is split three ways: the strike
    /// misses, or it lands for the damage, or it lands as a critical hit for
    /// three times the damage.
    pub open spec fn branches(self, game: FEGame, state: Outcome) -> Seq<Outcome> {
        if state.atk_hp == 0 {
            seq![state]
        } else {
            let landing = self.landing(game, state.prob);
            let crit = self.landing_crit(game, state.prob);
            seq![
                Outcome {
                    prob: (state.prob - landing) as u128,
                    atk_hp: state.atk_hp,
                    def_hp: state.def_hp,
                },
                Outcome {
                    prob: (landing - crit) as u128,
                    atk_hp: state.atk_hp,
                    def_hp: hp_after(state.def_hp, self.dmg as int),
                },
                Outcome {
                    prob: crit as u128,
                    atk_hp: state.atk_hp,
                    def_hp: hp_after(state.def_hp, 3 * self.dmg),
                },
            ]
        }
    }

    /// The branches of every state of a list, one state after the other.
    pub open spec fn spread(self, game: FEGame, states: Seq<Outcome>) -> Seq<Outcome>
        decreases states.len(),
    {
        if states.len() == 0 {
            Seq::empty()
        } else {
            self.spread(game, states.drop_last()) + self.branches(game, states.last())
        }
    }

    /// The outcomes after one strike, in canonical form.
    pub open spec fn struck(self, game: FEGame, states: Seq<Outcome>) -> Seq<Outcome> {
        collected(self.spread(game, states))
    }

    /// The outcomes after a turn of this side: one strike, or two for a
    /// brave weapon, the second from where the first has left things.
    pub open spec fn turn(self, game: FEGame, states: Seq<Outcome>) -> Seq<Outcome> {
        if self.is_brave {
            self.struck(game, self.struck(game, states))
        } else {
            self.struck(game, states)
        }
    }

    /// Whether hit and crit are rates between 0 and 100, as every function
    /// that strikes with these stats expects.
    pub fn is_valid(&self) -> (ok: bool)
        ensures
            ok == self.wf(),
    {
        self.hit <= 100 && self.crit <= 100
    }

    /// Computes possible outcomes for this side's turn in a round of combat
    /// using the given statistics. Critical hits do three times the damage
    /// in every game, which is not what FE4 and FE5 do.
    pub fn possible_outcomes(&self, game: FEGame, outcomes: Vec<Outcome>) -> (after: Vec<Outcome>)
        requires
            self.wf(),
            total_mass(outcomes@) <= u128::MAX,
        ensures
            after@ == self.turn(game, outcomes@),
            is_canonical(after@),
            total_mass(after@) == total_mass(outcomes@),
            forall|atk_hp: u32, def_hp: u32|
                within(outcomes@, atk_hp, def_hp) ==> within(after@, atk_hp, def_hp),
    {
        let after_one = self.after_single_strike(game, outcomes);
        if self.is_brave {
            // strike again
            self.after_single_strike(game, after_one)
        } else {
            after_one
        }
    }

    /// Returns the possible states after a single strike given the previous
    /// possible states. Critical damage is not handled correctly in FE4 and
    /// FE5.
    pub fn after_single_strike(&self, game: FEGame, states: Vec<Outcome>) -> (new_states: Vec<Outcome>)
        requires
            self.wf(),
            total_mass(states@) <= u128::MAX,
        ensures
            new_states@ == self.struck(game, states@),
            is_canonical(new_states@),
            total_mass(new_states@) == total_mass(states@),
            forall|atk_hp: u32, def_hp: u32|
                mass_at(new_states@, atk_hp, def_hp) == mass_at(
                    self.spread(game, states@),
                    atk_hp,
                    def_hp,
                ),
            forall|atk_hp: u32, def_hp: u32|
                within(states@, atk_hp, def_hp) ==> within(new_states@, atk_hp, def_hp),
    {
        let hit = game.true_hit(self.hit);
        let triple: u64 = 3 * (self.dmg as u64);
        let mut raw: Vec<Outcome> = Vec::new();
        let mut i: usize = 0;
        while i < states.len()
            invariant
                i <= states.len(),
                self.wf(),
                hit == game.true_hit_spec(self.hit),
                hit <= 10_000,
                triple == 3 * self.dmg,
                raw@ == self.spread(game, states@.take(i as int)),
            decreases states.len() - i,
        {
            let state = states[i];
            proof {
                let upto = states@.take(i + 1);
                assert(upto.drop_last() =~= states@.take(i as int));
                lemma_branches(*self, game, state);
            }
            if state.atk_hp == 0 {
                // dead attackers can't do anything
                raw.push(state);
            } else {
                // three possibilities: miss, non-crit hit, and crit
                let landing = share_of(state.prob, hit, 10_000);
                let crit = share_of(state.prob, hit * self.crit, 1_000_000);
                // if miss, nothing happens
                raw.push(
                    Outcome { prob: state.prob - landing, atk_hp: state.atk_hp, def_hp: state.def_hp },
                );
                // if hit, normal damage: subtract damage, cannot go negative
                raw.push(
                    Outcome {
                        prob: landing - crit,
                        atk_hp: state.atk_hp,
                        def_hp: hp_left(state.def_hp, self.dmg as u64),
                    },
                );
                // if crit, critical damage: the two games that double the
                // attack need to know the defence, which is not to hand, so
                // the damage is tripled as in the others
                raw.push(
                    Outcome { prob: crit, atk_hp: state.atk_hp, def_hp: hp_left(state.def_hp, triple) },
                );
            }
            i += 1;
        }
        proof {
            assert(states@.take(states.len() as int) =~= states@);
            lemma_spread(*self, game, states@);
            lemma_struck(*self, game, states@);
        }
        Outcome::collect(raw)
    }
}

/// The part `parts / out_of` of a weight, rounded down.
fn share_of(whole: u128, parts: u32, out_of: u32) -> (part: u128)
    requires
        parts <= out_of,
        0 < out_of,
    ensures
        part == share(whole, parts as int, out_of as int),
        part <= whole,
{
    let parts: u128 = parts as u128;
    let out_of: u128 = out_of as u128;
    proof {
        lemma_share(whole as int, parts as int, out_of as int);
        assert(out_of * out_of <= 0x1_0000_0000 * 0x1_0000_0000) by (nonlinear_arith)
            requires
                0 <= out_of <= 0x1_0000_0000,
        ;
    }
    (whole / out_of) * parts + ((whole % out_of) * parts) / out_of
}

/// The hit points left of `hp` after `damage`.
fn hp_left(hp: u32, damage: u64) -> (left: u32)
    ensures
        left == hp_after(hp, damage as int),
{
    if damage >= hp as u64 {
        0
    } else {
        hp - (damage as u32)
    }
}

/// Every outcome of a list with attacker and defender switched.
fn switch_sides(outcomes: Vec<Outcome>) -> (switched: Vec<Outcome>)
    ensures
        switched@ == switch_all(outcomes@),
{
    let mut switched: Vec<Outcome> = Vec::new();
    let mut i: usize = 0;
    while i < outcomes.len()
        invariant
            i <= outcomes.len(),
            switched@ == switch_all(outcomes@).take(i as int),
        decreases outcomes.len() - i,
    {
        switched.push(outcomes[i].switch());
        i += 1;
    }
    switched
}

/// The outcomes after the defender has taken a turn of their own.
fn counter(def: &CombatStats, game: FEGame, outcomes: Vec<Outcome>) -> (after: Vec<Outcome>)
    requires
        def.wf(),
        total_mass(outcomes@) <= u128::MAX,
    ensures
        after@ == countered(*def, game, outcomes@),
        is_canonical(after@),
        total_mass(after@) == total_mass(outcomes@),
{
    proof {
        lemma_switch_all(outcomes@);
    }
    let turned = def.possible_outcomes(game, switch_sides(outcomes));
    proof {
        lemma_switch_all(turned@);
    }
    switch_sides(turned)
}

/// Returns a list of all of the possible outcomes of combat with their
/// weights, using the given game's rules. The weights add up to [`CERTAIN`],
/// no state occurs twice, neither side gains hit points, and no share was
/// rounded on the way: each weight is the exact probability of its outcome.
pub fn possible_outcomes(
    game: FEGame,
    atk: CombatStats,
    atk_hp: u32,
    def: CombatStats,
    def_hp: u32,
    speed: SpeedDiff,
) -> (outcomes: Vec<Outcome>)
    requires
        atk.wf(),
        def.wf(),
    ensures
        outcomes@ == round_outcomes(game, atk, atk_hp, def, def_hp, speed),
        is_canonical(outcomes@),
        total_mass(outcomes@) == CERTAIN,
        within(outcomes@, atk_hp, def_hp),
        round_is_exact(game, atk, atk_hp, def, def_hp, speed),
{
    let mut initial: Vec<Outcome> = Vec::new();
    initial.push(Outcome { prob: CERTAIN, atk_hp, def_hp });
    proof {
        lemma_mass_of_one(initial@[0]);
        lemma_round(game, atk, atk_hp, def, def_hp, speed);
        lemma_round_is_exact(game, atk, atk_hp, def, def_hp, speed);
    }
    let after_atk = atk.possible_outcomes(game, initial);
    let after_def = counter(&def, game, after_atk);
    match speed {
        SpeedDiff::Even => {
            // AB attack pattern
            after_def
        },
        SpeedDiff::AtkDoubles => {
            // ABA attack pattern
            atk.possible_outcomes(game, after_def)
        },
        SpeedDiff::DefDoubles => {
            // ABB attack pattern
            counter(&def, game, after_def)
        },
    }
}

} // verus!
