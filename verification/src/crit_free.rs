//! Combat without critical hits, and the proof that a crit rate of zero is
//! just that.
use crate::fegame::FEGame;
use crate::mass::{collected, collected_into, lemma_collected_concat};
use crate::simple_calc::{countered, hp_after, round_outcomes, switch_all};
use crate::simple_calc::{CombatStats, Outcome, SpeedDiff, CERTAIN};
use vstd::prelude::*;

verus! {

/// What one strike that cannot be critical makes of one state: a dead
/// attacker does nothing, and otherwise the strike misses or lands.
pub open spec fn plain_branches(stats: CombatStats, game: FEGame, state: Outcome) -> Seq<Outcome> {
    if state.atk_hp == 0 {
        seq![state]
    } else {
        let landing = stats.landing(game, state.prob);
        seq![
            Outcome {
                prob: (state.prob - landing) as u128,
                atk_hp: state.atk_hp,
                def_hp: state.def_hp,
            },
            Outcome {
                prob: landing as u128,
                atk_hp: state.atk_hp,
                def_hp: hp_after(state.def_hp, stats.dmg as int),
            },
        ]
    }
}

/// The plain branches of every state of a list, one state after the other.
pub open spec fn plain_spread(stats: CombatStats, game: FEGame, states: Seq<Outcome>) -> Seq<
    Outcome,
>
    decreases states.len(),
{
    if states.len() == 0 {
        Seq::empty()
    } else {
        plain_spread(stats, game, states.drop_last()) + plain_branches(stats, game, states.last())
    }
}

/// The outcomes after one strike that cannot be critical.
pub open spec fn plain_struck(stats: CombatStats, game: FEGame, states: Seq<Outcome>) -> Seq<
    Outcome,
> {
    collected(plain_spread(stats, game, states))
}

/// The outcomes after a turn in which no strike can be critical.
pub open spec fn plain_turn(stats: CombatStats, game: FEGame, states: Seq<Outcome>) -> Seq<
    Outcome,
> {
    if stats.is_brave {
        plain_struck(stats, game, plain_struck(stats, game, states))
    } else {
        plain_struck(stats, game, states)
    }
}

/// The outcomes after a turn of the defender in which no strike can be
/// critical.
pub open spec fn plain_countered(def: CombatStats, game: FEGame, outcomes: Seq<Outcome>) -> Seq<
    Outcome,
> {
    switch_all(plain_turn(def, game, switch_all(outcomes)))
}

/// The outcomes of a round in which no strike can be critical.
pub open spec fn plain_round(
    game: FEGame,
    atk: CombatStats,
    atk_hp: u32,
    def: CombatStats,
    def_hp: u32,
    speed: SpeedDiff,
) -> Seq<Outcome> {
    let start = seq![Outcome { prob: CERTAIN, atk_hp, def_hp }];
    let exchange = plain_countered(def, game, plain_turn(atk, game, start));
    match speed {
        SpeedDiff::Even => exchange,
        SpeedDiff::AtkDoubles => plain_turn(atk, game, exchange),
        SpeedDiff::DefDoubles => plain_countered(def, game, exchange),
    }
}

/// With a crit rate of zero on both sides, a round comes out exactly as it
/// does where critical hits do not exist: the critical branch of every strike
/// has weight zero and is dropped.
pub proof fn lemma_round_without_crit(
    game: FEGame,
    atk: CombatStats,
    atk_hp: u32,
    def: CombatStats,
    def_hp: u32,
    speed: SpeedDiff,
)
    requires
        atk.crit == 0,
        def.crit == 0,
    ensures
        round_outcomes(game, atk, atk_hp, def, def_hp, speed) == plain_round(
            game,
            atk,
            atk_hp,
            def,
            def_hp,
            speed,
        ),
{
    let start = seq![Outcome { prob: CERTAIN, atk_hp, def_hp }];
    lemma_turn_without_crit(atk, game, start);
    let after_atk = atk.turn(game, start);
    lemma_turn_without_crit(def, game, switch_all(after_atk));
    let exchange = countered(def, game, after_atk);
    lemma_turn_without_crit(atk, game, exchange);
    lemma_turn_without_crit(def, game, switch_all(exchange));
}

/// With a crit rate of zero, a turn comes out as one without critical hits.
pub proof fn lemma_turn_without_crit(stats: CombatStats, game: FEGame, states: Seq<Outcome>)
    requires
        stats.crit == 0,
    ensures
        stats.turn(game, states) == plain_turn(stats, game, states),
{
    lemma_struck_without_crit(stats, game, states, Seq::empty());
    lemma_struck_without_crit(stats, game, stats.struck(game, states), Seq::empty());
}

/// With a crit rate of zero, collecting the branches of a strike gives what
/// collecting its plain branches gives.
proof fn lemma_struck_without_crit(
    stats: CombatStats,
    game: FEGame,
    states: Seq<Outcome>,
    acc: Seq<Outcome>,
)
    requires
        stats.crit == 0,
    ensures
        collected_into(acc, stats.spread(game, states)) == collected_into(
            acc,
            plain_spread(stats, game, states),
        ),
    decreases states.len(),
{
    if states.len() > 0 {
        let front = states.drop_last();
        let last = states.last();
        let three = stats.branches(game, last);
        let two = plain_branches(stats, game, last);
        lemma_struck_without_crit(stats, game, front, acc);
        lemma_collected_concat(acc, stats.spread(game, front), three);
        lemma_collected_concat(acc, plain_spread(stats, game, front), two);
        if last.atk_hp != 0 {
            assert(three.drop_last() =~= two);
        }
    }
}

} // verus!
