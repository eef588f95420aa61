//! What a strike, a turn and a round do to the weight of a list of outcomes:
//! none is lost, none is made, and nobody gains hit points.
use crate::fegame::FEGame;
use crate::mass::{collected_into, is_canonical, total_mass};
use crate::mass::{lemma_collected, lemma_mass_concat, lemma_mass_of_one};
use crate::rng::lemma_true_hit_monotone;
use crate::simple_calc::{countered, round_outcomes, share, switch_all, within};
use crate::simple_calc::{CombatStats, Outcome, SpeedDiff, CERTAIN};
use vstd::prelude::*;

verus! {

/// A share of a weight can be worked out from the quotient and the remainder
/// of the weight, and is no more than the weight.
pub proof fn lemma_share(whole: int, parts: int, out_of: int)
    requires
        0 <= whole,
        0 <= parts <= out_of,
        0 < out_of,
    ensures
        (whole * parts) / out_of == (whole / out_of) * parts + ((whole % out_of) * parts) / out_of,
        0 <= (whole / out_of) * parts <= whole,
        0 <= (whole % out_of) * parts <= out_of * out_of,
        0 <= (whole * parts) / out_of <= whole,
{
    let q = whole / out_of;
    let r = whole % out_of;
    assert(whole == q * out_of + r && 0 <= r < out_of && 0 <= q) by (nonlinear_arith)
        requires
            q == whole / out_of,
            r == whole % out_of,
            0 < out_of,
            0 <= whole,
    ;
    assert((whole * parts) / out_of == q * parts + (r * parts) / out_of) by (nonlinear_arith)
        requires
            whole == q * out_of + r,
            0 < out_of,
    ;
    assert(0 <= q * parts <= q * out_of && 0 <= r * parts <= out_of * out_of) by (nonlinear_arith)
        requires
            0 <= q,
            0 <= r < out_of,
            0 <= parts <= out_of,
    ;
    assert(0 <= (whole * parts) / out_of <= whole) by (nonlinear_arith)
        requires
            0 <= whole,
            0 <= parts <= out_of,
            0 < out_of,
    ;
}

/// A larger share of a weight is no less.
pub proof fn lemma_share_rises(whole: u128, fewer: int, more: int, out_of: int)
    requires
        0 <= fewer <= more,
        0 < out_of,
    ensures
        share(whole, fewer, out_of) <= share(whole, more, out_of),
{
    let w = whole as int;
    assert((w * fewer) / out_of <= (w * more) / out_of) by (nonlinear_arith)
        requires
            0 <= w,
            0 <= fewer <= more,
            0 < out_of,
    ;
}

/// The branches of a state share out its weight and leave nobody on more hit
/// points.
pub proof fn lemma_branches(stats: CombatStats, game: FEGame, state: Outcome)
    requires
        stats.wf(),
    ensures
        0 <= game.true_hit_spec(stats.hit) <= 10_000,
        0 <= game.true_hit_spec(stats.hit) * stats.crit <= 1_000_000,
        0 <= stats.landing_crit(game, state.prob) <= stats.landing(game, state.prob) <= state.prob,
        total_mass(stats.branches(game, state)) == state.prob,
        within(stats.branches(game, state), state.atk_hp, state.def_hp),
{
    let hit = game.true_hit_spec(stats.hit);
    let crit = stats.crit as int;
    lemma_true_hit_monotone(game.rn_system_spec(), stats.hit, stats.hit);
    assert(0 <= hit * crit <= hit * 100) by (nonlinear_arith)
        requires
            0 <= hit,
            0 <= crit <= 100,
    ;
    lemma_share(state.prob as int, hit, 10_000);
    lemma_share_rises(state.prob, hit * crit, hit * 100, 1_000_000);
    let w = state.prob as int;
    assert((w * (hit * 100)) / 1_000_000 == (w * hit) / 10_000) by (nonlinear_arith);
    let branches = stats.branches(game, state);
    if state.atk_hp == 0 {
        lemma_mass_of_one(state);
    } else {
        lemma_mass_of_one(branches[0]);
        let two = seq![branches[0]].push(branches[1]);
        assert(two.drop_last() =~= seq![branches[0]]);
        assert(total_mass(two) == branches[0].prob + branches[1].prob);
        assert(branches.drop_last() =~= two);
    }
}

/// Spreading a list into branches keeps its weight and leaves nobody on more
/// hit points.
pub proof fn lemma_spread(stats: CombatStats, game: FEGame, states: Seq<Outcome>)
    requires
        stats.wf(),
    ensures
        total_mass(stats.spread(game, states)) == total_mass(states),
        forall|atk_hp: u32, def_hp: u32|
            within(states, atk_hp, def_hp) ==> within(stats.spread(game, states), atk_hp, def_hp),
    decreases states.len(),
{
    if states.len() > 0 {
        let front = states.drop_last();
        let last = states.last();
        lemma_spread(stats, game, front);
        lemma_branches(stats, game, last);
        lemma_mass_concat(stats.spread(game, front), stats.branches(game, last));
        assert forall|atk_hp: u32, def_hp: u32| within(states, atk_hp, def_hp) implies within(
            stats.spread(game, states),
            atk_hp,
            def_hp,
        ) by {
            assert(within(front, atk_hp, def_hp));
        }
    }
}

/// Switching sides keeps the weight and the canonical form, and switches the
/// bounds on the hit points with the sides.
pub proof fn lemma_switch_all(outcomes: Seq<Outcome>)
    ensures
        total_mass(switch_all(outcomes)) == total_mass(outcomes),
        is_canonical(outcomes) ==> is_canonical(switch_all(outcomes)),
        forall|atk_hp: u32, def_hp: u32|
            within(outcomes, atk_hp, def_hp) ==> within(switch_all(outcomes), def_hp, atk_hp),
        switch_all(switch_all(outcomes)) == outcomes,
    decreases outcomes.len(),
{
    let switched = switch_all(outcomes);
    if outcomes.len() > 0 {
        lemma_switch_all(outcomes.drop_last());
        assert(switched.drop_last() =~= switch_all(outcomes.drop_last()));
    }
    assert forall|atk_hp: u32, def_hp: u32| within(outcomes, atk_hp, def_hp) implies within(
        switched,
        def_hp,
        atk_hp,
    ) by {}
}

/// Collecting leaves nobody on more hit points than before.
pub proof fn lemma_collected_within(
    acc: Seq<Outcome>,
    outcomes: Seq<Outcome>,
    atk_hp: u32,
    def_hp: u32,
)
    requires
        within(acc, atk_hp, def_hp),
        within(outcomes, atk_hp, def_hp),
    ensures
        within(collected_into(acc, outcomes), atk_hp, def_hp),
    decreases outcomes.len(),
{
    if outcomes.len() > 0 {
        lemma_collected_within(acc, outcomes.drop_last(), atk_hp, def_hp);
    }
}

/// A strike gives a canonical list of the same weight and leaves nobody on
/// more hit points.
pub proof fn lemma_struck(stats: CombatStats, game: FEGame, states: Seq<Outcome>)
    requires
        stats.wf(),
        total_mass(states) <= u128::MAX,
    ensures
        is_canonical(stats.struck(game, states)),
        total_mass(stats.struck(game, states)) == total_mass(states),
        forall|atk_hp: u32, def_hp: u32|
            within(states, atk_hp, def_hp) ==> within(stats.struck(game, states), atk_hp, def_hp),
{
    let raw = stats.spread(game, states);
    lemma_spread(stats, game, states);
    lemma_collected(Seq::empty(), raw);
    assert forall|atk_hp: u32, def_hp: u32| within(states, atk_hp, def_hp) implies within(
        stats.struck(game, states),
        atk_hp,
        def_hp,
    ) by {
        lemma_collected_within(Seq::empty(), raw, atk_hp, def_hp);
    }
}

/// A turn gives a canonical list of the same weight and leaves nobody on more
/// hit points.
pub proof fn lemma_turn(stats: CombatStats, game: FEGame, states: Seq<Outcome>)
    requires
        stats.wf(),
        total_mass(states) <= u128::MAX,
    ensures
        is_canonical(stats.turn(game, states)),
        total_mass(stats.turn(game, states)) == total_mass(states),
        forall|atk_hp: u32, def_hp: u32|
            within(states, atk_hp, def_hp) ==> within(stats.turn(game, states), atk_hp, def_hp),
{
    lemma_struck(stats, game, states);
    if stats.is_brave {
        lemma_struck(stats, game, stats.struck(game, states));
    }
}

/// A turn of the defender gives a canonical list of the same weight and
/// leaves nobody on more hit points.
pub proof fn lemma_countered(def: CombatStats, game: FEGame, outcomes: Seq<Outcome>)
    requires
        def.wf(),
        total_mass(outcomes) <= u128::MAX,
    ensures
        is_canonical(countered(def, game, outcomes)),
        total_mass(countered(def, game, outcomes)) == total_mass(outcomes),
        forall|atk_hp: u32, def_hp: u32|
            within(outcomes, atk_hp, def_hp) ==> within(
                countered(def, game, outcomes),
                atk_hp,
                def_hp,
            ),
{
    let facing = switch_all(outcomes);
    lemma_switch_all(outcomes);
    lemma_turn(def, game, facing);
    lemma_switch_all(def.turn(game, facing));
}

/// The outcomes of a round are a canonical list of weight `CERTAIN`, and
/// neither side has more hit points in any of them than it started with.
pub proof fn lemma_round(
    game: FEGame,
    atk: CombatStats,
    atk_hp: u32,
    def: CombatStats,
    def_hp: u32,
    speed: SpeedDiff,
)
    requires
        atk.wf(),
        def.wf(),
    ensures
        is_canonical(round_outcomes(game, atk, atk_hp, def, def_hp, speed)),
        total_mass(round_outcomes(game, atk, atk_hp, def, def_hp, speed)) == CERTAIN,
        within(round_outcomes(game, atk, atk_hp, def, def_hp, speed), atk_hp, def_hp),
{
    let start = seq![Outcome { prob: CERTAIN, atk_hp, def_hp }];
    lemma_mass_of_one(start[0]);
    assert(within(start, atk_hp, def_hp));
    let after_atk = atk.turn(game, start);
    lemma_turn(atk, game, start);
    let exchange = countered(def, game, after_atk);
    lemma_countered(def, game, after_atk);
    match speed {
        SpeedDiff::Even => {},
        SpeedDiff::AtkDoubles => {
            lemma_turn(atk, game, exchange);
        },
        SpeedDiff::DefDoubles => {
            lemma_countered(def, game, exchange);
        },
    }
}

} // verus!
