//! Why no weight of a round is ever rounded.
//!
//! A strike shares out a weight in millionths: ten-thousandths of hit rate
//! times hundredths of crit rate. A round starts from `CERTAIN`, which is a
//! million to the sixth, and holds at most six strikes, so every share that a
//! round takes divides evenly.
use crate::fegame::FEGame;
use crate::mass::{collected_into, holds_state, is_canonical, merged, total_mass};
use crate::mass::{lemma_collected, lemma_mass_at_bounded, lemma_mass_of_distinct};
use crate::mass::lemma_mass_of_one;
use crate::rng::lemma_true_hit_monotone;
use crate::simple_calc::{countered, switch_all, CombatStats, Outcome, SpeedDiff, CERTAIN};
use crate::strike::{lemma_spread, lemma_struck, lemma_switch_all, lemma_turn};
use vstd::prelude::*;

verus! {

/// The weight is a whole multiple of `grain`.
pub open spec fn is_multiple(weight: u128, grain: int) -> bool {
    weight as int % grain == 0
}

/// Every weight of the list is a whole multiple of `grain`.
pub open spec fn in_grains(outcomes: Seq<Outcome>, grain: int) -> bool {
    forall|i: int| 0 <= i < outcomes.len() ==> is_multiple((#[trigger] outcomes[i]).prob, grain)
}

/// The shares that a strike takes of this weight are not rounded: the part
/// that lands is the weight times the hit rate, the part that lands as a
/// critical hit is that times the crit rate.
pub open spec fn shares_evenly(stats: CombatStats, game: FEGame, prob: u128) -> bool {
    let hit = game.true_hit_spec(stats.hit);
    &&& stats.landing(game, prob) * 10_000 == prob * hit
    &&& stats.landing_crit(game, prob) * 1_000_000 == prob * hit * stats.crit
}

/// A strike from these states rounds no share.
pub open spec fn strike_is_exact(stats: CombatStats, game: FEGame, states: Seq<Outcome>) -> bool {
    forall|i: int| 0 <= i < states.len() ==> shares_evenly(stats, game, (#[trigger] states[i]).prob)
}

/// A turn from these states rounds no share, in its first strike or in its
/// second.
pub open spec fn turn_is_exact(stats: CombatStats, game: FEGame, states: Seq<Outcome>) -> bool {
    &&& strike_is_exact(stats, game, states)
    &&& stats.is_brave ==> strike_is_exact(stats, game, stats.struck(game, states))
}

/// A round from the given hit points rounds no share in any of its turns.
pub open spec fn round_is_exact(
    game: FEGame,
    atk: CombatStats,
    atk_hp: u32,
    def: CombatStats,
    def_hp: u32,
    speed: SpeedDiff,
) -> bool {
    let start = seq![Outcome { prob: CERTAIN, atk_hp, def_hp }];
    let after_atk = atk.turn(game, start);
    let exchange = countered(def, game, after_atk);
    &&& turn_is_exact(atk, game, start)
    &&& turn_is_exact(def, game, switch_all(after_atk))
    &&& match speed {
        SpeedDiff::Even => true,
        SpeedDiff::AtkDoubles => turn_is_exact(atk, game, exchange),
        SpeedDiff::DefDoubles => turn_is_exact(def, game, switch_all(exchange)),
    }
}

/// No share of a round is rounded: every weight in its outcomes is the exact
/// probability of that outcome, in parts of `CERTAIN`.
pub proof fn lemma_round_is_exact(
    game: FEGame,
    atk: CombatStats,
    atk_hp: u32,
    def: CombatStats,
    def_hp: u32,
    speed: SpeedDiff,
)
    requires
        atk.wf(),
        def.wf(),
    ensures
        round_is_exact(game, atk, atk_hp, def, def_hp, speed),
{
    let start = seq![Outcome { prob: CERTAIN, atk_hp, def_hp }];
    lemma_mass_of_one(start[0]);
    lemma_turn_is_exact(atk, game, start, 1_000_000_000_000_000_000_000_000);
    lemma_turn(atk, game, start);
    let after_atk = atk.turn(game, start);
    let facing = switch_all(after_atk);
    lemma_switch_all(after_atk);
    lemma_turn_is_exact(def, game, facing, 1_000_000_000_000);
    lemma_turn(def, game, facing);
    lemma_switch_all(def.turn(game, facing));
    let exchange = countered(def, game, after_atk);
    match speed {
        SpeedDiff::Even => {},
        SpeedDiff::AtkDoubles => {
            lemma_turn_is_exact(atk, game, exchange, 1);
        },
        SpeedDiff::DefDoubles => {
            lemma_turn_is_exact(def, game, switch_all(exchange), 1);
        },
    }
}

/// A turn from weights in grains of a million million times `grain` rounds
/// nothing and leaves weights in grains of `grain`.
proof fn lemma_turn_is_exact(stats: CombatStats, game: FEGame, states: Seq<Outcome>, grain: int)
    requires
        stats.wf(),
        1 <= grain,
        total_mass(states) <= u128::MAX,
        in_grains(states, 1_000_000_000_000 * grain),
    ensures
        turn_is_exact(stats, game, states),
        in_grains(stats.turn(game, states), grain),
{
    lemma_strike_is_exact(stats, game, states, 1_000_000 * grain);
    lemma_struck(stats, game, states);
    let once = stats.struck(game, states);
    lemma_strike_is_exact(stats, game, once, grain);
    if !stats.is_brave {
        assert forall|i: int| 0 <= i < once.len() implies is_multiple(
            (#[trigger] once[i]).prob,
            grain,
        ) by {
            lemma_coarser_grain(once[i].prob as int, 1_000_000, grain);
        }
    }
}

/// A multiple of `factor * grain` is a multiple of `grain`.
proof fn lemma_coarser_grain(weight: int, factor: int, grain: int)
    requires
        1 <= grain,
        1 <= factor,
        0 <= weight,
        weight % (factor * grain) == 0,
    ensures
        weight % grain == 0,
{
    let whole = factor * grain;
    assert(1 <= whole) by (nonlinear_arith)
        requires
            whole == factor * grain,
            1 <= grain,
            1 <= factor,
    ;
    let k = weight / whole;
    assert(weight == k * whole) by {
        vstd::arithmetic::div_mod::lemma_fundamental_div_mod(weight, whole);
    }
    assert(weight == (k * factor) * grain) by (nonlinear_arith)
        requires
            weight == k * whole,
            whole == factor * grain,
    ;
    vstd::arithmetic::div_mod::lemma_mod_multiples_basic(k * factor, grain);
}

/// A strike from weights in grains of a million times `grain` rounds nothing
/// and leaves weights in grains of `grain`.
proof fn lemma_strike_is_exact(stats: CombatStats, game: FEGame, states: Seq<Outcome>, grain: int)
    requires
        stats.wf(),
        1 <= grain,
        total_mass(states) <= u128::MAX,
        in_grains(states, 1_000_000 * grain),
    ensures
        strike_is_exact(stats, game, states),
        in_grains(stats.struck(game, states), grain),
{
    assert forall|i: int| 0 <= i < states.len() implies shares_evenly(
        stats,
        game,
        (#[trigger] states[i]).prob,
    ) by {
        lemma_branches_are_exact(stats, game, states[i], grain);
    }
    lemma_spread_grains(stats, game, states, grain);
    lemma_spread(stats, game, states);
    lemma_collected_grains(Seq::empty(), stats.spread(game, states), grain);
}

/// The branches of a state whose weight is in grains of a million times
/// `grain` are shared out evenly, and in grains of `grain`.
proof fn lemma_branches_are_exact(stats: CombatStats, game: FEGame, state: Outcome, grain: int)
    requires
        stats.wf(),
        1 <= grain,
        is_multiple(state.prob, 1_000_000 * grain),
    ensures
        shares_evenly(stats, game, state.prob),
        in_grains(stats.branches(game, state), grain),
{
    let hit = game.true_hit_spec(stats.hit);
    let crit = stats.crit as int;
    let prob = state.prob as int;
    lemma_true_hit_monotone(game.rn_system_spec(), stats.hit, stats.hit);
    let k = prob / (1_000_000 * grain);
    assert(prob == k * (1_000_000 * grain)) by {
        vstd::arithmetic::div_mod::lemma_fundamental_div_mod(prob, 1_000_000 * grain);
    }
    let unit = k * grain;
    assert(prob == unit * 1_000_000 && 0 <= unit) by (nonlinear_arith)
        requires
            prob == k * (1_000_000 * grain),
            unit == k * grain,
            0 <= prob,
            1 <= grain,
    ;
    assert((prob * hit) / 10_000 == unit * 100 * hit) by (nonlinear_arith)
        requires
            prob == unit * 1_000_000,
    ;
    assert((prob * (hit * crit)) / 1_000_000 == unit * hit * crit) by (nonlinear_arith)
        requires
            prob == unit * 1_000_000,
    ;
    let landing = stats.landing(game, state.prob);
    let landing_crit = stats.landing_crit(game, state.prob);
    assert(landing * 10_000 == prob * hit) by (nonlinear_arith)
        requires
            landing == unit * 100 * hit,
            prob == unit * 1_000_000,
    ;
    assert(landing_crit * 1_000_000 == prob * hit * crit) by (nonlinear_arith)
        requires
            landing_crit == unit * hit * crit,
            prob == unit * 1_000_000,
    ;
    if state.atk_hp == 0 {
        lemma_coarser_grain(prob, 1_000_000, grain);
    } else {
        assert(prob - landing == (k * (1_000_000 - 100 * hit)) * grain) by (nonlinear_arith)
            requires
                landing == unit * 100 * hit,
                prob == unit * 1_000_000,
                unit == k * grain,
        ;
        assert(landing - landing_crit == (k * hit * (100 - crit)) * grain) by (nonlinear_arith)
            requires
                landing == unit * 100 * hit,
                landing_crit == unit * hit * crit,
                unit == k * grain,
        ;
        assert(landing_crit == (k * hit * crit) * grain) by (nonlinear_arith)
            requires
                landing_crit == unit * hit * crit,
                unit == k * grain,
        ;
        vstd::arithmetic::div_mod::lemma_mod_multiples_basic(k * (1_000_000 - 100 * hit), grain);
        vstd::arithmetic::div_mod::lemma_mod_multiples_basic(k * hit * (100 - crit), grain);
        vstd::arithmetic::div_mod::lemma_mod_multiples_basic(k * hit * crit, grain);
    }
}

/// Spreading weights in grains of a million times `grain` leaves weights in
/// grains of `grain`.
proof fn lemma_spread_grains(stats: CombatStats, game: FEGame, states: Seq<Outcome>, grain: int)
    requires
        stats.wf(),
        1 <= grain,
        in_grains(states, 1_000_000 * grain),
    ensures
        in_grains(stats.spread(game, states), grain),
    decreases states.len(),
{
    if states.len() > 0 {
        let front = states.drop_last();
        let last = states.last();
        lemma_spread_grains(stats, game, front, grain);
        lemma_branches_are_exact(stats, game, last, grain);
    }
}

/// Adding a weight in grains to a list in grains leaves a list in grains.
proof fn lemma_merged_grains(outcome: Outcome, outcomes: Seq<Outcome>, grain: int)
    requires
        1 <= grain,
        in_grains(outcomes, grain),
        is_multiple(outcome.prob, grain),
        forall|i: int|
            0 <= i < outcomes.len() && (#[trigger] outcomes[i]).same_state(outcome)
                ==> outcome.prob + outcomes[i].prob <= u128::MAX,
    ensures
        in_grains(merged(outcome, outcomes), grain),
{
    let after = merged(outcome, outcomes);
    assert forall|i: int| 0 <= i < after.len() implies is_multiple(
        (#[trigger] after[i]).prob,
        grain,
    ) by {
        if holds_state(outcomes, outcome) && outcomes[i].same_state(outcome) {
            vstd::arithmetic::div_mod::lemma_add_mod_noop(
                outcome.prob as int,
                outcomes[i].prob as int,
                grain,
            );
        }
    }
}

/// Collecting weights in grains leaves weights in grains.
proof fn lemma_collected_grains(acc: Seq<Outcome>, outcomes: Seq<Outcome>, grain: int)
    requires
        1 <= grain,
        is_canonical(acc),
        total_mass(acc) + total_mass(outcomes) <= u128::MAX,
        in_grains(acc, grain),
        in_grains(outcomes, grain),
    ensures
        in_grains(collected_into(acc, outcomes), grain),
    decreases outcomes.len(),
{
    if outcomes.len() > 0 {
        let front = outcomes.drop_last();
        let last = outcomes.last();
        lemma_collected_grains(acc, front, grain);
        lemma_collected(acc, front);
        let so_far = collected_into(acc, front);
        if last.prob != 0 {
            assert forall|i: int| 0 <= i < so_far.len() && (#[trigger] so_far[i]).same_state(
                last,
            ) implies last.prob + so_far[i].prob <= u128::MAX by {
                lemma_mass_of_distinct(so_far, i);
                lemma_mass_at_bounded(so_far, last.atk_hp, last.def_hp);
            }
            lemma_merged_grains(last, so_far, grain);
        }
    }
}

} // verus!
