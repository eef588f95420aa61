//! Rounds in which every strike lands and none is critical: there is one way
//! through such a round, and its outcome can be read off strike by strike.
use crate::fegame::FEGame;
use crate::mass::collected_into;
use crate::rng::{lemma_two_rolls_closed_form, RNSystem};
use crate::simple_calc::{countered, hp_after, round_outcomes, switch_all};
use crate::simple_calc::{CombatStats, Outcome, SpeedDiff, CERTAIN};
use vstd::prelude::*;

verus! {

/// The state after a strike that lands for its plain damage. A dead attacker
/// does nothing.
pub open spec fn sure_strike(stats: CombatStats, state: Outcome) -> Outcome {
    if state.atk_hp == 0 {
        state
    } else {
        Outcome {
            prob: state.prob,
            atk_hp: state.atk_hp,
            def_hp: hp_after(state.def_hp, stats.dmg as int),
        }
    }
}

/// The state after a turn of strikes that land for their plain damage.
pub open spec fn sure_turn(stats: CombatStats, state: Outcome) -> Outcome {
    if stats.is_brave {
        sure_strike(stats, sure_strike(stats, state))
    } else {
        sure_strike(stats, state)
    }
}

/// The state after such a turn of the defender.
pub open spec fn sure_counter(def: CombatStats, state: Outcome) -> Outcome {
    sure_turn(def, state.switched()).switched()
}

/// The state after a round of strikes that land for their plain damage, turn
/// by turn in the order of the pattern.
pub open spec fn sure_round(
    atk: CombatStats,
    atk_hp: u32,
    def: CombatStats,
    def_hp: u32,
    speed: SpeedDiff,
) -> Outcome {
    let start = Outcome { prob: CERTAIN, atk_hp, def_hp };
    let exchange = sure_counter(def, sure_turn(atk, start));
    match speed {
        SpeedDiff::Even => exchange,
        SpeedDiff::AtkDoubles => sure_turn(atk, exchange),
        SpeedDiff::DefDoubles => sure_counter(def, exchange),
    }
}

/// Where both sides have a displayed hit of 100 and a crit of 0, a round has
/// one outcome, in every game: the state that the strikes of the pattern lead
/// to one after the other, each landing for its plain damage.
pub proof fn lemma_sure_round(
    game: FEGame,
    atk: CombatStats,
    atk_hp: u32,
    def: CombatStats,
    def_hp: u32,
    speed: SpeedDiff,
)
    requires
        atk.hit == 100,
        atk.crit == 0,
        def.hit == 100,
        def.crit == 0,
    ensures
        round_outcomes(game, atk, atk_hp, def, def_hp, speed) == seq![
            sure_round(atk, atk_hp, def, def_hp, speed),
        ],
{
    let start = Outcome { prob: CERTAIN, atk_hp, def_hp };
    lemma_sure_turn(atk, game, start);
    let after_atk = sure_turn(atk, start);
    lemma_sure_counter(def, game, after_atk);
    let exchange = sure_counter(def, after_atk);
    lemma_sure_turn(atk, game, exchange);
    lemma_sure_counter(def, game, exchange);
}

/// A displayed hit of 100 is a certain hit in every game.
pub proof fn lemma_full_hit_is_certain(game: FEGame)
    ensures
        game.true_hit_spec(100) == 10_000,
{
    match game.rn_system_spec() {
        RNSystem::OneRN => {},
        RNSystem::FatesRN => {},
        RNSystem::TwoRN => {
            lemma_two_rolls_closed_form(100);
        },
    }
}

/// A strike that cannot miss and cannot be critical has one outcome.
proof fn lemma_sure_strike(stats: CombatStats, game: FEGame, state: Outcome)
    requires
        stats.hit == 100,
        stats.crit == 0,
        state.prob > 0,
    ensures
        stats.struck(game, seq![state]) == seq![sure_strike(stats, state)],
{
    lemma_full_hit_is_certain(game);
    let none = Seq::<Outcome>::empty();
    let branches = stats.branches(game, state);
    assert(seq![state].drop_last() =~= none);
    assert(stats.spread(game, none) =~= none);
    assert(collected_into(none, none) == none);
    if state.atk_hp != 0 {
        let two = branches.drop_last();
        let one = two.drop_last();
        assert(one.drop_last() =~= none);
        assert(collected_into(none, one) == none);
        assert(collected_into(none, two) == seq![sure_strike(stats, state)]);
    }
}

/// A turn of such strikes has one outcome.
proof fn lemma_sure_turn(stats: CombatStats, game: FEGame, state: Outcome)
    requires
        stats.hit == 100,
        stats.crit == 0,
        state.prob > 0,
    ensures
        stats.turn(game, seq![state]) == seq![sure_turn(stats, state)],
{
    lemma_sure_strike(stats, game, state);
    lemma_sure_strike(stats, game, sure_strike(stats, state));
}

/// A turn of such strikes by the defender has one outcome.
proof fn lemma_sure_counter(def: CombatStats, game: FEGame, state: Outcome)
    requires
        def.hit == 100,
        def.crit == 0,
        state.prob > 0,
    ensures
        countered(def, game, seq![state]) == seq![sure_counter(def, state)],
{
    assert(switch_all(seq![state]) =~= seq![state.switched()]);
    lemma_sure_turn(def, game, state.switched());
}

} // verus!
