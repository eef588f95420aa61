use fe_calc::fegame::FEGame;
use fe_calc::simple_calc::{possible_outcomes, CombatStats, Outcome, SpeedDiff, CERTAIN};

fn outcome(prob: u128, atk_hp: u32, def_hp: u32) -> Outcome {
    Outcome { prob, atk_hp, def_hp }
}

fn stats(dmg: u32, hit: u32, crit: u32) -> CombatStats {
    CombatStats { dmg, hit, crit, is_brave: false }
}

fn brave(dmg: u32, hit: u32, crit: u32) -> CombatStats {
    CombatStats { dmg, hit, crit, is_brave: true }
}

fn weight_sum(outcomes: &[Outcome]) -> u128 {
    outcomes.iter().map(|o| o.prob).sum()
}

fn as_probability(weight: u128) -> f64 {
    weight as f64 / CERTAIN as f64
}

fn is_canonical(outcomes: &[Outcome]) -> bool {
    for (i, a) in outcomes.iter().enumerate() {
        if a.prob == 0 {
            return false;
        }
        for b in &outcomes[i + 1..] {
            if a.atk_hp == b.atk_hp && a.def_hp == b.def_hp {
                return false;
            }
        }
    }
    true
}

fn some_games() -> Vec<FEGame> {
    vec![FEGame::FE1, FEGame::FE4, FEGame::FE7, FEGame::FE14, FEGame::FE15, FEGame::SoV]
}

fn patterns() -> Vec<SpeedDiff> {
    vec![SpeedDiff::Even, SpeedDiff::AtkDoubles, SpeedDiff::DefDoubles]
}

#[test]
fn one_strike_hits_or_misses() {
    let result = possible_outcomes(
        FEGame::FE1,
        stats(10, 90, 0),
        20,
        stats(0, 0, 0),
        15,
        SpeedDiff::Even,
    );
    assert_eq!(result.len(), 2);
    assert!(result.contains(&outcome(CERTAIN / 10 * 9, 20, 5)));
    assert!(result.contains(&outcome(CERTAIN / 10, 20, 15)));
    for o in &result {
        let expected = if o.def_hp == 5 { 0.9 } else { 0.1 };
        assert!((as_probability(o.prob) - expected).abs() <= 1e-9);
    }
}

#[test]
fn brave_overkill_stops_at_zero() {
    let result = possible_outcomes(
        FEGame::FE1,
        brave(5, 100, 0),
        20,
        stats(0, 0, 0),
        8,
        SpeedDiff::Even,
    );
    assert_eq!(result, vec![outcome(CERTAIN, 20, 0)]);
    assert_eq!(as_probability(result[0].prob), 1.0);
}

#[test]
fn attacker_doubling_strikes_a_b_a() {
    for game in some_games() {
        let result = possible_outcomes(
            game,
            stats(10, 100, 0),
            30,
            stats(7, 100, 0),
            25,
            SpeedDiff::AtkDoubles,
        );
        assert_eq!(result, vec![outcome(CERTAIN, 23, 5)], "{:?}", game);
    }
}

#[test]
fn defender_doubling_strikes_a_b_b() {
    for game in some_games() {
        let result = possible_outcomes(
            game,
            stats(10, 100, 0),
            30,
            stats(7, 100, 0),
            25,
            SpeedDiff::DefDoubles,
        );
        assert_eq!(result, vec![outcome(CERTAIN, 16, 15)], "{:?}", game);
    }
}

#[test]
fn even_speed_strikes_a_b() {
    for game in some_games() {
        let result =
            possible_outcomes(game, stats(10, 100, 0), 30, stats(7, 100, 0), 25, SpeedDiff::Even);
        assert_eq!(result, vec![outcome(CERTAIN, 23, 15)], "{:?}", game);
    }
}

#[test]
fn brave_sides_strike_twice_each_turn() {
    let result = possible_outcomes(
        FEGame::FE7,
        brave(3, 100, 0),
        30,
        brave(4, 100, 0),
        30,
        SpeedDiff::AtkDoubles,
    );
    assert_eq!(result, vec![outcome(CERTAIN, 22, 18)]);
    let result = possible_outcomes(
        FEGame::FE7,
        brave(3, 100, 0),
        30,
        brave(4, 100, 0),
        30,
        SpeedDiff::DefDoubles,
    );
    assert_eq!(result, vec![outcome(CERTAIN, 14, 24)]);
}

#[test]
fn brave_first_strike_feeds_the_second() {
    let result = brave(3, 50, 0).possible_outcomes(FEGame::FE1, vec![outcome(CERTAIN, 5, 10)]);
    assert_eq!(
        result,
        vec![
            outcome(CERTAIN / 4, 5, 10),
            outcome(CERTAIN / 2, 5, 7),
            outcome(CERTAIN / 4, 5, 4),
        ]
    );
}

#[test]
fn a_strike_splits_three_ways() {
    let result = stats(4, 80, 25).after_single_strike(FEGame::FE1, vec![outcome(CERTAIN, 10, 20)]);
    assert_eq!(
        result,
        vec![
            outcome(CERTAIN / 10 * 2, 10, 20),
            outcome(CERTAIN / 10 * 6, 10, 16),
            outcome(CERTAIN / 10 * 2, 10, 8),
        ]
    );
}

#[test]
fn a_strike_shares_out_the_weight_in_millionths() {
    for game in some_games() {
        for (hit, crit) in [(0u32, 0u32), (1, 1), (37, 63), (50, 50), (99, 100), (100, 99)] {
            let rate = game.true_hit(hit) as u128;
            let crit_rate = crit as u128;
            let unit = CERTAIN / 1_000_000;
            let result =
                stats(2, hit, crit).after_single_strike(game, vec![outcome(CERTAIN, 10, 10)]);
            let expected: Vec<Outcome> = vec![
                outcome((10_000 - rate) * 100 * unit, 10, 10),
                outcome(rate * (100 - crit_rate) * unit, 10, 8),
                outcome(rate * crit_rate * unit, 10, 4),
            ]
            .into_iter()
            .filter(|o| o.prob != 0)
            .collect();
            assert_eq!(result, expected, "{:?} {} {}", game, hit, crit);
        }
    }
}

#[test]
fn a_critical_hit_does_three_times_the_damage_in_every_game() {
    for game in some_games() {
        let result = stats(4, 100, 100).after_single_strike(game, vec![outcome(CERTAIN, 1, 13)]);
        assert_eq!(result, vec![outcome(CERTAIN, 1, 1)], "{:?}", game);
    }
    let result = stats(4, 100, 100).after_single_strike(FEGame::FE1, vec![outcome(CERTAIN, 1, 10)]);
    assert_eq!(result, vec![outcome(CERTAIN, 1, 0)]);
}

#[test]
fn damage_beyond_the_hit_points_leaves_none() {
    let huge = stats(4_000_000_000, 100, 0);
    assert_eq!(
        huge.after_single_strike(FEGame::FE1, vec![outcome(CERTAIN, 1, u32::MAX)]),
        vec![outcome(CERTAIN, 1, 294_967_295)]
    );
    let huge_crit = stats(4_000_000_000, 100, 100);
    assert_eq!(
        huge_crit.after_single_strike(FEGame::FE1, vec![outcome(CERTAIN, 1, u32::MAX)]),
        vec![outcome(CERTAIN, 1, 0)]
    );
    assert_eq!(
        stats(u32::MAX, 100, 100).after_single_strike(FEGame::FE1, vec![outcome(CERTAIN, 1, 5)]),
        vec![outcome(CERTAIN, 1, 0)]
    );
    assert_eq!(
        stats(5, 100, 0).after_single_strike(FEGame::FE1, vec![outcome(CERTAIN, 1, 5)]),
        vec![outcome(CERTAIN, 1, 0)]
    );
}

#[test]
fn the_dead_do_not_strike() {
    let result = stats(4, 100, 0).after_single_strike(
        FEGame::FE1,
        vec![outcome(CERTAIN / 2, 0, 10), outcome(CERTAIN / 2, 3, 10)],
    );
    assert_eq!(result, vec![outcome(CERTAIN / 2, 0, 10), outcome(CERTAIN / 2, 3, 6)]);
}

#[test]
fn a_defender_who_falls_does_not_answer() {
    let result =
        possible_outcomes(FEGame::FE1, stats(10, 50, 0), 5, stats(5, 100, 0), 10, SpeedDiff::Even);
    assert_eq!(result, vec![outcome(CERTAIN / 2, 0, 10), outcome(CERTAIN / 2, 5, 0)]);
}

#[test]
fn an_attacker_who_falls_does_not_double() {
    let result = possible_outcomes(
        FEGame::FE1,
        stats(2, 100, 0),
        4,
        stats(4, 100, 0),
        9,
        SpeedDiff::AtkDoubles,
    );
    assert_eq!(result, vec![outcome(CERTAIN, 0, 7)]);
}

#[test]
fn a_doubling_defender_misses_and_hits() {
    let result = possible_outcomes(
        FEGame::FE1,
        stats(2, 100, 0),
        9,
        stats(4, 50, 0),
        9,
        SpeedDiff::DefDoubles,
    );
    assert_eq!(
        result,
        vec![outcome(CERTAIN / 4, 9, 7), outcome(CERTAIN / 2, 5, 7), outcome(CERTAIN / 4, 1, 7)]
    );
}

#[test]
fn an_exchange_without_crits() {
    let result =
        possible_outcomes(FEGame::FE1, stats(3, 90, 0), 10, stats(2, 80, 0), 10, SpeedDiff::Even);
    assert_eq!(
        result,
        vec![
            outcome(CERTAIN / 100 * 2, 10, 10),
            outcome(CERTAIN / 100 * 8, 8, 10),
            outcome(CERTAIN / 100 * 18, 10, 7),
            outcome(CERTAIN / 100 * 72, 8, 7),
        ]
    );
}

#[test]
fn an_exchange_under_the_blended_rates() {
    let result =
        possible_outcomes(FEGame::FE14, stats(5, 70, 10), 20, stats(6, 60, 5), 20, SpeedDiff::Even);
    assert_eq!(
        result,
        vec![
            outcome(74_553_600_000_000_000_000_000_000_000_000_000, 20, 20),
            outcome(129_814_080_000_000_000_000_000_000_000_000_000, 14, 20),
            outcome(6_832_320_000_000_000_000_000_000_000_000_000, 2, 20),
            outcome(250_601_760_000_000_000_000_000_000_000_000_000, 20, 15),
            outcome(436_352_328_000_000_000_000_000_000_000_000_000, 14, 15),
            outcome(22_965_912_000_000_000_000_000_000_000_000_000, 2, 15),
            outcome(27_844_640_000_000_000_000_000_000_000_000_000, 20, 5),
            outcome(48_483_592_000_000_000_000_000_000_000_000_000, 14, 5),
            outcome(2_551_768_000_000_000_000_000_000_000_000_000, 2, 5),
        ]
    );
}

#[test]
fn a_long_round_between_two_brave_sides() {
    let result = possible_outcomes(
        FEGame::SoV,
        brave(7, 73, 21),
        30,
        brave(9, 64, 13),
        28,
        SpeedDiff::DefDoubles,
    );
    assert_eq!(result.len(), 21);
    assert_eq!(weight_sum(&result), CERTAIN);
    assert!(is_canonical(&result));
    assert_eq!(result[0], outcome(225_252_105_859_758_182_976_000_000_000_000, 30, 28));
    assert_eq!(result[19], outcome(192_892_263_934_415_901_746_315_070_020_019_200, 0, 14));
    assert_eq!(result[20], outcome(256_840_275_804_000_000_000_000_000_000_000_000, 30, 0));
}

#[test]
fn shares_of_odd_weights_round_down_and_lose_nothing() {
    let list = vec![outcome(1000, 1, 5), outcome(7, 1, 5), outcome(1, 2, 2)];
    let result = stats(1, 33, 33).after_single_strike(FEGame::FE1, list);
    assert_eq!(
        result,
        vec![outcome(675, 1, 5), outcome(224, 1, 4), outcome(108, 1, 2), outcome(1, 2, 2)]
    );
    assert_eq!(weight_sum(&result), 1008);
}

#[test]
fn a_strike_on_the_largest_weight() {
    let result = stats(1, 70, 30).after_single_strike(FEGame::FE7, vec![outcome(u128::MAX, 1, 5)]);
    assert_eq!(
        result,
        vec![
            outcome(60_229_978_945_006_108_033_017_305_515_422_973_428, 1, 5),
            outcome(196_036_671_583_152_648_801_250_111_341_441_666_619, 1, 4),
            outcome(84_015_716_392_779_706_629_107_190_574_903_571_408, 1, 2),
        ]
    );
    assert_eq!(weight_sum(&result), u128::MAX);
}

#[test]
fn a_strike_on_an_empty_list() {
    assert_eq!(stats(1, 70, 30).after_single_strike(FEGame::FE7, vec![]), vec![]);
    assert_eq!(brave(1, 70, 30).possible_outcomes(FEGame::FE7, vec![]), vec![]);
}

#[test]
fn weights_of_a_round_add_up_to_certain() {
    let sides = vec![
        stats(0, 0, 0),
        stats(3, 100, 0),
        stats(4, 55, 100),
        stats(7, 73, 21),
        brave(9, 64, 13),
        brave(2, 1, 99),
        brave(30, 100, 100),
    ];
    for game in some_games() {
        for atk in &sides {
            for def in &sides {
                for speed in patterns() {
                    let result = possible_outcomes(game, *atk, 25, *def, 31, speed);
                    assert_eq!(weight_sum(&result), CERTAIN);
                    let sum: f64 = result.iter().map(|o| as_probability(o.prob)).sum();
                    assert!((sum - 1.0).abs() <= 1e-9);
                    assert!(is_canonical(&result));
                }
            }
        }
    }
}

#[test]
fn nobody_gains_hit_points() {
    let sides = vec![stats(3, 100, 0), stats(40, 55, 50), brave(9, 64, 13), brave(u32::MAX, 50, 50)];
    for atk in &sides {
        for def in &sides {
            for speed in patterns() {
                let result = possible_outcomes(FEGame::FE8, *atk, 25, *def, 31, speed);
                for o in &result {
                    assert!(o.atk_hp <= 25 && o.def_hp <= 31);
                }
            }
        }
    }
}

#[test]
fn without_crit_an_exchange_is_hit_or_miss() {
    // Each side's strike either misses or lands: four ways through the
    // exchange and nothing else.
    for game in some_games() {
        let a = game.true_hit(60) as u128;
        let d = game.true_hit(35) as u128;
        let unit = CERTAIN / 100_000_000;
        let result = possible_outcomes(game, stats(3, 60, 0), 10, stats(2, 35, 0), 10, SpeedDiff::Even);
        assert_eq!(
            result,
            vec![
                outcome((10_000 - a) * (10_000 - d) * unit, 10, 10),
                outcome((10_000 - a) * d * unit, 8, 10),
                outcome(a * (10_000 - d) * unit, 10, 7),
                outcome(a * d * unit, 8, 7),
            ],
            "{:?}",
            game
        );
    }
}

#[test]
fn hit_points_at_the_start_may_be_none() {
    assert_eq!(
        possible_outcomes(FEGame::FE7, stats(3, 60, 10), 0, stats(2, 35, 5), 0, SpeedDiff::Even),
        vec![outcome(CERTAIN, 0, 0)]
    );
    assert_eq!(
        possible_outcomes(FEGame::FE1, stats(3, 60, 0), 0, stats(2, 50, 0), 5, SpeedDiff::DefDoubles),
        vec![outcome(CERTAIN, 0, 5)]
    );
}

#[test]
fn validity_is_a_matter_of_the_two_rates() {
    assert!(stats(0, 0, 0).is_valid());
    assert!(stats(u32::MAX, 100, 100).is_valid());
    assert!(brave(5, 100, 0).is_valid());
    assert!(!stats(5, 101, 0).is_valid());
    assert!(!stats(5, 0, 101).is_valid());
    assert!(!brave(5, u32::MAX, u32::MAX).is_valid());
}

#[test]
fn default_stats_do_nothing() {
    let idle = CombatStats::default();
    assert_eq!(idle, stats(0, 0, 0));
    assert!(idle.is_valid());
    assert_eq!(
        possible_outcomes(FEGame::FE7, idle, 10, idle, 10, SpeedDiff::AtkDoubles),
        vec![outcome(CERTAIN, 10, 10)]
    );
}
