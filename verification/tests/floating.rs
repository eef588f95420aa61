//! The integer calculator held against the same reckoning in floating point.
use fe_calc::fegame::FEGame;
use fe_calc::rng::RNSystem;
use fe_calc::simple_calc::{possible_outcomes, CombatStats, Outcome, SpeedDiff, CERTAIN};

type Floating = Vec<(f64, u32, u32)>;

fn float_true_hit(system: RNSystem, listed: u32) -> f64 {
    let lh = listed as f64;
    match system {
        RNSystem::OneRN => lh / 100.0,
        RNSystem::TwoRN => {
            let mut pairs = 0u32;
            for i in 0..100 {
                for j in 0..100 {
                    if i + j < 2 * listed {
                        pairs += 1;
                    }
                }
            }
            pairs as f64 / 10_000.0
        }
        RNSystem::FatesRN => {
            if listed < 50 {
                lh / 100.0
            } else {
                (lh + (4.0 / 30.0) * lh * ((0.02 * lh - 1.0) * 180.0).to_radians().sin()) / 100.0
            }
        }
    }
}

fn float_merge(raw: Floating) -> Floating {
    let mut merged: Floating = Vec::new();
    for (p, a, d) in raw {
        if p == 0.0 {
            continue;
        }
        match merged.iter_mut().find(|(_, ma, md)| *ma == a && *md == d) {
            Some(entry) => entry.0 += p,
            None => merged.push((p, a, d)),
        }
    }
    merged
}

fn float_strike(stats: &CombatStats, hit: f64, states: Floating) -> Floating {
    let mut raw: Floating = Vec::new();
    for (p, a, d) in states {
        if a == 0 {
            raw.push((p, a, d));
        } else {
            let crit = hit * stats.crit as f64 / 100.0;
            raw.push((p * (1.0 - hit), a, d));
            raw.push((p * (hit - crit), a, d.saturating_sub(stats.dmg)));
            raw.push((p * crit, a, d.saturating_sub(stats.dmg.saturating_mul(3))));
        }
    }
    float_merge(raw)
}

fn float_turn(stats: &CombatStats, hit: f64, states: Floating) -> Floating {
    let once = float_strike(stats, hit, states);
    if stats.is_brave {
        float_strike(stats, hit, once)
    } else {
        once
    }
}

fn float_switch(states: Floating) -> Floating {
    states.into_iter().map(|(p, a, d)| (p, d, a)).collect()
}

fn float_round(
    system: RNSystem,
    atk: &CombatStats,
    atk_hp: u32,
    def: &CombatStats,
    def_hp: u32,
    speed: SpeedDiff,
) -> Floating {
    let atk_hit = float_true_hit(system, atk.hit);
    let def_hit = float_true_hit(system, def.hit);
    let start = vec![(1.0, atk_hp, def_hp)];
    let after_atk = float_turn(atk, atk_hit, start);
    let exchange = float_switch(float_turn(def, def_hit, float_switch(after_atk)));
    match speed {
        SpeedDiff::Even => exchange,
        SpeedDiff::AtkDoubles => float_turn(atk, atk_hit, exchange),
        SpeedDiff::DefDoubles => float_switch(float_turn(def, def_hit, float_switch(exchange))),
    }
}

fn float_weight(states: &Floating, atk_hp: u32, def_hp: u32) -> f64 {
    states.iter().filter(|(_, a, d)| *a == atk_hp && *d == def_hp).map(|(p, _, _)| *p).sum()
}

fn weight(states: &[Outcome], atk_hp: u32, def_hp: u32) -> f64 {
    let parts: u128 =
        states.iter().filter(|o| o.atk_hp == atk_hp && o.def_hp == def_hp).map(|o| o.prob).sum();
    parts as f64 / CERTAIN as f64
}

fn sides() -> Vec<CombatStats> {
    let mut sides = Vec::new();
    for (dmg, hit, crit) in
        [(0, 0, 0), (3, 100, 0), (4, 55, 100), (7, 73, 21), (9, 64, 13), (2, 1, 99), (30, 100, 100)]
    {
        sides.push(CombatStats { dmg, hit, crit, is_brave: false });
        sides.push(CombatStats { dmg, hit, crit, is_brave: true });
    }
    sides
}

fn agree(game: FEGame, system: RNSystem, tolerance: f64) {
    for atk in sides() {
        for def in sides() {
            for speed in [SpeedDiff::Even, SpeedDiff::AtkDoubles, SpeedDiff::DefDoubles] {
                let exact = possible_outcomes(game, atk, 25, def, 31, speed);
                let floating = float_round(system, &atk, 25, &def, 31, speed);
                for o in &exact {
                    let there = float_weight(&floating, o.atk_hp, o.def_hp);
                    let here = weight(&exact, o.atk_hp, o.def_hp);
                    assert!((there - here).abs() <= tolerance, "{:?} {:?} {:?}", atk, def, speed);
                }
                for (_, a, d) in &floating {
                    let there = float_weight(&floating, *a, *d);
                    let here = weight(&exact, *a, *d);
                    assert!((there - here).abs() <= tolerance, "{:?} {:?} {:?}", atk, def, speed);
                }
            }
        }
    }
}

#[test]
fn one_roll_rounds_agree_with_floating_point() {
    agree(FEGame::FE1, RNSystem::OneRN, 1e-12);
    agree(FEGame::FE5, RNSystem::OneRN, 1e-12);
}

#[test]
fn two_roll_rounds_agree_with_floating_point() {
    agree(FEGame::FE7, RNSystem::TwoRN, 1e-12);
    agree(FEGame::FE15, RNSystem::TwoRN, 1e-12);
}

#[test]
fn blended_rounds_agree_with_floating_point_to_the_rounding_of_the_rates() {
    // Each of up to six strikes is off by at most half a ten-thousandth.
    agree(FEGame::FE14, RNSystem::FatesRN, 6.0 * 0.00005);
    agree(FEGame::SoV, RNSystem::FatesRN, 6.0 * 0.00005);
}
