//! How a displayed hit rate turns into the chance that an attack lands.
//!
//! The games show the player a percentage, but most of them do not roll
//! against that percentage directly. Unlikely hits are made rarer and likely
//! hits more reliable, so a displayed 90 can stand for a real 99.
//!
//! True hit rates are returned as whole numbers of ten-thousandths
//! ([`HIT_SCALE`] parts make a certain hit). That is exactly the resolution at
//! which two rolls of a hundred-sided die can be told apart.
use vstd::prelude::*;

verus! {

/// The number of parts a true hit rate is measured in: `HIT_SCALE` is a
/// certain hit, 0 a certain miss.
pub const HIT_SCALE: u32 = 10_000;

/// The highest hit rate a game displays.
pub const MAX_LISTED: u32 = 100;

/// The blended hit rates of [`RNSystem::FatesRN`] for displayed rates 50 to
/// 100, in ten-thousandths.
///
/// Entry `k` is `h + (4 / 30) * h * sin((0.02 * h - 1) * 180 degrees)` percent
/// for `h = 50 + k`, rounded to the nearest ten-thousandth.
pub const BLENDED: [u32; 51] = [
    5000, 5143, 5287, 5432, 5579, 5727, 5875, 6024, 6173, 6322,
    6470, 6618, 6766, 6912, 7058, 7201, 7343, 7483, 7620, 7755,
    7888, 8017, 8143, 8266, 8385, 8500, 8611, 8719, 8822, 8920,
    9014, 9104, 9189, 9270, 9346, 9417, 9484, 9546, 9603, 9656,
    9705, 9750, 9791, 9828, 9861, 9891, 9918, 9942, 9964, 9983,
    10000,
];

/// One of the ways a game decides whether an attack lands.
#[derive(Copy, Clone, Debug, PartialEq, Eq)]
pub enum RNSystem {
    /// The honest approach: one roll against the displayed rate, so a
    /// displayed 95 is a real 95%.
    OneRN,
    /// The hybrid approach: below a displayed 50 this is `OneRN`; from 50 on
    /// the single roll is bent by a sine term that lands between `OneRN` and
    /// `TwoRN`.
    FatesRN,
    /// The common approach: two rolls from 0 to 99 are averaged and the
    /// average is held against the displayed rate.
    TwoRN,
}

/// How many rolls `j` in `0..width` give `i + j < limit`.
pub open spec fn rolls_below(i: int, width: int, limit: int) -> int
    decreases width,
{
    if width <= 0 {
        0
    } else {
        rolls_below(i, width - 1, limit) + if i + (width - 1) < limit {
            1int
        } else {
            0int
        }
    }
}

/// How many pairs of rolls `(i, j)`, with `i` in `0..height` and `j` in
/// `0..100`, give `i + j < limit`.
pub open spec fn pairs_below(height: int, limit: int) -> int
    decreases height,
{
    if height <= 0 {
        0
    } else {
        pairs_below(height - 1, limit) + rolls_below(height - 1, 100, limit)
    }
}

impl RNSystem {
    /// The true hit rate, in ten-thousandths, behind a displayed rate.
    pub open spec fn true_hit_spec(self, listed_hit: u32) -> int {
        match self {
            RNSystem::OneRN => listed_hit * 100,
            RNSystem::TwoRN => pairs_below(100, 2 * listed_hit),
            RNSystem::FatesRN => if listed_hit < 50 {
                listed_hit * 100
            } else {
                BLENDED[listed_hit - 50] as int
            },
        }
    }

    /// Returns the true hit rate, in ten-thousandths, for a displayed hit
    /// rate between 0 and 100.
    pub fn true_hit(&self, listed_hit: u32) -> (rate: u32)
        requires
            listed_hit <= MAX_LISTED,
        ensures
            rate == self.true_hit_spec(listed_hit),
            rate <= HIT_SCALE,
    {
        match self {
            RNSystem::OneRN => listed_hit * 100,
            RNSystem::TwoRN => {
                // There is no shorter honest way to say this than to count.
                let limit: u32 = listed_hit * 2;
                let mut num_hits: u32 = 0;
                let mut i: u32 = 0;
                while i < 100
                    invariant
                        i <= 100,
                        limit == 2 * listed_hit,
                        limit <= 200,
                        num_hits == pairs_below(i as int, limit as int),
                        num_hits <= 100 * i,
                    decreases 100 - i,
                {
                    let mut in_row: u32 = 0;
                    let mut j: u32 = 0;
                    while j < 100
                        invariant
                            i < 100,
                            j <= 100,
                            limit <= 200,
                            in_row == rolls_below(i as int, j as int, limit as int),
                            in_row <= j,
                        decreases 100 - j,
                    {
                        if i + j < limit {
                            in_row += 1;
                        }
                        j += 1;
                    }
                    num_hits += in_row;
                    i += 1;
                }
                num_hits
            },
            RNSystem::FatesRN => if listed_hit < 50 {
                listed_hit * 100
            } else {
                proof {
                    lemma_blended_rises((listed_hit - 50) as int, 50);
                }
                BLENDED[(listed_hit - 50) as usize]
            },
        }
    }
}

/// A higher displayed rate never stands for a lower true rate, and every
/// true rate lies between a certain miss and a certain hit.
pub proof fn lemma_true_hit_monotone(system: RNSystem, lower: u32, higher: u32)
    requires
        lower <= higher <= MAX_LISTED,
    ensures
        0 <= system.true_hit_spec(lower) <= system.true_hit_spec(higher) <= HIT_SCALE,
{
    match system {
        RNSystem::OneRN => {},
        RNSystem::TwoRN => {
            lemma_pairs_below(100, 2 * lower, 2 * higher);
        },
        RNSystem::FatesRN => {
            if lower >= 50 {
                lemma_blended_rises(lower - 50, higher - 50);
            } else if higher >= 50 {
                lemma_blended_rises(0, higher - 50);
            }
        },
    }
}

/// The count of pairs behind `TwoRN` in closed form: up to a displayed 50 the
/// pairs below the rate fill a triangle, from 50 on the pairs that are not
/// below it do.
pub proof fn lemma_two_rolls_closed_form(listed_hit: u32)
    requires
        listed_hit <= MAX_LISTED,
    ensures
        RNSystem::TwoRN.true_hit_spec(listed_hit) == if listed_hit <= 50 {
            listed_hit * (2 * listed_hit + 1)
        } else {
            10_000 - (100 - listed_hit) * (199 - 2 * listed_hit)
        },
{
    let listed = listed_hit as int;
    let limit = 2 * listed;
    lemma_twice_pairs_below(100, limit);
    let pairs = pairs_below(100, limit);
    if listed <= 50 {
        assert(pairs == listed * (2 * listed + 1)) by (nonlinear_arith)
            requires
                2 * pairs == limit * (limit + 1),
                limit == 2 * listed,
        ;
    } else {
        assert(pairs == 10_000 - (100 - listed) * (199 - 2 * listed)) by (nonlinear_arith)
            requires
                2 * pairs == 200 * (limit - 99) + (100 - (limit - 99)) * limit,
                limit == 2 * listed,
        ;
    }
}

/// The rolls of one row below a limit: as many as the limit leaves room for
/// above `i`, but no fewer than none and no more than the row holds.
proof fn lemma_rolls_below_closed_form(i: int, width: int, limit: int)
    requires
        0 <= width,
    ensures
        rolls_below(i, width, limit) == if limit - i <= 0 {
            0
        } else if limit - i >= width {
            width
        } else {
            limit - i
        },
    decreases width,
{
    if width > 0 {
        lemma_rolls_below_closed_form(i, width - 1, limit);
    }
}

/// Twice the number of pairs in the first `height` rows that stay below a
/// limit, in closed form.
spec fn twice_pairs_below(height: int, limit: int) -> int {
    if limit <= 100 {
        if height <= limit {
            2 * (height * limit) - height * (height - 1)
        } else {
            limit * (limit + 1)
        }
    } else {
        if height <= limit - 99 {
            200 * height
        } else {
            200 * (limit - 99) + (height - (limit - 99)) * (limit + 100 - height)
        }
    }
}

/// The closed form counts the pairs.
proof fn lemma_twice_pairs_below(height: int, limit: int)
    requires
        0 <= height <= 100,
        0 <= limit <= 200,
    ensures
        2 * pairs_below(height, limit) == twice_pairs_below(height, limit),
    decreases height,
{
    if height > 0 {
        let h = height - 1;
        lemma_twice_pairs_below(h, limit);
        lemma_rolls_below_closed_form(h, 100, limit);
        let row = rolls_below(h, 100, limit);
        assert(twice_pairs_below(height, limit) == twice_pairs_below(h, limit) + 2 * row)
            by (nonlinear_arith)
            requires
                h == height - 1,
                0 <= h < 100,
                0 <= limit <= 200,
                row == if limit - h <= 0 {
                    0
                } else if limit - h >= 100 {
                    100
                } else {
                    limit - h
                },
        ;
    }
}

/// The rolls of one row that stay below a limit are no more than the row
/// holds, and no fewer for a higher limit.
proof fn lemma_rolls_below(i: int, width: int, lower: int, higher: int)
    requires
        0 <= width,
        lower <= higher,
    ensures
        0 <= rolls_below(i, width, lower) <= rolls_below(i, width, higher) <= width,
    decreases width,
{
    if width > 0 {
        lemma_rolls_below(i, width - 1, lower, higher);
    }
}

/// The pairs of rolls that stay below a limit are no more than there are
/// pairs, and no fewer for a higher limit.
proof fn lemma_pairs_below(height: int, lower: int, higher: int)
    requires
        0 <= height,
        lower <= higher,
    ensures
        0 <= pairs_below(height, lower) <= pairs_below(height, higher) <= 100 * height,
    decreases height,
{
    if height > 0 {
        lemma_pairs_below(height - 1, lower, higher);
        lemma_rolls_below(height - 1, 100, lower, higher);
    }
}

/// The blended table never falls from one entry to the next.
proof fn lemma_blended_step(k: int)
    requires
        0 <= k < 50,
    ensures
        BLENDED[k] <= BLENDED[k + 1],
{
}

/// The blended table rises from 5000 to 10000.
pub proof fn lemma_blended_rises(j: int, k: int)
    requires
        0 <= j <= k <= 50,
    ensures
        5000 <= BLENDED[j] <= BLENDED[k] <= 10000,
    decreases k - j,
{
    if j < k {
        lemma_blended_step(j);
        lemma_blended_rises(j + 1, k);
    } else {
        lemma_blended_bounds(j);
    }
}

/// Every entry of the blended table lies between its first and its last.
proof fn lemma_blended_bounds(k: int)
    requires
        0 <= k <= 50,
    ensures
        5000 <= BLENDED[k] <= 10000,
{
}

} // verus!
