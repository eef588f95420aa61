//! Exact combat forecasts for a turn-based tactics game.
//!
//! A forecast is the full distribution over the hit points both sides are
//! left with after one round of combat. Probabilities are kept as integers:
//! a hit rate is a count of ten-thousandths, and the weight of an outcome is
//! a count of parts of [`simple_calc::CERTAIN`]. Nothing is rounded away
//! silently, so the weights of a forecast always add up to exactly
//! `CERTAIN`.
//!
//! - [`rng`] turns a displayed hit rate into a true one, [`fegame`] says which
//!   game rolls how.
//! - [`simple_calc`] holds the calculator: one strike, one turn, one round.
//! - [`mass`] is the arithmetic of outcome lists that the calculator rests on,
//!   [`strike`] what a strike does to them.
//! - [`exact`], [`crit_free`] and [`sure`] prove what can be relied on: no
//!   share of a round is rounded, a crit rate of zero is no crit at all, and
//!   a round of certain hits is one line of arithmetic.
//! - [`round`] describes a round strike by strike.
pub mod crit_free;
pub mod exact;
pub mod fegame;
pub mod mass;
pub mod rng;
pub mod round;
pub mod simple_calc;
pub mod strike;
pub mod sure;
