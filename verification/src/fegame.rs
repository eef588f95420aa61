//! What differs from game to game and belongs to neither units nor weapons:
//! which randomness a game rolls its hits with, and how it works out the
//! damage of a critical hit.
use crate::rng::{RNSystem, HIT_SCALE, MAX_LISTED};
use vstd::prelude::*;

verus! {

/// The games of the series.
#[derive(Copy, Clone, Debug, PartialEq, Eq, Hash)]
pub enum FEGame {
    FE1,
    FE2,
    FE3,
    FE4,
    FE5,
    FE6,
    FE7,
    FE8,
    FE9,
    FE10,
    FE11,
    FE12,
    FE13,
    FE14,
    FE15,
    SoV,
}

impl FEGame {
    /// The randomness the game rolls its hits with.
    pub open spec fn rn_system_spec(self) -> RNSystem {
        match self {
            FEGame::FE1 | FEGame::FE2 | FEGame::FE3 | FEGame::FE4 | FEGame::FE5 => RNSystem::OneRN,
            FEGame::FE14 | FEGame::SoV => RNSystem::FatesRN,
            _ => RNSystem::TwoRN,
        }
    }

    /// The true hit rate, in ten-thousandths, behind a displayed rate in
    /// this game.
    pub open spec fn true_hit_spec(self, listed_hit: u32) -> int {
        self.rn_system_spec().true_hit_spec(listed_hit)
    }

    /// The damage of a critical hit: twice the attack less the defence in
    /// the two games that double the attack, three times the ordinary damage
    /// in the others.
    pub open spec fn crit_damage_spec(self, atk: u32, def: u32) -> int {
        match self {
            FEGame::FE4 | FEGame::FE5 => atk * 2 - def,
            _ => (atk - def) * 3,
        }
    }

    /// Returns the randomness the game rolls its hits with: one roll in the
    /// first five games, the blend in FE14 and SoV, two rolls in the others.
    pub fn rn_system(&self) -> (system: RNSystem)
        ensures
            system == self.rn_system_spec(),
    {
        match self {
            FEGame::FE1 | FEGame::FE2 | FEGame::FE3 | FEGame::FE4 | FEGame::FE5 => RNSystem::OneRN,
            FEGame::FE14 | FEGame::SoV => RNSystem::FatesRN,
            _ => RNSystem::TwoRN,
        }
    }

    /// Converts listed hit, what the game tells you the hit rate is, to true
    /// hit, the actual hit probability, in ten-thousandths. Most of the games
    /// lie to you about this.
    pub fn true_hit(&self, listed_hit: u32) -> (rate: u32)
        requires
            listed_hit <= MAX_LISTED,
        ensures
            rate == self.true_hit_spec(listed_hit),
            rate <= HIT_SCALE,
    {
        self.rn_system().true_hit(listed_hit)
    }

    /// Computes critical damage: this is done by doubling Atk in FE4 and FE5,
    /// but done by tripling damage (Atk - Def) in the other games. The damage
    /// must not be negative and must fit the result.
    pub fn crit_damage(&self, atk: u32, def: u32) -> (damage: u32)
        requires
            0 <= self.crit_damage_spec(atk, def) <= u32::MAX,
        ensures
            damage == self.crit_damage_spec(atk, def),
    {
        let atk: u64 = atk as u64;
        let def: u64 = def as u64;
        match self {
            FEGame::FE4 | FEGame::FE5 => (atk * 2 - def) as u32,
            _ => ((atk - def) * 3) as u32,
        }
    }
}

} // verus!
