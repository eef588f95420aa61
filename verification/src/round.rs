//! The statistical profile of a single round of combat: hit, crit, damage
//! and who strikes how often. Think of this as the information in the combat
//! preview, kept per strike rather than per side.
//!
//! These types only describe a round. The forecast itself is worked out by
//! `simple_calc`, from the reduced stats of each side.
use vstd::prelude::*;

verus! {

/// Describes how many times a side will strike. There are two kinds of
/// doubling: repeated attacks, that occur when the striker outspeeds their
/// target by a game-dependent amount, and continued attacks, which are
/// immediate second attacks that come from things like weapon effects,
/// combat arts and skill activations. These can stack, so a unit can attack
/// four times if it outspeeds its target and uses a brave weapon. Continued
/// attacks are called "brave" after the weapons that most often give them.
#[derive(Copy, Clone, Debug, PartialEq, Eq)]
pub struct AttackRepeat {
    /// Whether the striker naturally outspeeds the target.
    pub outspeeds: bool,
    /// Whether the striker gets continued attacks from a brave weapon or a
    /// brave combat art.
    pub is_brave: bool,
}

/// The statistics for a single strike in a round of combat.
#[derive(Copy, Clone, Debug, PartialEq, Eq)]
pub struct Attack {
    /// The displayed hit rate as a percentage between 0 and 100.
    pub hit: u32,
    /// The critical rate as a percentage between 0 and 100.
    pub crit: u32,
    /// The damage dealt by the attack.
    pub dmg: u32,
}

/// Everything the combat preview says about a round.
#[derive(Copy, Clone, Debug, PartialEq, Eq)]
pub struct Round {
    /// The attacker HP before combat starts.
    pub atk_hp: u32,
    /// The hit, crit, and damage of the attacker's action.
    pub attacker: Attack,
    /// The defender HP before combat starts.
    pub def_hp: u32,
    /// The hit, crit, and damage of the defender's action.
    pub defender: Attack,
    /// Describes how the attacker will strike, with possible multiple strikes.
    pub atk_repeat: AttackRepeat,
    /// Describes how the defender will strike, with possible multiple strikes.
    pub def_repeat: AttackRepeat,
}

impl Attack {
    /// Hit and crit are rates between 0 and 100.
    pub open spec fn wf(self) -> bool {
        self.hit <= 100 && self.crit <= 100
    }
}

impl Round {
    /// The strikes of both sides have rates between 0 and 100.
    pub open spec fn wf(self) -> bool {
        self.attacker.wf() && self.defender.wf()
    }
}

} // verus!
