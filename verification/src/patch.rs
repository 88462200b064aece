//! Strategies, patches and the units in which payoffs are counted.

use vstd::prelude::*;

verus! {

/// Payoff units in one point: a payoff of `SCALE` is the payoff 1.
pub const SCALE: u64 = 1_000_000;

/// The tolerance for ties, in payoff units: payoffs no more than this
/// apart are a tie, and a tie goes to the candidate that is looked at
/// first. One unit is a millionth of a point, which is what a multiplier
/// loses at most when it is rounded to whole millionths; payoffs
/// themselves are sums of whole units and are never rounded.
pub const TIE_TOLERANCE: u64 = 1;

/// What a patch does.
#[derive(Clone, Copy, Debug, PartialEq, Eq, Structural)]
pub enum Strategy {
    Helping,
    Leeching,
}

impl Strategy {
    /// The strategy that a coin toss stands for: heads helps, tails leeches.
    pub fn from_coin(heads: bool) -> (strategy: Strategy)
        ensures
            strategy == (if heads { Strategy::Helping } else { Strategy::Leeching }),
    {
        match heads {
            true => Strategy::Helping,
            false => Strategy::Leeching,
        }
    }
}

/// The payoff multiplier of a leeching patch, in millionths:
/// `Alpha { micros: 1_300_000 }` is the multiplier 1.3.
#[derive(Clone, Copy, Debug, PartialEq, Eq, Structural)]
pub struct Alpha {
    pub micros: u32,
}

/// One cell of the grid: its strategy, and the payoff of its last
/// generation in units of 1 / `SCALE`.
#[derive(Clone, Copy, Debug, PartialEq, Eq, Structural)]
pub struct Patch {
    pub strategy: Strategy,
    pub score: u64,
}

impl Patch {
    /// A patch that has not been paid yet.
    pub fn new(strategy: Strategy) -> (patch: Patch)
        ensures
            patch == (Patch { strategy, score: 0 }),
    {
        Patch { strategy, score: 0 }
    }
}

} // verus!
