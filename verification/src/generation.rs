//! One generation of the game, as a function from layout to layout.
//!
//! A layout is a sequence of rows of patches, `layout[x][y]` being the patch
//! at `(x, y)`: its length is the grid's width, the length of its rows the
//! grid's height. A generation has two phases, and each reads only what the
//! phase before it has left: first every patch is paid, then every patch
//! adopts the strategy of the leading patch of its neighbourhood.

use vstd::prelude::*;
use crate::patch::{Alpha, Patch};
use crate::patch::Strategy;
use crate::payoff::{helpers, leader, payoff};
use crate::torus::{candidates, neighbors};

verus! {

/// Whether `layout` is a grid: at least one row, at least one patch in each
/// row, and as many patches in one row as in another.
pub open spec fn is_rectangular(layout: Seq<Seq<Patch>>) -> bool {
    &&& layout.len() >= 1
    &&& layout[0].len() >= 1
    &&& forall|x: int| 0 <= x < layout.len() ==> (#[trigger] layout[x]).len() == layout[0].len()
}

/// The patch of `layout` at `cell`.
pub open spec fn patch_at(layout: Seq<Seq<Patch>>, cell: (int, int)) -> Patch {
    layout[cell.0][cell.1]
}

/// The eight patches around `(x, y)`, in the neighbours' fixed order.
pub open spec fn around(layout: Seq<Seq<Patch>>, x: int, y: int) -> Seq<Patch> {
    Seq::new(
        8,
        |i: int| patch_at(layout, neighbors(layout.len() as int, layout[0].len() as int, x, y)[i]),
    )
}

/// What the patch at `(x, y)` is paid for the helpers around it.
pub open spec fn payoff_at(layout: Seq<Seq<Patch>>, x: int, y: int, alpha: Alpha) -> nat {
    payoff(layout[x][y].strategy, helpers(around(layout, x, y)), alpha)
}

/// The layout after the scoring phase: every patch keeps its strategy and
/// holds its new payoff. The payoffs that the patches held before are not
/// read.
pub open spec fn scored(layout: Seq<Seq<Patch>>, alpha: Alpha) -> Seq<Seq<Patch>> {
    Seq::new(
        layout.len(),
        |x: int|
            Seq::new(
                layout[0].len(),
                |y: int|
                    Patch {
                        strategy: layout[x][y].strategy,
                        score: payoff_at(layout, x, y, alpha) as u64,
                    },
            ),
    )
}

/// The scores among which the patch at `(x, y)` looks for the leader: its
/// own first, then those of its eight neighbours in their fixed order.
pub open spec fn candidate_scores(layout: Seq<Seq<Patch>>, x: int, y: int) -> Seq<u64> {
    Seq::new(
        9,
        |i: int|
            patch_at(
                layout,
                candidates(layout.len() as int, layout[0].len() as int, x, y)[i],
            ).score,
    )
}

/// The cell whose strategy the patch at `(x, y)` adopts: the one whose score
/// leads among the nine candidates.
pub open spec fn model_of(layout: Seq<Seq<Patch>>, x: int, y: int) -> (int, int) {
    candidates(layout.len() as int, layout[0].len() as int, x, y)[leader(
        candidate_scores(layout, x, y),
        9,
    )]
}

/// The layout after the adoption phase: every patch keeps its score and
/// takes the strategy that its model had before the phase.
pub open spec fn adopted(layout: Seq<Seq<Patch>>) -> Seq<Seq<Patch>> {
    Seq::new(
        layout.len(),
        |x: int|
            Seq::new(
                layout[0].len(),
                |y: int|
                    Patch {
                        strategy: patch_at(layout, model_of(layout, x, y)).strategy,
                        score: layout[x][y].score,
                    },
            ),
    )
}

/// The layout one generation after `layout`.
pub open spec fn stepped(layout: Seq<Seq<Patch>>, alpha: Alpha) -> Seq<Seq<Patch>> {
    adopted(scored(layout, alpha))
}

/// The layout `n` generations after `layout`.
pub open spec fn stepped_times(layout: Seq<Seq<Patch>>, alpha: Alpha, n: nat) -> Seq<Seq<Patch>>
    decreases n,
{
    if n == 0 {
        layout
    } else {
        stepped(stepped_times(layout, alpha, (n - 1) as nat), alpha)
    }
}

/// Whether every patch of `layout` follows `strategy`.
pub open spec fn all_follow(layout: Seq<Seq<Patch>>, strategy: Strategy) -> bool {
    forall|x: int, y: int|
        0 <= x < layout.len() && 0 <= y < layout[x].len() ==> (#[trigger] layout[x][y]).strategy
            == strategy
}

} // verus!
