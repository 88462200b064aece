//! What a patch is paid, and which of several payoffs leads.

use vstd::prelude::*;
use crate::patch::{Alpha, Patch, Strategy, SCALE, TIE_TOLERANCE};

verus! {

/// How many of `patches` are helping.
pub open spec fn helpers(patches: Seq<Patch>) -> nat
    decreases patches.len(),
{
    if patches.len() == 0 {
        0
    } else {
        helpers(patches.drop_last()) + if patches.last().strategy == Strategy::Helping {
            1nat
        } else {
            0nat
        }
    }
}

/// The payoff, in units of 1 / `SCALE`, of a patch with `helping` helpers
/// around it: one point for each helper if it helps itself, `alpha` points
/// for each helper if it leeches.
pub open spec fn payoff(strategy: Strategy, helping: nat, alpha: Alpha) -> nat {
    match strategy {
        Strategy::Helping => helping * SCALE as nat,
        Strategy::Leeching => helping * alpha.micros as nat,
    }
}

/// There are no more helpers among some patches than there are patches.
pub proof fn lemma_helpers_bound(patches: Seq<Patch>)
    ensures
        helpers(patches) <= patches.len(),
    decreases patches.len(),
{
    if patches.len() > 0 {
        lemma_helpers_bound(patches.drop_last());
    }
}

/// Where every patch helps, each of them is counted.
pub proof fn lemma_helpers_all(patches: Seq<Patch>)
    requires
        forall|i: int| 0 <= i < patches.len() ==> patches[i].strategy == Strategy::Helping,
    ensures
        helpers(patches) == patches.len(),
    decreases patches.len(),
{
    if patches.len() > 0 {
        lemma_helpers_all(patches.drop_last());
    }
}

/// Where no patch helps, none is counted.
pub proof fn lemma_helpers_none(patches: Seq<Patch>)
    requires
        forall|i: int| 0 <= i < patches.len() ==> patches[i].strategy == Strategy::Leeching,
    ensures
        helpers(patches) == 0,
    decreases patches.len(),
{
    if patches.len() > 0 {
        lemma_helpers_none(patches.drop_last());
    }
}

/// The payoff of a patch with at most eight neighbours fits every score.
pub proof fn lemma_payoff_bound(strategy: Strategy, helping: nat, alpha: Alpha)
    requires
        helping <= 8,
    ensures
        payoff(strategy, helping, alpha) <= 8 * u32::MAX,
{
    assert(helping * SCALE as nat <= 8 * SCALE as nat) by (nonlinear_arith)
        requires
            helping <= 8,
    ;
    assert(helping * alpha.micros as nat <= 8 * u32::MAX) by (nonlinear_arith)
        requires
            helping <= 8,
            alpha.micros <= u32::MAX,
    ;
}

/// The payoff of `patch` among its eight `neighbours`, whose scores play no
/// part: only their strategies are read.
pub fn calculate_score(patch: &Patch, neighbours: &[Patch; 8], alpha: Alpha) -> (score: u64)
    ensures
        score == payoff(patch.strategy, helpers(neighbours@), alpha),
{
    let mut helping: u64 = 0;
    let mut i: usize = 0;
    while i < 8
        invariant
            i <= 8,
            neighbours@.len() == 8,
            helping == helpers(neighbours@.take(i as int)),
            helping <= i,
        decreases 8 - i,
    {
        proof {
            assert(neighbours@.take(i + 1).drop_last() =~= neighbours@.take(i as int));
        }
        if neighbours[i].strategy == Strategy::Helping {
            helping = helping + 1;
        }
        i = i + 1;
    }
    proof {
        assert(neighbours@.take(8) =~= neighbours@);
        lemma_payoff_bound(patch.strategy, helping as nat, alpha);
    }
    match patch.strategy {
        Strategy::Helping => helping * SCALE,
        Strategy::Leeching => {
            let micros: u64 = alpha.micros.into();
            helping * micros
        },
    }
}

/// The place of the payoff that leads among the first `n` of `scores`. The
/// first payoff leads to begin with, and a later one takes the lead only
/// where it is more than `TIE_TOLERANCE` above the payoff that leads so far:
/// of payoffs that are tied, the one that comes first wins.
pub open spec fn leader(scores: Seq<u64>, n: int) -> int
    decreases n,
{
    if n <= 1 {
        0
    } else {
        let held = leader(scores, n - 1);
        if scores[n - 1] > scores[held] + TIE_TOLERANCE {
            n - 1
        } else {
            held
        }
    }
}

/// The leader is one of the payoffs it was chosen among. No payoff is more
/// than `TIE_TOLERANCE` above it, and every payoff before it is below it.
pub proof fn lemma_leader_leads(scores: Seq<u64>, n: int)
    requires
        1 <= n <= scores.len(),
    ensures
        0 <= leader(scores, n) < n,
        forall|j: int|
            0 <= j < n ==> #[trigger] scores[j] <= scores[leader(scores, n)] + TIE_TOLERANCE,
        forall|j: int|
            0 <= j < leader(scores, n) ==> #[trigger] scores[j] < scores[leader(scores, n)],
    decreases n,
{
    if n > 1 {
        lemma_leader_leads(scores, n - 1);
    }
}

/// The first of the highest payoffs leads, unless a payoff before it comes
/// within `TIE_TOLERANCE` of it: a payoff leads where none is above it and
/// every payoff before it is more than `TIE_TOLERANCE` below it.
pub proof fn lemma_leader_is_first_highest(scores: Seq<u64>, n: int, first: int)
    requires
        1 <= n <= scores.len(),
        0 <= first < n,
        forall|j: int| 0 <= j < n ==> #[trigger] scores[j] <= scores[first],
        forall|j: int| 0 <= j < first ==> #[trigger] scores[j] + TIE_TOLERANCE < scores[first],
    ensures
        leader(scores, n) == first,
    decreases n,
{
    if n - 1 > first {
        lemma_leader_is_first_highest(scores, n - 1, first);
    } else if n > 1 {
        lemma_leader_leads(scores, n - 1);
    }
}

/// The first payoff keeps the lead where no payoff is more than
/// `TIE_TOLERANCE` above it.
pub proof fn lemma_first_keeps_lead(scores: Seq<u64>, n: int)
    requires
        1 <= n <= scores.len(),
        forall|j: int| 0 <= j < n ==> #[trigger] scores[j] <= scores[0] + TIE_TOLERANCE,
    ensures
        leader(scores, n) == 0,
    decreases n,
{
    if n > 1 {
        lemma_first_keeps_lead(scores, n - 1);
    }
}

/// The place of the payoff that leads among all nine `scores`.
pub fn pick_leader(scores: &[u64; 9]) -> (best: usize)
    ensures
        best == leader(scores@, 9),
        best < 9,
{
    let mut best: usize = 0;
    let mut i: usize = 1;
    while i < 9
        invariant
            1 <= i <= 9,
            scores@.len() == 9,
            best == leader(scores@, i as int),
            best < i,
        decreases 9 - i,
    {
        if scores[i] > scores[best] && scores[i] - scores[best] > TIE_TOLERANCE {
            best = i;
        }
        i = i + 1;
    }
    best
}

} // verus!
