//! What holds of every generation, whatever the layout.

use vstd::prelude::*;
use crate::generation::{
    adopted, all_follow, around, candidate_scores, is_rectangular, model_of, patch_at, payoff_at,
    scored, stepped, stepped_times,
};
use crate::patch::{Alpha, Patch, Strategy, SCALE, TIE_TOLERANCE};
use crate::payoff::{
    helpers, leader, lemma_first_keeps_lead, lemma_helpers_all, lemma_helpers_bound,
    lemma_helpers_none, lemma_leader_leads, lemma_payoff_bound,
};
use crate::torus::{candidates, lemma_neighbors_on_grid, neighbors, on_grid};

verus! {

/// Neither phase changes the size of the grid.
pub proof fn lemma_shape_kept(layout: Seq<Seq<Patch>>, alpha: Alpha)
    requires
        is_rectangular(layout),
    ensures
        is_rectangular(scored(layout, alpha)),
        scored(layout, alpha).len() == layout.len(),
        scored(layout, alpha)[0].len() == layout[0].len(),
        is_rectangular(adopted(layout)),
        adopted(layout).len() == layout.len(),
        adopted(layout)[0].len() == layout[0].len(),
        is_rectangular(stepped(layout, alpha)),
        stepped(layout, alpha).len() == layout.len(),
        stepped(layout, alpha)[0].len() == layout[0].len(),
{
    let paid = scored(layout, alpha);
    assert(paid[0].len() == layout[0].len());
    assert(is_rectangular(paid));
    assert(adopted(layout)[0].len() == layout[0].len());
    assert(adopted(paid)[0].len() == paid[0].len());
}

/// The scoring phase pays every patch in full and leaves its strategy: no
/// payoff is too large for a score.
pub proof fn lemma_scored_patch(layout: Seq<Seq<Patch>>, alpha: Alpha, x: int, y: int)
    requires
        is_rectangular(layout),
        0 <= x < layout.len(),
        0 <= y < layout[0].len(),
    ensures
        scored(layout, alpha)[x][y].score == payoff_at(layout, x, y, alpha),
        scored(layout, alpha)[x][y].strategy == layout[x][y].strategy,
{
    lemma_helpers_bound(around(layout, x, y));
    lemma_payoff_bound(layout[x][y].strategy, helpers(around(layout, x, y)), alpha);
}

/// The model of a patch is a cell of the grid: the patch itself or one of
/// its eight neighbours.
pub proof fn lemma_model_on_grid(layout: Seq<Seq<Patch>>, x: int, y: int)
    requires
        is_rectangular(layout),
    ensures
        on_grid(layout.len() as int, layout[0].len() as int, model_of(layout, x, y)),
        exists|i: int|
            0 <= i < 9 && model_of(layout, x, y) == #[trigger] candidates(
                layout.len() as int,
                layout[0].len() as int,
                x,
                y,
            )[i],
{
    let w = layout.len() as int;
    let h = layout[0].len() as int;
    lemma_neighbors_on_grid(w, h, x, y);
    lemma_leader_leads(candidate_scores(layout, x, y), 9);
    let i = leader(candidate_scores(layout, x, y), 9);
    assert(model_of(layout, x, y) == candidates(w, h, x, y)[i]);
}

/// A generation, patch by patch: the new score is the payoff for the
/// helpers that stood around the patch before, and the new strategy is the
/// one that the patch's model followed before. The model is found by the
/// new scores.
pub proof fn lemma_stepped_patch(layout: Seq<Seq<Patch>>, alpha: Alpha, x: int, y: int)
    requires
        is_rectangular(layout),
        0 <= x < layout.len(),
        0 <= y < layout[0].len(),
    ensures
        stepped(layout, alpha)[x][y].score == payoff_at(layout, x, y, alpha),
        stepped(layout, alpha)[x][y].strategy == patch_at(
            layout,
            model_of(scored(layout, alpha), x, y),
        ).strategy,
        on_grid(
            layout.len() as int,
            layout[0].len() as int,
            model_of(scored(layout, alpha), x, y),
        ),
{
    let paid = scored(layout, alpha);
    lemma_shape_kept(layout, alpha);
    lemma_scored_patch(layout, alpha, x, y);
    lemma_model_on_grid(paid, x, y);
    let model = model_of(paid, x, y);
    lemma_scored_patch(layout, alpha, model.0, model.1);
}

/// A generation is decided by the strategies alone: the scores that the
/// patches hold before it play no part.
pub proof fn lemma_old_scores_unread(first: Seq<Seq<Patch>>, second: Seq<Seq<Patch>>, alpha: Alpha)
    requires
        is_rectangular(first),
        is_rectangular(second),
        first.len() == second.len(),
        first[0].len() == second[0].len(),
        forall|x: int, y: int|
            0 <= x < first.len() && 0 <= y < first[0].len() ==> (#[trigger] first[x][y]).strategy
                == second[x][y].strategy,
    ensures
        stepped(first, alpha) == stepped(second, alpha),
{
    let w = first.len() as int;
    let h = first[0].len() as int;
    assert forall|x: int, y: int| 0 <= x < w && 0 <= y < h implies #[trigger] scored(
        first,
        alpha,
    )[x][y] == scored(second, alpha)[x][y] by {
        lemma_neighbors_on_grid(w, h, x, y);
        assert forall|i: int| 0 <= i < 8 implies #[trigger] around(first, x, y)[i].strategy
            == around(second, x, y)[i].strategy by {
            let cell = neighbors(w, h, x, y)[i];
            assert(on_grid(w, h, cell));
            assert(first[cell.0][cell.1].strategy == second[cell.0][cell.1].strategy);
        }
        lemma_helpers_agree(around(first, x, y), around(second, x, y));
        assert(first[x][y].strategy == second[x][y].strategy);
    }
    assert forall|x: int| 0 <= x < w implies #[trigger] scored(first, alpha)[x] == scored(
        second,
        alpha,
    )[x] by {
        assert forall|y: int| 0 <= y < h implies #[trigger] scored(first, alpha)[x][y] == scored(
            second,
            alpha,
        )[x][y] by {}
        assert(scored(first, alpha)[x] =~= scored(second, alpha)[x]);
    }
    assert(scored(first, alpha) =~= scored(second, alpha));
}

/// Patches that follow the same strategies place by place hold as many
/// helpers.
pub proof fn lemma_helpers_agree(first: Seq<Patch>, second: Seq<Patch>)
    requires
        first.len() == second.len(),
        forall|i: int| 0 <= i < first.len() ==> first[i].strategy == second[i].strategy,
    ensures
        helpers(first) == helpers(second),
    decreases first.len(),
{
    if first.len() > 0 {
        lemma_helpers_agree(first.drop_last(), second.drop_last());
    }
}

/// A grid on which every patch follows one strategy follows it after a
/// generation too, whatever the multiplier: a patch can only adopt a
/// strategy that is followed in its neighbourhood.
pub proof fn lemma_uniform_stays(layout: Seq<Seq<Patch>>, alpha: Alpha, strategy: Strategy)
    requires
        is_rectangular(layout),
        all_follow(layout, strategy),
    ensures
        all_follow(stepped(layout, alpha), strategy),
{
    lemma_shape_kept(layout, alpha);
    let next = stepped(layout, alpha);
    assert forall|x: int, y: int| 0 <= x < next.len() && 0 <= y < next[x].len() implies (
    #[trigger] next[x][y]).strategy == strategy by {
        assert(next[x].len() == next[0].len());
        lemma_stepped_patch(layout, alpha, x, y);
        let model = model_of(scored(layout, alpha), x, y);
        assert(layout[model.0].len() == layout[0].len());
        assert(layout[model.0][model.1].strategy == strategy);
    }
}

/// A grid on which every patch follows one strategy follows it for ever.
pub proof fn lemma_uniform_for_ever(
    layout: Seq<Seq<Patch>>,
    alpha: Alpha,
    strategy: Strategy,
    n: nat,
)
    requires
        is_rectangular(layout),
        all_follow(layout, strategy),
    ensures
        is_rectangular(stepped_times(layout, alpha, n)),
        stepped_times(layout, alpha, n).len() == layout.len(),
        stepped_times(layout, alpha, n)[0].len() == layout[0].len(),
        all_follow(stepped_times(layout, alpha, n), strategy),
    decreases n,
{
    if n > 0 {
        let before = stepped_times(layout, alpha, (n - 1) as nat);
        lemma_uniform_for_ever(layout, alpha, strategy, (n - 1) as nat);
        lemma_shape_kept(before, alpha);
        lemma_uniform_stays(before, alpha, strategy);
    }
}

/// With the multiplier zero a leeching patch is paid nothing, whatever
/// stands around it.
pub proof fn lemma_leeching_unpaid(layout: Seq<Seq<Patch>>, alpha: Alpha, x: int, y: int)
    requires
        is_rectangular(layout),
        0 <= x < layout.len(),
        0 <= y < layout[0].len(),
        alpha.micros == 0,
        layout[x][y].strategy == Strategy::Leeching,
    ensures
        payoff_at(layout, x, y, alpha) == 0,
        stepped(layout, alpha)[x][y].score == 0,
{
    lemma_stepped_patch(layout, alpha, x, y);
    assert(helpers(around(layout, x, y)) * 0 == 0);
}

/// On a grid where every patch leeches every patch is paid nothing,
/// whatever the multiplier, and goes on leeching.
pub proof fn lemma_all_leeching(layout: Seq<Seq<Patch>>, alpha: Alpha, x: int, y: int)
    requires
        is_rectangular(layout),
        all_follow(layout, Strategy::Leeching),
        0 <= x < layout.len(),
        0 <= y < layout[0].len(),
    ensures
        stepped(layout, alpha)[x][y] == (Patch { strategy: Strategy::Leeching, score: 0 }),
{
    let w = layout.len() as int;
    let h = layout[0].len() as int;
    lemma_shape_kept(layout, alpha);
    lemma_uniform_stays(layout, alpha, Strategy::Leeching);
    lemma_stepped_patch(layout, alpha, x, y);
    lemma_neighbors_on_grid(w, h, x, y);
    assert forall|i: int| 0 <= i < 8 implies #[trigger] around(layout, x, y)[i].strategy
        == Strategy::Leeching by {
        let cell = neighbors(w, h, x, y)[i];
        assert(on_grid(w, h, cell));
        assert(layout[cell.0].len() == h);
        assert(layout[cell.0][cell.1].strategy == Strategy::Leeching);
    }
    lemma_helpers_none(around(layout, x, y));
    let next = stepped(layout, alpha);
    assert(next[x].len() == next[0].len());
    assert(next[x][y].strategy == Strategy::Leeching);
    assert(layout[x].len() == h);
    assert(layout[x][y].strategy == Strategy::Leeching);
    assert(0 * alpha.micros as nat == 0);
}

/// On a grid where every patch helps every patch is paid eight points,
/// whatever the multiplier and however small the grid, and goes on helping:
/// the eight neighbours are counted one by one, also where the same patch
/// stands in several of the eight places.
pub proof fn lemma_all_helping(layout: Seq<Seq<Patch>>, alpha: Alpha, x: int, y: int)
    requires
        is_rectangular(layout),
        all_follow(layout, Strategy::Helping),
        0 <= x < layout.len(),
        0 <= y < layout[0].len(),
    ensures
        stepped(layout, alpha)[x][y] == (Patch {
            strategy: Strategy::Helping,
            score: (8 * SCALE) as u64,
        }),
{
    let w = layout.len() as int;
    let h = layout[0].len() as int;
    lemma_shape_kept(layout, alpha);
    lemma_uniform_stays(layout, alpha, Strategy::Helping);
    lemma_stepped_patch(layout, alpha, x, y);
    lemma_neighbors_on_grid(w, h, x, y);
    assert forall|i: int| 0 <= i < 8 implies #[trigger] around(layout, x, y)[i].strategy
        == Strategy::Helping by {
        let cell = neighbors(w, h, x, y)[i];
        assert(on_grid(w, h, cell));
        assert(layout[cell.0].len() == h);
        assert(layout[cell.0][cell.1].strategy == Strategy::Helping);
    }
    lemma_helpers_all(around(layout, x, y));
    let next = stepped(layout, alpha);
    assert(next[x].len() == next[0].len());
    assert(next[x][y].strategy == Strategy::Helping);
    assert(layout[x].len() == h);
    assert(layout[x][y].strategy == Strategy::Helping);
}

/// On a grid of a single patch all eight neighbours are the patch itself,
/// and it keeps its strategy for ever.
pub proof fn lemma_single_patch(layout: Seq<Seq<Patch>>, alpha: Alpha, n: nat)
    requires
        layout.len() == 1,
        layout[0].len() == 1,
    ensures
        stepped_times(layout, alpha, n).len() == 1,
        stepped_times(layout, alpha, n)[0].len() == 1,
        stepped_times(layout, alpha, n)[0][0].strategy == layout[0][0].strategy,
{
    let strategy = layout[0][0].strategy;
    assert(all_follow(layout, strategy));
    lemma_uniform_for_ever(layout, alpha, strategy, n);
}

/// A tie goes to the patch itself: where none of its eight neighbours is
/// paid more than `TIE_TOLERANCE` above what it is paid itself, a patch
/// keeps its strategy.
pub proof fn lemma_tie_keeps_strategy(layout: Seq<Seq<Patch>>, alpha: Alpha, x: int, y: int)
    requires
        is_rectangular(layout),
        0 <= x < layout.len(),
        0 <= y < layout[0].len(),
        forall|i: int|
            0 <= i < 8 ==> payoff_at(
                layout,
                (#[trigger] neighbors(layout.len() as int, layout[0].len() as int, x, y)[i]).0,
                neighbors(layout.len() as int, layout[0].len() as int, x, y)[i].1,
                alpha,
            ) <= payoff_at(layout, x, y, alpha) + TIE_TOLERANCE,
    ensures
        stepped(layout, alpha)[x][y].strategy == layout[x][y].strategy,
{
    let w = layout.len() as int;
    let h = layout[0].len() as int;
    let paid = scored(layout, alpha);
    let scores = candidate_scores(paid, x, y);
    lemma_shape_kept(layout, alpha);
    lemma_stepped_patch(layout, alpha, x, y);
    lemma_scored_patch(layout, alpha, x, y);
    lemma_neighbors_on_grid(w, h, x, y);
    vstd::arithmetic::div_mod::lemma_small_mod(x as nat, w as nat);
    vstd::arithmetic::div_mod::lemma_small_mod(y as nat, h as nat);
    assert(candidates(w, h, x, y)[0] == (x, y));
    assert(scores[0] == payoff_at(layout, x, y, alpha));
    assert forall|j: int| 0 <= j < 9 implies #[trigger] scores[j] <= scores[0]
        + TIE_TOLERANCE by {
        if j > 0 {
            let cell = neighbors(w, h, x, y)[j - 1];
            assert(candidates(w, h, x, y)[j] == cell);
            assert(on_grid(w, h, cell));
            lemma_scored_patch(layout, alpha, cell.0, cell.1);
        }
    }
    lemma_first_keeps_lead(scores, 9);
}

} // verus!
