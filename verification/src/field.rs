//! The playing field: a grid of patches that is advanced one generation at
//! a time.

use vstd::prelude::*;
use crate::generation::{
    adopted, around, candidate_scores, is_rectangular, model_of, patch_at, scored, stepped,
};
use crate::patch::{Alpha, Patch, Strategy};
use crate::payoff::{calculate_score, lemma_helpers_bound, lemma_payoff_bound, pick_leader};
use crate::payoff::helpers;
use crate::torus::{candidates, neighbors, neighbors_on};

verus! {

/// The layout that `patches` holds: row `x` of it is `patches[x]`.
pub open spec fn layout_of(patches: Vec<Vec<Patch>>) -> Seq<Seq<Patch>> {
    Seq::new(patches@.len(), |x: int| patches@[x]@)
}

/// Whether `layout` holds no patch at all: it has no row, or only empty
/// rows.
pub open spec fn is_empty_layout(layout: Seq<Seq<Patch>>) -> bool {
    forall|x: int| 0 <= x < layout.len() ==> (#[trigger] layout[x]).len() == 0
}

/// Whether some row of `layout` differs in length from the first row.
pub open spec fn is_ragged_layout(layout: Seq<Seq<Patch>>) -> bool {
    exists|x: int| 0 <= x < layout.len() && (#[trigger] layout[x]).len() != layout[0].len()
}

/// Every layout is of exactly one kind: empty, ragged, or a grid.
pub proof fn lemma_layout_kinds(layout: Seq<Seq<Patch>>)
    ensures
        is_empty_layout(layout) || is_ragged_layout(layout) || is_rectangular(layout),
        !(is_empty_layout(layout) && is_ragged_layout(layout)),
        !(is_empty_layout(layout) && is_rectangular(layout)),
        !(is_ragged_layout(layout) && is_rectangular(layout)),
{
    if is_empty_layout(layout) && layout.len() > 0 {
        assert(layout[0].len() == 0);
    }
    if !is_ragged_layout(layout) && layout.len() > 0 && layout[0].len() == 0 {
        assert forall|x: int| 0 <= x < layout.len() implies (#[trigger] layout[x]).len()
            == 0 by {}
    }
}

/// The place of the draw that fills the cell `(x, y)` of a grid of `width`
/// by `height` cells lies among the first `width * height` places.
pub proof fn lemma_draw_in_range(width: int, height: int, x: int, y: int)
    requires
        0 <= x < width,
        0 <= y < height,
    ensures
        0 <= x * height + y < width * height,
        (x + 1) * height == x * height + height,
{
    assert(0 <= x * height) by (nonlinear_arith)
        requires
            0 <= x,
            0 <= height,
    ;
    assert((x + 1) * height == x * height + height) by (nonlinear_arith);
    assert((x + 1) * height <= width * height) by (nonlinear_arith)
        requires
            x + 1 <= width,
            0 <= height,
    ;
}

/// Why a playing field could not be made.
#[derive(Clone, Copy, Debug, PartialEq, Eq, Structural)]
pub enum GridError {
    /// A width or a height of zero was asked for.
    InvalidDimensions,
    /// The layout has no row, or only empty rows.
    EmptyLayout,
    /// Some row of the layout differs in length from the first row.
    RaggedLayout,
}

/// A grid of patches without edges. `patches[x][y]` is the patch at
/// `(x, y)`, for `x` below the width and `y` below the height.
#[derive(Debug)]
pub struct PlayingField {
    width: usize,
    height: usize,
    patches: Vec<Vec<Patch>>,
}

impl View for PlayingField {
    type V = Seq<Seq<Patch>>;

    closed spec fn view(&self) -> Seq<Seq<Patch>> {
        layout_of(self.patches)
    }
}

impl PlayingField {
    /// Whether the recorded width and height are those of the layout.
    pub closed spec fn dimensions_kept(&self) -> bool {
        self.width == self.patches@.len() && self.height == self.patches@[0]@.len()
    }

    /// The invariant of a playing field: its layout is a grid, and it knows
    /// the grid's size.
    pub open spec fn wf(&self) -> bool {
        is_rectangular(self@) && self.dimensions_kept()
    }

    /// The field that holds `patches`, if they form a grid. Its width is the
    /// number of rows, its height the length of the first row, which every
    /// other row must share. A layout with a row of another length is
    /// refused as ragged, and one without any patch as empty.
    pub fn with_patches(patches: Vec<Vec<Patch>>) -> (made: Result<PlayingField, GridError>)
        ensures
            match made {
                Ok(field) => is_rectangular(layout_of(patches)) && field.wf() && field@
                    == layout_of(patches),
                Err(GridError::EmptyLayout) => is_empty_layout(layout_of(patches)),
                Err(GridError::RaggedLayout) => is_ragged_layout(layout_of(patches)),
                Err(GridError::InvalidDimensions) => false,
            },
    {
        if patches.len() == 0 {
            return Err(GridError::EmptyLayout);
        }
        let height = patches[0].len();
        let mut x: usize = 1;
        while x < patches.len()
            invariant
                1 <= x <= patches@.len(),
                height == patches@[0]@.len(),
                forall|i: int| 0 <= i < x ==> (#[trigger] patches@[i])@.len() == height,
            decreases patches@.len() - x,
        {
            if patches[x].len() != height {
                assert(layout_of(patches)[0].len() == height);
                assert(layout_of(patches)[x as int].len() != height);
                return Err(GridError::RaggedLayout);
            }
            x = x + 1;
        }
        assert forall|i: int| 0 <= i < layout_of(patches).len() implies (#[trigger] layout_of(
            patches,
        )[i]).len() == height by {
            assert(patches@[i]@.len() == height);
        }
        assert(layout_of(patches)[0].len() == height);
        if height == 0 {
            return Err(GridError::EmptyLayout);
        }
        Ok(PlayingField { width: patches.len(), height, patches })
    }

    /// The field that holds the layout `patches`: `with_patches`, by the
    /// name under which a layout is asked for.
    pub fn from_layout(patches: Vec<Vec<Patch>>) -> (made: Result<PlayingField, GridError>)
        ensures
            match made {
                Ok(field) => is_rectangular(layout_of(patches)) && field.wf() && field@
                    == layout_of(patches),
                Err(GridError::EmptyLayout) => is_empty_layout(layout_of(patches)),
                Err(GridError::RaggedLayout) => is_ragged_layout(layout_of(patches)),
                Err(GridError::InvalidDimensions) => false,
            },
    {
        Self::with_patches(patches)
    }

    /// A field of `width` by `height` patches that have not been paid yet,
    /// filled from `draws` row after row: the patch at `(x, y)` follows the
    /// strategy at place `x * height + y`. A width or a height of zero is
    /// refused.
    pub fn from_draws(width: usize, height: usize, draws: &Vec<Strategy>) -> (made: Result<
        PlayingField,
        GridError,
    >)
        requires
            draws@.len() == width * height,
        ensures
            match made {
                Ok(field) => {
                    &&& width > 0 && height > 0
                    &&& field.wf()
                    &&& field@.len() == width
                    &&& field@[0].len() == height
                    &&& forall|x: int, y: int|
                        0 <= x < width && 0 <= y < height ==> #[trigger] field@[x][y] == (Patch {
                            strategy: draws@[x * height + y],
                            score: 0,
                        })
                },
                Err(error) => error == GridError::InvalidDimensions && (width == 0 || height
                    == 0),
            },
    {
        if width == 0 || height == 0 {
            return Err(GridError::InvalidDimensions);
        }
        let total = draws.len();
        let mut patches: Vec<Vec<Patch>> = Vec::new();
        let mut taken: usize = 0;
        let mut x: usize = 0;
        while x < width
            invariant
                total == width * height,
                total == draws@.len(),
                height > 0,
                x <= width,
                taken == x * height,
                patches@.len() == x,
                forall|i: int| 0 <= i < x ==> (#[trigger] patches@[i])@.len() == height,
                forall|i: int, j: int|
                    0 <= i < x && 0 <= j < height ==> #[trigger] patches@[i]@[j] == (Patch {
                        strategy: draws@[i * height + j],
                        score: 0,
                    }),
            decreases width - x,
        {
            let mut row: Vec<Patch> = Vec::new();
            let mut y: usize = 0;
            while y < height
                invariant
                    total == width * height,
                    total == draws@.len(),
                    height > 0,
                    x < width,
                    y <= height,
                    taken == x * height + y,
                    row@.len() == y,
                    forall|j: int|
                        0 <= j < y ==> #[trigger] row@[j] == (Patch {
                            strategy: draws@[x * height + j],
                            score: 0,
                        }),
                decreases height - y,
            {
                proof {
                    lemma_draw_in_range(width as int, height as int, x as int, y as int);
                }
                row.push(Patch::new(draws[taken]));
                taken = taken + 1;
                y = y + 1;
            }
            proof {
                lemma_draw_in_range(width as int, height as int, x as int, 0);
            }
            patches.push(row);
            x = x + 1;
        }
        let field = PlayingField { width, height, patches };
        assert(field@[0].len() == height);
        assert forall|i: int| 0 <= i < field@.len() implies (#[trigger] field@[i]).len()
            == field@[0].len() by {
            assert(field.patches@[i]@.len() == height);
        }
        assert forall|i: int, j: int| 0 <= i < width && 0 <= j < height implies #[trigger] field@[i][j]
            == (Patch { strategy: draws@[i * height + j], score: 0 }) by {
            assert(field@[i][j] == field.patches@[i]@[j]);
        }
        Ok(field)
    }

    /// A field of `width` by `height` patches that have not been paid yet.
    /// The strategy of each patch is drawn from `seed_fn`, one call for each
    /// patch, and the draws fill the field as `from_draws` lays them out. A
    /// width or a height of zero is refused.
    pub fn create<F: Fn() -> Strategy>(width: usize, height: usize, seed_fn: F) -> (made: Result<
        PlayingField,
        GridError,
    >)
        requires
            call_requires(seed_fn, ()),
        ensures
            match made {
                Ok(field) => {
                    &&& width > 0 && height > 0
                    &&& field.wf()
                    &&& field@.len() == width
                    &&& field@[0].len() == height
                    &&& forall|x: int, y: int|
                        0 <= x < width && 0 <= y < height ==> (#[trigger] field@[x][y]).score == 0
                            && call_ensures(seed_fn, (), field@[x][y].strategy)
                },
                Err(error) => error == GridError::InvalidDimensions && (width == 0 || height
                    == 0),
            },
    {
        if width == 0 || height == 0 {
            return Err(GridError::InvalidDimensions);
        }
        let mut draws: Vec<Strategy> = Vec::new();
        let mut x: usize = 0;
        while x < width
            invariant
                call_requires(seed_fn, ()),
                height > 0,
                x <= width,
                draws@.len() == x * height,
                forall|k: int| 0 <= k < draws@.len() ==> call_ensures(seed_fn, (), #[trigger] draws@[k]),
            decreases width - x,
        {
            let mut y: usize = 0;
            while y < height
                invariant
                    call_requires(seed_fn, ()),
                    y <= height,
                    draws@.len() == x * height + y,
                    forall|k: int|
                        0 <= k < draws@.len() ==> call_ensures(seed_fn, (), #[trigger] draws@[k]),
                decreases height - y,
            {
                let strategy = seed_fn();
                draws.push(strategy);
                y = y + 1;
            }
            proof {
                lemma_draw_in_range(x + 1, height as int, x as int, 0);
            }
            x = x + 1;
        }
        let made = Self::from_draws(width, height, &draws);
        proof {
            if made is Ok {
                let field = made->Ok_0;
                assert forall|i: int, j: int| 0 <= i < width && 0 <= j < height implies (
                #[trigger] field@[i][j]).score == 0 && call_ensures(
                    seed_fn,
                    (),
                    field@[i][j].strategy,
                ) by {
                    lemma_draw_in_range(width as int, height as int, i, j);
                    assert(field@[i][j].strategy == draws@[i * height + j]);
                }
            }
        }
        made
    }

    /// A field of `width` by `height` patches that have not been paid yet,
    /// each of which helps or leeches as a fair coin falls. A width or a
    /// height of zero is refused.
    pub fn new(width: usize, height: usize) -> (made: Result<PlayingField, GridError>)
        ensures
            match made {
                Ok(field) => {
                    &&& width > 0 && height > 0
                    &&& field.wf()
                    &&& field@.len() == width
                    &&& field@[0].len() == height
                    &&& forall|x: int, y: int|
                        0 <= x < width && 0 <= y < height ==> (#[trigger] field@[x][y]).score == 0
                },
                Err(error) => error == GridError::InvalidDimensions && (width == 0 || height
                    == 0),
            },
    {
        let toss = || -> (strategy: Strategy)
            {
                let mut generator = rand::thread_rng();
                Strategy::sample(&mut generator)
            };
        Self::create(width, height, toss)
    }

    /// The number of rows.
    pub fn width(&self) -> (width: usize)
        requires
            self.wf(),
        ensures
            width == self@.len(),
    {
        self.width
    }

    /// The number of patches in each row.
    pub fn height(&self) -> (height: usize)
        requires
            self.wf(),
        ensures
            height == self@[0].len(),
    {
        self.height
    }

    /// The rows of patches that the field holds.
    pub fn patches(&self) -> (patches: &Vec<Vec<Patch>>)
        ensures
            layout_of(*patches) == self@,
    {
        &self.patches
    }

    /// What the patch at `(x, y)` does.
    pub fn strategy_at(&self, x: usize, y: usize) -> (strategy: Strategy)
        requires
            self.wf(),
            x < self@.len(),
            y < self@[0].len(),
        ensures
            strategy == self@[x as int][y as int].strategy,
    {
        assert(self@[x as int].len() == self@[0].len());
        self.patches[x][y].strategy
    }

    /// What the patch at `(x, y)` was paid in the last generation, in units
    /// of 1 / `SCALE`.
    pub fn score_at(&self, x: usize, y: usize) -> (score: u64)
        requires
            self.wf(),
            x < self@.len(),
            y < self@[0].len(),
        ensures
            score == self@[x as int][y as int].score,
    {
        assert(self@[x as int].len() == self@[0].len());
        self.patches[x][y].score
    }

    /// The cells around `(x, y)`, in the order in which they are always
    /// walked: `(x-1, y-1)`, `(x-1, y)`, `(x-1, y+1)`, `(x, y-1)`,
    /// `(x, y+1)`, `(x+1, y-1)`, `(x+1, y)`, `(x+1, y+1)`, each coordinate
    /// taken modulo the width or the height. All eight are cells of the
    /// grid, wherever `(x, y)` lies.
    pub fn neighbors_of(&self, x: usize, y: usize) -> (cells: [(usize, usize); 8])
        requires
            self.wf(),
        ensures
            cells@.len() == 8,
            forall|i: int|
                0 <= i < 8 ==> (cells@[i].0 as int, cells@[i].1 as int) == #[trigger] neighbors(
                    self@.len() as int,
                    self@[0].len() as int,
                    x as int,
                    y as int,
                )[i],
            forall|i: int|
                0 <= i < 8 ==> (#[trigger] cells@[i]).0 < self@.len() && cells@[i].1
                    < self@[0].len(),
    {
        neighbors_on(self.width, self.height, x, y)
    }

    /// The eight patches around `(x, y)`.
    fn patches_around(&self, x: usize, y: usize) -> (found: [Patch; 8])
        requires
            self.wf(),
        ensures
            found@ == around(self@, x as int, y as int),
    {
        let cells = neighbors_on(self.width, self.height, x, y);
        proof {
            assert forall|i: int| 0 <= i < 8 implies (#[trigger] cells@[i]).1
                < self.patches@[cells@[i].0 as int]@.len() by {
                assert(self@[cells@[i].0 as int].len() == self@[0].len());
            }
        }
        let found = [
            self.patches[cells[0].0][cells[0].1],
            self.patches[cells[1].0][cells[1].1],
            self.patches[cells[2].0][cells[2].1],
            self.patches[cells[3].0][cells[3].1],
            self.patches[cells[4].0][cells[4].1],
            self.patches[cells[5].0][cells[5].1],
            self.patches[cells[6].0][cells[6].1],
            self.patches[cells[7].0][cells[7].1],
        ];
        proof {
            let w = self@.len() as int;
            let h = self@[0].len() as int;
            assert forall|i: int| 0 <= i < 8 implies found@[i] == around(
                self@,
                x as int,
                y as int,
            )[i] by {
                assert((cells@[i].0 as int, cells@[i].1 as int) == neighbors(
                    w,
                    h,
                    x as int,
                    y as int,
                )[i]);
            }
            assert(found@ =~= around(self@, x as int, y as int));
        }
        found
    }

    /// The patch at `(x, y)` as the scoring phase leaves it.
    fn scored_patch(&self, x: usize, y: usize, alpha: Alpha) -> (patch: Patch)
        requires
            self.wf(),
            x < self@.len(),
            y < self@[0].len(),
        ensures
            patch == scored(self@, alpha)[x as int][y as int],
    {
        assert(self@[x as int].len() == self@[0].len());
        let around = self.patches_around(x, y);
        let held = &self.patches[x][y];
        proof {
            lemma_helpers_bound(around@);
            lemma_payoff_bound(held.strategy, helpers(around@), alpha);
        }
        Patch { strategy: held.strategy, score: calculate_score(held, &around, alpha) }
    }

    /// Row `x` as the scoring phase leaves it.
    fn scored_row(&self, x: usize, alpha: Alpha) -> (row: Vec<Patch>)
        requires
            self.wf(),
            x < self@.len(),
        ensures
            row@ == scored(self@, alpha)[x as int],
    {
        let mut row: Vec<Patch> = Vec::with_capacity(self.height);
        let mut y: usize = 0;
        while y < self.height
            invariant
                self.wf(),
                x < self@.len(),
                y <= self.height,
                row@.len() == y,
                forall|j: int| 0 <= j < y ==> row@[j] == scored(self@, alpha)[x as int][j],
            decreases self.height - y,
        {
            let patch = self.scored_patch(x, y, alpha);
            row.push(patch);
            y = y + 1;
        }
        assert(row@ =~= scored(self@, alpha)[x as int]);
        row
    }

    /// The scoring phase: every patch is paid for the helpers around it, as
    /// the strategies stand before the call. Strategies do not change.
    pub fn score(&mut self, alpha: Alpha)
        requires
            old(self).wf(),
        ensures
            final(self).wf(),
            final(self)@ == scored(old(self)@, alpha),
    {
        let mut next: Vec<Vec<Patch>> = Vec::with_capacity(self.width);
        let mut x: usize = 0;
        while x < self.width
            invariant
                self.wf(),
                *self == *old(self),
                x <= self.width,
                next@.len() == x,
                forall|i: int| 0 <= i < x ==> (#[trigger] next@[i])@ == scored(self@, alpha)[i],
            decreases self.width - x,
        {
            let row = self.scored_row(x, alpha);
            next.push(row);
            x = x + 1;
        }
        assert(layout_of(next) =~= scored(self@, alpha));
        self.patches = next;
    }

    /// The patch at `(x, y)` as the adoption phase leaves it.
    fn adopted_patch(&self, x: usize, y: usize) -> (patch: Patch)
        requires
            self.wf(),
            x < self@.len(),
            y < self@[0].len(),
        ensures
            patch == adopted(self@)[x as int][y as int],
    {
        assert(self@[x as int].len() == self@[0].len());
        let around = self.patches_around(x, y);
        let held = self.patches[x][y];
        let scores: [u64; 9] = [
            held.score,
            around[0].score,
            around[1].score,
            around[2].score,
            around[3].score,
            around[4].score,
            around[5].score,
            around[6].score,
            around[7].score,
        ];
        let strategies = [
            held.strategy,
            around[0].strategy,
            around[1].strategy,
            around[2].strategy,
            around[3].strategy,
            around[4].strategy,
            around[5].strategy,
            around[6].strategy,
            around[7].strategy,
        ];
        let best = pick_leader(&scores);
        proof {
            let w = self@.len() as int;
            let h = self@[0].len() as int;
            let cells = candidates(w, h, x as int, y as int);
            vstd::arithmetic::div_mod::lemma_small_mod(x as nat, w as nat);
            vstd::arithmetic::div_mod::lemma_small_mod(y as nat, h as nat);
            assert(cells[0] == (x as int, y as int));
            assert forall|i: int| 1 <= i < 9 implies cells[i] == neighbors(
                w,
                h,
                x as int,
                y as int,
            )[i - 1] by {}
            assert forall|i: int| 0 <= i < 9 implies scores@[i] == candidate_scores(
                self@,
                x as int,
                y as int,
            )[i] && strategies@[i] == patch_at(self@, cells[i]).strategy by {
                if i > 0 {
                    assert(around@[i - 1] == patch_at(self@, cells[i]));
                }
            }
            assert(scores@ =~= candidate_scores(self@, x as int, y as int));
            assert(cells[best as int] == model_of(self@, x as int, y as int));
        }
        Patch { strategy: strategies[best], score: held.score }
    }

    /// Row `x` as the adoption phase leaves it.
    fn adopted_row(&self, x: usize) -> (row: Vec<Patch>)
        requires
            self.wf(),
            x < self@.len(),
        ensures
            row@ == adopted(self@)[x as int],
    {
        let mut row: Vec<Patch> = Vec::with_capacity(self.height);
        let mut y: usize = 0;
        while y < self.height
            invariant
                self.wf(),
                x < self@.len(),
                y <= self.height,
                row@.len() == y,
                forall|j: int| 0 <= j < y ==> row@[j] == adopted(self@)[x as int][j],
            decreases self.height - y,
        {
            let patch = self.adopted_patch(x, y);
            row.push(patch);
            y = y + 1;
        }
        assert(row@ =~= adopted(self@)[x as int]);
        row
    }

    /// The adoption phase: every patch takes the strategy of the patch that
    /// leads among itself and its eight neighbours, by the scores and the
    /// strategies that the field holds before the call. Scores do not
    /// change.
    pub fn adopt(&mut self)
        requires
            old(self).wf(),
        ensures
            final(self).wf(),
            final(self)@ == adopted(old(self)@),
    {
        let mut next: Vec<Vec<Patch>> = Vec::with_capacity(self.width);
        let mut x: usize = 0;
        while x < self.width
            invariant
                self.wf(),
                *self == *old(self),
                x <= self.width,
                next@.len() == x,
                forall|i: int| 0 <= i < x ==> (#[trigger] next@[i])@ == adopted(self@)[i],
            decreases self.width - x,
        {
            let row = self.adopted_row(x);
            next.push(row);
            x = x + 1;
        }
        assert(layout_of(next) =~= adopted(self@));
        self.patches = next;
    }

    /// One generation: the scoring phase on the whole field, then the
    /// adoption phase on the whole field.
    pub fn step(&mut self, alpha: Alpha)
        requires
            old(self).wf(),
        ensures
            final(self).wf(),
            final(self)@ == stepped(old(self)@, alpha),
    {
        self.score(alpha);
        self.adopt();
    }
}

} // verus!
