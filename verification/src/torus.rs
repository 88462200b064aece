//! Addressing on a grid without edges: coordinates are taken modulo the
//! grid's width and height, so that every cell has eight neighbours.

use vstd::prelude::*;
use vstd::arithmetic::div_mod::lemma_fundamental_div_mod_converse;
use vstd::arithmetic::div_mod::lemma_fundamental_div_mod;
use vstd::arithmetic::div_mod::lemma_mod_bound;

verus! {

/// The eight cells around `(x, y)` on a torus of `w` columns and `h` rows,
/// in the order in which they are always walked. `%` on `int` is the
/// mathematical modulo: its result is never negative.
pub open spec fn neighbors(w: int, h: int, x: int, y: int) -> Seq<(int, int)> {
    seq![
        ((x - 1) % w, (y - 1) % h),
        ((x - 1) % w, y % h),
        ((x - 1) % w, (y + 1) % h),
        (x % w, (y - 1) % h),
        (x % w, (y + 1) % h),
        ((x + 1) % w, (y - 1) % h),
        ((x + 1) % w, y % h),
        ((x + 1) % w, (y + 1) % h),
    ]
}

/// The cells among which `(x, y)` looks for a strategy to adopt: itself
/// first, then its eight neighbours in their fixed order.
pub open spec fn candidates(w: int, h: int, x: int, y: int) -> Seq<(int, int)> {
    seq![(x % w, y % h)] + neighbors(w, h, x, y)
}

/// Whether `cell` is a cell of a grid of `w` columns and `h` rows.
pub open spec fn on_grid(w: int, h: int, cell: (int, int)) -> bool {
    0 <= cell.0 < w && 0 <= cell.1 < h
}

/// The coordinate one step below `c` on a ring of `n` places.
pub fn before(c: usize, n: usize) -> (r: usize)
    requires
        n > 0,
    ensures
        r == (c - 1) % (n as int),
        r < n,
{
    let m: usize = c % n;
    proof {
        let q = c as int / n as int;
        lemma_fundamental_div_mod(c as int, n as int);
        if m == 0 {
            assert(c - 1 == (q - 1) * n + (n - 1)) by (nonlinear_arith)
                requires
                    c == n * q + 0,
            ;
            lemma_fundamental_div_mod_converse(c - 1, n as int, q - 1, n - 1);
        } else {
            assert(c - 1 == q * n + (m - 1)) by (nonlinear_arith)
                requires
                    c == n * q + m,
            ;
            lemma_fundamental_div_mod_converse(c - 1, n as int, q, m - 1);
        }
    }
    if m == 0 {
        n - 1
    } else {
        m - 1
    }
}

/// The coordinate one step above `c` on a ring of `n` places.
pub fn after(c: usize, n: usize) -> (r: usize)
    requires
        n > 0,
    ensures
        r == (c + 1) % (n as int),
        r < n,
{
    let m: usize = c % n;
    proof {
        let q = c as int / n as int;
        lemma_fundamental_div_mod(c as int, n as int);
        if m + 1 == n {
            assert(c + 1 == (q + 1) * n + 0) by (nonlinear_arith)
                requires
                    c == n * q + m,
                    m + 1 == n,
            ;
            lemma_fundamental_div_mod_converse(c + 1, n as int, q + 1, 0);
        } else {
            assert(c + 1 == q * n + (m + 1)) by (nonlinear_arith)
                requires
                    c == n * q + m,
            ;
            lemma_fundamental_div_mod_converse(c + 1, n as int, q, m + 1);
        }
    }
    if m + 1 == n {
        0
    } else {
        m + 1
    }
}

/// The eight neighbours of `(x, y)` on a torus of `w` columns and `h` rows,
/// in their fixed order. `x` and `y` may lie anywhere: they are wrapped too.
pub fn neighbors_on(w: usize, h: usize, x: usize, y: usize) -> (cells: [(usize, usize); 8])
    requires
        w > 0,
        h > 0,
    ensures
        cells@.len() == 8,
        forall|i: int|
            0 <= i < 8 ==> (cells@[i].0 as int, cells@[i].1 as int) == #[trigger] neighbors(
                w as int,
                h as int,
                x as int,
                y as int,
            )[i],
        forall|i: int| 0 <= i < 8 ==> (#[trigger] cells@[i]).0 < w && cells@[i].1 < h,
{
    let left = before(x, w);
    let mid = x % w;
    let right = after(x, w);
    let up = before(y, h);
    let level = y % h;
    let down = after(y, h);
    [
        (left, up),
        (left, level),
        (left, down),
        (mid, up),
        (mid, down),
        (right, up),
        (right, level),
        (right, down),
    ]
}

/// Every neighbour is a cell of the grid: no coordinate is negative or
/// beyond the last column or row, wherever `(x, y)` lies.
pub proof fn lemma_neighbors_on_grid(w: int, h: int, x: int, y: int)
    requires
        w > 0,
        h > 0,
    ensures
        neighbors(w, h, x, y).len() == 8,
        forall|i: int| 0 <= i < 8 ==> on_grid(w, h, #[trigger] neighbors(w, h, x, y)[i]),
        candidates(w, h, x, y).len() == 9,
        forall|i: int| 0 <= i < 9 ==> on_grid(w, h, #[trigger] candidates(w, h, x, y)[i]),
{
    lemma_mod_bound(x - 1, w);
    lemma_mod_bound(x, w);
    lemma_mod_bound(x + 1, w);
    lemma_mod_bound(y - 1, h);
    lemma_mod_bound(y, h);
    lemma_mod_bound(y + 1, h);
}

/// Around the corner cell `(0, 0)` the neighbours to the left and above are
/// the cells of the last column and the last row.
pub proof fn lemma_neighbors_of_origin(w: int, h: int)
    requires
        w > 0,
        h > 0,
    ensures
        neighbors(w, h, 0, 0) == seq![
            (w - 1, h - 1),
            (w - 1, 0int),
            (w - 1, 1int % h),
            (0int, h - 1),
            (0int, 1int % h),
            (1int % w, h - 1),
            (1int % w, 0int),
            (1int % w, 1int % h),
        ],
{
    lemma_fundamental_div_mod_converse(-1, w, -1, w - 1);
    lemma_fundamental_div_mod_converse(-1, h, -1, h - 1);
    lemma_fundamental_div_mod_converse(0, w, 0, 0);
    lemma_fundamental_div_mod_converse(0, h, 0, 0);
}

} // verus!
