//! The five-point stencil on the torus neither creates nor destroys
//! anything: over the whole grid its output sums to zero, because what a
//! cell gives to its neighbours is what they receive.

use vstd::prelude::*;
use crate::field::{grid_height, grid_width, inside, same_shape};
use crate::stencil::{shifted_cell, stencilled};
use crate::torus::{lemma_wrap_fixes_range, lemma_wrap_in_range, lemma_wrap_unique, wrap};

verus! {

/// The sum of `f(0)`, `f(1)`, and so on up to `f(n - 1)`.
pub open spec fn sum_upto(f: spec_fn(int) -> int, n: nat) -> int
    decreases n,
{
    if n == 0 {
        0
    } else {
        sum_upto(f, (n - 1) as nat) + f(n - 1)
    }
}

/// The sum of the cells of one column.
pub open spec fn column_sum(col: Seq<int>) -> int {
    sum_upto(|y: int| col[y], col.len())
}

/// The sum of all cells of a grid.
pub open spec fn grid_sum(g: Seq<Seq<int>>) -> int {
    sum_upto(|x: int| column_sum(g[x]), g.len())
}

/// The stencil in exact arithmetic: the four neighbours on the torus less
/// four times the cell.
pub open spec fn five_point(g: Seq<Seq<int>>, x: int, y: int) -> int {
    shifted_cell(g, 1, 0, x, y) + shifted_cell(g, 0, 1, x, y) + shifted_cell(g, -1, 0, x, y)
        + shifted_cell(g, 0, -1, x, y) - 4 * g[x][y]
}

/// A grid of machine integers read as a grid of integers.
pub open spec fn as_ints(g: Seq<Seq<i64>>) -> Seq<Seq<int>> {
    Seq::new(g.len(), |x: int| Seq::new(g[x].len(), |y: int| g[x][y] as int))
}

/// Sums of functions that agree below `n` agree.
proof fn lemma_sum_congruent(f: spec_fn(int) -> int, g: spec_fn(int) -> int, n: nat)
    requires
        forall|i: int| 0 <= i < n ==> #[trigger] f(i) == g(i),
    ensures
        sum_upto(f, n) == sum_upto(g, n),
    decreases n,
{
    if n > 0 {
        lemma_sum_congruent(f, g, (n - 1) as nat);
    }
}

/// A sum is its first term and the sum of the rest.
proof fn lemma_sum_peel_first(f: spec_fn(int) -> int, n: nat)
    requires
        n > 0,
    ensures
        sum_upto(f, n) == f(0) + sum_upto(|i: int| f(i + 1), (n - 1) as nat),
    decreases n,
{
    let rest = |i: int| f(i + 1);
    if n == 1 {
        assert(sum_upto(f, 0) == 0);
    } else {
        lemma_sum_peel_first(f, (n - 1) as nat);
    }
}

/// Going once around the ring, it does not matter where the sum starts:
/// reading each term from its neighbour on either side gives the same
/// sum.
proof fn lemma_sum_around_ring(f: spec_fn(int) -> int, shifted: spec_fn(int) -> int, n: nat, d: int)
    requires
        n > 0,
        d == 1 || d == -1,
        forall|i: int| 0 <= i < n ==> #[trigger] shifted(i) == f(wrap(i - d, 0, n as int)),
    ensures
        sum_upto(shifted, n) == sum_upto(f, n),
{
    let m = (n - 1) as nat;
    if d == 1 {
        // shifted(0) is f(n - 1), and shifted(i + 1) is f(i).
        lemma_sum_peel_first(shifted, n);
        vstd::arithmetic::div_mod::lemma_mod_self_0(n as int);
        lemma_wrap_unique(-1, n - 1, 0, n as int);
        let rest = |i: int| shifted(i + 1);
        assert forall|i: int| 0 <= i < m implies #[trigger] rest(i) == f(i) by {
            lemma_wrap_fixes_range(i, 0, n as int);
        }
        lemma_sum_congruent(rest, f, m);
        lemma_sum_congruent(rest, |i: int| shifted(i + 1), m);
    } else {
        // shifted(n - 1) is f(0), and shifted(i) is f(i + 1) before that.
        lemma_sum_peel_first(f, n);
        vstd::arithmetic::div_mod::lemma_mod_multiples_basic(-1, n as int);
        lemma_wrap_unique(n as int, 0, 0, n as int);
        let rest = |i: int| f(i + 1);
        assert forall|i: int| 0 <= i < m implies #[trigger] shifted(i) == rest(i) by {
            lemma_wrap_fixes_range(i + 1, 0, n as int);
        }
        lemma_sum_congruent(shifted, rest, m);
        lemma_sum_congruent(rest, |i: int| f(i + 1), m);
    }
}

/// The sum of a stencil-shaped combination of five functions is the same
/// combination of their sums.
proof fn lemma_sum_combination(
    a: spec_fn(int) -> int,
    b: spec_fn(int) -> int,
    c: spec_fn(int) -> int,
    d: spec_fn(int) -> int,
    g: spec_fn(int) -> int,
    l: spec_fn(int) -> int,
    n: nat,
)
    requires
        forall|i: int| 0 <= i < n ==> #[trigger] l(i) == a(i) + b(i) + c(i) + d(i) - 4 * g(i),
    ensures
        sum_upto(l, n) == sum_upto(a, n) + sum_upto(b, n) + sum_upto(c, n) + sum_upto(d, n) - 4
            * sum_upto(g, n),
    decreases n,
{
    if n > 0 {
        lemma_sum_combination(a, b, c, d, g, l, (n - 1) as nat);
    }
}

/// The output of the five-point stencil on the torus sums to zero over
/// the whole grid, whatever the grid holds.
pub proof fn lemma_stencil_sums_to_zero(g: Seq<Seq<int>>, lap: Seq<Seq<int>>)
    requires
        same_shape(g, lap),
        forall|x: int, y: int| inside(g, x, y) ==> #[trigger] lap[x][y] == five_point(g, x, y),
    ensures
        grid_sum(lap) == 0,
{
    let w = g.len();
    let h = g[0].len();
    let col = |x: int| column_sum(g[x]);
    let col_before = |x: int| column_sum(g[wrap(x - 1, 0, w as int)]);
    let col_after = |x: int| column_sum(g[wrap(x + 1, 0, w as int)]);
    let lap_col = |x: int| column_sum(lap[x]);
    assert forall|x: int| 0 <= x < w implies #[trigger] lap_col(x) == col_before(x) + col(x)
        + col_after(x) + col(x) - 4 * col(x) by {
        let xb = wrap(x - 1, 0, w as int);
        let xa = wrap(x + 1, 0, w as int);
        lemma_wrap_in_range(x - 1, 0, w as int);
        lemma_wrap_in_range(x + 1, 0, w as int);
        let here = |y: int| g[x][y];
        let x_before = |y: int| g[xb][y];
        let x_after = |y: int| g[xa][y];
        let y_before = |y: int| g[x][wrap(y - 1, 0, h as int)];
        let y_after = |y: int| g[x][wrap(y + 1, 0, h as int)];
        let out = |y: int| lap[x][y];
        assert forall|y: int| 0 <= y < h implies #[trigger] out(y) == x_before(y) + y_before(y)
            + x_after(y) + y_after(y) - 4 * here(y) by {
            lemma_wrap_fixes_range(x, 0, w as int);
            lemma_wrap_fixes_range(y, 0, h as int);
        }
        lemma_sum_combination(x_before, y_before, x_after, y_after, here, out, h);
        lemma_sum_around_ring(here, y_before, h, 1);
        lemma_sum_around_ring(here, y_after, h, -1);
        lemma_sum_congruent(out, |y: int| lap[x][y], h);
        lemma_sum_congruent(here, |y: int| g[x][y], h);
        lemma_sum_congruent(x_before, |y: int| g[xb][y], h);
        lemma_sum_congruent(x_after, |y: int| g[xa][y], h);
    }
    lemma_sum_combination(col_before, col, col_after, col, col, lap_col, w);
    lemma_sum_around_ring(col, col_before, w, 1);
    lemma_sum_around_ring(col, col_after, w, -1);
    lemma_sum_congruent(lap_col, |x: int| column_sum(lap[x]), w);
}

/// Where the function given to the stencil returns exactly the four
/// neighbours less four times the cell, the cells of the stencil's output
/// sum to zero.
pub proof fn lemma_exact_stencil_sums_to_zero<F: Fn(i64, i64, i64, i64, i64) -> i64>(
    before: Seq<Seq<i64>>,
    f: F,
    after: Seq<Seq<i64>>,
)
    requires
        stencilled(before, f, after),
        forall|c: i64, xb: i64, yb: i64, xa: i64, ya: i64, r: i64| #[trigger]
            f.ensures((c, xb, yb, xa, ya), r) ==> r == xb + yb + xa + ya - 4 * c,
    ensures
        grid_sum(as_ints(after)) == 0,
{
    let g = as_ints(before);
    let lap = as_ints(after);
    let w = grid_width(before);
    let h = grid_height(before);
    assert forall|x: int, y: int| inside(g, x, y) implies #[trigger] lap[x][y] == five_point(
        g,
        x,
        y,
    ) by {
        lemma_wrap_in_range(x - 1, 0, w);
        lemma_wrap_in_range(x + 1, 0, w);
        lemma_wrap_in_range(x - 0, 0, w);
        lemma_wrap_in_range(y - 1, 0, h);
        lemma_wrap_in_range(y + 1, 0, h);
        lemma_wrap_in_range(y - 0, 0, h);
        assert(f.ensures(
            (
                before[x][y],
                shifted_cell(before, 1, 0, x, y),
                shifted_cell(before, 0, 1, x, y),
                shifted_cell(before, -1, 0, x, y),
                shifted_cell(before, 0, -1, x, y),
            ),
            after[x][y],
        ));
    }
    lemma_stencil_sums_to_zero(g, lap);
}

} // verus!
