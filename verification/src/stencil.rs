//! Cyclic shifts of a field and the five-point stencil built on them.
//!
//! The stencil treats the grid as a torus: the cell before the first of a
//! column or row is the last one, and the cell after the last is the first.

use vstd::prelude::*;
use crate::field::{Field, grid_height, grid_width, inside, is_grid, same_shape, zipped};
use crate::torus::{
    lemma_wrap_congruent, lemma_wrap_in_range, lemma_wrap_shift, lemma_wrap_unique, loop_coord, wrap,
};

verus! {

/// The cell of `g` that a cyclic shift by `dx` columns and `dy` rows moves
/// to `(x, y)`.
pub open spec fn shifted_cell<T>(g: Seq<Seq<T>>, dx: int, dy: int, x: int, y: int) -> T {
    g[wrap(x - dx, 0, grid_width(g))][wrap(y - dy, 0, grid_height(g))]
}

/// `after` is `before` shifted cyclically by `dx` columns and `dy` rows:
/// what stood at `(x, y)` stands at `(x + dx, y + dy)`, taken around the
/// edges.
pub open spec fn rolled<T>(before: Seq<Seq<T>>, dx: int, dy: int, after: Seq<Seq<T>>) -> bool {
    &&& same_shape(before, after)
    &&& forall|x: int, y: int|
        inside(before, x, y) ==> #[trigger] after[x][y] == shifted_cell(before, dx, dy, x, y)
}

/// `after` has the shape of `before`, and each of its cells is a value that
/// `f` may return for the cell in the same place of `before` and its four
/// neighbours on the torus, in this order: the cell itself, the one in the
/// column before, the one in the row before, the one in the column after,
/// the one in the row after.
pub open spec fn stencilled<T, F: Fn(T, T, T, T, T) -> T>(
    before: Seq<Seq<T>>,
    f: F,
    after: Seq<Seq<T>>,
) -> bool {
    &&& same_shape(before, after)
    &&& forall|x: int, y: int|
        inside(before, x, y) ==> f.ensures(
            (
                before[x][y],
                shifted_cell(before, 1, 0, x, y),
                shifted_cell(before, 0, 1, x, y),
                shifted_cell(before, -1, 0, x, y),
                shifted_cell(before, 0, -1, x, y),
            ),
            #[trigger] after[x][y],
        )
}

/// `after` is `before` with a share of its own stencil mixed in: it has
/// the shape of `before`, and for some stencil output `lap` of `before`,
/// each cell of `after` is a value that `mix` may return for the cell of
/// `before` and the cell of `lap` in the same place.
pub open spec fn diffused<T, F: Fn(T, T, T, T, T) -> T, M: Fn(T, T) -> T>(
    before: Seq<Seq<T>>,
    stencil: F,
    mix: M,
    after: Seq<Seq<T>>,
) -> bool {
    &&& same_shape(before, after)
    &&& exists|lap: Seq<Seq<T>>| #[trigger]
        stencilled(before, stencil, lap) && zipped(before, lap, mix, after)
}

/// A shift by whole periods along both axes leaves the grid as it is.
pub proof fn lemma_roll_by_periods<T>(before: Seq<Seq<T>>, dx: int, dy: int, after: Seq<Seq<T>>)
    requires
        rolled(before, dx, dy, after),
        dx % grid_width(before) == 0,
        dy % grid_height(before) == 0,
    ensures
        after == before,
{
    let w = grid_width(before);
    let h = grid_height(before);
    assert forall|x: int, y: int| inside(before, x, y) implies after[x][y] == before[x][y] by {
        lemma_wrap_unique(x - dx, x, 0, w);
        lemma_wrap_unique(y - dy, y, 0, h);
    }
    assert forall|x: int| 0 <= x < w implies after[x] =~= before[x] by {
        assert forall|y: int| 0 <= y < h implies after[x][y] == before[x][y] by {
            assert(inside(before, x, y));
        }
    }
}

/// A shift followed by the opposite shift leaves the grid as it is.
pub proof fn lemma_roll_there_and_back<T>(
    before: Seq<Seq<T>>,
    dx: int,
    dy: int,
    there: Seq<Seq<T>>,
    back: Seq<Seq<T>>,
)
    requires
        rolled(before, dx, dy, there),
        rolled(there, -dx, -dy, back),
    ensures
        back == before,
{
    let w = grid_width(before);
    let h = grid_height(before);
    assert forall|x: int, y: int| inside(before, x, y) implies back[x][y] == before[x][y] by {
        let via_x = wrap(x + dx, 0, w);
        let via_y = wrap(y + dy, 0, h);
        lemma_wrap_in_range(x + dx, 0, w);
        lemma_wrap_in_range(y + dy, 0, h);
        lemma_wrap_congruent(x + dx, 0, w);
        lemma_wrap_congruent(y + dy, 0, h);
        lemma_wrap_unique(via_x - dx, x, 0, w);
        lemma_wrap_unique(via_y - dy, y, 0, h);
    }
    assert forall|x: int| 0 <= x < w implies back[x] =~= before[x] by {
        assert forall|y: int| 0 <= y < h implies back[x][y] == before[x][y] by {
            assert(inside(before, x, y));
        }
    }
}

impl<T: Copy> Field<T> {
    /// This field shifted cyclically by `dx` columns and `dy` rows, for
    /// shifts of any size and sign. `elem` only serves to make the new
    /// field; none of it is left in the result.
    pub fn roll(&self, dx: i64, dy: i64, elem: T) -> (r: Field<T>)
        ensures
            rolled(self@, dx as int, dy as int, r@),
    {
        let w: usize = self.width();
        let h: usize = self.height();
        let sx: i64 = loop_coord(dx, 0, w as i64);
        let sy: i64 = loop_coord(dy, 0, h as i64);
        let mut r: Field<T> = self.like(elem);
        let mut x: usize = 0;
        while x < w
            invariant
                is_grid(self@),
                same_shape(self@, r@),
                w == grid_width(self@),
                h == grid_height(self@),
                0 < w <= i64::MAX,
                0 < h <= i64::MAX,
                sx == wrap(dx as int, 0, w as int),
                sy == wrap(dy as int, 0, h as int),
                0 <= sx < w,
                0 <= sy < h,
                x <= w,
                forall|i: int, j: int|
                    0 <= i < x && 0 <= j < h ==> #[trigger] r@[i][j] == shifted_cell(
                        self@,
                        dx as int,
                        dy as int,
                        i,
                        j,
                    ),
            decreases w - x,
        {
            let from_x: i64 = loop_coord(x as i64 - sx, 0, w as i64);
            let mut y: usize = 0;
            while y < h
                invariant
                    is_grid(self@),
                    same_shape(self@, r@),
                    w == grid_width(self@),
                    h == grid_height(self@),
                    0 < w <= i64::MAX,
                    0 < h <= i64::MAX,
                    sx == wrap(dx as int, 0, w as int),
                    sy == wrap(dy as int, 0, h as int),
                    0 <= sx < w,
                    0 <= sy < h,
                    x < w,
                    y <= h,
                    from_x == wrap(x - sx, 0, w as int),
                    0 <= from_x < w,
                    forall|i: int, j: int|
                        0 <= i < x && 0 <= j < h ==> #[trigger] r@[i][j] == shifted_cell(
                            self@,
                            dx as int,
                            dy as int,
                            i,
                            j,
                        ),
                    forall|j: int|
                        0 <= j < y ==> #[trigger] r@[x as int][j] == shifted_cell(
                            self@,
                            dx as int,
                            dy as int,
                            x as int,
                            j,
                        ),
                decreases h - y,
            {
                let from_y: i64 = loop_coord(y as i64 - sy, 0, h as i64);
                proof {
                    lemma_wrap_shift(x as int, dx as int, w as int);
                    lemma_wrap_shift(y as int, dy as int, h as int);
                }
                let v: T = self.at(from_x as usize, from_y as usize);
                r.set(x, y, v);
                y += 1;
            }
            x += 1;
        }
        r
    }

    /// The five-point stencil on the torus: a new field in which each cell
    /// is `f` of the cell in the same place and its four neighbours, the
    /// neighbours of an edge cell being taken from the opposite edge.
    pub fn laplacian<F: Fn(T, T, T, T, T) -> T>(&self, f: &F) -> (r: Field<T>)
        requires
            forall|c: T, xb: T, yb: T, xa: T, ya: T| f.requires((c, xb, yb, xa, ya)),
        ensures
            stencilled(self@, *f, r@),
    {
        let w: usize = self.width();
        let h: usize = self.height();
        let elem: T = self.at(0, 0);
        let x_before: Field<T> = self.roll(1, 0, elem);
        let x_after: Field<T> = self.roll(-1, 0, elem);
        let y_before: Field<T> = self.roll(0, 1, elem);
        let y_after: Field<T> = self.roll(0, -1, elem);
        let mut r: Field<T> = self.like(elem);
        let mut x: usize = 0;
        while x < w
            invariant
                is_grid(self@),
                same_shape(self@, r@),
                w == grid_width(self@),
                h == grid_height(self@),
                rolled(self@, 1, 0, x_before@),
                rolled(self@, -1, 0, x_after@),
                rolled(self@, 0, 1, y_before@),
                rolled(self@, 0, -1, y_after@),
                forall|c: T, xb: T, yb: T, xa: T, ya: T| f.requires((c, xb, yb, xa, ya)),
                x <= w,
                forall|i: int, j: int|
                    0 <= i < x && 0 <= j < h ==> f.ensures(
                        (
                            self@[i][j],
                            shifted_cell(self@, 1, 0, i, j),
                            shifted_cell(self@, 0, 1, i, j),
                            shifted_cell(self@, -1, 0, i, j),
                            shifted_cell(self@, 0, -1, i, j),
                        ),
                        #[trigger] r@[i][j],
                    ),
            decreases w - x,
        {
            let mut y: usize = 0;
            while y < h
                invariant
                    is_grid(self@),
                    same_shape(self@, r@),
                    w == grid_width(self@),
                    h == grid_height(self@),
                    rolled(self@, 1, 0, x_before@),
                    rolled(self@, -1, 0, x_after@),
                    rolled(self@, 0, 1, y_before@),
                    rolled(self@, 0, -1, y_after@),
                    forall|c: T, xb: T, yb: T, xa: T, ya: T| f.requires((c, xb, yb, xa, ya)),
                    x < w,
                    y <= h,
                    forall|i: int, j: int|
                        0 <= i < x && 0 <= j < h ==> f.ensures(
                            (
                                self@[i][j],
                                shifted_cell(self@, 1, 0, i, j),
                                shifted_cell(self@, 0, 1, i, j),
                                shifted_cell(self@, -1, 0, i, j),
                                shifted_cell(self@, 0, -1, i, j),
                            ),
                            #[trigger] r@[i][j],
                        ),
                    forall|j: int|
                        0 <= j < y ==> f.ensures(
                            (
                                self@[x as int][j],
                                shifted_cell(self@, 1, 0, x as int, j),
                                shifted_cell(self@, 0, 1, x as int, j),
                                shifted_cell(self@, -1, 0, x as int, j),
                                shifted_cell(self@, 0, -1, x as int, j),
                            ),
                            #[trigger] r@[x as int][j],
                        ),
                decreases h - y,
            {
                let v: T = f(
                    self.at(x, y),
                    x_before.at(x, y),
                    y_before.at(x, y),
                    x_after.at(x, y),
                    y_after.at(x, y),
                );
                r.set(x, y, v);
                y += 1;
            }
            x += 1;
        }
        r
    }

    /// Mixes a share of the field's own stencil into it: takes the stencil
    /// of the field as it stands, then replaces each cell by `mix` of the
    /// cell and the stencil's cell in the same place.
    pub fn diffuse<F: Fn(T, T, T, T, T) -> T, M: Fn(T, T) -> T>(
        &mut self,
        stencil: &F,
        mix: &M,
    )
        requires
            forall|c: T, xb: T, yb: T, xa: T, ya: T| stencil.requires((c, xb, yb, xa, ya)),
            forall|a: T, b: T| mix.requires((a, b)),
        ensures
            diffused(old(self)@, *stencil, *mix, final(self)@),
    {
        let lap: Field<T> = self.laplacian(stencil);
        let mixed: Field<T> = self.zip_with(&lap, mix);
        *self = mixed;
    }
}

} // verus!
