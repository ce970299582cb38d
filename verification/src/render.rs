//! The field as a buffer of pixels.
//!
//! Each cell becomes one opaque grey pixel of four bytes: the shade three
//! times, then full opacity. The pixels follow the cells column by column,
//! and within a column row by row.

use vstd::prelude::*;
use crate::field::{Field, grid_height, grid_width, inside, is_grid};

verus! {

/// Where the pixel of the cell at `(x, y)` starts in the buffer.
pub open spec fn pixel_offset<T>(g: Seq<Seq<T>>, x: int, y: int) -> int {
    4 * (x * grid_height(g) + y)
}

/// `pixels` shows the grid `g`: four bytes for every cell, of which the
/// first is a value that `shade` may return for the cell, the next two
/// repeat it, and the last is 255.
pub open spec fn rendered<T, S: Fn(T) -> u8>(g: Seq<Seq<T>>, shade: S, pixels: Seq<u8>) -> bool {
    &&& pixels.len() == 4 * (grid_width(g) * grid_height(g))
    &&& forall|x: int, y: int|
        inside(g, x, y) ==> {
            let k = #[trigger] pixel_offset(g, x, y);
            &&& 0 <= k && k + 3 < pixels.len()
            &&& shade.ensures((g[x][y],), pixels[k])
            &&& pixels[k + 1] == pixels[k]
            &&& pixels[k + 2] == pixels[k]
            &&& pixels[k + 3] == 255
        }
}

/// The cells before `(x, y)` in buffer order are those with a smaller
/// offset, and no two cells share an offset.
proof fn lemma_offsets(i: int, j: int, x: int, y: int, w: int, h: int)
    requires
        0 <= i < w,
        0 <= j < h,
        0 <= x < w,
        0 <= y < h,
    ensures
        0 <= i * h + j < w * h,
        i * h + j == x * h + y ==> i == x && j == y,
        i * h + j < x * h + y <==> i < x || (i == x && j < y),
{
    assert(0 <= i * h + j < w * h) by (nonlinear_arith)
        requires
            0 <= i < w,
            0 <= j < h,
    ;
    if i < x {
        assert(i * h + j < x * h + y) by (nonlinear_arith)
            requires
                0 <= i < x,
                0 <= j < h,
                0 <= y,
        ;
    } else if i > x {
        assert(i * h + j > x * h + y) by (nonlinear_arith)
            requires
                0 <= x < i,
                0 <= y < h,
                0 <= j,
        ;
    }
}

impl<T: Copy> Field<T> {
    /// The pixel buffer of the field, or nothing where the buffer would
    /// have more bytes than can be addressed.
    pub fn rgba<S: Fn(T) -> u8>(&self, shade: &S) -> (r: Option<Vec<u8>>)
        requires
            forall|v: T| shade.requires((v,)),
        ensures
            r.is_some() <==> 4 * (grid_width(self@) * grid_height(self@)) <= usize::MAX,
            r.is_some() ==> rendered(self@, *shade, r.unwrap()@),
    {
        let w: usize = self.width();
        let h: usize = self.height();
        proof {
            assert(0 < w * h <= 0x3fff_ffff_ffff_ffff_ffff_ffff_ffff_ffff) by (nonlinear_arith)
                requires
                    0 < w <= 0x7fff_ffff_ffff_ffff,
                    0 < h <= 0x7fff_ffff_ffff_ffff,
            ;
        }
        let bytes: u128 = 4 * (w as u128 * h as u128);
        if bytes > usize::MAX as u128 {
            return None;
        }
        let mut pixels: Vec<u8> = Vec::with_capacity(bytes as usize);
        let mut x: usize = 0;
        while x < w
            invariant
                is_grid(self@),
                w == grid_width(self@),
                h == grid_height(self@),
                4 * (w * h) <= usize::MAX,
                forall|v: T| shade.requires((v,)),
                x <= w,
                pixels.len() == 4 * (x * h),
                forall|i: int, j: int|
                    0 <= i < x && 0 <= j < h ==> {
                        let k = #[trigger] pixel_offset(self@, i, j);
                        &&& 0 <= k && k + 3 < pixels.len()
                        &&& shade.ensures((self@[i][j],), pixels@[k])
                        &&& pixels@[k + 1] == pixels@[k]
                        &&& pixels@[k + 2] == pixels@[k]
                        &&& pixels@[k + 3] == 255
                    },
            decreases w - x,
        {
            let mut y: usize = 0;
            while y < h
                invariant
                    is_grid(self@),
                    w == grid_width(self@),
                    h == grid_height(self@),
                    4 * (w * h) <= usize::MAX,
                    forall|v: T| shade.requires((v,)),
                    x < w,
                    y <= h,
                    pixels.len() == 4 * (x * h + y),
                    forall|i: int, j: int|
                        (0 <= i < x && 0 <= j < h) || (i == x && 0 <= j < y) ==> {
                            let k = #[trigger] pixel_offset(self@, i, j);
                            &&& 0 <= k && k + 3 < pixels.len()
                            &&& shade.ensures((self@[i][j],), pixels@[k])
                            &&& pixels@[k + 1] == pixels@[k]
                            &&& pixels@[k + 2] == pixels@[k]
                            &&& pixels@[k + 3] == 255
                        },
                decreases h - y,
            {
                proof {
                    lemma_offsets(x as int, y as int, x as int, y as int, w as int, h as int);
                }
                let grey: u8 = shade(self.at(x, y));
                pixels.push(grey);
                pixels.push(grey);
                pixels.push(grey);
                pixels.push(255);
                proof {
                    assert forall|i: int, j: int|
                        (0 <= i < x && 0 <= j < h) || (i == x && 0 <= j < y + 1) implies {
                        let k = #[trigger] pixel_offset(self@, i, j);
                        &&& 0 <= k && k + 3 < pixels.len()
                        &&& shade.ensures((self@[i][j],), pixels@[k])
                        &&& pixels@[k + 1] == pixels@[k]
                        &&& pixels@[k + 2] == pixels@[k]
                        &&& pixels@[k + 3] == 255
                    } by {
                        lemma_offsets(i, j, x as int, y as int, w as int, h as int);
                    }
                }
                y += 1;
            }
            proof {
                assert(x * h + h == (x + 1) * h) by (nonlinear_arith);
            }
            x += 1;
        }
        Some(pixels)
    }
}

} // verus!
