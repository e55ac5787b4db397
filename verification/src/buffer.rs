//! Flat row-major pixel buffer and the linear-index boundary arithmetic
//! that places each pixel's diffusion neighbors.

use vstd::prelude::*;
use crate::color::Color;

verus! {

/// A raster image as a flat, row-major sequence of pixels plus its shape.
/// The sequence itself carries no 2D structure: the pixel at linear index
/// `i` sits at row `i / width`, column `i % width`.
pub struct PixelBuffer {
    pub pixels: Vec<Color>,
    pub width: usize,
    pub height: usize,
}

/// The pixel at linear index `i` stands in column 0: there is no pixel to
/// its left.
pub open spec fn in_first_column(i: int, width: int) -> bool {
    i % width == 0
}

/// The pixel at linear index `i` stands in the last column: there is no
/// pixel to its right.
pub open spec fn in_last_column(i: int, width: int) -> bool {
    (i + 1) % width == 0
}

/// The pixel at linear index `i` stands in the last row: there is no row
/// below it.
pub open spec fn in_last_row(i: int, width: int, height: int) -> bool {
    i >= width * (height - 1)
}

/// Every neighbor offset that the boundary predicates admit lands strictly
/// inside the buffer, and a pixel off column 0 has an index of at least 1.
pub proof fn lemma_neighbor_bounds(i: int, w: int, h: int)
    requires
        w >= 1,
        h >= 1,
        0 <= i < w * h,
    ensures
        !in_last_row(i, w, h) ==> i + w < w * h,
        !in_last_column(i, w) ==> i + 1 < w * h,
        (!in_last_column(i, w) && !in_last_row(i, w, h)) ==> i + w + 1 < w * h,
        !in_first_column(i, w) ==> 1 <= i,
{
    assert(w * (h - 1) == w * h - w) by (nonlinear_arith);
    if !in_last_column(i, w) && i + 1 == w * h {
        vstd::arithmetic::div_mod::lemma_mod_multiples_basic(h, w);
        assert(w * h == h * w) by (nonlinear_arith);
        assert(false);
    }
    if !in_last_column(i, w) && !in_last_row(i, w, h) && i + w + 1 == w * h {
        vstd::arithmetic::div_mod::lemma_mod_multiples_basic(h - 1, w);
        assert(w * (h - 1) == (h - 1) * w) by (nonlinear_arith);
        assert(false);
    }
    if !in_first_column(i, w) && i == 0 {
        vstd::arithmetic::div_mod::lemma_mod_multiples_basic(0, w);
        assert(0 * w == 0) by (nonlinear_arith);
        assert(false);
    }
}

/// Linear index of the pixel directly below `i` (`(x, y+1)`), or nothing
/// when `i` lies in the last row. A returned index is always inside the
/// buffer.
pub fn below_index(i: usize, width: usize, height: usize) -> (r: Option<usize>)
    requires
        width >= 1,
        height >= 1,
        i < width * height,
        width * height <= usize::MAX,
    ensures
        in_last_row(i as int, width as int, height as int) ==> r is None,
        !in_last_row(i as int, width as int, height as int) ==> r == Some((i + width) as usize)
            && i + width < width * height,
{
    proof {
        assert(width * (height - 1) <= width * height) by (nonlinear_arith)
            requires
                width >= 1 && height >= 1,
        ;
        lemma_neighbor_bounds(i as int, width as int, height as int);
    }
    if i >= width * (height - 1) {
        None
    } else {
        Some(i + width)
    }
}

/// Linear index of the pixel to the right of `i` (`(x+1, y)`), or nothing
/// when `i` lies in the last column. A returned index is always inside the
/// buffer.
pub fn right_index(i: usize, width: usize, height: usize) -> (r: Option<usize>)
    requires
        width >= 1,
        height >= 1,
        i < width * height,
        width * height <= usize::MAX,
    ensures
        in_last_column(i as int, width as int) ==> r is None,
        !in_last_column(i as int, width as int) ==> r == Some((i + 1) as usize) && i + 1 < width
            * height,
{
    proof {
        lemma_neighbor_bounds(i as int, width as int, height as int);
    }
    if (i + 1) % width == 0 {
        None
    } else {
        Some(i + 1)
    }
}

/// Linear index of the pixel below and to the right of `i` (`(x+1, y+1)`),
/// or nothing when `i` lies in the last column or the last row. A returned
/// index is always inside the buffer.
pub fn below_right_index(i: usize, width: usize, height: usize) -> (r: Option<usize>)
    requires
        width >= 1,
        height >= 1,
        i < width * height,
        width * height <= usize::MAX,
    ensures
        (in_last_column(i as int, width as int) || in_last_row(
            i as int,
            width as int,
            height as int,
        )) ==> r is None,
        (!in_last_column(i as int, width as int) && !in_last_row(
            i as int,
            width as int,
            height as int,
        )) ==> r == Some((i + width + 1) as usize) && i + width + 1 < width * height,
{
    proof {
        assert(width * (height - 1) <= width * height) by (nonlinear_arith)
            requires
                width >= 1 && height >= 1,
        ;
        lemma_neighbor_bounds(i as int, width as int, height as int);
    }
    if (i + 1) % width == 0 || i >= width * (height - 1) {
        None
    } else {
        Some(i + width + 1)
    }
}

/// Linear index of the pixel below and to the left of `i` (`(x-1, y+1)`),
/// or nothing when `i` lies in column 0 or the last row. A returned index is
/// always inside the buffer.
pub fn below_left_index(i: usize, width: usize, height: usize) -> (r: Option<usize>)
    requires
        width >= 1,
        height >= 1,
        i < width * height,
        width * height <= usize::MAX,
    ensures
        (in_first_column(i as int, width as int) || in_last_row(
            i as int,
            width as int,
            height as int,
        )) ==> r is None,
        (!in_first_column(i as int, width as int) && !in_last_row(
            i as int,
            width as int,
            height as int,
        )) ==> r == Some((i + width - 1) as usize) && 0 <= i + width - 1 < width * height,
{
    proof {
        assert(width * (height - 1) <= width * height) by (nonlinear_arith)
            requires
                width >= 1 && height >= 1,
        ;
        lemma_neighbor_bounds(i as int, width as int, height as int);
    }
    if i % width == 0 || i >= width * (height - 1) {
        None
    } else {
        Some(i + width - 1)
    }
}

impl View for PixelBuffer {
    type V = Seq<Color>;

    open spec fn view(&self) -> Seq<Color> {
        self.pixels@
    }
}

impl PixelBuffer {
    /// The buffer invariant: the flat sequence holds exactly
    /// `width * height` pixels.
    pub open spec fn wf(&self) -> bool {
        self.pixels@.len() == self.width * self.height
    }

    /// Builds a buffer from the raw row-major bytes a codec delivers: three
    /// bytes per pixel, red then green then blue, no padding, no alpha.
    /// Rejects the bytes unless their count is exactly
    /// `width * height * 3`, so that a well-shaped buffer exists by
    /// construction.
    pub fn from_raw(raw: &Vec<u8>, width: usize, height: usize) -> (r: Option<PixelBuffer>)
        ensures
            (r is Some) <==> raw@.len() == 3 * (width * height),
            r matches Some(buf) ==> buf.wf() && buf.width == width && buf.height == height
                && buf.pixels@.len() == width * height && forall|j: int|
                0 <= j < width * height ==> #[trigger] buf.pixels@[j] == (Color {
                    r: raw@[3 * j],
                    g: raw@[3 * j + 1],
                    b: raw@[3 * j + 2],
                }),
    {
        let rlen = raw.len();
        let wh_opt = width.checked_mul(height);
        let needed_opt = match wh_opt {
            Some(wh) => wh.checked_mul(3),
            None => None,
        };
        let needed = match needed_opt {
            Some(n) => n,
            None => {
                return None;
            },
        };
        if rlen != needed {
            return None;
        }
        let wh = width * height;
        let mut pixels: Vec<Color> = Vec::new();
        let mut j: usize = 0;
        while j < wh
            invariant
                0 <= j <= wh,
                wh == width * height,
                raw@.len() == 3 * wh,
                3 * wh <= usize::MAX,
                pixels@.len() == j,
                forall|k: int|
                    0 <= k < j ==> #[trigger] pixels@[k] == (Color {
                        r: raw@[3 * k],
                        g: raw@[3 * k + 1],
                        b: raw@[3 * k + 2],
                    }),
            decreases wh - j,
        {
            let c = Color { r: raw[3 * j], g: raw[3 * j + 1], b: raw[3 * j + 2] };
            pixels.push(c);
            j = j + 1;
        }
        Some(PixelBuffer { pixels, width, height })
    }

    /// Flattens the buffer back into the raw row-major byte form the codec
    /// consumes: three bytes per pixel, red then green then blue.
    pub fn to_raw_from_rgb(&self) -> (raw: Vec<u8>)
        ensures
            raw@.len() == 3 * self.pixels@.len(),
            forall|j: int|
                0 <= j < self.pixels@.len() ==> raw@[3 * j] == (#[trigger] self.pixels@[j]).r && raw@[
                    3 * j + 1
                ] == self.pixels@[j].g && raw@[3 * j + 2] == self.pixels@[j].b,
    {
        let mut raw: Vec<u8> = Vec::new();
        let n = self.pixels.len();
        let mut j: usize = 0;
        while j < n
            invariant
                0 <= j <= n,
                n == self.pixels@.len(),
                raw@.len() == 3 * j,
                forall|k: int|
                    0 <= k < j ==> raw@[3 * k] == (#[trigger] self.pixels@[k]).r && raw@[3 * k + 1]
                        == self.pixels@[k].g && raw@[3 * k + 2] == self.pixels@[k].b,
            decreases n - j,
        {
            let p = self.pixels[j];
            raw.push(p.r);
            raw.push(p.g);
            raw.push(p.b);
            j = j + 1;
        }
        raw
    }
}

} // verus!
