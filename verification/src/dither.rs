//! The dither engine: one left-to-right, top-to-bottom sweep that replaces
//! each pixel with its nearest palette color and pushes the signed
//! quantization error into the not-yet-visited Floyd-Steinberg neighbors.

use vstd::prelude::*;
use vstd::pervasive::VecAdditionalExecFns;
use crate::color::{Color, clamp_channel};
use crate::metric::{nearest_color, find_nearest_color, lemma_nearest_of_member};
use crate::buffer::{
    PixelBuffer, in_first_column, in_last_column, in_last_row, below_index, right_index,
    below_right_index, below_left_index, lemma_neighbor_bounds,
};
use crate::palette::Palette;

verus! {

/// One error channel's share under the coefficient `num/16`: the exact
/// value `e * num / 16` rounded to the nearest integer, halves away from
/// zero.
pub open spec fn scale_err(e: int, num: int) -> int {
    if e >= 0 {
        (e * num + 8) / 16
    } else {
        -(((-e) * num + 8) / 16)
    }
}

/// One channel of a neighbor after a saturating add of its scaled error
/// share: the sum is clamped into `[0, 255]`, never wrapped.
pub open spec fn diffuse_channel(ch: u8, e: int, num: int) -> u8 {
    clamp_channel(ch + scale_err(e, num))
}

/// A neighbor pixel after taking the share `num/16` of the signed
/// per-channel error `(er, eg, eb)`.
pub open spec fn diffuse_color(c: Color, er: int, eg: int, eb: int, num: int) -> Color {
    Color {
        r: diffuse_channel(c.r, er, num),
        g: diffuse_channel(c.g, eg, num),
        b: diffuse_channel(c.b, eb, num),
    }
}

/// The buffer after pixel `i`'s quantization error is diffused into up to
/// four neighbors: below at `5/16`, right at `7/16`, below-right at `1/16`
/// and below-left at `3/16`, each update suppressed where the boundary
/// policy says the neighbor does not exist.
pub open spec fn diffuse(buf: Seq<Color>, i: int, er: int, eg: int, eb: int, w: int, h: int) -> Seq<
    Color,
> {
    let b1 = if !in_last_row(i, w, h) {
        buf.update(i + w, diffuse_color(buf[i + w], er, eg, eb, 5))
    } else {
        buf
    };
    let b2 = if !in_last_column(i, w) {
        b1.update(i + 1, diffuse_color(b1[i + 1], er, eg, eb, 7))
    } else {
        b1
    };
    let b3 = if !in_last_column(i, w) && !in_last_row(i, w, h) {
        b2.update(i + w + 1, diffuse_color(b2[i + w + 1], er, eg, eb, 1))
    } else {
        b2
    };
    if !in_first_column(i, w) && !in_last_row(i, w, h) {
        b3.update(i + w - 1, diffuse_color(b3[i + w - 1], er, eg, eb, 3))
    } else {
        b3
    }
}

/// One step of the sweep at index `i`: the pixel becomes the nearest
/// palette color and the signed error, original minus replacement, is
/// diffused onward.
pub open spec fn dither_step(buf: Seq<Color>, i: int, pal: Seq<Color>, w: int, h: int) -> Seq<
    Color,
> {
    let rep = nearest_color(buf[i], pal);
    let er = buf[i].r - rep.r;
    let eg = buf[i].g - rep.g;
    let eb = buf[i].b - rep.b;
    diffuse(buf.update(i, rep), i, er, eg, eb, w, h)
}

/// The buffer after the first `n` pixels of the sweep, in the fixed
/// left-to-right, top-to-bottom order. The order is load-bearing: later
/// pixels read error already diffused from earlier ones.
pub open spec fn dither_upto(buf: Seq<Color>, pal: Seq<Color>, w: int, h: int, n: int) -> Seq<
    Color,
>
    decreases n,
{
    if n <= 0 {
        buf
    } else {
        dither_step(dither_upto(buf, pal, w, h, n - 1), n - 1, pal, w, h)
    }
}

/// The whole image after the full dithering sweep.
pub open spec fn dither_spec(buf: Seq<Color>, pal: Seq<Color>, w: int, h: int) -> Seq<Color> {
    dither_upto(buf, pal, w, h, buf.len() as int)
}

/// One diffusion step never changes the buffer's length.
pub proof fn lemma_dither_step_len(buf: Seq<Color>, i: int, pal: Seq<Color>, w: int, h: int)
    requires
        w >= 1,
        h >= 1,
        buf.len() == w * h,
        0 <= i < w * h,
    ensures
        dither_step(buf, i, pal, w, h).len() == buf.len(),
{
    lemma_neighbor_bounds(i, w, h);
}

/// The sweep never changes the buffer's length.
pub proof fn lemma_dither_upto_len(buf: Seq<Color>, pal: Seq<Color>, w: int, h: int, n: int)
    requires
        w >= 1,
        h >= 1,
        buf.len() == w * h,
        0 <= n <= w * h,
    ensures
        dither_upto(buf, pal, w, h, n).len() == buf.len(),
    decreases n,
{
    if n > 0 {
        lemma_dither_upto_len(buf, pal, w, h, n - 1);
        lemma_dither_step_len(dither_upto(buf, pal, w, h, n - 1), n - 1, pal, w, h);
    }
}

/// A zero error channel has a zero share under every coefficient.
proof fn lemma_diffuse_zero_channel(ch: u8, num: int)
    requires
        1 <= num <= 7,
    ensures
        diffuse_channel(ch, 0, num) == ch,
{
    assert(scale_err(0, num) == 0);
}

/// A pixel taking a share of a zero error is unchanged.
proof fn lemma_diffuse_zero_pixel(c: Color, num: int)
    requires
        1 <= num <= 7,
    ensures
        diffuse_color(c, 0, 0, 0, num) == c,
{
    lemma_diffuse_zero_channel(c.r, num);
    lemma_diffuse_zero_channel(c.g, num);
    lemma_diffuse_zero_channel(c.b, num);
}

/// Diffusing a zero error leaves the whole buffer unchanged.
proof fn lemma_diffuse_zero(buf: Seq<Color>, i: int, w: int, h: int)
    requires
        w >= 1,
        h >= 1,
        buf.len() == w * h,
        0 <= i < w * h,
    ensures
        diffuse(buf, i, 0, 0, 0, w, h) == buf,
{
    lemma_neighbor_bounds(i, w, h);
    if !in_last_row(i, w, h) {
        lemma_diffuse_zero_pixel(buf[i + w], 5);
        assert(buf.update(i + w, buf[i + w]) =~= buf);
    }
    if !in_last_column(i, w) {
        lemma_diffuse_zero_pixel(buf[i + 1], 7);
        assert(buf.update(i + 1, buf[i + 1]) =~= buf);
    }
    if !in_last_column(i, w) && !in_last_row(i, w, h) {
        lemma_diffuse_zero_pixel(buf[i + w + 1], 1);
        assert(buf.update(i + w + 1, buf[i + w + 1]) =~= buf);
    }
    if !in_first_column(i, w) && !in_last_row(i, w, h) {
        lemma_diffuse_zero_pixel(buf[i + w - 1], 3);
        assert(buf.update(i + w - 1, buf[i + w - 1]) =~= buf);
    }
}

/// Dithering a one-by-one image is plain nearest-color replacement: no
/// neighbor exists, so zero error is diffused and the single pixel ends at
/// exactly the nearest palette color.
pub proof fn lemma_dither_single_pixel(buf: Seq<Color>, pal: Seq<Color>)
    requires
        buf.len() == 1,
        pal.len() >= 1,
    ensures
        dither_spec(buf, pal, 1, 1) == seq![nearest_color(buf[0], pal)],
{
    let rep = nearest_color(buf[0], pal);
    assert(in_last_row(0, 1, 1));
    assert(in_last_column(0, 1));
    assert(in_first_column(0, 1));
    assert(dither_upto(buf, pal, 1, 1, 0) == buf);
    assert(dither_upto(buf, pal, 1, 1, 1) == dither_step(buf, 0, pal, 1, 1));
    assert(buf.update(0, rep) =~= seq![rep]);
}

/// A buffer whose every pixel already lies in the palette is a fixed point
/// of the first `n` steps of the sweep.
proof fn lemma_fixed_point_upto(buf: Seq<Color>, pal: Seq<Color>, w: int, h: int, n: int)
    requires
        w >= 1,
        h >= 1,
        buf.len() == w * h,
        pal.len() >= 1,
        0 <= n <= w * h,
        forall|j: int| 0 <= j < buf.len() ==> #[trigger] pal.contains(buf[j]),
    ensures
        dither_upto(buf, pal, w, h, n) == buf,
    decreases n,
{
    if n > 0 {
        lemma_fixed_point_upto(buf, pal, w, h, n - 1);
        lemma_nearest_of_member(buf[n - 1], pal);
        let rep = nearest_color(buf[n - 1], pal);
        assert(buf.update(n - 1, rep) =~= buf);
        lemma_diffuse_zero(buf, n - 1, w, h);
    }
}

/// An image whose colors all occur in the palette is a fixed point of the
/// sweep: every pixel maps to itself at distance zero, so zero error
/// accumulates and dithering it again changes nothing.
pub proof fn lemma_dither_fixed_point(buf: Seq<Color>, pal: Seq<Color>, w: int, h: int)
    requires
        w >= 1,
        h >= 1,
        buf.len() == w * h,
        pal.len() >= 1,
        forall|j: int| 0 <= j < buf.len() ==> #[trigger] pal.contains(buf[j]),
    ensures
        dither_spec(buf, pal, w, h) == buf,
{
    lemma_fixed_point_upto(buf, pal, w, h, w * h);
}

/// A step at index `i` writes the nearest palette color at `i` itself and
/// touches nothing before `i`: diffusion only reaches higher indices.
proof fn lemma_dither_step_prefix(buf: Seq<Color>, i: int, pal: Seq<Color>, w: int, h: int)
    requires
        w >= 1,
        h >= 1,
        buf.len() == w * h,
        0 <= i < w * h,
    ensures
        dither_step(buf, i, pal, w, h).len() == buf.len(),
        dither_step(buf, i, pal, w, h)[i] == nearest_color(buf[i], pal),
        forall|j: int| 0 <= j < i ==> #[trigger] dither_step(buf, i, pal, w, h)[j] == buf[j],
{
    lemma_neighbor_bounds(i, w, h);
    if w == 1 {
        assert(in_first_column(i, w));
    }
}

/// Positions the sweep has passed are palette members already.
proof fn lemma_upto_members(buf: Seq<Color>, pal: Seq<Color>, w: int, h: int, n: int)
    requires
        w >= 1,
        h >= 1,
        buf.len() == w * h,
        pal.len() >= 1,
        0 <= n <= w * h,
    ensures
        dither_upto(buf, pal, w, h, n).len() == buf.len(),
        forall|j: int| 0 <= j < n ==> pal.contains(#[trigger] dither_upto(buf, pal, w, h, n)[j]),
    decreases n,
{
    if n > 0 {
        let prev = dither_upto(buf, pal, w, h, n - 1);
        lemma_upto_members(buf, pal, w, h, n - 1);
        lemma_dither_step_prefix(prev, n - 1, pal, w, h);
        crate::metric::lemma_nearest_minimal(prev[n - 1], pal);
    }
}

/// Every pixel of the dithered image is a palette entry: the sweep replaces
/// each pixel at its own step, and later steps diffuse error only forward,
/// never over an already-quantized pixel.
pub proof fn lemma_dither_output_in_palette(buf: Seq<Color>, pal: Seq<Color>, w: int, h: int)
    requires
        w >= 1,
        h >= 1,
        buf.len() == w * h,
        pal.len() >= 1,
    ensures
        dither_spec(buf, pal, w, h).len() == buf.len(),
        forall|j: int|
            0 <= j < buf.len() ==> pal.contains(#[trigger] dither_spec(buf, pal, w, h)[j]),
{
    lemma_upto_members(buf, pal, w, h, w * h);
}

/// Computes the rounded error share `e * num / 16` exactly.
fn scale_err_exec(e: i32, num: u32) -> (r: i32)
    requires
        -255 <= e <= 255,
        1 <= num <= 7,
    ensures
        r == scale_err(e as int, num as int),
        -255 <= r <= 255,
{
    let mag: u32 = if e >= 0 {
        e as u32
    } else {
        (-e) as u32
    };
    proof {
        assert(mag as int * num as int <= 1785) by (nonlinear_arith)
            requires
                0 <= mag as int <= 255 && 0 <= num as int <= 7,
        ;
    }
    let s: u32 = (mag * num + 8) / 16;
    if e >= 0 {
        s as i32
    } else {
        -(s as i32)
    }
}

/// Clamps `ch + d` into `[0, 255]`: the saturating form of adding a signed
/// error share to a channel.
fn add_clamped(ch: u8, d: i32) -> (r: u8)
    requires
        -255 <= d <= 255,
    ensures
        r == clamp_channel(ch + d),
{
    let v: i32 = ch as i32 + d;
    if v < 0 {
        0
    } else if v > 255 {
        255
    } else {
        v as u8
    }
}

/// One neighbor pixel taking its share `num/16` of the signed error.
fn diffuse_pixel(c: Color, er: i32, eg: i32, eb: i32, num: u32) -> (r: Color)
    requires
        -255 <= er <= 255,
        -255 <= eg <= 255,
        -255 <= eb <= 255,
        1 <= num <= 7,
    ensures
        r == diffuse_color(c, er as int, eg as int, eb as int, num as int),
{
    Color {
        r: add_clamped(c.r, scale_err_exec(er, num)),
        g: add_clamped(c.g, scale_err_exec(eg, num)),
        b: add_clamped(c.b, scale_err_exec(eb, num)),
    }
}

/// Floyd-Steinberg dithering over the whole image, in place: a single
/// left-to-right, top-to-bottom sweep of the flat buffer. Every pixel is
/// replaced by the nearest palette color; the signed quantization error is
/// pushed into the below, right, below-right and below-left neighbors by
/// saturating adds scaled by `5/16`, `7/16`, `1/16` and `3/16`, with each
/// write suppressed at the image edge that would put it out of range.
pub fn dither_image_fs(image: &mut PixelBuffer, user_palette: &Palette)
    requires
        old(image).wf(),
        user_palette.wf(),
    ensures
        final(image).wf(),
        final(image).width == old(image).width,
        final(image).height == old(image).height,
        final(image)@ == dither_spec(
            old(image)@,
            user_palette@,
            old(image).width as int,
            old(image).height as int,
        ),
{
    let w = image.width;
    let h = image.height;
    let n = image.pixels.len();
    let ghost orig = image.pixels@;
    let ghost pal = user_palette@;
    if n == 0 {
        return ;
    }
    proof {
        assert(w >= 1 && h >= 1) by (nonlinear_arith)
            requires
                w as int * h as int >= 1 && w >= 0 && h >= 0,
        ;
    }
    let mut i: usize = 0;
    while i < n
        invariant
            0 <= i <= n,
            w >= 1,
            h >= 1,
            n == w * h,
            w == image.width,
            h == image.height,
            orig.len() == n,
            pal == user_palette@,
            user_palette.wf(),
            image.pixels@.len() == n,
            image.pixels@ == dither_upto(orig, pal, w as int, h as int, i as int),
        decreases n - i,
    {
        let c = image.pixels[i];
        let rep = find_nearest_color(c, &user_palette.colors);
        let er: i32 = c.r as i32 - rep.r as i32;
        let eg: i32 = c.g as i32 - rep.g as i32;
        let eb: i32 = c.b as i32 - rep.b as i32;
        let ghost before = image.pixels@;
        image.pixels.set(i, rep);
        let ghost b0 = image.pixels@;
        proof {
            assert(b0 == before.update(i as int, rep));
            lemma_neighbor_bounds(i as int, w as int, h as int);
        }
        match below_index(i, w, h) {
            Some(j) => {
                let p = image.pixels[j];
                image.pixels.set(j, diffuse_pixel(p, er, eg, eb, 5));
            },
            None => {},
        }
        let ghost b1 = image.pixels@;
        proof {
            assert(b1 == if !in_last_row(i as int, w as int, h as int) {
                b0.update(
                    i + w as int,
                    diffuse_color(b0[i + w as int], er as int, eg as int, eb as int, 5),
                )
            } else {
                b0
            });
        }
        match right_index(i, w, h) {
            Some(j) => {
                let p = image.pixels[j];
                image.pixels.set(j, diffuse_pixel(p, er, eg, eb, 7));
            },
            None => {},
        }
        let ghost b2 = image.pixels@;
        proof {
            assert(b2 == if !in_last_column(i as int, w as int) {
                b1.update(
                    i + 1 as int,
                    diffuse_color(b1[i + 1 as int], er as int, eg as int, eb as int, 7),
                )
            } else {
                b1
            });
        }
        match below_right_index(i, w, h) {
            Some(j) => {
                let p = image.pixels[j];
                image.pixels.set(j, diffuse_pixel(p, er, eg, eb, 1));
            },
            None => {},
        }
        let ghost b3 = image.pixels@;
        proof {
            assert(b3 == if !in_last_column(i as int, w as int) && !in_last_row(
                i as int,
                w as int,
                h as int,
            ) {
                b2.update(
                    i + w as int + 1,
                    diffuse_color(b2[i + w as int + 1], er as int, eg as int, eb as int, 1),
                )
            } else {
                b2
            });
        }
        match below_left_index(i, w, h) {
            Some(j) => {
                let p = image.pixels[j];
                image.pixels.set(j, diffuse_pixel(p, er, eg, eb, 3));
            },
            None => {},
        }
        let ghost b4 = image.pixels@;
        proof {
            assert(b4 == if !in_first_column(i as int, w as int) && !in_last_row(
                i as int,
                w as int,
                h as int,
            ) {
                b3.update(
                    i + w as int - 1,
                    diffuse_color(b3[i + w as int - 1], er as int, eg as int, eb as int, 3),
                )
            } else {
                b3
            });
            assert(b4 == diffuse(b0, i as int, er as int, eg as int, eb as int, w as int, h as int));
            assert(rep == nearest_color(before[i as int], pal));
            assert(b4 == dither_step(before, i as int, pal, w as int, h as int));
            assert(b4 == dither_upto(orig, pal, w as int, h as int, i + 1));
        }
        i = i + 1;
    }
}

} // verus!
