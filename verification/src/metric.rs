//! Weighted color distance and nearest-neighbor search over a palette.

use vstd::prelude::*;
use crate::color::Color;

verus! {

/// Squared weighted distance between two colors, scaled by 10000 so it is an
/// integer. The weights are the fixed luma approximation r=0.30, g=0.59,
/// b=0.11: this value is `10000 * ((dr*0.30)^2 + (dg*0.59)^2 + (db*0.11)^2)`.
/// Comparing these scaled squares with `<` orders color pairs exactly as the
/// real-valued metric `sqrt((dr*0.30)^2 + (dg*0.59)^2 + (db*0.11)^2)` does,
/// since squaring and scaling are strictly monotone on non-negative reals.
pub open spec fn dist2(a: Color, b: Color) -> int {
    900 * (a.r - b.r) * (a.r - b.r) + 3481 * (a.g - b.g) * (a.g - b.g) + 121 * (a.b - b.b) * (
    a.b - b.b)
}

/// Index of the palette entry nearest to `c` among `best` and the entries
/// from position `i` on, scanning forward; a later entry supplants the
/// running best only when strictly nearer, so the earliest of equally near
/// entries wins.
pub open spec fn nearest_from(c: Color, pal: Seq<Color>, i: int, best: int) -> int
    decreases pal.len() - i when 0 <= i
{
    if i >= pal.len() {
        best
    } else if dist2(c, pal[i]) < dist2(c, pal[best]) {
        nearest_from(c, pal, i + 1, i)
    } else {
        nearest_from(c, pal, i + 1, best)
    }
}

/// Index of the first palette entry at minimal weighted distance from `c`.
pub open spec fn nearest_index(c: Color, pal: Seq<Color>) -> int {
    nearest_from(c, pal, 1, 0)
}

/// The palette entry nearest to `c`: minimal weighted distance, ties broken
/// by lowest index.
pub open spec fn nearest_color(c: Color, pal: Seq<Color>) -> Color {
    pal[nearest_index(c, pal)]
}

/// The weighted distance is non-negative, and zero exactly between a color
/// and itself.
pub proof fn lemma_dist2_zero(a: Color, b: Color)
    ensures
        dist2(a, b) >= 0,
        dist2(a, b) == 0 <==> a == b,
{
    let dr = a.r - b.r;
    let dg = a.g - b.g;
    let db = a.b - b.b;
    assert(900 * dr * dr >= 0 && (dr != 0 ==> 900 * dr * dr > 0)) by (nonlinear_arith);
    assert(3481 * dg * dg >= 0 && (dg != 0 ==> 3481 * dg * dg > 0)) by (nonlinear_arith);
    assert(121 * db * db >= 0 && (db != 0 ==> 121 * db * db > 0)) by (nonlinear_arith);
}

/// The forward scan lands on an entry no farther from `c` than the running
/// best and than every entry from position `i` on; it leaves the running
/// best only for a strictly nearer entry, and it skips an entry only when a
/// strictly nearer one stands at a lower index.
proof fn lemma_nearest_from_min(c: Color, pal: Seq<Color>, i: int, best: int)
    requires
        0 <= best < i,
        i <= pal.len(),
    ensures
        0 <= nearest_from(c, pal, i, best) < pal.len(),
        dist2(c, pal[nearest_from(c, pal, i, best)]) <= dist2(c, pal[best]),
        nearest_from(c, pal, i, best) != best ==> dist2(c, pal[nearest_from(c, pal, i, best)])
            < dist2(c, pal[best]),
        forall|k: int|
            i <= k < pal.len() ==> dist2(c, pal[nearest_from(c, pal, i, best)]) <= dist2(
                c,
                #[trigger] pal[k],
            ),
        forall|k: int|
            i <= k < pal.len() && k < nearest_from(c, pal, i, best) ==> dist2(c, #[trigger] pal[k])
                > dist2(c, pal[nearest_from(c, pal, i, best)]),
    decreases pal.len() - i,
{
    if i < pal.len() {
        if dist2(c, pal[i]) < dist2(c, pal[best]) {
            lemma_nearest_from_min(c, pal, i + 1, i);
        } else {
            lemma_nearest_from_min(c, pal, i + 1, best);
        }
    }
}

/// The chosen entry is a palette member at minimal weighted distance from
/// `c`, and every entry before it is strictly farther: of equally near
/// entries the first encountered, lowest-index one wins.
pub proof fn lemma_nearest_minimal(c: Color, pal: Seq<Color>)
    requires
        pal.len() >= 1,
    ensures
        0 <= nearest_index(c, pal) < pal.len(),
        pal.contains(nearest_color(c, pal)),
        forall|k: int|
            0 <= k < pal.len() ==> dist2(c, nearest_color(c, pal)) <= dist2(c, #[trigger] pal[k]),
        forall|k: int|
            0 <= k < nearest_index(c, pal) ==> dist2(c, #[trigger] pal[k]) > dist2(
                c,
                nearest_color(c, pal),
            ),
{
    lemma_nearest_from_min(c, pal, 1, 0);
    let j = nearest_index(c, pal);
    assert(pal.contains(pal[j]));
}

/// A color already in the palette is its own nearest entry, at distance zero.
pub proof fn lemma_nearest_of_member(c: Color, pal: Seq<Color>)
    requires
        pal.len() >= 1,
        pal.contains(c),
    ensures
        nearest_color(c, pal) == c,
        dist2(c, nearest_color(c, pal)) == 0,
{
    let k = choose|k: int| 0 <= k < pal.len() && pal[k] == c;
    lemma_nearest_from_min(c, pal, 1, 0);
    let j = nearest_index(c, pal);
    lemma_dist2_zero(c, c);
    lemma_dist2_zero(c, pal[j]);
}

/// Against a one-entry palette every color maps to that entry.
pub proof fn lemma_nearest_singleton(c: Color, pal: Seq<Color>)
    requires
        pal.len() == 1,
    ensures
        nearest_color(c, pal) == pal[0],
{
}

/// Computes `dist2(a, b)` exactly, in wide integers.
fn dist2_exec(a: Color, b: Color) -> (d: i64)
    ensures
        d == dist2(a, b),
{
    let dr: i64 = a.r as i64 - b.r as i64;
    let dg: i64 = a.g as i64 - b.g as i64;
    let db: i64 = a.b as i64 - b.b as i64;
    proof {
        assert(0 <= dr * dr <= 65025) by (nonlinear_arith)
            requires
                -255 <= dr <= 255,
        ;
        assert(0 <= dg * dg <= 65025) by (nonlinear_arith)
            requires
                -255 <= dg <= 255,
        ;
        assert(0 <= db * db <= 65025) by (nonlinear_arith)
            requires
                -255 <= db <= 255,
        ;
    }
    let sr: i64 = dr * dr;
    let sg: i64 = dg * dg;
    let sb: i64 = db * db;
    proof {
        assert(900 * (dr * dr) == 900 * dr * dr) by (nonlinear_arith);
        assert(3481 * (dg * dg) == 3481 * dg * dg) by (nonlinear_arith);
        assert(121 * (db * db) == 121 * db * db) by (nonlinear_arith);
    }
    900 * sr + 3481 * sg + 121 * sb
}

/// Linear scan for the palette entry nearest to `current_color` under the
/// weighted metric; the first of equally near entries is kept.
pub fn find_nearest_color(current_color: Color, user_palette: &Vec<Color>) -> (r: Color)
    requires
        user_palette@.len() >= 1,
    ensures
        r == nearest_color(current_color, user_palette@),
        user_palette@.contains(r),
{
    let mut best: usize = 0;
    let mut best_d: i64 = dist2_exec(current_color, user_palette[0]);
    let mut i: usize = 1;
    while i < user_palette.len()
        invariant
            1 <= i <= user_palette@.len(),
            0 <= best < i,
            best_d == dist2(current_color, user_palette@[best as int]),
            nearest_index(current_color, user_palette@) == nearest_from(
                current_color,
                user_palette@,
                i as int,
                best as int,
            ),
        decreases user_palette@.len() - i,
    {
        let d = dist2_exec(current_color, user_palette[i]);
        if d < best_d {
            best = i;
            best_d = d;
        }
        i = i + 1;
    }
    assert(user_palette@.contains(user_palette@[best as int]));
    user_palette[best]
}

} // verus!
