//! The pixel value type: three 8-bit channels with saturating arithmetic.

use vstd::prelude::*;

verus! {

/// One pixel: red, green and blue channels, each in `[0, 255]`.
#[derive(Clone, Copy, PartialEq, Eq, Structural, Debug)]
pub struct Color {
    pub r: u8,
    pub g: u8,
    pub b: u8,
}

/// `min(255, a + b)`: a channel add that clamps at the top of the range.
pub open spec fn sat_add_channel(a: u8, b: u8) -> u8 {
    if a + b > 255 {
        255u8
    } else {
        (a + b) as u8
    }
}

/// `max(0, a - b)`: a channel subtract that clamps at the bottom of the range.
pub open spec fn sat_sub_channel(a: u8, b: u8) -> u8 {
    if a < b {
        0u8
    } else {
        (a - b) as u8
    }
}

/// Clamps an arbitrary signed channel value into `[0, 255]`.
pub open spec fn clamp_channel(v: int) -> u8 {
    if v < 0 {
        0u8
    } else if v > 255 {
        255u8
    } else {
        v as u8
    }
}

impl Color {
    /// Per-channel saturating add: no channel ever wraps past 255.
    pub fn saturating_add(self, other: Color) -> (r: Color)
        ensures
            r.r == sat_add_channel(self.r, other.r),
            r.g == sat_add_channel(self.g, other.g),
            r.b == sat_add_channel(self.b, other.b),
    {
        Color {
            r: self.r.saturating_add(other.r),
            g: self.g.saturating_add(other.g),
            b: self.b.saturating_add(other.b),
        }
    }

    /// Per-channel saturating subtract: no channel ever wraps below 0.
    pub fn saturating_sub(self, other: Color) -> (r: Color)
        ensures
            r.r == sat_sub_channel(self.r, other.r),
            r.g == sat_sub_channel(self.g, other.g),
            r.b == sat_sub_channel(self.b, other.b),
    {
        Color {
            r: self.r.saturating_sub(other.r),
            g: self.g.saturating_sub(other.g),
            b: self.b.saturating_sub(other.b),
        }
    }
}

/// Saturating channel arithmetic never leaves `[0, 255]`, and agrees with
/// `min(255, a + b)` and `max(0, a - b)` over the integers.
pub proof fn lemma_saturating_channel_bounds(a: u8, b: u8)
    ensures
        0 <= sat_add_channel(a, b) <= 255,
        sat_add_channel(a, b) == if a + b <= 255 { a + b } else { 255int },
        0 <= sat_sub_channel(a, b) <= 255,
        sat_sub_channel(a, b) == if a - b >= 0 { a - b } else { 0int },
{
}

} // verus!
