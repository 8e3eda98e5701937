//! Colours and the channel-wise comparisons made on them.

use vstd::prelude::*;

verus! {

/// An 8-bit RGBA colour.
#[derive(Clone, Copy, Debug, PartialEq, Eq, Structural)]
pub struct Color {
    pub r: u8,
    pub g: u8,
    pub b: u8,
    pub a: u8,
}

/// Absolute difference of two channel values.
pub open spec fn channel_distance(p: u8, q: u8) -> int {
    if p >= q {
        p - q
    } else {
        q - p
    }
}

/// Weight of the red channel in the luma of a colour, in ten-thousandths.
pub const LUMA_RED: u32 = 2126;

/// Weight of the green channel in the luma of a colour, in ten-thousandths.
pub const LUMA_GREEN: u32 = 7152;

/// Weight of the blue channel in the luma of a colour, in ten-thousandths.
pub const LUMA_BLUE: u32 = 722;

/// Luma of a colour with the given channels: their weighted mean, rounded
/// down. The weights add up to ten thousand, so the result is a byte.
pub open spec fn luma_of(r: u8, g: u8, b: u8) -> u8 {
    ((LUMA_RED * r + LUMA_GREEN * g + LUMA_BLUE * b) / 10000) as u8
}

impl Color {
    /// The colour with the given channels.
    pub fn new(r: u8, g: u8, b: u8, a: u8) -> (c: Color)
        ensures
            c == (Color { r, g, b, a }),
    {
        Color { r, g, b, a }
    }

    /// Luma of this colour; alpha plays no part in it.
    pub open spec fn luma(self) -> u8 {
        luma_of(self.r, self.g, self.b)
    }

    /// Whether each of red, green and blue lies within `tolerance` of the
    /// same channel of `other`. Alpha is not compared.
    pub open spec fn matches(self, other: Color, tolerance: u8) -> bool {
        &&& channel_distance(self.r, other.r) <= tolerance
        &&& channel_distance(self.g, other.g) <= tolerance
        &&& channel_distance(self.b, other.b) <= tolerance
    }

    /// Channel-wise comparison of this colour with `other`, alpha ignored.
    pub fn within_tolerance(&self, other: &Color, tolerance: u8) -> (close: bool)
        ensures
            close == self.matches(*other, tolerance),
    {
        abs_diff(self.r, other.r) <= tolerance && abs_diff(self.g, other.g) <= tolerance
            && abs_diff(self.b, other.b) <= tolerance
    }
}

/// Absolute difference of two bytes.
pub fn abs_diff(p: u8, q: u8) -> (d: u8)
    ensures
        d == channel_distance(p, q),
{
    if p >= q {
        p - q
    } else {
        q - p
    }
}

/// Matching is symmetric: a colour matches another exactly when the other
/// matches it.
pub proof fn lemma_matches_symmetric(p: Color, q: Color, tolerance: u8)
    ensures
        p.matches(q, tolerance) == q.matches(p, tolerance),
{
}

/// A colour whose red, green and blue each differ from those of `q` by exactly
/// the tolerance matches `q`.
pub proof fn lemma_matches_at_tolerance(p: Color, q: Color, tolerance: u8)
    requires
        channel_distance(p.r, q.r) == tolerance,
        channel_distance(p.g, q.g) == tolerance,
        channel_distance(p.b, q.b) == tolerance,
    ensures
        p.matches(q, tolerance),
{
}

/// A colour of which one of red, green and blue differs from that of `q` by
/// more than the tolerance does not match `q`.
pub proof fn lemma_no_match_beyond_tolerance(p: Color, q: Color, tolerance: u8)
    requires
        channel_distance(p.r, q.r) > tolerance || channel_distance(p.g, q.g) > tolerance
            || channel_distance(p.b, q.b) > tolerance,
    ensures
        !p.matches(q, tolerance),
{
}

} // verus!
