use vstd::prelude::*;

verus! {

/// An opaque colour with three 8-bit channels.
#[derive(Clone, Copy, Debug, PartialEq, Eq, Structural)]
pub struct Color {
    pub r: u8,
    pub g: u8,
    pub b: u8,
}

/// A source pixel with straight (non-premultiplied) alpha.
#[derive(Clone, Copy, Debug, PartialEq, Eq, Structural)]
pub struct Rgba {
    pub r: u8,
    pub g: u8,
    pub b: u8,
    pub a: u8,
}

/// Largest possible channel-difference sum between two colours.
pub const MAX_DIFF_SUM: u32 = 765;

pub open spec fn abs_diff(a: u8, b: u8) -> nat {
    if a >= b {
        (a - b) as nat
    } else {
        (b - a) as nat
    }
}

/// Sum of the absolute per-channel differences. The colour distance is the
/// square root of this sum; since the square root is strictly increasing, every
/// comparison between distances (or against a tolerance) is decided by it.
pub open spec fn diff_sum(a: Color, b: Color) -> nat {
    abs_diff(a.r, b.r) + abs_diff(a.g, b.g) + abs_diff(a.b, b.b)
}

/// A similarity tolerance, held as the largest channel-difference sum whose
/// square root does not exceed it.
#[derive(Clone, Copy, Debug, PartialEq, Eq, Structural)]
pub struct Tolerance {
    pub max_diff: u32,
}

/// Two colours are equivalent under `tol` when their distance is at most it.
pub open spec fn within(a: Color, b: Color, tol: Tolerance) -> bool {
    diff_sum(a, b) <= tol.max_diff
}

pub open spec fn blend_channel(c: u8, a: u8) -> int {
    (c * a + 255 * (255 - a)) / 255
}

/// Compositing onto white; a fully transparent pixel has no colour.
pub open spec fn blended(p: Rgba) -> Option<Color> {
    if p.a == 0 {
        None
    } else {
        Some(
            Color {
                r: blend_channel(p.r, p.a) as u8,
                g: blend_channel(p.g, p.a) as u8,
                b: blend_channel(p.b, p.a) as u8,
            },
        )
    }
}

fn channel_diff(a: u8, b: u8) -> (r: u32)
    ensures
        r == abs_diff(a, b),
        r <= 255,
{
    if a >= b {
        (a - b) as u32
    } else {
        (b - a) as u32
    }
}

/// The squared colour distance: the channel-difference sum, from 0 to 765.
pub fn color_difference(a: Color, b: Color) -> (r: u32)
    ensures
        r == diff_sum(a, b),
        r <= MAX_DIFF_SUM,
{
    channel_diff(a.r, b.r) + channel_diff(a.g, b.g) + channel_diff(a.b, b.b)
}

/// Whether `a` and `b` are equivalent under `tol`.
pub fn is_within(a: Color, b: Color, tol: Tolerance) -> (r: bool)
    ensures
        r == within(a, b, tol),
{
    color_difference(a, b) <= tol.max_diff
}

proof fn lemma_blend_channel_bounds(c: u8, a: u8)
    ensures
        0 <= c * a + 255 * (255 - a) <= 255 * 255,
        0 <= blend_channel(c, a) <= 255,
        a == 255 ==> blend_channel(c, a) == c,
{
    assert(0 <= c * a <= 255 * a) by (nonlinear_arith)
        requires
            0 <= c <= 255,
            0 <= a <= 255,
    ;
    assert(0 <= 255 * (255 - a));
}

fn blend_one(c: u8, a: u8) -> (r: u8)
    ensures
        r == blend_channel(c, a),
{
    proof {
        lemma_blend_channel_bounds(c, a);
    }
    let v: u32 = (c as u32) * (a as u32) + 255 * (255 - a as u32);
    (v / 255) as u8
}

/// Composites a pixel onto white, channel by channel
/// `floor(c * alpha / 255 + 255 * (1 - alpha / 255))`; an opaque pixel keeps
/// its colour and a fully transparent one has none.
pub fn blend_with_white(p: Rgba) -> (r: Option<Color>)
    ensures
        r == blended(p),
        p.a == 255 ==> r == Some(Color { r: p.r, g: p.g, b: p.b }),
{
    proof {
        lemma_blend_channel_bounds(p.r, p.a);
        lemma_blend_channel_bounds(p.g, p.a);
        lemma_blend_channel_bounds(p.b, p.a);
    }
    if p.a == 0 {
        None
    } else {
        Some(Color { r: blend_one(p.r, p.a), g: blend_one(p.g, p.a), b: blend_one(p.b, p.a) })
    }
}

/// A colour is at distance zero from itself, and the distance is symmetric.
pub proof fn lemma_distance_identity_symmetry(a: Color, b: Color)
    ensures
        diff_sum(a, a) == 0,
        diff_sum(a, b) == diff_sum(b, a),
{
}

} // verus!
