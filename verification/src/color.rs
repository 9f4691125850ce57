//! The 4-channel color sample, channel posterization, and the weighted
//! squared perceptual distance that both palette selection and remapping use.

use vstd::prelude::*;

verus! {

/// An 8-bit RGBA color sample. Equality is exact on the 4-tuple.
#[derive(Clone, Copy, Debug, PartialEq, Eq, Structural, Hash)]
pub struct Color {
    pub r: u8,
    pub g: u8,
    pub b: u8,
    pub a: u8,
}

/// Channel weights of the perceptual metric: green counts most (human
/// luminance sensitivity), alpha has a weight of its own.
pub const WEIGHT_R: u32 = 2;
pub const WEIGHT_G: u32 = 4;
pub const WEIGHT_B: u32 = 1;
pub const WEIGHT_A: u32 = 3;

/// Largest value `dist` can take: every channel differs by 255.
pub const MAX_DIST: u32 = 650250;

/// Absolute difference of two channel samples.
pub open spec fn abs_diff(x: u8, y: u8) -> int {
    if x >= y {
        x - y
    } else {
        y - x
    }
}

/// The square of one channel difference.
pub open spec fn sq(d: int) -> int {
    d * d
}

/// Weighted squared distance between two colors; the single metric used by
/// palette selection and remapping alike. It compares the stored samples
/// directly: the metric must separate points (zero only on equal colors),
/// since the quality gate's failure promise rests on that, and any rounded
/// per-channel transfer table would collapse distinct samples.
pub open spec fn dist_spec(c1: Color, c2: Color) -> int {
    WEIGHT_R * sq(abs_diff(c1.r, c2.r)) + WEIGHT_G * sq(abs_diff(c1.g, c2.g)) + WEIGHT_B * sq(
        abs_diff(c1.b, c2.b),
    ) + WEIGHT_A * sq(abs_diff(c1.a, c2.a))
}

/// The metric is nonnegative and never exceeds `MAX_DIST`.
pub proof fn lemma_dist_bounds(c1: Color, c2: Color)
    ensures
        0 <= dist_spec(c1, c2) <= MAX_DIST,
{
    lemma_sq_bound(abs_diff(c1.r, c2.r));
    lemma_sq_bound(abs_diff(c1.g, c2.g));
    lemma_sq_bound(abs_diff(c1.b, c2.b));
    lemma_sq_bound(abs_diff(c1.a, c2.a));
}

proof fn lemma_sq_bound(d: int)
    requires
        0 <= d <= 255,
    ensures
        0 <= sq(d) <= 65025,
{
    assert(d * d <= 255 * 255) by (nonlinear_arith)
        requires 0 <= d <= 255;
}

/// The metric separates points: distance zero means the colors are equal.
pub proof fn lemma_dist_zero(c1: Color, c2: Color)
    ensures
        dist_spec(c1, c2) == 0 <==> c1 == c2,
{
    lemma_sq_zero(abs_diff(c1.r, c2.r));
    lemma_sq_zero(abs_diff(c1.g, c2.g));
    lemma_sq_zero(abs_diff(c1.b, c2.b));
    lemma_sq_zero(abs_diff(c1.a, c2.a));
}

proof fn lemma_sq_zero(d: int)
    requires
        0 <= d,
    ensures
        sq(d) == 0 <==> d == 0,
        sq(d) >= 0,
{
    assert((d * d == 0 <==> d == 0) && d * d >= 0) by (nonlinear_arith)
        requires 0 <= d;
}

/// Executable form of the metric.
pub fn dist(c1: Color, c2: Color) -> (d: u32)
    ensures
        d == dist_spec(c1, c2),
        d <= MAX_DIST,
{
    proof {
        lemma_dist_bounds(c1, c2);
    }
    let dr: u32 = abs_diff_exec(c1.r, c2.r) as u32;
    let dg: u32 = abs_diff_exec(c1.g, c2.g) as u32;
    let db: u32 = abs_diff_exec(c1.b, c2.b) as u32;
    let da: u32 = abs_diff_exec(c1.a, c2.a) as u32;
    proof {
        lemma_sq_bound(dr as int);
        lemma_sq_bound(dg as int);
        lemma_sq_bound(db as int);
        lemma_sq_bound(da as int);
    }
    let sr: u32 = dr * dr;
    let sg: u32 = dg * dg;
    let sb: u32 = db * db;
    let sa: u32 = da * da;
    assert(sr == sq(dr as int) && sg == sq(dg as int) && sb == sq(db as int) && sa == sq(
        da as int,
    ));
    WEIGHT_R * sr + WEIGHT_G * sg + WEIGHT_B * sb + WEIGHT_A * sa
}

fn abs_diff_exec(x: u8, y: u8) -> (d: u8)
    ensures
        d == abs_diff(x, y),
{
    if x >= y {
        x - y
    } else {
        y - x
    }
}

/// Zero the low `n` bits of one channel sample.
pub open spec fn post_chan(v: u8, n: u8) -> u8
    recommends
        n <= 4,
{
    (v >> n) << n
}

/// Posterizing with zero bits changes nothing.
pub proof fn lemma_post_chan_zero(v: u8)
    ensures
        post_chan(v, 0) == v,
{
    assert((v >> 0u8) << 0u8 == v) by (bit_vector);
}

/// Posterization is idempotent channelwise.
pub proof fn lemma_post_chan_idem(v: u8, n: u8)
    requires
        n <= 4,
    ensures
        post_chan(post_chan(v, n), n) == post_chan(v, n),
{
    let w = (v >> n) << n;
    assert((w >> n) << n == w) by (bit_vector)
        requires w == (v >> n) << n && n <= 4u8;
}

/// A pixel as the histogram and the remapper see it: every channel
/// posterized, and every fully transparent pixel collapsed onto the single
/// representative `(0,0,0,0)`, since color carries nothing when alpha is 0.
pub open spec fn processed_spec(c: Color, n: u8) -> Color
    recommends
        n <= 4,
{
    let p = Color {
        r: post_chan(c.r, n),
        g: post_chan(c.g, n),
        b: post_chan(c.b, n),
        a: post_chan(c.a, n),
    };
    if p.a == 0 {
        Color { r: 0, g: 0, b: 0, a: 0 }
    } else {
        p
    }
}

/// Executable posterize-and-collapse of one pixel.
pub fn processed(c: Color, n: u8) -> (p: Color)
    requires
        n <= 4,
    ensures
        p == processed_spec(c, n),
{
    let pa: u8 = (c.a >> n) << n;
    if pa == 0 {
        Color { r: 0, g: 0, b: 0, a: 0 }
    } else {
        Color { r: (c.r >> n) << n, g: (c.g >> n) << n, b: (c.b >> n) << n, a: pa }
    }
}

} // verus!
