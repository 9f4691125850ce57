//! The remapper: assign each source pixel (posterized like the histogram)
//! to its nearest palette entry under the shared metric, optionally with
//! Floyd-Steinberg error diffusion. The dithered scan is strictly row-major,
//! left to right, top to bottom; its carried error state is modeled exactly
//! by `dstate`, so the emitted index buffer is pinned down bit for bit.

use vstd::prelude::*;

use crate::color::{processed, Color};
use crate::error::QuantError;
use crate::histogram::processed_seq;
use crate::image::ImagequantImage;
use crate::palette::{near_idx, nearest};

verus! {

/// A signed per-channel quantization error, in whole sample steps.
#[derive(Clone, Copy, Debug, PartialEq, Eq, Structural)]
pub struct ErrV {
    pub r: i32,
    pub g: i32,
    pub b: i32,
    pub a: i32,
}

/// The zero error vector.
pub open spec fn zero_ev() -> ErrV {
    ErrV { r: 0, g: 0, b: 0, a: 0 }
}

/// A row of zero error vectors.
pub open spec fn zeros(w: int) -> Seq<ErrV> {
    Seq::new(w as nat, |i: int| zero_ev())
}

/// Componentwise sum of two error vectors.
pub open spec fn add_ev(a: ErrV, b: ErrV) -> ErrV {
    ErrV {
        r: (a.r + b.r) as i32,
        g: (a.g + b.g) as i32,
        b: (a.b + b.b) as i32,
        a: (a.a + b.a) as i32,
    }
}

/// Every channel of `e` within `-b ..= b`.
pub open spec fn ev_bounded(e: ErrV, b: int) -> bool {
    &&& -b <= e.r <= b
    &&& -b <= e.g <= b
    &&& -b <= e.b <= b
    &&& -b <= e.a <= b
}

/// `m/16` of a signed error, rounded toward zero.
pub open spec fn frac_spec(e: int, m: int) -> int {
    if e >= 0 {
        (e * m) / 16
    } else {
        -(((-e) * m) / 16)
    }
}

/// `m/16` of every channel.
pub open spec fn frac_ev(e: ErrV, m: int) -> ErrV {
    ErrV {
        r: frac_spec(e.r as int, m) as i32,
        g: frac_spec(e.g as int, m) as i32,
        b: frac_spec(e.b as int, m) as i32,
        a: frac_spec(e.a as int, m) as i32,
    }
}

/// Diffusion conserves a pixel's residual to within rounding: the four
/// Floyd-Steinberg fractions (7+3+5+1 sixteenths) hand on the whole
/// residual except at most 3 sample steps lost to truncation, and what is
/// lost always shrinks toward zero — the scan never manufactures energy,
/// so error diffusion neither systematically brightens nor darkens.
pub proof fn lemma_diffusion_conserves(e: int)
    requires
        -255 <= e <= 255,
    ensures
        e >= 0 ==> e - 3 <= frac_spec(e, 7) + frac_spec(e, 3) + frac_spec(e, 5) + frac_spec(e, 1)
            <= e,
        e < 0 ==> e <= frac_spec(e, 7) + frac_spec(e, 3) + frac_spec(e, 5) + frac_spec(e, 1) <= e
            + 3,
{
    if e >= 0 {
        lemma_frac_sum_nonneg(e);
    } else {
        lemma_frac_sum_nonneg(-e);
    }
}

proof fn lemma_frac_sum_nonneg(e: int)
    requires
        0 <= e,
    ensures
        e - 3 <= (e * 7) / 16 + (e * 3) / 16 + (e * 5) / 16 + (e * 1) / 16 <= e,
{
    vstd::arithmetic::div_mod::lemma_fundamental_div_mod(e * 7, 16);
    vstd::arithmetic::div_mod::lemma_fundamental_div_mod(e * 3, 16);
    vstd::arithmetic::div_mod::lemma_fundamental_div_mod(e * 5, 16);
    vstd::arithmetic::div_mod::lemma_fundamental_div_mod(e * 1, 16);
    vstd::arithmetic::div_mod::lemma_mod_bound(e * 7, 16);
    vstd::arithmetic::div_mod::lemma_mod_bound(e * 3, 16);
    vstd::arithmetic::div_mod::lemma_mod_bound(e * 5, 16);
    vstd::arithmetic::div_mod::lemma_mod_bound(e * 1, 16);
    assert(e * 7 + e * 3 + e * 5 + e * 1 == 16 * e);
}

/// One channel clamped onto the sample range.
pub open spec fn clamp_chan(x: int) -> u8 {
    if x < 0 {
        0
    } else if x > 255 {
        255
    } else {
        x as u8
    }
}

/// A pixel nudged by the accumulated error, clamped channelwise.
pub open spec fn adj_color(c: Color, e: ErrV) -> Color {
    Color {
        r: clamp_chan(c.r + e.r),
        g: clamp_chan(c.g + e.g),
        b: clamp_chan(c.b + e.b),
        a: clamp_chan(c.a + e.a),
    }
}

/// The residual a chosen palette entry leaves behind: wanted minus chosen.
pub open spec fn resid(adj: Color, p: Color) -> ErrV {
    ErrV {
        r: (adj.r - p.r) as i32,
        g: (adj.g - p.g) as i32,
        b: (adj.b - p.b) as i32,
        a: (adj.a - p.a) as i32,
    }
}

/// The color actually matched for one scanned pixel: the processed source
/// color nudged by the carried error and the inflow from the row above.
pub open spec fn step_adj(cur: Seq<ErrV>, carry: ErrV, c: Color, x: int) -> Color {
    adj_color(c, add_ev(carry, cur[x]))
}

/// The residual that one scanned pixel leaves for its neighbors.
pub open spec fn step_res(cur: Seq<ErrV>, carry: ErrV, c: Color, pal: Seq<Color>, x: int) -> ErrV {
    resid(step_adj(cur, carry, c, x), pal[near_idx(pal, step_adj(cur, carry, c, x))])
}

/// Floyd-Steinberg distribution of one residual into the next row's
/// buffer: 3/16 below-left, 5/16 below, 1/16 below-right (7/16 goes right
/// through the carry, not through this buffer).
pub open spec fn diffuse(nxt: Seq<ErrV>, x: int, w: int, res: ErrV) -> Seq<ErrV> {
    let n1 = if x > 0 {
        nxt.update(x - 1, add_ev(nxt[x - 1], frac_ev(res, 3)))
    } else {
        nxt
    };
    let n2 = n1.update(x, add_ev(n1[x], frac_ev(res, 5)));
    if x + 1 < w {
        n2.update(x + 1, add_ev(n2[x + 1], frac_ev(res, 1)))
    } else {
        n2
    }
}

/// The dithering scan state after the first `p` pixels: the error row
/// flowing into the current row, the row being accumulated for the next
/// one, the rightward carry, and the indices emitted so far.
pub open spec fn dstate(ps: Seq<Color>, pal: Seq<Color>, w: int, p: int) -> (
    Seq<ErrV>,
    Seq<ErrV>,
    ErrV,
    Seq<u8>,
)
    recommends
        w > 0,
        pal.len() > 0,
    decreases p,
{
    if p <= 0 {
        (zeros(w), zeros(w), zero_ev(), Seq::empty())
    } else {
        let prev = dstate(ps, pal, w, p - 1);
        let x = (p - 1) % w;
        let cur = if x == 0 && p > 1 {
            prev.1
        } else {
            prev.0
        };
        let nxt = if x == 0 && p > 1 {
            zeros(w)
        } else {
            prev.1
        };
        let carry = if x == 0 && p > 1 {
            zero_ev()
        } else {
            prev.2
        };
        let adj = step_adj(cur, carry, ps[p - 1], x);
        let idx = near_idx(pal, adj);
        let res = step_res(cur, carry, ps[p - 1], pal, x);
        (cur, diffuse(nxt, x, w, res), frac_ev(res, 7), prev.3.push(idx as u8))
    }
}

/// The index buffer the dithered scan emits for `n` pixels.
pub open spec fn dither_out(ps: Seq<Color>, pal: Seq<Color>, w: int, n: int) -> Seq<u8> {
    dstate(ps, pal, w, n).3
}

/// Sign-preserving `e * m / 16`, rounded toward zero.
fn frac(e: i32, m: u32) -> (r: i32)
    requires
        -255 <= e <= 255,
        1 <= m <= 7,
    ensures
        r == frac_spec(e as int, m as int),
        -((255 * m) / 16) <= r <= (255 * m) / 16,
{
    let mag: u32 = if e >= 0 {
        e as u32
    } else {
        (-e) as u32
    };
    proof {
        assert(mag * m <= 255 * 7) by (nonlinear_arith)
            requires mag <= 255 && 0 <= m <= 7;
    }
    let f: u32 = mag * m / 16;
    proof {
        assert(mag * m <= 255 * m) by (nonlinear_arith)
            requires mag <= 255 && m >= 0;
        vstd::arithmetic::div_mod::lemma_div_is_ordered(
            (mag * m) as int,
            (255 * m) as int,
            16,
        );
    }
    if e >= 0 {
        f as i32
    } else {
        -(f as i32)
    }
}

/// Clamp a nudged channel onto the sample range.
fn clamp_exec(x: i32) -> (r: u8)
    ensures
        r == clamp_chan(x as int),
{
    if x < 0 {
        0
    } else if x > 255 {
        255
    } else {
        x as u8
    }
}

/// A freshly zeroed error row.
fn zero_row(w: usize) -> (v: Vec<ErrV>)
    ensures
        v@ =~= zeros(w as int),
{
    let mut v: Vec<ErrV> = Vec::new();
    let mut i: usize = 0;
    while i < w
        invariant
            i <= w,
            v@ =~= zeros(w as int).take(i as int),
        decreases w - i,
    {
        v.push(ErrV { r: 0, g: 0, b: 0, a: 0 });
        proof {
            assert(zeros(w as int).take(i + 1) =~= zeros(w as int).take(i as int).push(zero_ev()));
        }
        i = i + 1;
    }
    proof {
        assert(zeros(w as int).take(w as int) =~= zeros(w as int));
    }
    v
}

/// Scan one pixel: match the error-nudged color, update the carry and the
/// next-row buffer per Floyd-Steinberg, and return the chosen index.
#[verifier::rlimit(100)]
fn dither_pixel(
    cur: &Vec<ErrV>,
    nxt: &mut Vec<ErrV>,
    carry: &mut ErrV,
    c: Color,
    palette: &Vec<Color>,
    x: usize,
) -> (idx: usize)
    requires
        1 <= palette@.len() <= 256,
        old(nxt)@.len() == cur@.len(),
        x < cur@.len(),
        forall|j: int| 0 <= j < cur@.len() ==> ev_bounded(#[trigger] cur@[j], 141),
        ev_bounded(*old(carry), 111),
        x >= 1 ==> ev_bounded(old(nxt)@[x - 1], 94),
        ev_bounded(old(nxt)@[x as int], 15),
        x + 1 < cur@.len() ==> old(nxt)@[x + 1] == zero_ev(),
    ensures
        idx == near_idx(palette@, step_adj(cur@, *old(carry), c, x as int)),
        idx < palette@.len(),
        *final(carry) == frac_ev(step_res(cur@, *old(carry), c, palette@, x as int), 7),
        ev_bounded(*final(carry), 111),
        final(nxt)@ == diffuse(
            old(nxt)@,
            x as int,
            cur@.len() as int,
            step_res(cur@, *old(carry), c, palette@, x as int),
        ),
        final(nxt)@.len() == old(nxt)@.len(),
        x >= 1 ==> ev_bounded(final(nxt)@[x - 1], 141),
        ev_bounded(final(nxt)@[x as int], 94),
        x + 1 < cur@.len() ==> ev_bounded(final(nxt)@[x + 1], 15),
        forall|j: int|
            0 <= j < final(nxt)@.len() && j != x - 1 && j != x && j != x + 1
                ==> final(nxt)@[j] == old(nxt)@[j],
{
    let ghost nxt1 = nxt@;
    let ghost carry0 = *carry;
    let w = cur.len();
    let cx = cur[x];
    let e = ErrV { r: carry.r + cx.r, g: carry.g + cx.g, b: carry.b + cx.b, a: carry.a + cx.a };
    proof {
        assert(e == add_ev(carry0, cur@[x as int]));
    }
    let adj = Color {
        r: clamp_exec(c.r as i32 + e.r),
        g: clamp_exec(c.g as i32 + e.g),
        b: clamp_exec(c.b as i32 + e.b),
        a: clamp_exec(c.a as i32 + e.a),
    };
    proof {
        assert(adj == step_adj(cur@, carry0, c, x as int));
    }
    let nr = nearest(palette, adj);
    let chosen = palette[nr.0];
    let res = ErrV {
        r: adj.r as i32 - chosen.r as i32,
        g: adj.g as i32 - chosen.g as i32,
        b: adj.b as i32 - chosen.b as i32,
        a: adj.a as i32 - chosen.a as i32,
    };
    proof {
        assert(res == step_res(cur@, carry0, c, palette@, x as int));
    }
    *carry = ErrV { r: frac(res.r, 7), g: frac(res.g, 7), b: frac(res.b, 7), a: frac(res.a, 7) };
    proof {
        assert(*carry == frac_ev(res, 7));
    }
    if x > 0 {
        let o = nxt[x - 1];
        let f = ErrV {
            r: o.r + frac(res.r, 3),
            g: o.g + frac(res.g, 3),
            b: o.b + frac(res.b, 3),
            a: o.a + frac(res.a, 3),
        };
        nxt.set(x - 1, f);
        proof {
            assert(nxt@ =~= nxt1.update(x - 1, add_ev(nxt1[x - 1], frac_ev(res, 3))));
        }
    }
    let ghost nxt2 = nxt@;
    let o = nxt[x];
    let f = ErrV {
        r: o.r + frac(res.r, 5),
        g: o.g + frac(res.g, 5),
        b: o.b + frac(res.b, 5),
        a: o.a + frac(res.a, 5),
    };
    nxt.set(x, f);
    proof {
        assert(nxt@ =~= nxt2.update(x as int, add_ev(nxt2[x as int], frac_ev(res, 5))));
    }
    let ghost nxt3 = nxt@;
    if x + 1 < w {
        let o = nxt[x + 1];
        let f = ErrV {
            r: o.r + frac(res.r, 1),
            g: o.g + frac(res.g, 1),
            b: o.b + frac(res.b, 1),
            a: o.a + frac(res.a, 1),
        };
        nxt.set(x + 1, f);
        proof {
            assert(nxt@ =~= nxt3.update(x + 1, add_ev(nxt3[x + 1], frac_ev(res, 1))));
        }
    }
    proof {
        assert(nxt@ =~= diffuse(nxt1, x as int, w as int, res));
    }
    nr.0
}

/// The loop-head shape of the next-row error buffer while pixel `i` is the
/// next to be scanned: cells left of the cursor have taken all their
/// contributions (at most 47+79+15), the cell one left of the cursor at
/// most two (79+15), the cursor's cell at most one (15), and cells right of
/// it none at all. At a row boundary every cell is complete.
pub open spec fn nxt_inv(nxt: Seq<ErrV>, i: int, w: int) -> bool
    recommends
        w > 0,
{
    let x = i % w;
    if x == 0 {
        if i == 0 {
            forall|j: int| 0 <= j < w ==> nxt[j] == zero_ev()
        } else {
            forall|j: int| 0 <= j < w ==> ev_bounded(#[trigger] nxt[j], 141)
        }
    } else {
        forall|j: int|
            #![trigger nxt[j]]
            0 <= j < w ==> {
                &&& j <= x - 2 ==> ev_bounded(nxt[j], 141)
                &&& j == x - 1 ==> ev_bounded(nxt[j], 94)
                &&& j == x ==> ev_bounded(nxt[j], 15)
                &&& j > x ==> nxt[j] == zero_ev()
            }
    }
}

/// Map every pixel to a palette index, row-major. Without dithering each
/// pixel goes to the first nearest palette entry of its processed color;
/// with dithering the scan follows the Floyd-Steinberg model `dstate`.
/// An empty palette fails with `PaletteMismatch`.
#[verifier::rlimit(100)]
pub fn remap(image: &ImagequantImage, palette: &Vec<Color>, posterization: u8, dither: bool) -> (r:
    Result<Vec<u8>, QuantError>)
    requires
        image.wf(),
        palette@.len() <= 256,
        posterization <= 4,
    ensures
        palette@.len() == 0 <==> r is Err,
        palette@.len() == 0 <==> r == Err::<Vec<u8>, QuantError>(QuantError::PaletteMismatch),
        r matches Ok(buf) ==> buf@.len() == image.pixels@.len() && (forall|i: int|
            0 <= i < buf@.len() ==> #[trigger] buf@[i] < palette@.len()) && (!dither
            ==> forall|i: int|
                0 <= i < buf@.len() ==> #[trigger] buf@[i] == near_idx(
                    palette@,
                    processed_seq(image.pixels@, posterization)[i],
                )) && (dither ==> buf@ == dither_out(
            processed_seq(image.pixels@, posterization),
            palette@,
            image.width as int,
            image.pixels@.len() as int,
        )),
{
    if palette.len() == 0 {
        return Err(QuantError::PaletteMismatch);
    }
    let ghost ps = processed_seq(image.pixels@, posterization);
    let ghost pal = palette@;
    let n = image.pixels.len();
    let mut out: Vec<u8> = Vec::new();
    if !dither {
        let mut i: usize = 0;
        while i < n
            invariant
                ps == processed_seq(image.pixels@, posterization),
                pal == palette@,
                posterization <= 4,
                1 <= pal.len() <= 256,
                n == image.pixels@.len(),
                i <= n,
                out@.len() == i,
                forall|j: int|
                    0 <= j < i ==> #[trigger] out@[j] < pal.len() && out@[j] == near_idx(
                        pal,
                        ps[j],
                    ),
            decreases n - i,
        {
            let p = processed(image.pixels[i], posterization);
            let nr = nearest(palette, p);
            out.push(nr.0 as u8);
            i = i + 1;
        }
        return Ok(out);
    }
    let w = image.width;
    let mut cur: Vec<ErrV> = zero_row(w);
    let mut nxt: Vec<ErrV> = zero_row(w);
    let mut carry: ErrV = ErrV { r: 0, g: 0, b: 0, a: 0 };
    let mut i: usize = 0;
    proof {
        assert(dstate(ps, pal, w as int, 0) == (
            zeros(w as int),
            zeros(w as int),
            zero_ev(),
            Seq::<u8>::empty(),
        ));
    }
    while i < n
        invariant
            ps == processed_seq(image.pixels@, posterization),
            pal == palette@,
            posterization <= 4,
            1 <= pal.len() <= 256,
            n == image.pixels@.len(),
            w == image.width,
            w >= 1,
            i <= n,
            cur@.len() == w,
            nxt@.len() == w,
            cur@ == dstate(ps, pal, w as int, i as int).0,
            nxt@ == dstate(ps, pal, w as int, i as int).1,
            carry == dstate(ps, pal, w as int, i as int).2,
            out@ == dstate(ps, pal, w as int, i as int).3,
            forall|j: int| 0 <= j < w ==> ev_bounded(#[trigger] cur@[j], 141),
            ev_bounded(carry, 111),
            nxt_inv(nxt@, i as int, w as int),
            out@.len() == i,
            forall|j: int| 0 <= j < i ==> #[trigger] out@[j] < pal.len(),
        decreases n - i,
    {
        let ghost st0 = dstate(ps, pal, w as int, i as int);
        let x = i % w;
        if x == 0 && i > 0 {
            let tmp = nxt;
            cur = tmp;
            nxt = zero_row(w);
            carry = ErrV { r: 0, g: 0, b: 0, a: 0 };
        }
        let ghost cur1 = cur@;
        let ghost nxt1 = nxt@;
        let ghost carry1 = carry;
        let p = processed(image.pixels[i], posterization);
        let idx = dither_pixel(&cur, &mut nxt, &mut carry, p, palette, x);
        out.push(idx as u8);
        i = i + 1;
        proof {
            let res = step_res(cur1, carry1, ps[i - 1], pal, x as int);
            let stp = dstate(ps, pal, w as int, i as int);
            assert(stp.0 =~= cur@);
            assert(stp.1 =~= nxt@);
            assert(stp.2 == carry);
            assert(stp.3 =~= out@);
            assert(nxt_inv(nxt@, i as int, w as int)) by {
                let oi = i as int - 1;
                let wi = w as int;
                let q = oi / wi;
                vstd::arithmetic::div_mod::lemma_fundamental_div_mod(oi, wi);
                assert(oi == wi * q + x);
                assert((q + 1) * wi == q * wi + wi) by (nonlinear_arith);
                assert(q * wi == wi * q) by (nonlinear_arith);
                if x + 1 == w {
                    vstd::arithmetic::div_mod::lemma_fundamental_div_mod_converse(
                        oi + 1,
                        wi,
                        q + 1,
                        0,
                    );
                    assert(i as int % wi == 0);
                } else {
                    vstd::arithmetic::div_mod::lemma_fundamental_div_mod_converse(
                        oi + 1,
                        wi,
                        q,
                        x as int + 1,
                    );
                    assert(i as int % wi == x + 1);
                }
            }
        }
    }
    Ok(out)
}

} // verus!
