//! The palette selector: from the weighted histogram and the settings,
//! produce an ordered palette of at most `max_colors` colors, the total
//! weighted quantization error of that palette, and the achieved quality on
//! the 0-100 scale, gated against `quality_min`.
//!
//! The search is a deterministic best-of-trials heuristic: trial `t` samples
//! `max_colors` histogram entries at evenly spread positions shifted by `t`,
//! and the palette with the smallest total weighted error over all trials
//! wins. `speed` fixes the trial count (`11 - speed`), so a lower speed
//! explores a superset of the candidates of a higher one and can never end
//! up with a worse palette: the monotonic speed/quality trade-off is a
//! theorem here, not a tuning accident. An image whose distinct color count
//! already fits the palette takes the exact fast path with zero error.

use vstd::arithmetic::div_mod::lemma_div_is_ordered;
use vstd::prelude::*;
use vstd::set_lib::lemma_len_subset;

use crate::color::{
    dist, dist_spec, lemma_dist_bounds, lemma_dist_zero, lemma_post_chan_idem,
    lemma_post_chan_zero, post_chan, processed_spec, Color, MAX_DIST,
};
use crate::error::QuantError;
use crate::histogram::{
    colors_seq, has_color, hist_of, lemma_hist_of, lemma_tw_pos, lemma_tw_prefix,
    lemma_tw_prefix_step, processed_seq, total_weight, HistEntry, Histogram,
};
use crate::settings::Settings;

verus! {

/// Smallest metric distance from `c` to any entry of `pal`.
pub open spec fn min_dist(pal: Seq<Color>, c: Color) -> int
    recommends
        pal.len() > 0,
    decreases pal.len(),
{
    if pal.len() <= 1 {
        dist_spec(pal[0], c)
    } else if dist_spec(pal.last(), c) < min_dist(pal.drop_last(), c) {
        dist_spec(pal.last(), c)
    } else {
        min_dist(pal.drop_last(), c)
    }
}

/// The first palette index whose entry attains `min_dist`.
pub open spec fn near_idx(pal: Seq<Color>, c: Color) -> int
    recommends
        pal.len() > 0,
    decreases pal.len(),
{
    if pal.len() <= 1 {
        0
    } else if dist_spec(pal.last(), c) < min_dist(pal.drop_last(), c) {
        pal.len() - 1
    } else {
        near_idx(pal.drop_last(), c)
    }
}

/// What `near_idx` and `min_dist` promise: the index is in range, attains
/// the minimum, every entry is at least `min_dist` away, and every earlier
/// entry is strictly farther (first argmin).
pub proof fn lemma_near(pal: Seq<Color>, c: Color)
    requires
        pal.len() > 0,
    ensures
        0 <= near_idx(pal, c) < pal.len(),
        dist_spec(pal[near_idx(pal, c)], c) == min_dist(pal, c),
        0 <= min_dist(pal, c) <= MAX_DIST,
        forall|j: int| 0 <= j < pal.len() ==> min_dist(pal, c) <= dist_spec(#[trigger] pal[j], c),
        forall|j: int|
            0 <= j < near_idx(pal, c) ==> min_dist(pal, c) < dist_spec(#[trigger] pal[j], c),
    decreases pal.len(),
{
    lemma_dist_bounds(pal[0], c);
    if pal.len() > 1 {
        lemma_near(pal.drop_last(), c);
        lemma_dist_bounds(pal.last(), c);
        assert(forall|j: int| 0 <= j < pal.len() - 1 ==> pal.drop_last()[j] == #[trigger] pal[j]);
    }
}

/// Total weighted quantization error of a histogram against a palette.
pub open spec fn err_sum(h: Seq<HistEntry>, pal: Seq<Color>) -> int
    recommends
        pal.len() > 0,
    decreases h.len(),
{
    if h.len() == 0 {
        0
    } else {
        err_sum(h.drop_last(), pal) + h.last().weight * min_dist(pal, h.last().color)
    }
}

/// The error is nonnegative and at most `total_weight * MAX_DIST`.
pub proof fn lemma_err_sum_bounds(h: Seq<HistEntry>, pal: Seq<Color>)
    requires
        pal.len() > 0,
    ensures
        0 <= err_sum(h, pal) <= total_weight(h) * MAX_DIST,
    decreases h.len(),
{
    if h.len() == 0 {
    } else {
        let rest = h.drop_last();
        let w = h.last().weight as int;
        let d = min_dist(pal, h.last().color);
        lemma_err_sum_bounds(rest, pal);
        lemma_near(pal, h.last().color);
        assert(0 <= w * d <= w * MAX_DIST) by (nonlinear_arith)
            requires 0 <= w && 0 <= d <= MAX_DIST;
        assert((total_weight(rest) + w) * MAX_DIST == total_weight(rest) * MAX_DIST + w
            * MAX_DIST) by (nonlinear_arith);
        assert(total_weight(h) == total_weight(rest) + w);
    }
}

/// A palette that carries every histogram color has zero error.
pub proof fn lemma_err_sum_zero(h: Seq<HistEntry>, pal: Seq<Color>)
    requires
        pal.len() > 0,
        forall|j: int| 0 <= j < h.len() ==> pal.contains(#[trigger] h[j].color),
    ensures
        err_sum(h, pal) == 0,
    decreases h.len(),
{
    if h.len() > 0 {
        let rest = h.drop_last();
        let c = h.last().color;
        assert(forall|j: int| 0 <= j < rest.len() ==> rest[j] == #[trigger] h[j]);
        lemma_err_sum_zero(rest, pal);
        assert(pal.contains(c)) by {
            assert(h[h.len() - 1].color == c);
        }
        let i = choose|i: int| 0 <= i < pal.len() && pal[i] == c;
        lemma_near(pal, c);
        assert(dist_spec(pal[i], c) == 0) by {
            lemma_dist_zero(pal[i], c);
        }
        assert(min_dist(pal, c) == 0);
    }
}

/// The error is at least any single entry's weighted distance.
pub proof fn lemma_err_sum_entry_lb(h: Seq<HistEntry>, pal: Seq<Color>, j: int)
    requires
        pal.len() > 0,
        0 <= j < h.len(),
    ensures
        err_sum(h, pal) >= h[j].weight * min_dist(pal, h[j].color),
    decreases h.len(),
{
    let rest = h.drop_last();
    let w = h.last().weight as int;
    let d = min_dist(pal, h.last().color);
    lemma_near(pal, h.last().color);
    assert(w * d >= 0) by (nonlinear_arith)
        requires 0 <= w && 0 <= d;
    lemma_err_sum_bounds(rest, pal);
    if j == h.len() - 1 {
    } else {
        assert(rest[j] == h[j]);
        lemma_err_sum_entry_lb(rest, pal, j);
    }
}

/// Position sampled by candidate `t` for palette slot `j`.
pub open spec fn cand_pos(len: int, k: int, t: int, j: int) -> int
    recommends
        len > 0,
{
    (j * (len / k) + t) % len
}

/// The candidate palette of trial `t`: `k` histogram colors at evenly
/// spread positions, shifted by `t`.
pub open spec fn cand(h: Seq<HistEntry>, k: int, t: int) -> Seq<Color>
    recommends
        h.len() > 0,
        k >= 1,
{
    Seq::new(k as nat, |j: int| h[cand_pos(h.len() as int, k, t, j)].color)
}

/// Total weighted error of trial `t`'s candidate.
pub open spec fn cand_err(h: Seq<HistEntry>, k: int, t: int) -> int {
    err_sum(h, cand(h, k, t))
}

/// How many trials a given speed explores: speed 1 runs 10, speed 10 runs 1.
pub open spec fn trials_of(speed: int) -> int {
    11 - speed
}

/// The first trial among `0 .. n` whose candidate has minimal error.
pub open spec fn best_t(h: Seq<HistEntry>, k: int, n: int) -> int
    decreases n,
{
    if n <= 1 {
        0
    } else if cand_err(h, k, n - 1) < cand_err(h, k, best_t(h, k, n - 1)) {
        n - 1
    } else {
        best_t(h, k, n - 1)
    }
}

/// The smallest candidate error among trials `0 .. n`.
pub open spec fn best_err(h: Seq<HistEntry>, k: int, n: int) -> int {
    cand_err(h, k, best_t(h, k, n))
}

/// `best_t` is a well-defined first argmin over the trials.
pub proof fn lemma_best(h: Seq<HistEntry>, k: int, n: int)
    requires
        n >= 1,
    ensures
        0 <= best_t(h, k, n) < n,
        forall|t: int| 0 <= t < n ==> best_err(h, k, n) <= #[trigger] cand_err(h, k, t),
        forall|t: int| 0 <= t < best_t(h, k, n) ==> best_err(h, k, n) < #[trigger] cand_err(h, k, t),
    decreases n,
{
    if n > 1 {
        lemma_best(h, k, n - 1);
    }
}

/// Exploring more trials never leaves a larger best error.
pub proof fn lemma_best_prefix(h: Seq<HistEntry>, k: int, n1: int, n2: int)
    requires
        1 <= n1 <= n2,
    ensures
        best_err(h, k, n2) <= best_err(h, k, n1),
{
    lemma_best(h, k, n1);
    lemma_best(h, k, n2);
    assert(best_err(h, k, n2) <= cand_err(h, k, best_t(h, k, n1)));
}

/// The palette the selector returns for a histogram and settings: the exact
/// color set when it already fits, else the best candidate over the trials
/// the speed allows.
pub open spec fn sel_palette(h: Seq<HistEntry>, s: Settings) -> Seq<Color> {
    if h.len() <= s.max_colors {
        colors_seq(h)
    } else {
        cand(h, s.max_colors as int, best_t(h, s.max_colors as int, trials_of(s.speed as int)))
    }
}

/// The total weighted error of the returned palette.
pub open spec fn sel_err(h: Seq<HistEntry>, s: Settings) -> int {
    if h.len() <= s.max_colors {
        0
    } else {
        best_err(h, s.max_colors as int, trials_of(s.speed as int))
    }
}

/// Quality on the 0-100 scale as a monotonically decreasing function of the
/// error: 100 exactly for a lossless palette, else `99` minus the error's
/// share of the worst case.
pub open spec fn quality_of(err: int, tw: int) -> int
    recommends
        tw >= 1,
        0 <= err <= tw * MAX_DIST,
{
    if err == 0 {
        100
    } else {
        99 - (err * 99) / (tw * MAX_DIST)
    }
}

/// The achieved quality of the selector's palette.
pub open spec fn quality_spec(h: Seq<HistEntry>, s: Settings) -> int {
    quality_of(sel_err(h, s), total_weight(h))
}

/// The quality score stays on its scale, and is 100 exactly on zero error.
pub proof fn lemma_quality_range(err: int, tw: int)
    requires
        tw >= 1,
        0 <= err <= tw * MAX_DIST,
    ensures
        0 <= quality_of(err, tw) <= 100,
        quality_of(err, tw) == 100 <==> err == 0,
{
    if err != 0 {
        let d = tw * MAX_DIST;
        assert(tw * MAX_DIST >= 1 * MAX_DIST) by (nonlinear_arith)
            requires tw >= 1;
        assert(err * 99 >= 0) by (nonlinear_arith)
            requires err >= 0;
        assert(err * 99 <= d * 99) by (nonlinear_arith)
            requires 0 <= err <= d;
        lemma_div_is_ordered(err * 99, d * 99, d);
        assert((d * 99) / d == 99) by (nonlinear_arith)
            requires d >= 1;
        assert((err * 99) / d >= 0) by (nonlinear_arith)
            requires err * 99 >= 0 && d >= 1;
    }
}

/// Less error never means less quality.
pub proof fn lemma_quality_antitone(e1: int, e2: int, tw: int)
    requires
        tw >= 1,
        0 <= e1 <= e2 <= tw * MAX_DIST,
    ensures
        quality_of(e1, tw) >= quality_of(e2, tw),
{
    lemma_quality_range(e1, tw);
    lemma_quality_range(e2, tw);
    if e1 != 0 && e2 != 0 {
        let d = tw * MAX_DIST;
        assert(tw * MAX_DIST >= 1 * MAX_DIST) by (nonlinear_arith)
            requires tw >= 1;
        assert(e1 * 99 <= e2 * 99) by (nonlinear_arith)
            requires e1 <= e2;
        lemma_div_is_ordered(e1 * 99, e2 * 99, d);
    }
}

/// Find the first palette entry nearest to `c` under the metric; returns
/// the index and its distance.
pub fn nearest(pal: &Vec<Color>, c: Color) -> (res: (usize, u32))
    requires
        pal@.len() > 0,
    ensures
        res.0 < pal@.len(),
        res.0 == near_idx(pal@, c),
        res.1 == min_dist(pal@, c),
{
    let mut best_i: usize = 0;
    let mut best_d: u32 = dist(pal[0], c);
    let mut i: usize = 1;
    proof {
        assert(pal@.take(1) =~= seq![pal@[0]]);
    }
    while i < pal.len()
        invariant
            pal@.len() > 0,
            1 <= i <= pal@.len(),
            best_i < i,
            best_i == near_idx(pal@.take(i as int), c),
            best_d == min_dist(pal@.take(i as int), c),
        decreases pal@.len() - i,
    {
        let d = dist(pal[i], c);
        proof {
            assert(pal@.take(i + 1).drop_last() =~= pal@.take(i as int));
            assert(pal@.take(i + 1).last() == pal@[i as int]);
        }
        if d < best_d {
            best_i = i;
            best_d = d;
        }
        i = i + 1;
    }
    proof {
        assert(pal@.take(pal@.len() as int) =~= pal@);
    }
    (best_i, best_d)
}

/// Build the candidate palette of one trial.
fn build_cand(hist: &Histogram, k: usize, t: usize) -> (pal: Vec<Color>)
    requires
        2 <= k,
        k < hist.entries@.len(),
    ensures
        pal@ == cand(hist.entries@, k as int, t as int),
        pal@.len() == k,
{
    let ghost hseq = hist.entries@;
    let n = hist.entries.len();
    let step: usize = n / k;
    let mut pal: Vec<Color> = Vec::new();
    let mut j: usize = 0;
    while j < k
        invariant
            hseq == hist.entries@,
            n == hseq.len(),
            2 <= k < n,
            step == n / k,
            j <= k,
            pal@ =~= cand(hseq, k as int, t as int).take(j as int),
        decreases k - j,
    {
        let jj: u128 = j as u128;
        let ss: u128 = step as u128;
        let tt: u128 = t as u128;
        let nn: u128 = n as u128;
        proof {
            assert(jj * ss + tt <= u128::MAX) by (nonlinear_arith)
                requires
                    jj <= 0xffff_ffff_ffff_ffffu128,
                    ss <= 0xffff_ffff_ffff_ffffu128,
                    tt <= 0xffff_ffff_ffff_ffffu128,
            ;
        }
        let pos128: u128 = (jj * ss + tt) % nn;
        proof {
            assert(pos128 == cand_pos(n as int, k as int, t as int, j as int));
            assert(pos128 < nn);
        }
        let pos: usize = pos128 as usize;
        pal.push(hist.entries[pos].color);
        proof {
            assert(cand(hseq, k as int, t as int).take(j + 1) =~= cand(
                hseq,
                k as int,
                t as int,
            ).take(j as int).push(cand(hseq, k as int, t as int)[j as int]));
        }
        j = j + 1;
    }
    proof {
        assert(cand(hseq, k as int, t as int).take(k as int) =~= cand(hseq, k as int, t as int));
    }
    pal
}

/// Total weighted error of a palette against the whole histogram.
fn err_of(hist: &Histogram, pal: &Vec<Color>) -> (e: u128)
    requires
        pal@.len() > 0,
        total_weight(hist.entries@) <= u64::MAX,
    ensures
        e == err_sum(hist.entries@, pal@),
{
    let ghost h = hist.entries@;
    let n = hist.entries.len();
    let mut acc: u128 = 0;
    let mut i: usize = 0;
    while i < n
        invariant
            h == hist.entries@,
            pal@.len() > 0,
            n == h.len(),
            total_weight(h) <= u64::MAX,
            i <= n,
            acc == err_sum(h.take(i as int), pal@),
            acc <= total_weight(h.take(i as int)) * (MAX_DIST as int),
        decreases n - i,
    {
        let entry = hist.entries[i];
        let nr = nearest(pal, entry.color);
        let d: u32 = nr.1;
        let ghost w = h[i as int].weight as int;
        let ghost md = min_dist(pal@, h[i as int].color);
        proof {
            lemma_near(pal@, h[i as int].color);
            assert(h.take(i + 1).drop_last() =~= h.take(i as int));
            assert(h.take(i + 1).last() == h[i as int]);
            lemma_tw_prefix_step(h, i as int);
            lemma_tw_prefix(h, i + 1);
            assert(0 <= w * md && w * md <= w * (MAX_DIST as int)) by (nonlinear_arith)
                requires
                    0 <= w,
                    0 <= md <= MAX_DIST,
            ;
            assert((total_weight(h.take(i as int)) + w) * (MAX_DIST as int) == total_weight(
                h.take(i as int),
            ) * (MAX_DIST as int) + w * (MAX_DIST as int)) by (nonlinear_arith);
        }
        let term: u128 = (entry.weight as u128) * (d as u128);
        acc = acc + term;
        i = i + 1;
    }
    proof {
        assert(h.take(n as int) =~= h);
    }
    acc
}

/// Total weight of a histogram, as a machine integer.
fn total_weight_exec(hist: &Histogram) -> (tw: u64)
    requires
        total_weight(hist.entries@) <= u64::MAX,
    ensures
        tw == total_weight(hist.entries@),
{
    let ghost h = hist.entries@;
    let n = hist.entries.len();
    let mut acc: u64 = 0;
    let mut i: usize = 0;
    while i < n
        invariant
            h == hist.entries@,
            n == h.len(),
            total_weight(h) <= u64::MAX,
            i <= n,
            acc == total_weight(h.take(i as int)),
        decreases n - i,
    {
        proof {
            lemma_tw_prefix_step(h, i as int);
            lemma_tw_prefix(h, i + 1);
        }
        acc = acc + hist.entries[i].weight;
        i = i + 1;
    }
    proof {
        assert(h.take(n as int) =~= h);
    }
    acc
}

/// Quality score of a given error and total weight, as a machine integer.
fn quality_exec(err: u128, tw: u64) -> (q: u8)
    requires
        tw >= 1,
        err <= (tw as int) * (MAX_DIST as int),
    ensures
        q == quality_of(err as int, tw as int),
        q <= 100,
{
    proof {
        lemma_quality_range(err as int, tw as int);
    }
    if err == 0 {
        return 100;
    }
    let denom: u128 = (tw as u128) * (MAX_DIST as u128);
    let num: u128 = err * 99;
    let frac: u128 = num / denom;
    assert(frac <= 99);
    99 - (frac as u8)
}

/// The palette, its total error, and the achieved quality for one image.
#[derive(Debug)]
pub struct SelectOutcome {
    pub palette: Vec<Color>,
    pub error: u128,
    pub quality: u8,
}

/// Select a palette of at most `max_colors` colors for the histogram.
///
/// An empty histogram fails with `EmptyImage`. Whenever the achieved
/// quality falls below `quality_min` the call fails with `QualityTooLow`
/// and produces no palette; otherwise the outcome carries the palette of
/// `sel_palette`, its error, and its quality, exactly.
pub fn select_palette(hist: &Histogram, settings: &Settings) -> (r: Result<
    SelectOutcome,
    QuantError,
>)
    requires
        hist.wf(),
        settings.valid(),
    ensures
        hist.entries@.len() == 0 <==> r == Err::<SelectOutcome, QuantError>(
            QuantError::EmptyImage,
        ),
        hist.entries@.len() > 0 && quality_spec(hist.entries@, *settings)
            < settings.quality_min ==> r == Err::<SelectOutcome, QuantError>(
            QuantError::QualityTooLow {
                achieved: quality_spec(hist.entries@, *settings) as u8,
                required: settings.quality_min,
            },
        ),
        hist.entries@.len() > 0 && quality_spec(hist.entries@, *settings)
            >= settings.quality_min ==> r is Ok,
        r matches Ok(out) ==> out.palette@ == sel_palette(hist.entries@, *settings) && out.error
            == sel_err(hist.entries@, *settings) && out.quality == quality_spec(
            hist.entries@,
            *settings,
        ) && 1 <= out.palette@.len() <= settings.max_colors && out.quality
            >= settings.quality_min,
{
    let ghost h = hist.entries@;
    let ghost s = *settings;
    let n = hist.entries.len();
    if n == 0 {
        return Err(QuantError::EmptyImage);
    }
    let tw = total_weight_exec(hist);
    proof {
        lemma_tw_pos(h);
    }
    let k = settings.max_colors as usize;
    if n <= k {
        let mut pal: Vec<Color> = Vec::new();
        let mut i: usize = 0;
        while i < n
            invariant
                h == hist.entries@,
                n == h.len(),
                i <= n,
                pal@ =~= colors_seq(h).take(i as int),
            decreases n - i,
        {
            pal.push(hist.entries[i].color);
            proof {
                assert(colors_seq(h).take(i + 1) =~= colors_seq(h).take(i as int).push(
                    colors_seq(h)[i as int],
                ));
            }
            i = i + 1;
        }
        proof {
            assert(pal@ =~= colors_seq(h));
            assert(sel_err(h, s) == 0);
            assert(quality_spec(h, s) == 100);
        }
        return Ok(SelectOutcome { palette: pal, error: 0, quality: 100 });
    }
    let trials: usize = (11 - settings.speed) as usize;
    let mut best_pal = build_cand(hist, k, 0);
    let mut best_e = err_of(hist, &best_pal);
    let mut t: usize = 1;
    while t < trials
        invariant
            h == hist.entries@,
            s == *settings,
            hist.wf(),
            s.valid(),
            n == h.len(),
            k == s.max_colors,
            2 <= k < n,
            trials == trials_of(s.speed as int),
            1 <= t <= trials,
            best_pal@ == cand(h, k as int, best_t(h, k as int, t as int)),
            best_e == best_err(h, k as int, t as int),
        decreases trials - t,
    {
        let p = build_cand(hist, k, t);
        let e = err_of(hist, &p);
        proof {
            assert(best_t(h, k as int, t + 1) == if cand_err(h, k as int, t as int) < best_err(
                h,
                k as int,
                t as int,
            ) {
                t as int
            } else {
                best_t(h, k as int, t as int)
            });
        }
        if e < best_e {
            best_pal = p;
            best_e = e;
        }
        t = t + 1;
    }
    proof {
        lemma_best(h, k as int, trials as int);
        lemma_err_sum_bounds(h, cand(h, k as int, best_t(h, k as int, trials as int)));
    }
    let q = quality_exec(best_e, tw);
    if q < settings.quality_min {
        return Err(QuantError::QualityTooLow { achieved: q, required: settings.quality_min });
    }
    Ok(SelectOutcome { palette: best_pal, error: best_e, quality: q })
}

/// Exact-fit law: when the distinct processed colors of an image fit the
/// palette bound, the selected palette is exactly that color set, in first
/// occurrence order, and the achieved quality is 100.
pub proof fn lemma_exact_fit(pixels: Seq<Color>, s: Settings)
    requires
        s.valid(),
        pixels.len() <= u64::MAX,
        hist_of(processed_seq(pixels, s.min_posterization)).len() <= s.max_colors,
    ensures
        sel_palette(hist_of(processed_seq(pixels, s.min_posterization)), s) == colors_seq(
            hist_of(processed_seq(pixels, s.min_posterization)),
        ),
        forall|c: Color|
            sel_palette(hist_of(processed_seq(pixels, s.min_posterization)), s).contains(c)
                <==> processed_seq(pixels, s.min_posterization).contains(c),
        quality_spec(hist_of(processed_seq(pixels, s.min_posterization)), s) == 100,
{
    let ps = processed_seq(pixels, s.min_posterization);
    let h = hist_of(ps);
    lemma_hist_of(ps);
    assert forall|c: Color| colors_seq(h).contains(c) <==> has_color(h, c) by {
        if colors_seq(h).contains(c) {
            let j = choose|j: int| 0 <= j < colors_seq(h).len() && colors_seq(h)[j] == c;
            assert(h[j].color == c);
        }
        if has_color(h, c) {
            let j = choose|j: int| 0 <= j < h.len() && h[j].color == c;
            assert(colors_seq(h)[j] == c);
        }
    }
}

/// Monotonic speed law: on one histogram, with the same settings apart from
/// speed, a lower speed never achieves less quality than a higher one.
pub proof fn lemma_speed_monotonic(h: Seq<HistEntry>, s1: Settings, s2: Settings)
    requires
        s1.valid(),
        s2.valid(),
        s1.max_colors == s2.max_colors,
        s1.min_posterization == s2.min_posterization,
        s1.speed <= s2.speed,
        h.len() >= 1,
        forall|j: int| 0 <= j < h.len() ==> #[trigger] h[j].weight >= 1,
    ensures
        quality_spec(h, s1) >= quality_spec(h, s2),
{
    lemma_tw_pos(h);
    let tw = total_weight(h);
    if h.len() > s1.max_colors {
        let k = s1.max_colors as int;
        let n1 = trials_of(s1.speed as int);
        let n2 = trials_of(s2.speed as int);
        lemma_best(h, k, n1);
        lemma_best(h, k, n2);
        lemma_best_prefix(h, k, n2, n1);
        lemma_err_sum_bounds(h, cand(h, k, best_t(h, k, n1)));
        lemma_err_sum_bounds(h, cand(h, k, best_t(h, k, n2)));
        lemma_quality_antitone(best_err(h, k, n1), best_err(h, k, n2), tw);
    }
}

/// Quality gate law: with `quality_min` at 100 and more distinct colors
/// than the palette may hold, the achieved quality falls short of the
/// minimum, so selection fails with `QualityTooLow`.
pub proof fn lemma_quality_gate(h: Seq<HistEntry>, s: Settings)
    requires
        s.valid(),
        s.quality_min == 100,
        colors_seq(h).no_duplicates(),
        forall|j: int| 0 <= j < h.len() ==> #[trigger] h[j].weight >= 1,
        h.len() > s.max_colors,
    ensures
        quality_spec(h, s) < s.quality_min,
{
    broadcast use vstd::seq_lib::seq_to_set_is_finite;

    let k = s.max_colors as int;
    let n = trials_of(s.speed as int);
    lemma_best(h, k, n);
    let pal = cand(h, k, best_t(h, k, n));
    lemma_tw_pos(h);
    let tw = total_weight(h);
    lemma_err_sum_bounds(h, pal);
    if forall|j: int| 0 <= j < h.len() ==> pal.contains(#[trigger] h[j].color) {
        let hset = colors_seq(h).to_set();
        let pset = pal.to_set();
        colors_seq(h).unique_seq_to_set();
        pal.lemma_cardinality_of_set();
        assert(hset.subset_of(pset)) by {
            assert forall|x: Color| hset.contains(x) implies pset.contains(x) by {
                let j = choose|j: int| 0 <= j < colors_seq(h).len() && colors_seq(h)[j] == x;
                assert(h[j].color == x);
                assert(pal.contains(x));
            }
        }
        lemma_len_subset(hset, pset);
        assert(false);
    }
    assert(exists|j: int| 0 <= j < h.len() && !pal.contains(#[trigger] h[j].color));
    let j = choose|j: int| 0 <= j < h.len() && !pal.contains(#[trigger] h[j].color);
    lemma_err_sum_entry_lb(h, pal, j);
    lemma_near(pal, h[j].color);
    let ni = near_idx(pal, h[j].color);
    assert(pal.contains(pal[ni]));
    lemma_dist_zero(pal[ni], h[j].color);
    assert(min_dist(pal, h[j].color) >= 1);
    assert(h[j].weight * min_dist(pal, h[j].color) >= 1) by (nonlinear_arith)
        requires
            h[j].weight >= 1,
            min_dist(pal, h[j].color) >= 1,
    ;
    assert(sel_err(h, s) >= 1);
    lemma_quality_range(sel_err(h, s), tw);
}

/// One pixel whose channels already have their low `n` bits clear.
pub open spec fn is_posterized(c: Color, n: u8) -> bool {
    &&& c.r == post_chan(c.r, n)
    &&& c.g == post_chan(c.g, n)
    &&& c.b == post_chan(c.b, n)
    &&& c.a == post_chan(c.a, n)
}

/// Every pixel the pipeline's preprocessing emits satisfies
/// `is_posterized`: posterizing once is as good as posterizing twice, so a
/// quantizer output fed back in falls under the idempotence law below.
pub proof fn lemma_processed_is_posterized(c: Color, n: u8)
    requires
        n <= 4,
    ensures
        is_posterized(processed_spec(c, n), n),
{
    lemma_post_chan_idem(c.r, n);
    lemma_post_chan_idem(c.g, n);
    lemma_post_chan_idem(c.b, n);
    lemma_post_chan_idem(c.a, n);
    assert(post_chan(0, n) == 0) by (bit_vector);
}

/// Posterization idempotence law: on an image already posterized to `n`
/// bits, quantizing with `min_posterization = n` selects the same palette,
/// with the same quality, as quantizing with no posterization at all.
pub proof fn lemma_posterize_idempotent(pixels: Seq<Color>, s0: Settings, sn: Settings, n: u8)
    requires
        s0.valid(),
        sn.valid(),
        s0.min_posterization == 0,
        sn.min_posterization == n,
        s0.max_colors == sn.max_colors,
        s0.speed == sn.speed,
        n <= 4,
        forall|i: int| 0 <= i < pixels.len() ==> is_posterized(#[trigger] pixels[i], n),
    ensures
        sel_palette(hist_of(processed_seq(pixels, n)), sn) == sel_palette(
            hist_of(processed_seq(pixels, 0)),
            s0,
        ),
        quality_spec(hist_of(processed_seq(pixels, n)), sn) == quality_spec(
            hist_of(processed_seq(pixels, 0)),
            s0,
        ),
{
    assert(processed_seq(pixels, n) =~= processed_seq(pixels, 0)) by {
        assert forall|i: int| 0 <= i < pixels.len() implies processed_seq(pixels, n)[i]
            == processed_seq(pixels, 0)[i] by {
            let c = pixels[i];
            lemma_post_chan_zero(c.r);
            lemma_post_chan_zero(c.g);
            lemma_post_chan_zero(c.b);
            lemma_post_chan_zero(c.a);
        }
    }
    let h = hist_of(processed_seq(pixels, 0));
    assert(sel_palette(h, sn) == sel_palette(h, s0));
    assert(sel_err(h, sn) == sel_err(h, s0));
}

} // verus!
