//! Reduce the pixel source to a weighted set of distinct colors: each pixel
//! is posterized and transparent-collapsed, then grouped; a color's weight is
//! exactly the number of pixels that map onto it. Entries stand in first
//! occurrence order, which keeps the whole pipeline deterministic.

use vstd::prelude::*;

use crate::color::{processed, processed_spec, Color};
use crate::image::ImagequantImage;

verus! {

/// One histogram entry: a processed color and how many pixels map onto it.
#[derive(Clone, Copy, Debug, PartialEq, Eq, Structural)]
pub struct HistEntry {
    pub color: Color,
    pub weight: u64,
}

/// The whole pixel sequence after posterization and transparent collapse.
pub open spec fn processed_seq(pixels: Seq<Color>, n: u8) -> Seq<Color> {
    pixels.map_values(|c: Color| processed_spec(c, n))
}

/// The colors of a histogram, in entry order.
pub open spec fn colors_seq(h: Seq<HistEntry>) -> Seq<Color> {
    h.map_values(|e: HistEntry| e.color)
}

/// Whether some entry of `h` carries color `c`.
pub open spec fn has_color(h: Seq<HistEntry>, c: Color) -> bool {
    exists|i: int| 0 <= i < h.len() && h[i].color == c
}

/// The index of the entry carrying `c`; meaningful only when `has_color`
/// holds and entry colors are distinct.
pub open spec fn idx_of(h: Seq<HistEntry>, c: Color) -> int {
    choose|i: int| 0 <= i < h.len() && h[i].color == c
}

/// How often `c` occurs in `ps`.
pub open spec fn count_of(ps: Seq<Color>, c: Color) -> nat
    decreases ps.len(),
{
    if ps.len() == 0 {
        0
    } else {
        count_of(ps.drop_last(), c) + if ps.last() == c {
            1nat
        } else {
            0nat
        }
    }
}

/// Total pixel weight a histogram accounts for.
pub open spec fn total_weight(h: Seq<HistEntry>) -> int
    decreases h.len(),
{
    if h.len() == 0 {
        0
    } else {
        total_weight(h.drop_last()) + h.last().weight
    }
}

/// One more pixel of color `c` folded into a histogram.
pub open spec fn add_one(h: Seq<HistEntry>, c: Color) -> Seq<HistEntry> {
    if has_color(h, c) {
        let i = idx_of(h, c);
        h.update(i, HistEntry { color: c, weight: (h[i].weight + 1) as u64 })
    } else {
        h.push(HistEntry { color: c, weight: 1 })
    }
}

/// The histogram of a processed pixel sequence, entries in first occurrence
/// order.
pub open spec fn hist_of(ps: Seq<Color>) -> Seq<HistEntry>
    decreases ps.len(),
{
    if ps.len() == 0 {
        Seq::empty()
    } else {
        add_one(hist_of(ps.drop_last()), ps.last())
    }
}

/// A color occurs never exactly when its count is zero.
pub proof fn lemma_count_zero(ps: Seq<Color>, c: Color)
    ensures
        count_of(ps, c) == 0 <==> !ps.contains(c),
    decreases ps.len(),
{
    if ps.len() > 0 {
        lemma_count_zero(ps.drop_last(), c);
        assert(ps.contains(c) <==> ps.last() == c || ps.drop_last().contains(c)) by {
            if ps.contains(c) {
                let i = choose|i: int| 0 <= i < ps.len() && ps[i] == c;
                if i < ps.len() - 1 {
                    assert(ps.drop_last()[i] == c);
                }
            }
            if ps.drop_last().contains(c) {
                let i = choose|i: int| 0 <= i < ps.len() - 1 && ps.drop_last()[i] == c;
                assert(ps[i] == c);
            }
        }
    }
}

/// A count never exceeds the sequence length.
pub proof fn lemma_count_bound(ps: Seq<Color>, c: Color)
    ensures
        count_of(ps, c) <= ps.len(),
    decreases ps.len(),
{
    if ps.len() > 0 {
        lemma_count_bound(ps.drop_last(), c);
    }
}

/// Everything `hist_of` guarantees, in one induction: distinct colors,
/// weights that are exact occurrence counts (hence positive), total weight
/// equal to the pixel count, and presence of exactly the occurring colors.
pub proof fn lemma_hist_of(ps: Seq<Color>)
    requires
        ps.len() <= u64::MAX,
    ensures
        colors_seq(hist_of(ps)).no_duplicates(),
        forall|j: int|
            0 <= j < hist_of(ps).len() ==> #[trigger] hist_of(ps)[j].weight == count_of(
                ps,
                hist_of(ps)[j].color,
            ) && 1 <= hist_of(ps)[j].weight,
        total_weight(hist_of(ps)) == ps.len(),
        forall|c: Color| has_color(hist_of(ps), c) <==> ps.contains(c),
        hist_of(ps).len() <= ps.len(),
    decreases ps.len(),
{
    if ps.len() == 0 {
        assert(colors_seq(hist_of(ps)) =~= Seq::<Color>::empty());
    } else {
        let rest = ps.drop_last();
        let c = ps.last();
        let h = hist_of(rest);
        let h2 = hist_of(ps);
        lemma_hist_of(rest);
        assert(forall|x: Color| rest.contains(x) ==> #[trigger] ps.contains(x)) by {
            assert forall|x: Color| rest.contains(x) implies #[trigger] ps.contains(x) by {
                let i = choose|i: int| 0 <= i < rest.len() && rest[i] == x;
                assert(ps[i] == x);
            }
        }
        assert(ps.contains(c)) by {
            assert(ps[ps.len() - 1] == c);
        }
        assert(forall|x: Color|
            ps.contains(x) ==> x == c || #[trigger] rest.contains(x)) by {
            assert forall|x: Color| ps.contains(x) && x != c implies #[trigger] rest.contains(
                x,
            ) by {
                let i = choose|i: int| 0 <= i < ps.len() && ps[i] == x;
                assert(rest[i] == x);
            }
        }
        assert(forall|x: Color| count_of(rest, x) == if x == c {
            count_of(ps, x) - 1
        } else {
            count_of(ps, x) as int
        });
        if has_color(h, c) {
            let i = idx_of(h, c);
            assert(0 <= i < h.len() && h[i].color == c);
            assert(h2 =~= h.update(i, HistEntry { color: c, weight: (h[i].weight + 1) as u64 }));
            lemma_count_bound(rest, c);
            assert(h[i].weight + 1 <= u64::MAX);
            assert(colors_seq(h2) =~= colors_seq(h));
            assert forall|j: int| 0 <= j < h2.len() && j != i implies #[trigger] h2[j] == h[j]
                && h2[j].color != c by {
                assert(colors_seq(h)[j] == h[j].color);
                assert(colors_seq(h)[i] == h[i].color);
            }
            lemma_total_weight_update(h, i, (h[i].weight + 1) as u64);
        } else {
            assert(h2 =~= h.push(HistEntry { color: c, weight: 1 }));
            assert(!rest.contains(c));
            lemma_count_zero(rest, c);
            assert(colors_seq(h2) =~= colors_seq(h).push(c));
            assert(!colors_seq(h).contains(c)) by {
                if colors_seq(h).contains(c) {
                    let j = choose|j: int| 0 <= j < h.len() && colors_seq(h)[j] == c;
                    assert(h[j].color == c);
                }
            }
            assert(total_weight(h2) == total_weight(h) + 1) by {
                assert(h2.drop_last() =~= h);
            }
        }
        assert forall|x: Color| has_color(h2, x) implies ps.contains(x) by {
            let j = choose|j: int| 0 <= j < h2.len() && h2[j].color == x;
            if has_color(h, c) {
                if j == idx_of(h, c) {
                    assert(x == c);
                } else {
                    assert(h[j].color == x);
                    assert(has_color(h, x));
                }
            } else {
                if j == h.len() {
                    assert(x == c);
                } else {
                    assert(h[j].color == x);
                    assert(has_color(h, x));
                }
            }
        }
        assert forall|x: Color| ps.contains(x) implies has_color(h2, x) by {
            if x == c {
                if has_color(h, c) {
                    let i = idx_of(h, c);
                    assert(h2[i].color == c);
                } else {
                    assert(h2[h.len() as int].color == c);
                }
            } else {
                assert(rest.contains(x));
                assert(has_color(h, x));
                let i = choose|i: int| 0 <= i < h.len() && h[i].color == x;
                if has_color(h, c) {
                    assert(h[idx_of(h, c)].color == c);
                    assert(i != idx_of(h, c));
                }
                assert(h2[i].color == x);
            }
        }
    }
}

/// Total weight is never negative.
pub proof fn lemma_tw_nonneg(h: Seq<HistEntry>)
    ensures
        total_weight(h) >= 0,
    decreases h.len(),
{
    if h.len() > 0 {
        lemma_tw_nonneg(h.drop_last());
    }
}

/// One more entry adds exactly its weight to the running total.
pub proof fn lemma_tw_prefix_step(h: Seq<HistEntry>, i: int)
    requires
        0 <= i < h.len(),
    ensures
        total_weight(h.take(i + 1)) == total_weight(h.take(i)) + h[i].weight,
{
    assert(h.take(i + 1).drop_last() =~= h.take(i));
    assert(h.take(i + 1).last() == h[i]);
}

/// A prefix never weighs more than the whole histogram.
pub proof fn lemma_tw_prefix(h: Seq<HistEntry>, i: int)
    requires
        0 <= i <= h.len(),
    ensures
        0 <= total_weight(h.take(i)) <= total_weight(h),
    decreases h.len() - i,
{
    lemma_tw_nonneg(h.take(i));
    if i == h.len() {
        assert(h.take(i) =~= h);
    } else {
        lemma_tw_prefix_step(h, i);
        lemma_tw_prefix(h, i + 1);
    }
}

/// A nonempty histogram of positive weights has positive total weight.
pub proof fn lemma_tw_pos(h: Seq<HistEntry>)
    requires
        h.len() >= 1,
        forall|j: int| 0 <= j < h.len() ==> #[trigger] h[j].weight >= 1,
    ensures
        total_weight(h) >= 1,
{
    lemma_tw_nonneg(h.drop_last());
    assert(h.last() == h[h.len() - 1]);
}

/// Updating one entry moves the total weight by the weight difference.
proof fn lemma_total_weight_update(h: Seq<HistEntry>, i: int, w: u64)
    requires
        0 <= i < h.len(),
    ensures
        total_weight(h.update(i, HistEntry { color: h[i].color, weight: w })) == total_weight(h)
            - h[i].weight + w,
    decreases h.len(),
{
    let h2 = h.update(i, HistEntry { color: h[i].color, weight: w });
    if i == h.len() - 1 {
        assert(h2.drop_last() =~= h.drop_last());
        assert(h2.last() == HistEntry { color: h[i].color, weight: w });
    } else {
        assert(h2.drop_last() =~= h.drop_last().update(i, HistEntry {
            color: h[i].color,
            weight: w,
        }));
        assert(h2.last() == h.last());
        lemma_total_weight_update(h.drop_last(), i, w);
    }
}

/// The weighted set of distinct processed colors of one image.
#[derive(Debug)]
pub struct Histogram {
    pub entries: Vec<HistEntry>,
}

impl Histogram {
    /// Well-formedness: distinct colors, every weight positive, and a total
    /// weight a `u64` can carry.
    pub open spec fn wf(self) -> bool {
        &&& colors_seq(self.entries@).no_duplicates()
        &&& forall|j: int| 0 <= j < self.entries@.len() ==> #[trigger] self.entries@[j].weight >= 1
        &&& total_weight(self.entries@) <= u64::MAX
    }
}

/// Build the histogram of an image: posterize each pixel by
/// `min_posterization` bits, collapse fully transparent pixels onto one
/// representative, and count how many pixels share each resulting color.
pub fn build_histogram(image: &ImagequantImage, min_posterization: u8) -> (h: Histogram)
    requires
        min_posterization <= 4,
    ensures
        h.entries@ == hist_of(processed_seq(image.pixels@, min_posterization)),
        h.wf(),
        total_weight(h.entries@) == image.pixels@.len(),
        h.entries@.len() <= image.pixels@.len(),
{
    let ghost ps = processed_seq(image.pixels@, min_posterization);
    let n = image.pixels.len();
    let mut entries: Vec<HistEntry> = Vec::new();
    let mut i: usize = 0;
    while i < n
        invariant
            n == image.pixels@.len(),
            min_posterization <= 4,
            ps == processed_seq(image.pixels@, min_posterization),
            i <= n,
            entries@ == hist_of(ps.take(i as int)),
        decreases n - i,
    {
        let p = processed(image.pixels[i], min_posterization);
        proof {
            assert(ps.take(i + 1).drop_last() =~= ps.take(i as int));
            assert(ps.take(i + 1).last() == ps[i as int]);
            assert(ps[i as int] == processed_spec(image.pixels@[i as int], min_posterization));
            lemma_hist_of(ps.take(i as int));
        }
        let mut j: usize = 0;
        let m = entries.len();
        let mut found: bool = false;
        while j < m && !found
            invariant
                m == entries@.len(),
                j <= m,
                !found ==> forall|t: int| 0 <= t < j ==> #[trigger] entries@[t].color != p,
                found ==> j < m && entries@[j as int].color == p,
            decreases m - j + if found {
                0int
            } else {
                1int
            },
        {
            if entries[j].color == p {
                found = true;
            } else {
                j = j + 1;
            }
        }
        if found {
            proof {
                assert(has_color(entries@, p));
                assert(idx_of(entries@, p) == j) by {
                    let k = idx_of(entries@, p);
                    assert(0 <= k < entries@.len() && entries@[k].color == p);
                    if k != j {
                        assert(colors_seq(entries@)[k] == p && colors_seq(entries@)[j as int]
                            == p);
                    }
                }
                lemma_count_bound(ps.take(i as int), p);
            }
            let w = entries[j].weight;
            assert(w == count_of(ps.take(i as int), p) && w <= i);
            entries.set(j, HistEntry { color: p, weight: w + 1 });
        } else {
            proof {
                assert(!has_color(entries@, p)) by {
                    if has_color(entries@, p) {
                        let k = idx_of(entries@, p);
                        assert(entries@[k].color == p);
                    }
                }
            }
            entries.push(HistEntry { color: p, weight: 1 });
        }
        proof {
            assert(entries@ =~= add_one(hist_of(ps.take(i as int)), ps[i as int]));
            assert(entries@ =~= hist_of(ps.take(i + 1)));
        }
        i = i + 1;
    }
    proof {
        assert(ps.take(n as int) =~= ps);
        lemma_hist_of(ps);
    }
    Histogram { entries }
}

} // verus!
