//! VU band aggregator.
//!
//! Splits the active spectrum into `columns * 3` contiguous buckets
//! (low/mid/high per column). Each bucket's mean intensity is noise-gated,
//! weighted per band, quantized to steps of 6 percentage points, and held
//! against the previous frame's value scaled by a release factor, so
//! values fall slowly but rise instantly. If a column's three bands would
//! exceed 100% together, they are rescaled proportionally and
//! re-quantized. Heights are in thousandths of a percent.

use vstd::prelude::*;
use crate::arith::lemma_div_le;
use crate::arith::lemma_div_nonneg;
use crate::audio::AudioState;

verus! {

/// Sum of the bucket `[start, start + size)`, counting only bins below
/// `active` (never reading past the live prefix).
pub open spec fn bucket_sum(s: Seq<u8>, start: int, size: int, active: int) -> int
    decreases size,
{
    if size <= 0 {
        0
    } else {
        bucket_sum(s, start, size - 1, active) + (if start + size - 1 < active {
            s[start + size - 1] as int
        } else {
            0
        })
    }
}

pub proof fn lemma_bucket_sum_bounds(s: Seq<u8>, start: int, size: int, active: int)
    requires
        0 <= start,
        0 <= size,
        active <= s.len(),
    ensures
        0 <= bucket_sum(s, start, size, active) <= 255 * size,
    decreases size,
{
    if size > 0 {
        lemma_bucket_sum_bounds(s, start, size - 1, active);
    }
}

/// A silent prefix sums to zero.
pub proof fn lemma_bucket_sum_zero(s: Seq<u8>, start: int, size: int, active: int)
    requires
        0 <= start,
        0 <= size,
        active <= s.len(),
        forall|i: int| 0 <= i < active ==> s[i] == 0,
    ensures
        bucket_sum(s, start, size, active) == 0,
    decreases size,
{
    if size > 0 {
        lemma_bucket_sum_zero(s, start, size - 1, active);
    }
}

/// Quantize to steps of 6 percentage points (6000 thousandths).
pub open spec fn spec_quant(p: int) -> int {
    (p / 6000) * 6000
}

/// Mean bucket intensity in thousandths (255 maps to 1000).
pub open spec fn spec_bucket_mean(s: Seq<u8>, start: int, size: int, active: int) -> int {
    if size <= 0 {
        0
    } else {
        (bucket_sum(s, start, size, active) * 1000) / (size * 255)
    }
}

/// Noise-gate the mean (floor 0.12), weight it (tenths), and turn it
/// into thousandths of a percent.
pub open spec fn spec_gated_pct(mean: int, weight: int) -> int {
    let g = if mean - 120 > 0 {
        mean - 120
    } else {
        0
    };
    ((g * weight) / 10) * 100
}

/// One band's height before any rescaling: the quantized gated value,
/// held against the released previous height (release factor 0.85).
pub open spec fn spec_band_height(
    s: Seq<u8>,
    start: int,
    size: int,
    active: int,
    weight: int,
    prev: int,
) -> int {
    let q = spec_quant(spec_gated_pct(spec_bucket_mean(s, start, size, active), weight));
    let rel = (prev * 85) / 100;
    if q >= rel {
        q
    } else {
        rel
    }
}

/// Proportional rescale when the summed height would exceed 100%.
pub open spec fn spec_rescaled(h: int, total: int) -> int {
    if total > 100000 {
        spec_quant((h * (100000000int / total)) / 1000)
    } else {
        h
    }
}

/// One column of the aggregate: heights and bottom offsets, all in
/// thousandths of a percent.
#[derive(Clone, Copy)]
pub struct VuColumn {
    pub low: u32,
    pub mid: u32,
    pub high: u32,
    /// Where the dark cut above the lit part starts: the capped total.
    pub cut: u32,
    /// Bottom offset of the mid band: the capped low height.
    pub mid_bottom: u32,
    /// Bottom offset of the high band: the capped low + mid height.
    pub high_bottom: u32,
}

/// The aggregator's held state: last frame's heights per column.
pub struct VuState {
    pub cols: usize,
    pub prev_low: Vec<u32>,
    pub prev_mid: Vec<u32>,
    pub prev_high: Vec<u32>,
}

/// The bucket size for a live bin count: `ceil(bins / (cols * 3))`, at
/// least one.
pub open spec fn spec_bucket_size(bins: int, cols: int) -> int {
    let b = (bins + cols * 3 - 1) / (cols * 3);
    if b >= 1 {
        b
    } else {
        1
    }
}

/// The first bin of column `i`'s low bucket, clipped into the live range.
pub open spec fn spec_col_base(i: int, bucket: int, bins: int) -> int {
    if i * 3 * bucket <= bins - 1 {
        i * 3 * bucket
    } else {
        bins - 1
    }
}

/// Everything the aggregator promises about one column: the held state
/// becomes this frame's pre-rescale heights, and the output holds the
/// (possibly rescaled) heights with their bottom offsets and cut.
pub open spec fn spec_col_ok(
    s: Seq<u8>,
    active: int,
    cols: int,
    prev_l: int,
    prev_m: int,
    prev_h: int,
    i: int,
    c: VuColumn,
    new_l: int,
    new_m: int,
    new_h: int,
) -> bool {
    let bins = if active >= 1 {
        active
    } else {
        1
    };
    let bucket = spec_bucket_size(bins, cols);
    let base = spec_col_base(i, bucket, bins);
    let hl = spec_band_height(s, base, bucket, active, 9, prev_l);
    let hm = spec_band_height(s, base + bucket, bucket, active, 8, prev_m);
    let hh = spec_band_height(s, base + 2 * bucket, bucket, active, 7, prev_h);
    let total = hl + hm + hh;
    let rl = spec_rescaled(hl, total);
    let rm = spec_rescaled(hm, total);
    let rh = spec_rescaled(hh, total);
    &&& c.low == rl
    &&& c.mid == rm
    &&& c.high == rh
    &&& new_l == hl
    &&& new_m == hm
    &&& new_h == hh
    &&& c.cut == (if rl + rm + rh <= 100000 {
        rl + rm + rh
    } else {
        100000int
    })
    &&& c.mid_bottom == rl
    &&& c.high_bottom == (if rl + rm <= 100000 {
        rl + rm
    } else {
        100000int
    })
}

impl VuState {
    pub open spec fn wf(self) -> bool {
        &&& 1 <= self.cols <= 64
        &&& self.prev_low.len() == self.cols
        &&& self.prev_mid.len() == self.cols
        &&& self.prev_high.len() == self.cols
        &&& forall|i: int| 0 <= i < self.cols ==> (#[trigger] self.prev_low[i]) <= 100000
        &&& forall|i: int| 0 <= i < self.cols ==> (#[trigger] self.prev_mid[i]) <= 100000
        &&& forall|i: int| 0 <= i < self.cols ==> (#[trigger] self.prev_high[i]) <= 100000
    }

    pub fn new(cols: usize) -> (r: VuState)
        requires
            1 <= cols <= 64,
        ensures
            r.wf(),
            r.cols == cols,
            forall|i: int| 0 <= i < cols ==> (#[trigger] r.prev_low[i]) == 0,
            forall|i: int| 0 <= i < cols ==> (#[trigger] r.prev_mid[i]) == 0,
            forall|i: int| 0 <= i < cols ==> (#[trigger] r.prev_high[i]) == 0,
    {
        let mut prev_low: Vec<u32> = Vec::new();
        let mut prev_mid: Vec<u32> = Vec::new();
        let mut prev_high: Vec<u32> = Vec::new();
        let mut i: usize = 0;
        while i < cols
            invariant
                i <= cols,
                prev_low.len() == i,
                prev_mid.len() == i,
                prev_high.len() == i,
                forall|j: int| 0 <= j < i ==> (#[trigger] prev_low[j]) == 0,
                forall|j: int| 0 <= j < i ==> (#[trigger] prev_mid[j]) == 0,
                forall|j: int| 0 <= j < i ==> (#[trigger] prev_high[j]) == 0,
            decreases cols - i,
        {
            prev_low.push(0);
            prev_mid.push(0);
            prev_high.push(0);
            i = i + 1;
        }
        VuState { cols, prev_low, prev_mid, prev_high }
    }

    /// Aggregate the live spectrum into per-column band heights with
    /// release hysteresis; the held state becomes this frame's
    /// pre-rescale heights.
    pub fn step(&mut self, audio: &AudioState) -> (out: Vec<VuColumn>)
        requires
            old(self).wf(),
            audio.wf(),
        ensures
            final(self).wf(),
            final(self).cols == old(self).cols,
            out.len() == old(self).cols,
            forall|i: int|
                0 <= i < out.len() ==> spec_col_ok(
                    audio.spectrum@,
                    audio.active as int,
                    old(self).cols as int,
                    old(self).prev_low[i] as int,
                    old(self).prev_mid[i] as int,
                    old(self).prev_high[i] as int,
                    i,
                    #[trigger] out[i],
                    final(self).prev_low[i] as int,
                    final(self).prev_mid[i] as int,
                    final(self).prev_high[i] as int,
                ),
    {
        let cols: usize = self.cols;
        let bins: usize = if audio.active >= 1 {
            audio.active
        } else {
            1
        };
        proof {
            assert(bins + cols as int * 3 - 1 <= 8192 * ((cols as int) * 3) && (cols as int) * 3
                >= 3) by (nonlinear_arith)
                requires
                    bins <= 8192,
                    1 <= cols <= 64,
            ;
            lemma_div_le((bins + cols as int * 3 - 1) as int, (cols as int) * 3, 8192);
            lemma_div_nonneg((bins + cols as int * 3 - 1) as int, (cols as int) * 3);
        }
        let bucket: usize = {
            let b: usize = (bins + cols * 3 - 1) / (cols * 3);
            if b >= 1 {
                b
            } else {
                1
            }
        };
        let mut out: Vec<VuColumn> = Vec::new();
        let mut i: usize = 0;
        while i < cols
            invariant
                self.wf(),
                self.cols == cols,
                self.cols == old(self).cols,
                old(self).wf(),
                audio.wf(),
                bins == (if audio.active >= 1 {
                    audio.active as int
                } else {
                    1int
                }),
                1 <= bins <= 8192,
                bucket == spec_bucket_size(bins as int, cols as int),
                1 <= bucket <= 8192,
                i <= cols,
                out.len() == i,
                forall|r: int|
                    i <= r < cols ==> (#[trigger] self.prev_low[r]) == old(self).prev_low[r],
                forall|r: int|
                    i <= r < cols ==> (#[trigger] self.prev_mid[r]) == old(self).prev_mid[r],
                forall|r: int|
                    i <= r < cols ==> (#[trigger] self.prev_high[r]) == old(self).prev_high[r],
                forall|r: int|
                    0 <= r < i ==> spec_col_ok(
                        audio.spectrum@,
                        audio.active as int,
                        cols as int,
                        old(self).prev_low[r] as int,
                        old(self).prev_mid[r] as int,
                        old(self).prev_high[r] as int,
                        r,
                        #[trigger] out[r],
                        self.prev_low[r] as int,
                        self.prev_mid[r] as int,
                        self.prev_high[r] as int,
                    ),
            decreases cols - i,
        {
            proof {
                assert(i * 3 * bucket <= 64 * 3 * 8192) by (nonlinear_arith)
                    requires
                        0 <= i < 64,
                        1 <= bucket <= 8192,
                ;
                assert(0 <= i * 3 * bucket) by (nonlinear_arith)
                    requires
                        0 <= i,
                        1 <= bucket,
                ;
            }
            let raw_base: usize = i * 3 * bucket;
            let base: usize = if raw_base <= bins - 1 {
                raw_base
            } else {
                bins - 1
            };
            let hl: u32 = band_height(audio, base, bucket, 9, self.prev_low[i]);
            let hm: u32 = band_height(audio, base + bucket, bucket, 8, self.prev_mid[i]);
            let hh: u32 = band_height(audio, base + 2 * bucket, bucket, 7, self.prev_high[i]);
            self.prev_low.set(i, hl);
            self.prev_mid.set(i, hm);
            self.prev_high.set(i, hh);
            let total: u32 = hl + hm + hh;
            let rl: u32 = rescale_band(hl, total);
            let rm: u32 = rescale_band(hm, total);
            let rh: u32 = rescale_band(hh, total);
            let sum3: u32 = rl + rm + rh;
            let cut: u32 = if sum3 <= 100000 {
                sum3
            } else {
                100000
            };
            let sum2: u32 = rl + rm;
            let high_bottom: u32 = if sum2 <= 100000 {
                sum2
            } else {
                100000
            };
            out.push(VuColumn { low: rl, mid: rm, high: rh, cut, mid_bottom: rl, high_bottom });
            i = i + 1;
        }
        out
    }
}

/// One band's height from the live spectrum, exactly as the
/// specification functions state it.
fn band_height(audio: &AudioState, start: usize, size: usize, weight: u32, prev: u32) -> (h: u32)
    requires
        audio.wf(),
        start <= 30000,
        1 <= size <= 8192,
        weight == 7 || weight == 8 || weight == 9,
        prev <= 100000,
    ensures
        h == spec_band_height(
            audio.spectrum@,
            start as int,
            size as int,
            audio.active as int,
            weight as int,
            prev as int,
        ),
        h <= 100000,
{
    proof {
        lemma_bucket_sum_bounds(audio.spectrum@, start as int, size as int, audio.active as int);
    }
    let mut acc: u64 = 0;
    let mut k: usize = 0;
    while k < size
        invariant
            audio.wf(),
            start <= 30000,
            1 <= size <= 8192,
            k <= size,
            acc == bucket_sum(audio.spectrum@, start as int, k as int, audio.active as int),
            acc <= 255 * k,
        decreases size - k,
    {
        proof {
            lemma_bucket_sum_bounds(audio.spectrum@, start as int, k as int, audio.active as int);
        }
        if start + k < audio.active {
            acc = acc + audio.spectrum[start + k] as u64;
        }
        k = k + 1;
    }
    proof {
        assert(acc * 1000 <= 1000 * ((size as int) * 255) && (size as int) * 255
            >= 255) by (nonlinear_arith)
            requires
                acc <= 255 * (size as int),
                1 <= size,
        ;
        lemma_div_nonneg((acc * 1000) as int, (size as int) * 255);
        lemma_div_le((acc * 1000) as int, (size as int) * 255, 1000);
    }
    let mean: u32 = ((acc * 1000) / ((size as u64) * 255)) as u32;
    let g: u32 = if mean > 120 {
        mean - 120
    } else {
        0
    };
    proof {
        assert(g * weight <= 7920) by (nonlinear_arith)
            requires
                g <= 880,
                weight <= 9,
        ;
        lemma_div_le((g * weight) as int, 10, 792);
        lemma_div_nonneg((g * weight) as int, 10);
    }
    let pct: u32 = ((g * weight) / 10) * 100;
    proof {
        crate::arith::lemma_round_down_le(pct as int, 6000);
        lemma_div_nonneg(pct as int, 6000);
        lemma_div_le(pct as int, 6000, 14);
    }
    let q: u32 = (pct / 6000) * 6000;
    proof {
        lemma_div_le((prev * 85) as int, 100, 85000);
        lemma_div_nonneg((prev * 85) as int, 100);
    }
    let rel: u32 = (prev * 85) / 100;
    if q >= rel {
        q
    } else {
        rel
    }
}

/// Rescale one band height by the column's over-100% factor and
/// re-quantize.
fn rescale_band(h: u32, total: u32) -> (r: u32)
    requires
        h <= 100000,
        h <= total,
        total <= 300000,
    ensures
        r == spec_rescaled(h as int, total as int),
        r <= 100000,
{
    if total > 100000 {
        proof {
            lemma_div_le(100000000, total as int, 1000);
            lemma_div_nonneg(100000000, total as int);
        }
        let factor: u32 = 100000000 / total;
        proof {
            assert(h * factor <= 100000 * 1000) by (nonlinear_arith)
                requires
                    h <= 100000,
                    factor <= 1000,
            ;
            lemma_div_le((h * factor) as int, 1000, 100000);
            lemma_div_nonneg((h * factor) as int, 1000);
        }
        let scaled: u32 = (h * factor) / 1000;
        proof {
            crate::arith::lemma_round_down_le(scaled as int, 6000);
            lemma_div_nonneg(scaled as int, 6000);
            lemma_div_le(scaled as int, 6000, 17);
        }
        (scaled / 6000) * 6000
    } else {
        h
    }
}

/// A band of a silent spectrum with no held height quantizes to zero.
pub proof fn lemma_band_height_silent(s: Seq<u8>, start: int, size: int, active: int, weight: int)
    requires
        0 <= start,
        1 <= size,
        active <= s.len(),
        forall|i: int| 0 <= i < active ==> s[i] == 0,
    ensures
        spec_band_height(s, start, size, active, weight, 0) == 0,
{
    lemma_bucket_sum_zero(s, start, size, active);
    assert(size * 255 >= 255) by (nonlinear_arith)
        requires
            1 <= size,
    ;
    assert(spec_bucket_mean(s, start, size, active) == 0) by {
        vstd::arithmetic::div_mod::lemma_div_of0(size * 255);
    }
}

/// For an all-zero spectrum with no held heights, every column's band
/// heights (and so its offsets and cut) are zero: only the hysteretic
/// release bleed from a previous non-zero frame can keep a band lit.
pub proof fn lemma_col_silent(s: Seq<u8>, active: int, cols: int, i: int, c: VuColumn)
    requires
        0 <= active <= s.len(),
        1 <= cols <= 64,
        0 <= i,
        forall|k: int| 0 <= k < active ==> s[k] == 0,
        spec_col_ok(s, active, cols, 0, 0, 0, i, c, 0, 0, 0),
    ensures
        c.low == 0,
        c.mid == 0,
        c.high == 0,
        c.cut == 0,
        c.mid_bottom == 0,
        c.high_bottom == 0,
{
    let bins = if active >= 1 {
        active
    } else {
        1
    };
    let bucket = spec_bucket_size(bins, cols);
    let base = spec_col_base(i, bucket, bins);
    assert((bins + cols * 3 - 1) >= 0 && cols * 3 >= 3) by (nonlinear_arith)
        requires
            1 <= cols,
            bins >= 1,
    ;
    crate::arith::lemma_div_nonneg(bins + cols * 3 - 1, cols * 3);
    assert(bucket >= 1);
    assert(base >= 0) by (nonlinear_arith)
        requires
            0 <= i,
            bucket >= 1,
            bins >= 1,
            base == (if i * 3 * bucket <= bins - 1 {
                i * 3 * bucket
            } else {
                bins - 1
            }),
    ;
    lemma_band_height_silent(s, base, bucket, active, 9);
    lemma_band_height_silent(s, base + bucket, bucket, active, 8);
    lemma_band_height_silent(s, base + 2 * bucket, bucket, active, 7);
}

} // verus!\n