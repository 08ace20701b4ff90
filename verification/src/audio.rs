//! Audio envelope tracker.
//!
//! Holds the most recent spectrum (bin intensities 0..=255), the count of
//! bins the supplier actually filled, and the derived scalar signals:
//! energy average, bass average, a beat envelope (asymmetric one-pole
//! filter) and a decaying beat-boost pulse. All signals are fixed-point
//! thousandths; the averages stay in `[0, 1000]` and the clamped boost in
//! `[0, 6500]`. Only the first `active` bins are ever read.

use vstd::prelude::*;
use crate::arith::lemma_div_le;
use crate::arith::lemma_div_nonneg;

verus! {

/// Capacity of the spectrum buffer, in bins.
pub const SPECTRUM_CAP: usize = 8192;

/// Ceiling of the raw boost accumulator, in thousandths: the fixed point
/// of `b -> b * 90 / 100 + 1000 * 28`.
pub const BOOST_RAW_CEIL: u32 = 280000;

/// Ceiling of the boost handed to the pipeline: 6.5 in thousandths.
pub const BOOST_CLAMP_MILLI: u32 = 6500;

/// Sum of the first `n` bins.
pub open spec fn sum_prefix(s: Seq<u8>, n: int) -> int
    decreases n,
{
    if n <= 0 {
        0
    } else {
        sum_prefix(s, n - 1) + s[n - 1]
    }
}

/// Mean of the first `b` bins, normalized so intensity 255 maps to 1000.
pub open spec fn spec_mean_milli(s: Seq<u8>, b: int) -> int {
    if b <= 0 {
        0
    } else {
        (sum_prefix(s, b) * 1000) / (b * 255)
    }
}

/// Energy average: mean of all active bins.
pub open spec fn spec_energy(s: Seq<u8>, active: int) -> int {
    spec_mean_milli(s, active)
}

/// Bass average: mean of the first (up to 4) active bins.
pub open spec fn spec_bass(s: Seq<u8>, active: int) -> int {
    spec_mean_milli(s, if active > 4 { 4 } else { active })
}

/// Asymmetric one-pole filter: fast attack (0.90) when the bass rises
/// above the envelope, slow release (0.98) otherwise.
pub open spec fn spec_env_step(env: int, bass: int) -> int {
    if bass > env {
        (env * 90 + bass * 10) / 100
    } else {
        (env * 98 + bass * 2) / 100
    }
}

/// The beat pulse: how far the bass exceeds the envelope plus a fixed
/// threshold of 0.02 (20 thousandths), floored at zero.
pub open spec fn spec_pulse(env: int, bass: int) -> int {
    if bass - env - 20 > 0 {
        bass - env - 20
    } else {
        0
    }
}

/// Raw boost recurrence: multiplicative decay (0.90) plus the pulse
/// scaled by a gain of 28.
pub open spec fn spec_boost_step(boost: int, pulse: int) -> int {
    (boost * 90) / 100 + pulse * 28
}

pub proof fn lemma_sum_prefix_bounds(s: Seq<u8>, n: int)
    requires
        0 <= n <= s.len(),
    ensures
        0 <= sum_prefix(s, n) <= 255 * n,
    decreases n,
{
    if n > 0 {
        lemma_sum_prefix_bounds(s, n - 1);
    }
}

pub proof fn lemma_mean_milli_bounds(s: Seq<u8>, b: int)
    requires
        0 <= b <= s.len(),
    ensures
        0 <= spec_mean_milli(s, b) <= 1000,
{
    if b > 0 {
        lemma_sum_prefix_bounds(s, b);
        lemma_div_nonneg(sum_prefix(s, b) * 1000, b * 255);
        lemma_div_le(sum_prefix(s, b) * 1000, b * 255, 1000);
    }
}

/// The sums, and so every derived signal, read only the bins below `n`:
/// two spectra that agree there have the same sum.
pub proof fn lemma_sum_prefix_depends_on_prefix(s1: Seq<u8>, s2: Seq<u8>, n: int)
    requires
        n <= s1.len(),
        n <= s2.len(),
        forall|i: int| 0 <= i < n ==> s1[i] == s2[i],
    ensures
        sum_prefix(s1, n) == sum_prefix(s2, n),
    decreases n,
{
    if n > 0 {
        lemma_sum_prefix_depends_on_prefix(s1, s2, n - 1);
    }
}

/// Energy and bass averages over `active` bins touch only the indices
/// below `active`: any two spectra that agree on that prefix yield the
/// same averages.
pub proof fn lemma_stats_depend_only_on_prefix(s1: Seq<u8>, s2: Seq<u8>, active: int)
    requires
        0 <= active <= s1.len(),
        active <= s2.len(),
        forall|i: int| 0 <= i < active ==> s1[i] == s2[i],
    ensures
        spec_energy(s1, active) == spec_energy(s2, active),
        spec_bass(s1, active) == spec_bass(s2, active),
{
    lemma_sum_prefix_depends_on_prefix(s1, s2, active);
    let b = if active > 4 { 4 } else { active };
    lemma_sum_prefix_depends_on_prefix(s1, s2, b);
}

/// The derived signals never leave their declared ranges: energy and
/// bass averages stay in `[0, 1]`, the envelope stays in `[0, 1]`, and
/// the raw boost stays below its fixed point, so the clamped boost stays
/// in `[0, 6.5]` (all in thousandths).
pub proof fn lemma_signal_ranges(s: Seq<u8>, active: int, env: int, boost: int)
    requires
        0 <= active <= s.len(),
        0 <= env <= 1000,
        0 <= boost <= BOOST_RAW_CEIL,
    ensures
        0 <= spec_energy(s, active) <= 1000,
        0 <= spec_bass(s, active) <= 1000,
        0 <= spec_env_step(env, spec_bass(s, active)) <= 1000,
        0 <= spec_boost_step(boost, spec_pulse(spec_env_step(env, spec_bass(s, active)), spec_bass(s, active))) <= BOOST_RAW_CEIL,
{
    lemma_mean_milli_bounds(s, active);
    lemma_mean_milli_bounds(s, if active > 4 { 4int } else { active });
    let bass = spec_bass(s, active);
    let env2 = spec_env_step(env, bass);
    if bass > env {
        lemma_div_nonneg(env * 90 + bass * 10, 100);
        lemma_div_le(env * 90 + bass * 10, 100, 1000);
    } else {
        lemma_div_nonneg(env * 98 + bass * 2, 100);
        lemma_div_le(env * 98 + bass * 2, 100, 1000);
    }
    lemma_div_nonneg(boost * 90, 100);
    lemma_div_le(boost * 90, 100, 252000);
}

/// The scalar signals of one frame, after clamping.
#[derive(Clone, Copy)]
pub struct AudioFrame {
    /// Mean intensity of the active bins, thousandths in `[0, 1000]`.
    pub energy_milli: u32,
    /// Mean intensity of the first up to 4 bins, thousandths in `[0, 1000]`.
    pub bass_milli: u32,
    /// Beat boost clamped to `[0, 6500]` thousandths.
    pub boost_milli: u32,
}

impl AudioFrame {
    pub open spec fn wf(self) -> bool {
        &&& self.energy_milli <= 1000
        &&& self.bass_milli <= 1000
        &&& self.boost_milli <= BOOST_CLAMP_MILLI
    }

    /// A silent frame: every signal at zero.
    pub fn quiet() -> (r: AudioFrame)
        ensures
            r.wf(),
            r.energy_milli == 0 && r.bass_milli == 0 && r.boost_milli == 0,
    {
        AudioFrame { energy_milli: 0, bass_milli: 0, boost_milli: 0 }
    }
}

/// The spectrum buffer and the filter state carried across frames.
pub struct AudioState {
    /// Bin intensities; only the first `active` entries are meaningful.
    pub spectrum: Vec<u8>,
    /// How many bins the supplier filled on the last update.
    pub active: usize,
    /// Beat envelope, thousandths in `[0, 1000]`.
    pub env_milli: u32,
    /// Raw (unclamped) beat boost, thousandths in `[0, 280000]`.
    pub boost_raw_milli: u32,
}

impl AudioState {
    pub open spec fn wf(self) -> bool {
        &&& self.spectrum.len() == SPECTRUM_CAP
        &&& self.active <= SPECTRUM_CAP
        &&& self.env_milli <= 1000
        &&& self.boost_raw_milli <= BOOST_RAW_CEIL
    }

    pub fn new() -> (r: AudioState)
        ensures
            r.wf(),
            r.active == 0,
            r.env_milli == 0,
            r.boost_raw_milli == 0,
            forall|i: int| 0 <= i < SPECTRUM_CAP ==> r.spectrum[i] == 0,
    {
        let mut spectrum: Vec<u8> = Vec::new();
        let mut i: usize = 0;
        while i < SPECTRUM_CAP
            invariant
                i <= SPECTRUM_CAP,
                spectrum.len() == i,
                forall|j: int| 0 <= j < i ==> spectrum[j] == 0,
            decreases SPECTRUM_CAP - i,
        {
            spectrum.push(0);
            i = i + 1;
        }
        AudioState { spectrum, active: 0, env_milli: 0, boost_raw_milli: 0 }
    }

    /// Copy up to the capacity and record the copied length as the
    /// active-bin count. Bins beyond the copied prefix keep their old
    /// values but are no longer active.
    pub fn update_spectrum(&mut self, bytes: &[u8])
        requires
            old(self).wf(),
        ensures
            final(self).wf(),
            final(self).active == if bytes.len() <= SPECTRUM_CAP {
                bytes.len() as int
            } else {
                SPECTRUM_CAP as int
            },
            forall|i: int|
                0 <= i < final(self).active ==> final(self).spectrum[i] == bytes[i],
            forall|i: int|
                final(self).active <= i < SPECTRUM_CAP ==> final(self).spectrum[i] == old(
                    self,
                ).spectrum[i],
            final(self).env_milli == old(self).env_milli,
            final(self).boost_raw_milli == old(self).boost_raw_milli,
    {
        let copy_len: usize = if bytes.len() <= SPECTRUM_CAP {
            bytes.len()
        } else {
            SPECTRUM_CAP
        };
        let mut i: usize = 0;
        while i < copy_len
            invariant
                i <= copy_len,
                copy_len <= SPECTRUM_CAP,
                copy_len <= bytes.len(),
                self.spectrum.len() == SPECTRUM_CAP,
                forall|j: int| 0 <= j < i ==> self.spectrum[j] == bytes[j],
                forall|j: int| i <= j < SPECTRUM_CAP ==> self.spectrum[j] == old(self).spectrum[j],
                self.active == old(self).active,
                self.env_milli == old(self).env_milli,
                self.boost_raw_milli == old(self).boost_raw_milli,
            decreases copy_len - i,
        {
            let b: u8 = bytes[i];
            self.spectrum.set(i, b);
            i = i + 1;
        }
        self.active = copy_len;
    }

    /// Derive this frame's signals and advance the filter state.
    pub fn compute_frame(&mut self) -> (f: AudioFrame)
        requires
            old(self).wf(),
        ensures
            final(self).wf(),
            f.wf(),
            final(self).spectrum == old(self).spectrum,
            final(self).active == old(self).active,
            f.energy_milli == spec_energy(old(self).spectrum@, old(self).active as int),
            f.bass_milli == spec_bass(old(self).spectrum@, old(self).active as int),
            final(self).env_milli == spec_env_step(
                old(self).env_milli as int,
                f.bass_milli as int,
            ),
            final(self).boost_raw_milli == spec_boost_step(
                old(self).boost_raw_milli as int,
                spec_pulse(final(self).env_milli as int, f.bass_milli as int),
            ),
            f.boost_milli == if final(self).boost_raw_milli <= BOOST_CLAMP_MILLI {
                final(self).boost_raw_milli as int
            } else {
                BOOST_CLAMP_MILLI as int
            },
    {
        let active = self.active;
        proof {
            lemma_mean_milli_bounds(self.spectrum@, active as int);
            lemma_mean_milli_bounds(self.spectrum@, if active > 4 { 4int } else { active as int });
        }
        let mut sum: u64 = 0;
        let mut i: usize = 0;
        while i < active
            invariant
                i <= active,
                active <= SPECTRUM_CAP,
                active <= self.spectrum.len(),
                sum == sum_prefix(self.spectrum@, i as int),
                sum <= 255 * i,
            decreases active - i,
        {
            sum = sum + self.spectrum[i] as u64;
            i = i + 1;
        }
        let energy: u32 = if active == 0 {
            0
        } else {
            ((sum * 1000) / ((active as u64) * 255)) as u32
        };
        let bbins: usize = if active > 4 {
            4
        } else {
            active
        };
        let mut bsum: u64 = 0;
        let mut j: usize = 0;
        while j < bbins
            invariant
                j <= bbins,
                bbins <= 4,
                bbins <= self.spectrum.len(),
                bsum == sum_prefix(self.spectrum@, j as int),
                bsum <= 255 * j,
            decreases bbins - j,
        {
            bsum = bsum + self.spectrum[j] as u64;
            j = j + 1;
        }
        let bass: u32 = if bbins == 0 {
            0
        } else {
            ((bsum * 1000) / ((bbins as u64) * 255)) as u32
        };
        let env_old = self.env_milli;
        let env: u32 = if bass > env_old {
            (env_old * 90 + bass * 10) / 100
        } else {
            (env_old * 98 + bass * 2) / 100
        };
        proof {
            if bass > env_old {
                lemma_div_le((env_old * 90 + bass * 10) as int, 100, 1000);
            } else {
                lemma_div_le((env_old * 98 + bass * 2) as int, 100, 1000);
            }
            lemma_div_le((old(self).boost_raw_milli * 90) as int, 100, 252000);
        }
        self.env_milli = env;
        let pulse: u32 = if bass > env + 20 {
            bass - env - 20
        } else {
            0
        };
        self.boost_raw_milli = (self.boost_raw_milli * 90) / 100 + pulse * 28;
        let boost: u32 = if self.boost_raw_milli <= BOOST_CLAMP_MILLI {
            self.boost_raw_milli
        } else {
            BOOST_CLAMP_MILLI
        };
        AudioFrame { energy_milli: energy, bass_milli: bass, boost_milli: boost }
    }
}

} // verus!
