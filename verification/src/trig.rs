//! Integer trigonometry and pseudo-random numbers.
//!
//! Angles are measured in thousandths of a radian ("milli-radians") and
//! sine/cosine values in thousandths, so everything stays in integer
//! arithmetic. The sine is the classical rational half-wave approximation
//! (Bhaskara I), which is exact at 0 and at the half turn and stays within
//! a few thousandths of the real sine in between; its defining formula is
//! the specification. A small linear-congruential generator supplies the
//! pseudo-random choices the tunnel needs (start phases, spectrum bins).

use vstd::prelude::*;
use crate::arith::lemma_div_le;
use crate::arith::lemma_div_nonneg;

verus! {

/// Half a turn, in milli-radians.
pub const PI_MILLI: u32 = 3142;

/// One full turn, in milli-radians.
pub const TAU_MILLI: u32 = 6284;

/// A quarter turn, in milli-radians.
pub const HALF_PI_MILLI: u32 = 1571;

/// Rational half-wave sine: for `t` in `[0, PI_MILLI]` this is the sine of
/// `t` milli-radians, in thousandths, always within `[0, 1000]`.
pub open spec fn spec_sin_half_wave(t: int) -> int {
    let x = t * (3142 - t);
    (16000 * x) / (5 * 3142 * 3142 - 4 * x)
}

/// Full-circle sine in thousandths, for `t` in `[0, TAU_MILLI)`: the first
/// half wave is positive, the second is its mirror image.
pub open spec fn spec_sin_milli(t: int) -> int {
    if t <= 3142 {
        spec_sin_half_wave(t)
    } else {
        -spec_sin_half_wave(t - 3142)
    }
}

/// Full-circle cosine in thousandths, as the sine shifted a quarter turn.
pub open spec fn spec_cos_milli(t: int) -> int {
    spec_sin_milli((t + 1571) % 6284)
}

pub proof fn lemma_sin_half_wave_bounds(t: int)
    requires
        0 <= t <= 3142,
    ensures
        0 <= spec_sin_half_wave(t) <= 1000,
        4 * (t * (3142 - t)) <= 3142 * 3142,
{
    assert(0 <= t * (3142 - t) && 4 * (t * (3142 - t)) <= 3142 * 3142) by (nonlinear_arith)
        requires
            0 <= t <= 3142,
    ;
    let x = t * (3142 - t);
    let den = 5 * 3142 * 3142 - 4 * x;
    assert(16000 * x <= 1000 * den);
    lemma_div_nonneg(16000 * x, den);
    lemma_div_le(16000 * x, den, 1000);
}

pub proof fn lemma_sin_milli_bounds(t: int)
    requires
        0 <= t < 6284,
    ensures
        -1000 <= spec_sin_milli(t) <= 1000,
{
    if t <= 3142 {
        lemma_sin_half_wave_bounds(t);
    } else {
        lemma_sin_half_wave_bounds(t - 3142);
    }
}

/// The positive half wave, computed exactly as the specification states it.
fn sin_half_wave(t: u32) -> (r: u32)
    requires
        t <= PI_MILLI,
    ensures
        r == spec_sin_half_wave(t as int),
        r <= 1000,
{
    proof {
        lemma_sin_half_wave_bounds(t as int);
    }
    let x: u64 = (t as u64) * ((PI_MILLI - t) as u64);
    let num: u64 = 16000 * x;
    let den: u64 = 5 * (PI_MILLI as u64) * (PI_MILLI as u64) - 4 * x;
    (num / den) as u32
}

/// Sine of `theta` milli-radians, in thousandths.
pub fn sin_milli(theta: u32) -> (r: i32)
    requires
        theta < TAU_MILLI,
    ensures
        r == spec_sin_milli(theta as int),
        -1000 <= r <= 1000,
{
    if theta <= PI_MILLI {
        sin_half_wave(theta) as i32
    } else {
        0i32 - (sin_half_wave(theta - PI_MILLI) as i32)
    }
}

/// Cosine of `theta` milli-radians, in thousandths.
pub fn cos_milli(theta: u32) -> (r: i32)
    requires
        theta < TAU_MILLI,
    ensures
        r == spec_cos_milli(theta as int),
        -1000 <= r <= 1000,
{
    sin_milli((theta + HALF_PI_MILLI) % TAU_MILLI)
}

/// Next state of the linear-congruential generator (constants from the
/// common 64-bit LCG family), wrapping modulo 2^64.
pub open spec fn spec_lcg_next(s: u64) -> u64 {
    vstd::wrapping::u64_specs::wrapping_add(
        vstd::wrapping::u64_specs::wrapping_mul(s, 6364136223846793005),
        1442695040888963407,
    )
}

/// A small deterministic pseudo-random generator. The tunnel uses it for
/// its start phases and for picking each segment's spectrum bin; the same
/// seed always yields the same tunnel.
pub struct Lcg {
    pub state: u64,
}

impl Lcg {
    pub fn new(seed: u64) -> (r: Lcg)
        ensures
            r.state == seed,
    {
        Lcg { state: seed }
    }

    /// Advance the state and hand out the high bits.
    pub fn next_u32(&mut self) -> (r: u32)
        ensures
            final(self).state == spec_lcg_next(old(self).state),
            r == (spec_lcg_next(old(self).state) >> 33) as u32,
            r < 0x8000_0000,
    {
        self.state = self.state.wrapping_mul(6364136223846793005).wrapping_add(1442695040888963407);
        proof {
            let s: u64 = self.state;
            assert((s >> 33) < 0x8000_0000) by (bit_vector);
        }
        (self.state >> 33) as u32
    }

    /// A pseudo-random value in `[lo, hi)`: the generator's next output
    /// reduced into the range.
    pub fn next_in_range(&mut self, lo: u32, hi: u32) -> (r: u32)
        requires
            lo < hi,
        ensures
            final(self).state == spec_lcg_next(old(self).state),
            r == lo + (((spec_lcg_next(old(self).state) >> 33) as u32) as int) % (hi - lo),
            lo <= r < hi,
    {
        let raw: u32 = self.next_u32();
        lo + raw % (hi - lo)
    }
}

/// The angle of table entry `i` out of 64, in milli-radians.
pub open spec fn table_angle(i: int) -> int {
    (i * 6284) / 64
}

/// Precomputed cosine/sine samples at the tunnel's fixed angular
/// resolution: 64 steps around the circle.
pub struct TrigTable {
    pub cos_vals: Vec<i32>,
    pub sin_vals: Vec<i32>,
}

impl TrigTable {
    pub open spec fn wf(self) -> bool {
        &&& self.cos_vals.len() == 64
        &&& self.sin_vals.len() == 64
        &&& forall|i: int|
            0 <= i < 64 ==> #[trigger] self.cos_vals[i] == spec_cos_milli(table_angle(i))
        &&& forall|i: int|
            0 <= i < 64 ==> #[trigger] self.sin_vals[i] == spec_sin_milli(table_angle(i))
        &&& forall|i: int| 0 <= i < 64 ==> -1000 <= #[trigger] self.cos_vals[i] <= 1000
        &&& forall|i: int| 0 <= i < 64 ==> -1000 <= #[trigger] self.sin_vals[i] <= 1000
    }

    pub fn build() -> (t: TrigTable)
        ensures
            t.wf(),
    {
        let mut cos_vals: Vec<i32> = Vec::new();
        let mut sin_vals: Vec<i32> = Vec::new();
        let mut i: u32 = 0;
        while i < 64
            invariant
                i <= 64,
                cos_vals.len() == i,
                sin_vals.len() == i,
                forall|j: int|
                    0 <= j < i ==> #[trigger] cos_vals[j] == spec_cos_milli(table_angle(j)),
                forall|j: int|
                    0 <= j < i ==> #[trigger] sin_vals[j] == spec_sin_milli(table_angle(j)),
                forall|j: int| 0 <= j < i ==> -1000 <= #[trigger] cos_vals[j] <= 1000,
                forall|j: int| 0 <= j < i ==> -1000 <= #[trigger] sin_vals[j] <= 1000,
            decreases 64 - i,
        {
            let theta: u32 = (i * TAU_MILLI) / 64;
            assert(theta == table_angle(i as int));
            assert(theta < TAU_MILLI);
            cos_vals.push(cos_milli(theta));
            sin_vals.push(sin_milli(theta));
            i = i + 1;
        }
        TrigTable { cos_vals, sin_vals }
    }

    /// Cosine sample at table index `i`.
    pub fn cos_at(&self, i: usize) -> (r: i32)
        requires
            self.wf(),
            i < 64,
        ensures
            r == spec_cos_milli(table_angle(i as int)),
            -1000 <= r <= 1000,
    {
        self.cos_vals[i]
    }

    /// Sine sample at table index `i`.
    pub fn sin_at(&self, i: usize) -> (r: i32)
        requires
            self.wf(),
            i < 64,
        ensures
            r == spec_sin_milli(table_angle(i as int)),
            -1000 <= r <= 1000,
    {
        self.sin_vals[i]
    }
}

} // verus!
