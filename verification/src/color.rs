//! Slow-phase RGB oscillators.
//!
//! Two independent generators produce the ambient/base hues each frame:
//! three phases advance by fixed small angles and each channel is
//! `sin(phase) + 1` in thousandths, so values stay in `[0, 2000]`. The
//! second oscillator's output is floored component-wise to keep distant
//! rings from fading to black.

use vstd::prelude::*;
use crate::trig::TAU_MILLI;
use crate::trig::sin_milli;
use crate::trig::spec_sin_milli;

verus! {

/// One RGB value in thousandths per channel.
#[derive(Clone, Copy)]
pub struct ColorMilli {
    pub r: u32,
    pub g: u32,
    pub b: u32,
}

impl ColorMilli {
    /// All channels within `[lo, 2000]`.
    pub open spec fn bounded_from(self, lo: int) -> bool {
        &&& lo <= self.r <= 2000
        &&& lo <= self.g <= 2000
        &&& lo <= self.b <= 2000
    }
}

/// Three slowly advancing phases, one per channel.
pub struct ColorOsc {
    pub phase_r: u32,
    pub phase_g: u32,
    pub phase_b: u32,
    pub step_r: u32,
    pub step_g: u32,
    pub step_b: u32,
}

impl ColorOsc {
    pub open spec fn wf(self) -> bool {
        &&& self.phase_r < TAU_MILLI
        &&& self.phase_g < TAU_MILLI
        &&& self.phase_b < TAU_MILLI
        &&& self.step_r < TAU_MILLI
        &&& self.step_g < TAU_MILLI
        &&& self.step_b < TAU_MILLI
    }

    /// An oscillator with the given start phases (wrapped into one turn)
    /// and per-frame phase steps in milli-radians.
    pub fn new(pr: u32, pg: u32, pb: u32, sr: u32, sg: u32, sb: u32) -> (r: ColorOsc)
        requires
            sr < TAU_MILLI,
            sg < TAU_MILLI,
            sb < TAU_MILLI,
        ensures
            r.wf(),
            r.step_r == sr && r.step_g == sg && r.step_b == sb,
    {
        ColorOsc {
            phase_r: pr % TAU_MILLI,
            phase_g: pg % TAU_MILLI,
            phase_b: pb % TAU_MILLI,
            step_r: sr,
            step_g: sg,
            step_b: sb,
        }
    }

    /// Advance the phases one frame and return the channel values:
    /// `sin(phase) + 1` in thousandths, each in `[0, 2000]`.
    pub fn step(&mut self) -> (c: ColorMilli)
        requires
            old(self).wf(),
        ensures
            final(self).wf(),
            final(self).phase_r == (old(self).phase_r + old(self).step_r) % (TAU_MILLI as int),
            final(self).phase_g == (old(self).phase_g + old(self).step_g) % (TAU_MILLI as int),
            final(self).phase_b == (old(self).phase_b + old(self).step_b) % (TAU_MILLI as int),
            final(self).step_r == old(self).step_r,
            final(self).step_g == old(self).step_g,
            final(self).step_b == old(self).step_b,
            c.r == spec_sin_milli(final(self).phase_r as int) + 1000,
            c.g == spec_sin_milli(final(self).phase_g as int) + 1000,
            c.b == spec_sin_milli(final(self).phase_b as int) + 1000,
            c.bounded_from(0),
    {
        self.phase_r = (self.phase_r + self.step_r) % TAU_MILLI;
        self.phase_g = (self.phase_g + self.step_g) % TAU_MILLI;
        self.phase_b = (self.phase_b + self.step_b) % TAU_MILLI;
        let r: u32 = (sin_milli(self.phase_r) + 1000) as u32;
        let g: u32 = (sin_milli(self.phase_g) + 1000) as u32;
        let b: u32 = (sin_milli(self.phase_b) + 1000) as u32;
        ColorMilli { r, g, b }
    }
}

/// Floor each channel at `min_val` thousandths.
pub fn limit_color(c: ColorMilli, min_val: u32) -> (r: ColorMilli)
    requires
        min_val <= 2000,
        c.bounded_from(0),
    ensures
        r.r == if c.r >= min_val {
            c.r as int
        } else {
            min_val as int
        },
        r.g == if c.g >= min_val {
            c.g as int
        } else {
            min_val as int
        },
        r.b == if c.b >= min_val {
            c.b as int
        } else {
            min_val as int
        },
        r.bounded_from(min_val as int),
{
    ColorMilli {
        r: if c.r >= min_val {
            c.r
        } else {
            min_val
        },
        g: if c.g >= min_val {
            c.g
        } else {
            min_val
        },
        b: if c.b >= min_val {
            c.b
        } else {
            min_val
        },
    }
}

} // verus!
