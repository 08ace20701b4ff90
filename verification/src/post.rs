//! Post-processing pipeline.
//!
//! Image-space filters that run after the tunnel is rasterized, in fixed
//! order: glow (separable box blur, gamma reshape, additive composite),
//! temporal smoothing against the previous frame, ambient darken driven by
//! the energy average, scanline attenuation of every third row, and the
//! hysteretic color-inversion ramp. All arithmetic is integer fixed-point
//! in thousandths; every stage's contract gives the exact byte formula.

use vstd::prelude::*;
use crate::arith::lemma_div_le;
use crate::framebuf::FrameBuf;

verus! {

/// One step of the color-inversion ramp: up by 5 (capped at 255) while
/// the pointer is held, down by 5 (floored at 0) otherwise.
pub open spec fn spec_ramp_step(v: int, pressed: bool) -> int {
    if pressed {
        if v + 5 <= 255 {
            v + 5
        } else {
            255
        }
    } else {
        if v >= 5 {
            v - 5
        } else {
            0
        }
    }
}

/// The ramp value after `n` steps with the pointer state held constant.
pub open spec fn spec_ramp_iter(v: int, pressed: bool, n: nat) -> int
    decreases n,
{
    if n == 0 {
        v
    } else {
        spec_ramp_step(spec_ramp_iter(v, pressed, (n - 1) as nat), pressed)
    }
}

/// The ramp never leaves the byte range.
pub proof fn lemma_ramp_step_range(v: int, pressed: bool)
    requires
        0 <= v <= 255,
    ensures
        0 <= spec_ramp_step(v, pressed) <= 255,
{
}

/// Holding the pointer for `n` frames from value `v` yields
/// `min(v + 5 n, 255)`.
pub proof fn lemma_ramp_up(v: int, n: nat)
    requires
        0 <= v <= 255,
    ensures
        spec_ramp_iter(v, true, n) == if v + 5 * n <= 255 {
            v + 5 * n
        } else {
            255
        },
    decreases n,
{
    if n > 0 {
        lemma_ramp_up(v, (n - 1) as nat);
    }
}

/// Releasing the pointer for `n` frames from value `v` yields
/// `max(v - 5 n, 0)`.
pub proof fn lemma_ramp_down(v: int, n: nat)
    requires
        0 <= v <= 255,
        v % 5 == 0,
    ensures
        spec_ramp_iter(v, false, n) == if v - 5 * n >= 0 {
            v - 5 * n
        } else {
            0
        },
    decreases n,
{
    if n > 0 {
        lemma_ramp_down(v, (n - 1) as nat);
    }
}

/// The full press-release story: holding for `n` frames from zero gives
/// `min(5 n, 255)`, and releasing for `m` more frames from there gives
/// `max(min(5 n, 255) - 5 m, 0)`; the ramp never leaves `[0, 255]`.
pub proof fn lemma_ramp_press_release(n: nat, m: nat)
    ensures
        spec_ramp_iter(0, true, n) == if 5 * n <= 255 {
            5 * n
        } else {
            255
        },
        spec_ramp_iter(spec_ramp_iter(0, true, n), false, m) == {
            let up = if 5 * n <= 255 {
                5 * n
            } else {
                255
            };
            if up - 5 * m >= 0 {
                up - 5 * m
            } else {
                0
            }
        },
{
    lemma_ramp_up(0, n);
    let up = spec_ramp_iter(0, true, n);
    assert(up % 5 == 0);
    lemma_ramp_down(up, m);
}

/// Advance the inversion ramp by one frame.
pub fn ramp_step(v: u8, pressed: bool) -> (r: u8)
    ensures
        r == spec_ramp_step(v as int, pressed),
{
    if pressed {
        if v < 255 {
            if v <= 250 {
                v + 5
            } else {
                255
            }
        } else {
            v
        }
    } else {
        if v >= 5 {
            v - 5
        } else {
            0
        }
    }
}

/// The inverted value of one channel byte: `|value - b|`.
pub open spec fn spec_invert_byte(value: u8, b: u8) -> u8 {
    if value >= b {
        (value - b) as u8
    } else {
        (b - value) as u8
    }
}

proof fn lemma_len_mod4(fb: FrameBuf)
    requires
        fb.wf(),
    ensures
        fb.data.len() % 4 == 0,
{
    vstd::arithmetic::div_mod::lemma_mod_multiples_basic(
        fb.width as int * fb.height as int,
        4,
    );
}

impl FrameBuf {
    /// Replace every pixel's channels by their distance to `value`,
    /// forcing alpha opaque: the smooth invert/un-invert transition.
    pub fn soft_invert(&mut self, value: u8)
        requires
            old(self).wf(),
        ensures
            final(self).wf(),
            old(self).same_dims(*final(self)),
            final(self).data.len() == old(self).data.len(),
            forall|k: int|
                0 <= k < old(self).data.len() ==> #[trigger] final(self).data[k] == (if k % 4 == 3 {
                    255u8
                } else {
                    spec_invert_byte(value, old(self).data[k])
                }),
    {
        proof {
            lemma_len_mod4(*self);
        }
        let n: usize = self.data.len();
        let mut k: usize = 0;
        while k < n
            invariant
                self.wf(),
                old(self).same_dims(*self),
                n == self.data.len(),
                self.data.len() == old(self).data.len(),
                n % 4 == 0,
                k % 4 == 0,
                k <= n,
                forall|j: int|
                    0 <= j < k ==> #[trigger] self.data[j] == (if j % 4 == 3 {
                        255u8
                    } else {
                        spec_invert_byte(value, old(self).data[j])
                    }),
                forall|j: int| k <= j < n ==> #[trigger] self.data[j] == old(self).data[j],
            decreases n - k,
        {
            let b0: u8 = self.data[k];
            let b1: u8 = self.data[k + 1];
            let b2: u8 = self.data[k + 2];
            self.data.set(k, if value >= b0 { value - b0 } else { b0 - value });
            self.data.set(k + 1, if value >= b1 { value - b1 } else { b1 - value });
            self.data.set(k + 2, if value >= b2 { value - b2 } else { b2 - value });
            self.data.set(k + 3, 255);
            k = k + 4;
        }
    }

    /// Exponential blend of this frame with the previous one; the result
    /// becomes both the output and the new previous frame. The smoothing
    /// weight is fixed at 0.45 on the old frame.
    pub fn temporal_smooth(&mut self, prev: &mut FrameBuf)
        requires
            old(self).wf(),
            old(prev).wf(),
            old(self).same_dims(*old(prev)),
        ensures
            final(self).wf(),
            final(prev).wf(),
            old(self).same_dims(*final(self)),
            old(prev).same_dims(*final(prev)),
            final(self).data.len() == old(self).data.len(),
            final(prev).data.len() == old(prev).data.len(),
            forall|k: int|
                0 <= k < old(self).data.len() ==> #[trigger] final(self).data[k] == (if k % 4 == 3 {
                    255u8
                } else {
                    ((old(self).data[k] * 55 + old(prev).data[k] * 45) / 100) as u8
                }),
            forall|k: int|
                0 <= k < old(self).data.len() ==> #[trigger] final(prev).data[k]
                    == final(self).data[k],
    {
        proof {
            lemma_len_mod4(*self);
        }
        let n: usize = self.data.len();
        let mut k: usize = 0;
        while k < n
            invariant
                self.wf(),
                prev.wf(),
                old(self).same_dims(*self),
                old(prev).same_dims(*prev),
                n == self.data.len(),
                self.data.len() == old(self).data.len(),
                prev.data.len() == old(prev).data.len(),
                old(self).data.len() == old(prev).data.len(),
                n % 4 == 0,
                k % 4 == 0,
                k <= n,
                forall|j: int|
                    0 <= j < k ==> #[trigger] self.data[j] == (if j % 4 == 3 {
                        255u8
                    } else {
                        ((old(self).data[j] * 55 + old(prev).data[j] * 45) / 100) as u8
                    }),
                forall|j: int| 0 <= j < k ==> #[trigger] prev.data[j] == self.data[j],
                forall|j: int| k <= j < n ==> #[trigger] self.data[j] == old(self).data[j],
                forall|j: int| k <= j < n ==> #[trigger] prev.data[j] == old(prev).data[j],
            decreases n - k,
        {
            let mut c: usize = 0;
            while c < 3
                invariant
                    self.wf(),
                    prev.wf(),
                    old(self).same_dims(*self),
                    old(prev).same_dims(*prev),
                    n == self.data.len(),
                    self.data.len() == old(self).data.len(),
                    prev.data.len() == old(prev).data.len(),
                    old(self).data.len() == old(prev).data.len(),
                    n % 4 == 0,
                    k % 4 == 0,
                    k < n,
                    c <= 3,
                    forall|j: int|
                        0 <= j < k ==> #[trigger] self.data[j] == (if j % 4 == 3 {
                            255u8
                        } else {
                            ((old(self).data[j] * 55 + old(prev).data[j] * 45) / 100) as u8
                        }),
                    forall|j: int|
                        k <= j < k + c ==> #[trigger] self.data[j] == ((old(self).data[j] * 55 + old(
                            prev,
                        ).data[j] * 45) / 100) as u8,
                    forall|j: int| 0 <= j < k ==> #[trigger] prev.data[j] == self.data[j],
                    forall|j: int| k <= j < k + c ==> #[trigger] prev.data[j] == self.data[j],
                    forall|j: int| k + c <= j < n ==> #[trigger] self.data[j] == old(self).data[j],
                    forall|j: int| k + c <= j < n ==> #[trigger] prev.data[j] == old(prev).data[j],
                decreases 3 - c,
            {
                let a: u32 = self.data[k + c] as u32;
                let p: u32 = prev.data[k + c] as u32;
                let v: u8 = ((a * 55 + p * 45) / 100) as u8;
                self.data.set(k + c, v);
                prev.data.set(k + c, v);
                c = c + 1;
            }
            self.data.set(k + 3, 255);
            prev.data.set(k + 3, 255);
            k = k + 4;
        }
    }

    /// Scale every channel by `factor` thousandths (factor at most 1000);
    /// alpha bytes are left alone.
    pub fn scale_channels(&mut self, factor: u32)
        requires
            old(self).wf(),
            factor <= 1000,
        ensures
            final(self).wf(),
            old(self).same_dims(*final(self)),
            final(self).data.len() == old(self).data.len(),
            forall|k: int|
                0 <= k < old(self).data.len() ==> #[trigger] final(self).data[k] == (if k % 4 == 3 {
                    old(self).data[k]
                } else {
                    ((old(self).data[k] * factor) / 1000) as u8
                }),
    {
        proof {
            lemma_len_mod4(*self);
        }
        let n: usize = self.data.len();
        let mut k: usize = 0;
        while k < n
            invariant
                self.wf(),
                old(self).same_dims(*self),
                n == self.data.len(),
                self.data.len() == old(self).data.len(),
                factor <= 1000,
                n % 4 == 0,
                k % 4 == 0,
                k <= n,
                forall|j: int|
                    0 <= j < k ==> #[trigger] self.data[j] == (if j % 4 == 3 {
                        old(self).data[j]
                    } else {
                        ((old(self).data[j] * factor) / 1000) as u8
                    }),
                forall|j: int| k <= j < n ==> #[trigger] self.data[j] == old(self).data[j],
            decreases n - k,
        {
            let b0: u32 = self.data[k] as u32;
            let b1: u32 = self.data[k + 1] as u32;
            let b2: u32 = self.data[k + 2] as u32;
            proof {
                assert(b0 * factor <= 255000 && b1 * factor <= 255000 && b2 * factor
                    <= 255000) by (nonlinear_arith)
                    requires
                        b0 <= 255,
                        b1 <= 255,
                        b2 <= 255,
                        factor <= 1000,
                ;
                lemma_div_le((b0 * factor) as int, 1000, 255);
                lemma_div_le((b1 * factor) as int, 1000, 255);
                lemma_div_le((b2 * factor) as int, 1000, 255);
            }
            self.data.set(k, ((b0 * factor) / 1000) as u8);
            self.data.set(k + 1, ((b1 * factor) / 1000) as u8);
            self.data.set(k + 2, ((b2 * factor) / 1000) as u8);
            k = k + 4;
        }
    }
}

/// The coordinates hidden in a flat byte index: channel `k % 4`, pixel
/// `k / 4`, column `(k / 4) % w`, row `(k / 4) / w`.
pub(crate) proof fn lemma_flat_coords(w: int, x: int, y: int, c: int)
    requires
        1 <= w,
        0 <= x < w,
        0 <= y,
        0 <= c < 4,
    ensures
        ((y * w + x) * 4 + c) % 4 == c,
        ((y * w + x) * 4 + c) / 4 == y * w + x,
        (y * w + x) % w == x,
        (y * w + x) / w == y,
{
    vstd::arithmetic::div_mod::lemma_fundamental_div_mod_converse(
        (y * w + x) * 4 + c,
        4,
        y * w + x,
        c,
    );
    vstd::arithmetic::div_mod::lemma_fundamental_div_mod_converse(y * w + x, w, y, x);
}

/// Clamp to a closed interval.
pub open spec fn spec_clamp(v: int, lo: int, hi: int) -> int {
    if v < lo {
        lo
    } else if v > hi {
        hi
    } else {
        v
    }
}

/// One horizontally clamped sample of channel `c` at row `y`.
pub open spec fn spec_hsample(s: Seq<u8>, w: int, x: int, y: int, c: int, dx: int) -> int {
    s[(y * w + spec_clamp(x + dx, 0, w - 1)) * 4 + c] as int
}

/// One vertically clamped sample of channel `c` at column `x`.
pub open spec fn spec_vsample(s: Seq<u8>, w: int, h: int, x: int, y: int, c: int, dy: int) -> int {
    s[(spec_clamp(y + dy, 0, h - 1) * w + x) * 4 + c] as int
}

/// Horizontal box-blur of one channel byte: the mean of the nine
/// edge-clamped samples centered on `x` (radius 4).
pub open spec fn spec_hblur_byte(s: Seq<u8>, w: int, x: int, y: int, c: int) -> int {
    (spec_hsample(s, w, x, y, c, -4) + spec_hsample(s, w, x, y, c, -3) + spec_hsample(
        s,
        w,
        x,
        y,
        c,
        -2,
    ) + spec_hsample(s, w, x, y, c, -1) + spec_hsample(s, w, x, y, c, 0) + spec_hsample(
        s,
        w,
        x,
        y,
        c,
        1,
    ) + spec_hsample(s, w, x, y, c, 2) + spec_hsample(s, w, x, y, c, 3) + spec_hsample(
        s,
        w,
        x,
        y,
        c,
        4,
    )) / 9
}

/// Vertical box-blur of one channel byte.
pub open spec fn spec_vblur_byte(s: Seq<u8>, w: int, h: int, x: int, y: int, c: int) -> int {
    (spec_vsample(s, w, h, x, y, c, -4) + spec_vsample(s, w, h, x, y, c, -3) + spec_vsample(
        s,
        w,
        h,
        x,
        y,
        c,
        -2,
    ) + spec_vsample(s, w, h, x, y, c, -1) + spec_vsample(s, w, h, x, y, c, 0) + spec_vsample(
        s,
        w,
        h,
        x,
        y,
        c,
        1,
    ) + spec_vsample(s, w, h, x, y, c, 2) + spec_vsample(s, w, h, x, y, c, 3) + spec_vsample(
        s,
        w,
        h,
        x,
        y,
        c,
        4,
    )) / 9
}

/// The whole horizontally blurred buffer, byte by byte (alpha opaque).
pub open spec fn spec_hblur_flat(s: Seq<u8>, w: int, k: int) -> int {
    if k % 4 == 3 {
        255
    } else {
        spec_hblur_byte(s, w, (k / 4) % w, (k / 4) / w, k % 4)
    }
}

/// The whole vertically blurred buffer, byte by byte (alpha opaque).
pub open spec fn spec_vblur_flat(s: Seq<u8>, w: int, h: int, k: int) -> int {
    if k % 4 == 3 {
        255
    } else {
        spec_vblur_byte(s, w, h, (k / 4) % w, (k / 4) / w, k % 4)
    }
}

/// `y` is the gamma-reshaped value of `x` for exponent two-thirds:
/// the integer part of `255 * (x/255)^(2/3)`, i.e. the cube root of
/// `255 * x^2`, which brightens the blurred halo's tail.
pub open spec fn spec_is_gamma23(x: int, y: int) -> bool {
    &&& y * y * y <= 255 * (x * x)
    &&& 255 * (x * x) < (y + 1) * (y + 1) * (y + 1)
}

/// Glow strength from this frame's energy and bass, in thousandths,
/// clamped to [220, 1050].
pub open spec fn spec_glow_strength(energy: int, bass: int) -> int {
    spec_clamp(320 + (energy * 550) / 1000 + (bass * 450) / 1000, 220, 1050)
}

/// Overall glow opacity: 0.70 of the strength, at most 1.
pub open spec fn spec_glow_opacity(energy: int, bass: int) -> int {
    let raw = (700 * spec_glow_strength(energy, bass)) / 1000;
    if raw <= 1000 {
        raw
    } else {
        1000
    }
}

/// Additive glow composite of one channel byte: the sharp value gets a
/// 1.10 line boost, the blurred value is scaled by opacity and a fixed
/// 0.85 beam strength, and the sum is clamped at 255.
pub open spec fn spec_composite_byte(fv: int, tv: int, op: int) -> int {
    let base = fv * 1100;
    let gl = (tv * op * 850) / 1000;
    if (base + gl) / 1000 <= 255 {
        (base + gl) / 1000
    } else {
        255
    }
}

/// `y * y * y`, for arguments small enough that the cube fits.
fn cube(y: u32) -> (r: u32)
    requires
        y <= 256,
    ensures
        r == y * y * y,
{
    proof {
        assert(y * y <= 65536 && y * y * y <= 16777216) by (nonlinear_arith)
            requires
                y <= 256,
        ;
    }
    y * y * y
}

/// The gamma-reshaped value of one byte: cube root of `255 * v^2` by
/// bounded search.
pub fn gamma23(v: u8) -> (r: u8)
    ensures
        spec_is_gamma23(v as int, r as int),
{
    proof {
        assert((v as u32) * (v as u32) <= 65025) by (nonlinear_arith)
            requires
                v <= 255,
        ;
    }
    let vv: u32 = (v as u32) * (v as u32);
    let target: u32 = 255 * vv;
    let mut y: u32 = 0;
    while cube(y + 1) <= target
        invariant
            y <= 255,
            vv == (v as u32) * (v as u32),
            target == 255 * vv,
            target <= 16581375,
            y * y * y <= target,
        decreases 255 - y,
    {
        proof {
            assert((y + 1) <= 255) by (nonlinear_arith)
                requires
                    (y + 1) * (y + 1) * (y + 1) <= target,
                    target <= 16581375,
                    0 <= y,
            ;
            assert(y < 255);
        }
        y = y + 1;
    }
    proof {
        assert(255 * ((v as int) * (v as int)) == 255 * vv);
    }
    y as u8
}

impl FrameBuf {
    /// One edge-clamped horizontal sample.
    fn hsample(&self, x: usize, y: usize, c: usize, dx: i32) -> (v: u8)
        requires
            self.wf(),
            self.width >= 1,
            x < self.width,
            y < self.height,
            c < 3,
            -8 <= dx <= 8,
        ensures
            v as int == spec_hsample(
                self.data@,
                self.width as int,
                x as int,
                y as int,
                c as int,
                dx as int,
            ),
    {
        let xi: i32 = x as i32 + dx;
        let xc: usize = if xi < 0 {
            0
        } else if xi >= self.width as i32 {
            self.width - 1
        } else {
            xi as usize
        };
        proof {
            crate::framebuf::lemma_pixel_index(
                self.width as int,
                self.height as int,
                xc as int,
                y as int,
            );
        }
        self.data[(y * self.width + xc) * 4 + c]
    }

    /// One edge-clamped vertical sample.
    fn vsample(&self, x: usize, y: usize, c: usize, dy: i32) -> (v: u8)
        requires
            self.wf(),
            self.height >= 1,
            x < self.width,
            y < self.height,
            c < 3,
            -8 <= dy <= 8,
        ensures
            v as int == spec_vsample(
                self.data@,
                self.width as int,
                self.height as int,
                x as int,
                y as int,
                c as int,
                dy as int,
            ),
    {
        let yi: i32 = y as i32 + dy;
        let yc: usize = if yi < 0 {
            0
        } else if yi >= self.height as i32 {
            self.height - 1
        } else {
            yi as usize
        };
        proof {
            crate::framebuf::lemma_pixel_index(
                self.width as int,
                self.height as int,
                x as int,
                yc as int,
            );
        }
        self.data[(yc * self.width + x) * 4 + c]
    }

    /// Mean of the nine horizontal samples of one channel.
    fn hblur_channel(&self, x: usize, y: usize, c: usize) -> (r: u8)
        requires
            self.wf(),
            self.width >= 1,
            x < self.width,
            y < self.height,
            c < 3,
        ensures
            r as int == spec_hblur_byte(
                self.data@,
                self.width as int,
                x as int,
                y as int,
                c as int,
            ),
    {
        let sum: u32 = self.hsample(x, y, c, -4) as u32 + self.hsample(x, y, c, -3) as u32
            + self.hsample(x, y, c, -2) as u32 + self.hsample(x, y, c, -1) as u32 + self.hsample(
            x,
            y,
            c,
            0,
        ) as u32 + self.hsample(x, y, c, 1) as u32 + self.hsample(x, y, c, 2) as u32 + self.hsample(
            x,
            y,
            c,
            3,
        ) as u32 + self.hsample(x, y, c, 4) as u32;
        proof {
            lemma_div_le(sum as int, 9, 255);
        }
        (sum / 9) as u8
    }

    /// Mean of the nine vertical samples of one channel.
    fn vblur_channel(&self, x: usize, y: usize, c: usize) -> (r: u8)
        requires
            self.wf(),
            self.height >= 1,
            x < self.width,
            y < self.height,
            c < 3,
        ensures
            r as int == spec_vblur_byte(
                self.data@,
                self.width as int,
                self.height as int,
                x as int,
                y as int,
                c as int,
            ),
    {
        let sum: u32 = self.vsample(x, y, c, -4) as u32 + self.vsample(x, y, c, -3) as u32
            + self.vsample(x, y, c, -2) as u32 + self.vsample(x, y, c, -1) as u32 + self.vsample(
            x,
            y,
            c,
            0,
        ) as u32 + self.vsample(x, y, c, 1) as u32 + self.vsample(x, y, c, 2) as u32 + self.vsample(
            x,
            y,
            c,
            3,
        ) as u32 + self.vsample(x, y, c, 4) as u32;
        proof {
            lemma_div_le(sum as int, 9, 255);
        }
        (sum / 9) as u8
    }

    /// Horizontal pass of the separable box blur: `self` is the source,
    /// `dst` receives the blurred image with opaque alpha.
    pub fn blur_h_into(&self, dst: &mut FrameBuf)
        requires
            self.wf(),
            old(dst).wf(),
            self.same_dims(*old(dst)),
            self.width >= 1,
        ensures
            final(dst).wf(),
            old(dst).same_dims(*final(dst)),
            final(dst).data.len() == old(dst).data.len(),
            forall|k: int|
                0 <= k < final(dst).data.len() ==> #[trigger] final(dst).data[k] as int
                    == spec_hblur_flat(self.data@, self.width as int, k),
    {
        let w: usize = self.width;
        let h: usize = self.height;
        let mut y: usize = 0;
        let mut k: usize = 0;
        while y < h
            invariant
                self.wf(),
                dst.wf(),
                self.same_dims(*dst),
                dst.data.len() == old(dst).data.len(),
                w == self.width,
                h == self.height,
                w >= 1,
                y <= h,
                k == y * w * 4,
                k <= dst.data.len(),
                forall|j: int|
                    0 <= j < k ==> #[trigger] dst.data[j] as int == spec_hblur_flat(
                        self.data@,
                        w as int,
                        j,
                    ),
            decreases h - y,
        {
            let mut x: usize = 0;
            while x < w
                invariant
                    self.wf(),
                    dst.wf(),
                    self.same_dims(*dst),
                    dst.data.len() == old(dst).data.len(),
                    w == self.width,
                    h == self.height,
                    w >= 1,
                    y < h,
                    x <= w,
                    k == (y * w + x) * 4,
                    forall|j: int|
                        0 <= j < k ==> #[trigger] dst.data[j] as int == spec_hblur_flat(
                            self.data@,
                            w as int,
                            j,
                        ),
                decreases w - x,
            {
                proof {
                    crate::framebuf::lemma_pixel_index(w as int, h as int, x as int, y as int);
                    lemma_flat_coords(w as int, x as int, y as int, 0);
                    lemma_flat_coords(w as int, x as int, y as int, 1);
                    lemma_flat_coords(w as int, x as int, y as int, 2);
                    lemma_flat_coords(w as int, x as int, y as int, 3);
                }
                let r: u8 = self.hblur_channel(x, y, 0);
                let g: u8 = self.hblur_channel(x, y, 1);
                let b: u8 = self.hblur_channel(x, y, 2);
                dst.data.set(k, r);
                dst.data.set(k + 1, g);
                dst.data.set(k + 2, b);
                dst.data.set(k + 3, 255);
                k = k + 4;
                x = x + 1;
            }
            proof {
                assert((y * w + w) * 4 == ((y + 1) * w) * 4) by (nonlinear_arith);
                assert(((y + 1) * w) * 4 == (y + 1) * w * 4) by (nonlinear_arith);
                assert((y + 1) * w * 4 <= h * w * 4) by (nonlinear_arith)
                    requires
                        y + 1 <= h,
                        w >= 0,
                ;
                assert(h * w * 4 == dst.data.len() as int) by (nonlinear_arith)
                    requires
                        dst.data.len() == w * h * 4,
                ;
            }
            y = y + 1;
        }
        proof {
            assert((h * w) * 4 == (w * h) * 4) by (nonlinear_arith);
        }
    }

    /// Vertical pass of the separable box blur.
    pub fn blur_v_into(&self, dst: &mut FrameBuf)
        requires
            self.wf(),
            old(dst).wf(),
            self.same_dims(*old(dst)),
            self.width >= 1,
            self.height >= 1,
        ensures
            final(dst).wf(),
            old(dst).same_dims(*final(dst)),
            final(dst).data.len() == old(dst).data.len(),
            forall|k: int|
                0 <= k < final(dst).data.len() ==> #[trigger] final(dst).data[k] as int
                    == spec_vblur_flat(self.data@, self.width as int, self.height as int, k),
    {
        let w: usize = self.width;
        let h: usize = self.height;
        let mut y: usize = 0;
        let mut k: usize = 0;
        while y < h
            invariant
                self.wf(),
                dst.wf(),
                self.same_dims(*dst),
                dst.data.len() == old(dst).data.len(),
                w == self.width,
                h == self.height,
                w >= 1,
                h >= 1,
                y <= h,
                k == y * w * 4,
                k <= dst.data.len(),
                forall|j: int|
                    0 <= j < k ==> #[trigger] dst.data[j] as int == spec_vblur_flat(
                        self.data@,
                        w as int,
                        h as int,
                        j,
                    ),
            decreases h - y,
        {
            let mut x: usize = 0;
            while x < w
                invariant
                    self.wf(),
                    dst.wf(),
                    self.same_dims(*dst),
                    dst.data.len() == old(dst).data.len(),
                    w == self.width,
                    h == self.height,
                    w >= 1,
                    h >= 1,
                    y < h,
                    x <= w,
                    k == (y * w + x) * 4,
                    forall|j: int|
                        0 <= j < k ==> #[trigger] dst.data[j] as int == spec_vblur_flat(
                            self.data@,
                            w as int,
                            h as int,
                            j,
                        ),
                decreases w - x,
            {
                proof {
                    crate::framebuf::lemma_pixel_index(w as int, h as int, x as int, y as int);
                    lemma_flat_coords(w as int, x as int, y as int, 0);
                    lemma_flat_coords(w as int, x as int, y as int, 1);
                    lemma_flat_coords(w as int, x as int, y as int, 2);
                    lemma_flat_coords(w as int, x as int, y as int, 3);
                }
                let r: u8 = self.vblur_channel(x, y, 0);
                let g: u8 = self.vblur_channel(x, y, 1);
                let b: u8 = self.vblur_channel(x, y, 2);
                dst.data.set(k, r);
                dst.data.set(k + 1, g);
                dst.data.set(k + 2, b);
                dst.data.set(k + 3, 255);
                k = k + 4;
                x = x + 1;
            }
            proof {
                assert((y * w + w) * 4 == ((y + 1) * w) * 4) by (nonlinear_arith);
                assert(((y + 1) * w) * 4 == (y + 1) * w * 4) by (nonlinear_arith);
                assert((y + 1) * w * 4 <= h * w * 4) by (nonlinear_arith)
                    requires
                        y + 1 <= h,
                        w >= 0,
                ;
                assert(h * w * 4 == dst.data.len() as int) by (nonlinear_arith)
                    requires
                        dst.data.len() == w * h * 4,
                ;
            }
            y = y + 1;
        }
        proof {
            assert((h * w) * 4 == (w * h) * 4) by (nonlinear_arith);
        }
    }

    /// Gamma-reshape every channel byte in place (alpha forced opaque).
    pub fn gamma_reshape(&mut self)
        requires
            old(self).wf(),
        ensures
            final(self).wf(),
            old(self).same_dims(*final(self)),
            final(self).data.len() == old(self).data.len(),
            forall|k: int|
                0 <= k < old(self).data.len() && k % 4 == 3 ==> #[trigger] final(self).data[k]
                    == 255u8,
            forall|k: int|
                0 <= k < old(self).data.len() && k % 4 != 3 ==> spec_is_gamma23(
                    old(self).data[k] as int,
                    #[trigger] final(self).data[k] as int,
                ),
    {
        proof {
            lemma_len_mod4(*self);
        }
        let n: usize = self.data.len();
        let mut k: usize = 0;
        while k < n
            invariant
                self.wf(),
                old(self).same_dims(*self),
                n == self.data.len(),
                self.data.len() == old(self).data.len(),
                n % 4 == 0,
                k % 4 == 0,
                k <= n,
                forall|j: int|
                    0 <= j < k && j % 4 == 3 ==> #[trigger] self.data[j] == 255u8,
                forall|j: int|
                    0 <= j < k && j % 4 != 3 ==> spec_is_gamma23(
                        old(self).data[j] as int,
                        #[trigger] self.data[j] as int,
                    ),
                forall|j: int| k <= j < n ==> #[trigger] self.data[j] == old(self).data[j],
            decreases n - k,
        {
            let g0: u8 = gamma23(self.data[k]);
            let g1: u8 = gamma23(self.data[k + 1]);
            let g2: u8 = gamma23(self.data[k + 2]);
            self.data.set(k, g0);
            self.data.set(k + 1, g1);
            self.data.set(k + 2, g2);
            self.data.set(k + 3, 255);
            k = k + 4;
        }
    }

    /// Composite the blurred-and-reshaped glow additively onto a slightly
    /// line-boosted copy of this (sharp) frame.
    pub fn composite_glow(&mut self, glow_src: &FrameBuf, opacity_milli: u32)
        requires
            old(self).wf(),
            glow_src.wf(),
            old(self).same_dims(*glow_src),
            opacity_milli <= 1000,
        ensures
            final(self).wf(),
            old(self).same_dims(*final(self)),
            final(self).data.len() == old(self).data.len(),
            forall|k: int|
                0 <= k < old(self).data.len() ==> #[trigger] final(self).data[k] as int == (if k % 4
                    == 3 {
                    255int
                } else {
                    spec_composite_byte(
                        old(self).data[k] as int,
                        glow_src.data[k] as int,
                        opacity_milli as int,
                    )
                }),
    {
        proof {
            lemma_len_mod4(*self);
        }
        let n: usize = self.data.len();
        let mut k: usize = 0;
        while k < n
            invariant
                self.wf(),
                glow_src.wf(),
                old(self).same_dims(*self),
                old(self).same_dims(*glow_src),
                n == self.data.len(),
                self.data.len() == old(self).data.len(),
                glow_src.data.len() == old(self).data.len(),
                opacity_milli <= 1000,
                n % 4 == 0,
                k % 4 == 0,
                k <= n,
                forall|j: int|
                    0 <= j < k ==> #[trigger] self.data[j] as int == (if j % 4 == 3 {
                        255int
                    } else {
                        spec_composite_byte(
                            old(self).data[j] as int,
                            glow_src.data[j] as int,
                            opacity_milli as int,
                        )
                    }),
                forall|j: int| k <= j < n ==> #[trigger] self.data[j] == old(self).data[j],
            decreases n - k,
        {
            let c0: u8 = self.composite_one(glow_src, opacity_milli, k);
            self.data.set(k, c0);
            let c1: u8 = self.composite_one(glow_src, opacity_milli, k + 1);
            self.data.set(k + 1, c1);
            let c2: u8 = self.composite_one(glow_src, opacity_milli, k + 2);
            self.data.set(k + 2, c2);
            self.data.set(k + 3, 255);
            k = k + 4;
        }
    }

    /// The composite value of one channel byte.
    fn composite_one(&self, glow_src: &FrameBuf, opacity_milli: u32, k: usize) -> (r: u8)
        requires
            self.wf(),
            glow_src.wf(),
            self.same_dims(*glow_src),
            opacity_milli <= 1000,
            k < self.data.len(),
        ensures
            r as int == spec_composite_byte(
                self.data[k as int] as int,
                glow_src.data[k as int] as int,
                opacity_milli as int,
            ),
    {
        let fv: u32 = self.data[k] as u32;
        let tv: u32 = glow_src.data[k] as u32;
        let base: u32 = fv * 1100;
        proof {
            assert(tv * opacity_milli <= 255000) by (nonlinear_arith)
                requires
                    tv <= 255,
                    opacity_milli <= 1000,
            ;
        }
        let gl: u32 = (tv * opacity_milli * 850) / 1000;
        let out: u32 = (base + gl) / 1000;
        if out <= 255 {
            out as u8
        } else {
            255u8
        }
    }

    /// Attenuate every third row by the fixed scanline factor 0.88;
    /// other rows and all alpha bytes are untouched.
    pub fn scanlines(&mut self)
        requires
            old(self).wf(),
            old(self).width >= 1,
        ensures
            final(self).wf(),
            old(self).same_dims(*final(self)),
            final(self).data.len() == old(self).data.len(),
            forall|k: int|
                0 <= k < old(self).data.len() ==> #[trigger] final(self).data[k] == (if ((k / 4)
                    / old(self).width as int) % 3 == 0 && k % 4 != 3 {
                    ((old(self).data[k] * 88) / 100) as u8
                } else {
                    old(self).data[k]
                }),
    {
        let w: usize = self.width;
        let h: usize = self.height;
        let mut y: usize = 0;
        let mut k: usize = 0;
        while y < h
            invariant
                self.wf(),
                old(self).same_dims(*self),
                self.data.len() == old(self).data.len(),
                w == self.width,
                h == self.height,
                w >= 1,
                y <= h,
                k == y * w * 4,
                k <= self.data.len(),
                forall|j: int|
                    0 <= j < k ==> #[trigger] self.data[j] == (if ((j / 4) / w as int) % 3 == 0 && j
                        % 4 != 3 {
                        ((old(self).data[j] * 88) / 100) as u8
                    } else {
                        old(self).data[j]
                    }),
                forall|j: int| k <= j < self.data.len() ==> #[trigger] self.data[j] == old(
                    self,
                ).data[j],
            decreases h - y,
        {
            let scan: bool = y % 3 == 0;
            let mut x: usize = 0;
            while x < w
                invariant
                    self.wf(),
                    old(self).same_dims(*self),
                    self.data.len() == old(self).data.len(),
                    w == self.width,
                    h == self.height,
                    w >= 1,
                    y < h,
                    x <= w,
                    scan == (y % 3 == 0),
                    k == (y * w + x) * 4,
                    forall|j: int|
                        0 <= j < k ==> #[trigger] self.data[j] == (if ((j / 4) / w as int) % 3 == 0
                            && j % 4 != 3 {
                            ((old(self).data[j] * 88) / 100) as u8
                        } else {
                            old(self).data[j]
                        }),
                    forall|j: int| k <= j < self.data.len() ==> #[trigger] self.data[j] == old(
                        self,
                    ).data[j],
                decreases w - x,
            {
                proof {
                    crate::framebuf::lemma_pixel_index(w as int, h as int, x as int, y as int);
                    lemma_flat_coords(w as int, x as int, y as int, 0);
                    lemma_flat_coords(w as int, x as int, y as int, 1);
                    lemma_flat_coords(w as int, x as int, y as int, 2);
                    lemma_flat_coords(w as int, x as int, y as int, 3);
                }
                if scan {
                    let b0: u32 = self.data[k] as u32;
                    let b1: u32 = self.data[k + 1] as u32;
                    let b2: u32 = self.data[k + 2] as u32;
                    self.data.set(k, ((b0 * 88) / 100) as u8);
                    self.data.set(k + 1, ((b1 * 88) / 100) as u8);
                    self.data.set(k + 2, ((b2 * 88) / 100) as u8);
                }
                k = k + 4;
                x = x + 1;
            }
            proof {
                assert((y * w + w) * 4 == ((y + 1) * w) * 4) by (nonlinear_arith);
                assert(((y + 1) * w) * 4 == (y + 1) * w * 4) by (nonlinear_arith);
                assert((y + 1) * w * 4 <= h * w * 4) by (nonlinear_arith)
                    requires
                        y + 1 <= h,
                        w >= 0,
                ;
                assert(h * w * 4 == self.data.len() as int) by (nonlinear_arith)
                    requires
                        self.data.len() == w * h * 4,
                ;
            }
            y = y + 1;
        }
        proof {
            assert((h * w) * 4 == (w * h) * 4) by (nonlinear_arith);
        }
    }
}

/// The glow opacity for this frame's energy and bass, in thousandths.
pub fn glow_opacity(energy_milli: u32, bass_milli: u32) -> (r: u32)
    requires
        energy_milli <= 1000,
        bass_milli <= 1000,
    ensures
        r == spec_glow_opacity(energy_milli as int, bass_milli as int),
        r <= 1000,
{
    proof {
        lemma_div_le((energy_milli * 550) as int, 1000, 550);
        lemma_div_le((bass_milli * 450) as int, 1000, 450);
    }
    let raw_strength: u32 = 320 + (energy_milli * 550) / 1000 + (bass_milli * 450) / 1000;
    let strength: u32 = if raw_strength < 220 {
        220
    } else if raw_strength > 1050 {
        1050
    } else {
        raw_strength
    };
    let raw: u32 = (700 * strength) / 1000;
    if raw <= 1000 {
        raw
    } else {
        1000
    }
}

/// How far the ambient darken scales the image: 850 at silence up to
/// 1000 (no darkening) when the energy average reaches about 0.87.
pub open spec fn spec_darken_factor(energy: int) -> int {
    let quiet = if (energy * 1150) / 1000 <= 1000 {
        (energy * 1150) / 1000
    } else {
        1000
    };
    850 + (150 * quiet) / 1000
}

/// The darken factor for a frame's energy average, in thousandths.
pub fn darken_factor(energy_milli: u32) -> (r: u32)
    requires
        energy_milli <= 1000,
    ensures
        r == spec_darken_factor(energy_milli as int),
        850 <= r <= 1000,
{
    let scaled: u32 = (energy_milli * 1150) / 1000;
    let quiet: u32 = if scaled <= 1000 {
        scaled
    } else {
        1000
    };
    proof {
        lemma_div_le((150 * quiet) as int, 1000, 150);
    }
    850 + (150 * quiet) / 1000
}

} // verus!
