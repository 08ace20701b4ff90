//! An audio-reactive procedural 3D-tunnel renderer.
//!
//! Every frame the renderer clears its RGBA buffer, derives the audio
//! signals from the most recent spectrum, advances and draws the tunnel
//! geometry, aggregates the spectrum into VU band heights, and runs the
//! post-processing pipeline (glow, temporal smoothing, ambient darken,
//! scanlines, color-inversion ramp). The host hands in spectra and
//! pointer state between frames and blits the buffer out; everything the
//! renderer computes is integer fixed-point, mostly in thousandths.

pub mod arith;
pub mod audio;
pub mod color;
pub mod framebuf;
pub mod post;
pub mod trig;
pub mod tunnel;
pub mod vu;

use vstd::prelude::*;
use crate::audio::AudioState;
use crate::audio::spec_bass;
use crate::audio::spec_boost_step;
use crate::audio::spec_env_step;
use crate::audio::spec_pulse;
use crate::color::ColorMilli;
use crate::color::ColorOsc;
use crate::color::limit_color;
use crate::framebuf::FrameBuf;
use crate::framebuf::alpha_opaque;
use crate::framebuf::lemma_keeps_alpha_opaque;
use crate::post::darken_factor;
use crate::post::glow_opacity;
use crate::post::ramp_step;
use crate::post::spec_ramp_step;
use crate::trig::Lcg;
use crate::trig::TAU_MILLI;
use crate::trig::TrigTable;
use crate::tunnel::Tunnel;
use crate::tunnel::advanced_depths_of;
use crate::tunnel::depths_of;
use crate::tunnel::spec_built_ring;
use crate::tunnel::ring_same_identity;
use crate::tunnel::sorted_by_depth;
use crate::tunnel::spec_advance_z;
use crate::tunnel::spec_dyn_speed;
use crate::tunnel::spec_wraps;
use crate::vu::VuColumn;
use crate::vu::VuState;
use crate::vu::bucket_sum;
use crate::vu::spec_bucket_mean;
use crate::vu::spec_col_ok;

verus! {

/// The clamped beat boost this frame will run with, given last frame's
/// filter state and the live spectrum.
pub open spec fn spec_frame_boost(a: AudioState) -> int {
    let bass = spec_bass(a.spectrum@, a.active as int);
    let env = spec_env_step(a.env_milli as int, bass);
    let braw = spec_boost_step(a.boost_raw_milli as int, spec_pulse(env, bass));
    if braw <= 6500 {
        braw
    } else {
        6500
    }
}

/// The whole renderer: one explicit context object so the host can hold
/// several independent instances, with no process-wide state.
pub struct Renderer {
    /// Surface size in pixels; zero until the first `init`.
    pub width: usize,
    pub height: usize,
    /// Output buffer the host blits, plus the previous-frame buffer for
    /// temporal smoothing and two scratch buffers for the separable blur.
    pub fb: FrameBuf,
    pub prev: FrameBuf,
    pub temp: FrameBuf,
    pub glow: FrameBuf,
    /// The tunnel geometry; built once on the first `init`.
    pub tunnel: Tunnel,
    /// Spectrum buffer and envelope/beat filter state.
    pub audio: AudioState,
    /// VU aggregator hysteresis state.
    pub vu: VuState,
    /// The two ambient hue oscillators.
    pub osc1: ColorOsc,
    pub osc2: ColorOsc,
    /// Pseudo-random source for build-time choices.
    pub rng: Lcg,
    /// Precomputed cosine/sine samples for the ring outlines.
    pub trig: TrigTable,
    /// Global angular phase, milli-radians in `[0, TAU)`.
    pub time_phase_milli: u32,
    /// The color-inversion ramp value.
    pub invert_value: u8,
    /// Pointer state as the host last reported it.
    pub pointer_x: i64,
    pub pointer_y: i64,
    pub hover: bool,
    pub pressed: bool,
    /// Performance configuration.
    pub low_end: bool,
    pub glow_on: bool,
    pub smooth_on: bool,
    /// Suggested backing-surface scale, thousandths in `[250, 1000]`.
    pub render_scale_milli: u32,
}

impl Renderer {
    pub open spec fn wf(self) -> bool {
        &&& self.width <= 16384
        &&& self.height <= 16384
        &&& self.fb.wf() && self.fb.width == self.width && self.fb.height == self.height
        &&& self.prev.wf() && self.prev.width == self.width && self.prev.height == self.height
        &&& self.temp.wf() && self.temp.width == self.width && self.temp.height == self.height
        &&& self.glow.wf() && self.glow.width == self.width && self.glow.height == self.height
        &&& self.tunnel.wf()
        &&& self.audio.wf()
        &&& self.vu.wf()
        &&& self.osc1.wf()
        &&& self.osc2.wf()
        &&& self.trig.wf()
        &&& self.time_phase_milli < TAU_MILLI
        &&& 250 <= self.render_scale_milli <= 1000
    }

    /// A fresh renderer. The seed fixes every pseudo-random choice (the
    /// oscillators' start phases and the segments' spectrum bins), so one
    /// seed always gives the same tunnel.
    pub fn new(seed: u64) -> (r: Renderer)
        ensures
            r.wf(),
            r.width == 0,
            r.height == 0,
            r.tunnel.rings.len() == 0,
            r.invert_value == 0,
            r.time_phase_milli == 0,
            r.pointer_x == 0 && r.pointer_y == 0,
            !r.hover,
            !r.pressed,
            !r.low_end,
            !r.glow_on,
            !r.smooth_on,
            r.render_scale_milli == 1000,
            r.vu.cols == 24,
            forall|i: int| 0 <= i < 24 ==> (#[trigger] r.vu.prev_low[i]) == 0,
            forall|i: int| 0 <= i < 24 ==> (#[trigger] r.vu.prev_mid[i]) == 0,
            forall|i: int| 0 <= i < 24 ==> (#[trigger] r.vu.prev_high[i]) == 0,
            r.audio.active == 0,
            r.audio.env_milli == 0,
            r.audio.boost_raw_milli == 0,
            forall|i: int|
                0 <= i < crate::audio::SPECTRUM_CAP ==> (#[trigger] r.audio.spectrum[i]) == 0,
            r.osc1.step_r == 40 && r.osc1.step_g == 28 && r.osc1.step_b == 52,
            r.osc2.step_r == 10 && r.osc2.step_g == 7 && r.osc2.step_b == 13,
    {
        let mut rng = Lcg::new(seed);
        let p1r: u32 = rng.next_in_range(0, TAU_MILLI);
        let p1g: u32 = rng.next_in_range(0, TAU_MILLI);
        let p1b: u32 = rng.next_in_range(0, TAU_MILLI);
        let p2r: u32 = rng.next_in_range(0, TAU_MILLI);
        let p2g: u32 = rng.next_in_range(0, TAU_MILLI);
        let p2b: u32 = rng.next_in_range(0, TAU_MILLI);
        let osc1 = ColorOsc::new(p1r, p1g, p1b, 40, 28, 52);
        let osc2 = ColorOsc::new(p2r, p2g, p2b, 10, 7, 13);
        Renderer {
            width: 0,
            height: 0,
            fb: FrameBuf::new_sized(0, 0),
            prev: FrameBuf::new_sized(0, 0),
            temp: FrameBuf::new_sized(0, 0),
            glow: FrameBuf::new_sized(0, 0),
            tunnel: Tunnel { rings: Vec::new(), seg_count: 64, low_end: false },
            audio: AudioState::new(),
            vu: VuState::new(24),
            osc1,
            osc2,
            rng,
            trig: TrigTable::build(),
            time_phase_milli: 0,
            invert_value: 0,
            pointer_x: 0,
            pointer_y: 0,
            hover: false,
            pressed: false,
            low_end: false,
            glow_on: false,
            smooth_on: false,
            render_scale_milli: 1000,
        }
    }

    /// (Re)allocate the four frame buffers for this surface size and
    /// build the tunnel if not already built. Idempotent: calling it
    /// again with the same size changes nothing at all.
    pub fn init(&mut self, width: usize, height: usize)
        requires
            old(self).wf(),
            width <= 16384,
            height <= 16384,
        ensures
            final(self).wf(),
            final(self).width == width,
            final(self).height == height,
            final(self).tunnel.rings.len() > 0,
            old(self).tunnel.rings.len() > 0 ==> final(self).tunnel == old(self).tunnel,
            old(self).tunnel.rings.len() == 0 ==> {
                &&& final(self).tunnel.low_end == old(self).low_end
                &&& final(self).tunnel.rings.len() == (if old(self).low_end {
                    80int
                } else {
                    160int
                })
                &&& forall|i: int|
                    0 <= i < final(self).tunnel.rings.len() ==> spec_built_ring(
                        #[trigger] final(self).tunnel.rings[i],
                        i,
                        -400000 + i * (if old(self).low_end {
                            10000int
                        } else {
                            5000int
                        }),
                        if old(self).low_end {
                            48int
                        } else {
                            64int
                        },
                    )
            },
            old(self).width == width && old(self).height == height && old(self).tunnel.rings.len()
                > 0 ==> *final(self) == *old(self),
            old(self).width == width && old(self).height == height ==> final(self).fb == old(
                self,
            ).fb && final(self).prev == old(self).prev,
            old(self).width != width || old(self).height != height ==> {
                &&& final(self).fb.data.len() == width * height * 4
                &&& (forall|k: int|
                    0 <= k < final(self).fb.data.len() ==> (#[trigger] final(self).fb.data[k])
                        == 0)
                &&& (forall|k: int|
                    0 <= k < final(self).prev.data.len() ==> (#[trigger] final(self).prev.data[k])
                        == 0)
            },
            final(self).audio == old(self).audio,
            final(self).invert_value == old(self).invert_value,
            final(self).pressed == old(self).pressed,
            final(self).low_end == old(self).low_end,
            final(self).glow_on == old(self).glow_on,
            final(self).smooth_on == old(self).smooth_on,
    {
        if self.tunnel.ring_count() == 0 {
            self.tunnel = Tunnel::build(self.low_end, &mut self.rng);
        }
        if self.width != width || self.height != height {
            self.width = width;
            self.height = height;
            self.fb = FrameBuf::new_sized(width, height);
            self.prev = FrameBuf::new_sized(width, height);
            self.temp = FrameBuf::new_sized(width, height);
            self.glow = FrameBuf::new_sized(width, height);
        }
    }

    /// Force the reduced-geometry mode; enabling it also switches the
    /// heavy effects off.
    pub fn set_low_end_mode(&mut self, enabled: bool)
        requires
            old(self).wf(),
        ensures
            final(self).wf(),
            *final(self) == (Renderer {
                low_end: enabled,
                glow_on: if enabled {
                    false
                } else {
                    old(self).glow_on
                },
                smooth_on: if enabled {
                    false
                } else {
                    old(self).smooth_on
                },
                ..*old(self)
            }),
    {
        self.low_end = enabled;
        if enabled {
            self.glow_on = false;
            self.smooth_on = false;
        }
    }

    /// Select a quality tier: 1 is balanced (smoothing on), 2 is the
    /// default (everything off at normal density), anything else is
    /// maximum performance (reduced density).
    pub fn set_performance_mode(&mut self, mode: u8)
        requires
            old(self).wf(),
        ensures
            final(self).wf(),
            *final(self) == (Renderer {
                low_end: mode != 1 && mode != 2,
                glow_on: false,
                smooth_on: mode == 1,
                ..*old(self)
            }),
    {
        if mode == 1 {
            self.low_end = false;
            self.glow_on = false;
            self.smooth_on = true;
        } else if mode == 2 {
            self.low_end = false;
            self.glow_on = false;
            self.smooth_on = false;
        } else {
            self.low_end = true;
            self.glow_on = false;
            self.smooth_on = false;
        }
    }

    /// Record the suggested backing-surface scale, clamped to
    /// `[0.25, 1.0]` (thousandths).
    pub fn set_render_scale(&mut self, scale_milli: u32)
        requires
            old(self).wf(),
        ensures
            final(self).wf(),
            *final(self) == (Renderer {
                render_scale_milli: if scale_milli < 250 {
                    250u32
                } else if scale_milli > 1000 {
                    1000u32
                } else {
                    scale_milli
                },
                ..*old(self)
            }),
    {
        self.render_scale_milli = if scale_milli < 250 {
            250
        } else if scale_milli > 1000 {
            1000
        } else {
            scale_milli
        };
    }

    /// Copy a new spectrum in (up to the capacity) and record how many
    /// bins are live.
    pub fn update_spectrum(&mut self, bytes: &[u8])
        requires
            old(self).wf(),
        ensures
            final(self).wf(),
            final(self).audio.active == (if bytes.len() <= crate::audio::SPECTRUM_CAP {
                bytes.len() as int
            } else {
                crate::audio::SPECTRUM_CAP as int
            }),
            forall|i: int|
                0 <= i < final(self).audio.active ==> final(self).audio.spectrum[i] == bytes[i],
            forall|i: int|
                final(self).audio.active <= i < crate::audio::SPECTRUM_CAP
                    ==> final(self).audio.spectrum[i] == old(self).audio.spectrum[i],
            final(self).audio.env_milli == old(self).audio.env_milli,
            final(self).audio.boost_raw_milli == old(self).audio.boost_raw_milli,
            *final(self) == (Renderer { audio: final(self).audio, ..*old(self) }),
    {
        self.audio.update_spectrum(bytes);
    }

    /// Replace the pointer state. `pressed` reverses the tunnel's travel
    /// and time direction and drives the inversion ramp.
    pub fn update_pointer(&mut self, x: i64, y: i64, hover_active: bool, pressed: bool)
        requires
            old(self).wf(),
        ensures
            final(self).wf(),
            *final(self) == (Renderer {
                pointer_x: x,
                pointer_y: y,
                hover: hover_active,
                pressed: pressed,
                ..*old(self)
            }),
    {
        self.pointer_x = x;
        self.pointer_y = y;
        self.hover = hover_active;
        self.pressed = pressed;
    }

    /// Length of the output buffer: `width * height * 4` bytes.
    pub fn frame_len(&self) -> (r: usize)
        requires
            self.wf(),
        ensures
            r == self.fb.data.len(),
            r == self.width * self.height * 4,
    {
        self.fb.data.len()
    }

    /// The output buffer itself: row-major RGBA, stride `width * 4`.
    pub fn frame_data(&self) -> (r: &Vec<u8>)
        ensures
            r@ == self.fb.data@,
    {
        &self.fb.data
    }

    /// Per-block on/off levels for a coarse one-line meter: a block is
    /// lit when its bucket's mean intensity exceeds the 0.12 noise floor.
    pub fn mini_levels(&self, blocks: usize) -> (out: Vec<bool>)
        requires
            self.wf(),
            1 <= blocks <= 64,
        ensures
            out.len() == blocks,
            forall|i: int|
                0 <= i < blocks ==> {
                    let bins = if self.audio.active >= 1 {
                        self.audio.active as int
                    } else {
                        1
                    };
                    let bucket = (bins + blocks - 1) / (blocks as int);
                    (#[trigger] out[i]) == (spec_bucket_mean(
                        self.audio.spectrum@,
                        i * bucket,
                        bucket,
                        self.audio.active as int,
                    ) > 120)
                },
    {
        let bins: usize = if self.audio.active >= 1 {
            self.audio.active
        } else {
            1
        };
        proof {
            crate::arith::lemma_div_le((bins + blocks - 1) as int, blocks as int, 8192);
            crate::arith::lemma_div_nonneg((bins + blocks - 1) as int, blocks as int);
        }
        let bucket: usize = (bins + blocks - 1) / blocks;
        let mut out: Vec<bool> = Vec::new();
        let mut i: usize = 0;
        while i < blocks
            invariant
                self.wf(),
                1 <= blocks <= 64,
                bins == (if self.audio.active >= 1 {
                    self.audio.active as int
                } else {
                    1int
                }),
                1 <= bins <= 8192,
                bucket == (bins + blocks - 1) as int / (blocks as int),
                bucket <= 8192,
                i <= blocks,
                out.len() == i,
                forall|r: int|
                    0 <= r < i ==> (#[trigger] out[r]) == (spec_bucket_mean(
                        self.audio.spectrum@,
                        r * (bucket as int),
                        bucket as int,
                        self.audio.active as int,
                    ) > 120),
            decreases blocks - i,
        {
            proof {
                assert(0 <= i * bucket <= 64 * 8192) by (nonlinear_arith)
                    requires
                        0 <= i < 64,
                        0 <= bucket <= 8192,
                ;
            }
            let start: usize = i * bucket;
            let mut acc: u64 = 0;
            let mut k: usize = 0;
            while k < bucket
                invariant
                    self.wf(),
                    start <= 524288,
                    bucket <= 8192,
                    k <= bucket,
                    acc == bucket_sum(
                        self.audio.spectrum@,
                        start as int,
                        k as int,
                        self.audio.active as int,
                    ),
                    acc <= 255 * k,
                decreases bucket - k,
            {
                proof {
                    crate::vu::lemma_bucket_sum_bounds(
                        self.audio.spectrum@,
                        start as int,
                        k as int,
                        self.audio.active as int,
                    );
                }
                if start + k < self.audio.active {
                    acc = acc + self.audio.spectrum[start + k] as u64;
                }
                k = k + 1;
            }
            let lit: bool = if bucket == 0 {
                false
            } else {
                proof {
                    assert(acc * 1000 <= 1000 * ((bucket as int) * 255) && (bucket as int) * 255
                        >= 255) by (nonlinear_arith)
                        requires
                            acc <= 255 * (bucket as int),
                            1 <= bucket,
                    ;
                    crate::arith::lemma_div_nonneg((acc * 1000) as int, (bucket as int) * 255);
                    crate::arith::lemma_div_le((acc * 1000) as int, (bucket as int) * 255, 1000);
                }
                ((acc * 1000) / ((bucket as u64) * 255)) > 120
            };
            out.push(lit);
            i = i + 1;
        }
        out
    }

    /// Run one full pipeline pass: clear, audio signals, tunnel update
    /// and draw (with one depth re-sort if a ring wrapped), time advance,
    /// VU aggregation, then the post-processing stages. On a zero-sized
    /// surface nothing happens. Returns this frame's VU columns for the
    /// external display collaborator.
    pub fn render_frame(&mut self) -> (vu_out: Vec<VuColumn>)
        requires
            old(self).wf(),
        ensures
            final(self).wf(),
            final(self).width == old(self).width,
            final(self).height == old(self).height,
            final(self).low_end == old(self).low_end,
            final(self).glow_on == old(self).glow_on,
            final(self).smooth_on == old(self).smooth_on,
            final(self).pressed == old(self).pressed,
            final(self).audio.spectrum == old(self).audio.spectrum,
            final(self).audio.active == old(self).audio.active,
            old(self).width == 0 || old(self).height == 0 ==> *final(self) == *old(self)
                && vu_out.len() == 0,
            old(self).width > 0 && old(self).height > 0 ==> {
                let a = old(self).audio;
                let bass = spec_bass(a.spectrum@, a.active as int);
                let env = spec_env_step(a.env_milli as int, bass);
                let boost = spec_frame_boost(a);
                let speed = spec_dyn_speed(boost);
                &&& final(self).fb.data.len() == old(self).width * old(self).height * 4
                &&& alpha_opaque(final(self).fb.data@)
                &&& final(self).invert_value == spec_ramp_step(
                    old(self).invert_value as int,
                    old(self).pressed,
                )
                &&& final(self).audio.env_milli == env
                &&& final(self).audio.boost_raw_milli == spec_boost_step(
                    a.boost_raw_milli as int,
                    spec_pulse(env, bass),
                )
                &&& final(self).tunnel.rings.len() == old(self).tunnel.rings.len()
                &&& (exists|i: int|
                    0 <= i < old(self).tunnel.rings.len() && spec_wraps(
                        (#[trigger] old(self).tunnel.rings[i]).z_milli as int,
                        speed,
                        old(self).pressed,
                    )) ==> sorted_by_depth(final(self).tunnel.rings@)
                &&& !(exists|i: int|
                    0 <= i < old(self).tunnel.rings.len() && spec_wraps(
                        (#[trigger] old(self).tunnel.rings[i]).z_milli as int,
                        speed,
                        old(self).pressed,
                    )) ==> forall|i: int|
                    0 <= i < old(self).tunnel.rings.len() ==> (
                    #[trigger] final(self).tunnel.rings[i]).z_milli == spec_advance_z(
                        old(self).tunnel.rings[i].z_milli as int,
                        speed,
                        old(self).pressed,
                    )
                &&& !(exists|i: int|
                    0 <= i < old(self).tunnel.rings.len() && spec_wraps(
                        (#[trigger] old(self).tunnel.rings[i]).z_milli as int,
                        speed,
                        old(self).pressed,
                    )) ==> forall|i: int|
                    0 <= i < old(self).tunnel.rings.len() ==> ring_same_identity(
                        #[trigger] final(self).tunnel.rings[i],
                        old(self).tunnel.rings[i],
                    )
                &&& depths_of(final(self).tunnel.rings@).to_multiset() == advanced_depths_of(
                    old(self).tunnel.rings@,
                    speed,
                    old(self).pressed,
                ).to_multiset()
                &&& final(self).time_phase_milli == (if old(self).pressed {
                    (old(self).time_phase_milli + (TAU_MILLI - 5)) % (TAU_MILLI as int)
                } else {
                    (old(self).time_phase_milli + 5) % (TAU_MILLI as int)
                })
                &&& vu_out.len() == old(self).vu.cols
                &&& forall|i: int|
                    0 <= i < vu_out.len() ==> spec_col_ok(
                        a.spectrum@,
                        a.active as int,
                        old(self).vu.cols as int,
                        old(self).vu.prev_low[i] as int,
                        old(self).vu.prev_mid[i] as int,
                        old(self).vu.prev_high[i] as int,
                        i,
                        #[trigger] vu_out[i],
                        final(self).vu.prev_low[i] as int,
                        final(self).vu.prev_mid[i] as int,
                        final(self).vu.prev_high[i] as int,
                    )
            },
    {
        if self.width == 0 || self.height == 0 {
            return Vec::new();
        }
        let sig = self.audio.compute_frame();
        let c1: ColorMilli = self.osc1.step();
        let c2raw: ColorMilli = self.osc2.step();
        let c2: ColorMilli = limit_color(c2raw, 250);
        self.fb.clear();
        proof {
            assert(alpha_opaque(self.fb.data@));
        }
        let ghost post_clear = self.fb.data@;
        let wrapped: bool = self.tunnel.advance_frame(
            &mut self.fb,
            &self.audio,
            &sig,
            self.pressed,
            &self.trig,
            c1,
            c2,
        );
        proof {
            lemma_keeps_alpha_opaque(post_clear, self.fb.data@);
        }
        if wrapped {
            self.tunnel.depth_sort();
        }
        if self.pressed {
            self.time_phase_milli = (self.time_phase_milli + (TAU_MILLI - 5)) % TAU_MILLI;
        } else {
            self.time_phase_milli = (self.time_phase_milli + 5) % TAU_MILLI;
        }
        let vu_out: Vec<VuColumn> = self.vu.step(&self.audio);
        if self.glow_on && !self.low_end {
            self.fb.blur_h_into(&mut self.glow);
            self.glow.blur_v_into(&mut self.temp);
            self.temp.gamma_reshape();
            let op: u32 = glow_opacity(sig.energy_milli, sig.bass_milli);
            self.fb.composite_glow(&self.temp, op);
            proof {
                assert(alpha_opaque(self.fb.data@));
            }
        }
        if self.smooth_on && !self.low_end {
            self.fb.temporal_smooth(&mut self.prev);
            proof {
                assert(alpha_opaque(self.fb.data@));
            }
        }
        let factor: u32 = darken_factor(sig.energy_milli);
        if factor < 999 {
            let ghost pre_darken = self.fb.data@;
            self.fb.scale_channels(factor);
            proof {
                assert forall|k: int|
                    0 <= k < self.fb.data.len() && k % 4 == 3 implies #[trigger] self.fb.data[k]
                    == 255 by {
                    assert(self.fb.data[k] == pre_darken[k]);
                }
            }
        }
        let ghost pre_scan = self.fb.data@;
        self.fb.scanlines();
        proof {
            assert forall|k: int|
                0 <= k < self.fb.data.len() && k % 4 == 3 implies #[trigger] self.fb.data[k]
                == 255 by {
                assert(self.fb.data[k] == pre_scan[k]);
            }
        }
        self.invert_value = ramp_step(self.invert_value, self.pressed);
        if self.invert_value > 0 {
            self.fb.soft_invert(self.invert_value);
            proof {
                assert(alpha_opaque(self.fb.data@));
            }
        }
        vu_out
    }
}

} // verus!
