//! The tunnel model: depth rings of sparse boundary segments.
//!
//! The tunnel is a fixed-length sequence of rings spanning z in
//! `[-FOV, FOV)` (z in thousandths of a unit, FOV = 400 units). Each ring
//! holds an alternating-parity sparse sequence of segments, so consecutive
//! rings interleave which angular positions are populated. Rings advance
//! in depth every frame at an audio-driven speed, wrap by two FOV when
//! they cross the ends, and a wrap triggers one depth re-sort. Geometry
//! and projection are integer fixed-point throughout.

use vstd::prelude::*;
use crate::audio::AudioFrame;
use crate::audio::AudioState;
use crate::color::ColorMilli;
use crate::framebuf::FrameBuf;
use crate::framebuf::keeps_alpha;
use crate::framebuf::lemma_keeps_alpha_refl;
use crate::framebuf::lemma_keeps_alpha_trans;
use crate::framebuf::lemma_only_recolors_keeps_alpha;
use crate::trig::Lcg;
use crate::trig::TAU_MILLI;
use crate::trig::TrigTable;
use crate::trig::cos_milli;
use crate::trig::sin_milli;

verus! {

/// Field of view in thousandths of a unit: rings live in `[-FOV, FOV]`.
pub const FOV_MILLI: i64 = 400000;

/// Base travel speed, thousandths of a unit per frame.
pub const SPEED_MILLI: i64 = 600;

/// The largest per-frame speed: base + clamped boost + capped wave.
pub const MAX_SPEED_MILLI: i64 = 9100;

/// Ring radius in thousandths of a unit.
pub const RADIUS_MILLI: i64 = 75000;

/// One corner point shared with the neighboring ring's face quad.
#[derive(Clone, Copy)]
pub struct SubPoint {
    /// Angular index into the ring's outline (0 ..= segment count).
    pub angle_index: usize,
    /// Local-space position, thousandths of a unit.
    pub x_milli: i64,
    pub y_milli: i64,
    /// Projected screen position, pixels.
    pub x2d: i64,
    pub y2d: i64,
}

impl SubPoint {
    pub open spec fn wf(self) -> bool {
        &&& self.angle_index <= 64
        &&& -200000 <= self.x_milli <= 200000
        &&& -200000 <= self.y_milli <= 200000
        &&& -200000 <= self.x2d <= 200000
        &&& -200000 <= self.y2d <= 200000
    }
}

/// One angular sample point on a ring's circular outline.
pub struct Segment {
    /// Local-space position, thousandths of a unit.
    pub x_milli: i64,
    pub y_milli: i64,
    /// Projected screen position, pixels.
    pub x2d: i64,
    pub y2d: i64,
    /// Angular index into the ring's outline.
    pub angle_index: usize,
    /// Total angular positions on this ring (48 or 64).
    pub seg_count: usize,
    /// Base radius, thousandths of a unit.
    pub radius_milli: i64,
    /// Audio-modulated radius for this frame.
    pub radius_audio_milli: i64,
    /// The spectrum bin that deforms this segment, picked pseudo-randomly
    /// from the mid/high range at build time.
    pub spectrum_bin: usize,
    /// The seven face-quad corners shared with the neighboring ring.
    pub subs: Vec<SubPoint>,
}

impl Segment {
    pub open spec fn wf(self) -> bool {
        &&& self.seg_count == 48 || self.seg_count == 64
        &&& self.angle_index <= 64
        &&& self.subs.len() == 7
        &&& forall|i: int| 0 <= i < self.subs.len() ==> (#[trigger] self.subs[i]).wf()
        &&& self.radius_milli == RADIUS_MILLI
        &&& -200000 <= self.radius_audio_milli <= 200000
        &&& -200000 <= self.x_milli <= 200000
        &&& -200000 <= self.y_milli <= 200000
        &&& -200000 <= self.x2d <= 200000
        &&& -200000 <= self.y2d <= 200000
        &&& 8 <= self.spectrum_bin < 1024
    }
}

/// One depth slice of the tunnel.
pub struct Ring {
    /// Sparse outline: alternating parity of populated positions.
    pub segs: Vec<Option<Segment>>,
    /// Position of this ring in the built sequence (parity source).
    pub ring_index: usize,
    /// Current depth, thousandths of a unit, always in `[-FOV, FOV]`.
    pub z_milli: i64,
    /// Projected center of this ring, pixels.
    pub center_x: i64,
    pub center_y: i64,
    /// Local-space circle center (fixed at the origin in this build).
    pub circle_cx_milli: i64,
    pub circle_cy_milli: i64,
    /// Ring radius, thousandths of a unit.
    pub radius_milli: i64,
    /// This frame's ring color, thousandths per channel.
    pub color_r_milli: u32,
    pub color_g_milli: u32,
    pub color_b_milli: u32,
}

impl Ring {
    pub open spec fn wf(self) -> bool {
        &&& -FOV_MILLI <= self.z_milli <= FOV_MILLI
        &&& self.radius_milli == RADIUS_MILLI
        &&& self.circle_cx_milli == 0
        &&& self.circle_cy_milli == 0
        &&& -20000 <= self.center_x <= 20000
        &&& -20000 <= self.center_y <= 20000
        &&& self.color_r_milli <= 2000
        &&& self.color_g_milli <= 2000
        &&& self.color_b_milli <= 2000
        &&& forall|j: int|
            0 <= j < self.segs.len() ==> ((#[trigger] self.segs[j]) matches Some(s) ==> s.wf())
    }
}

/// Rings in depth order (far to near: z descending).
pub open spec fn sorted_by_depth(rings: Seq<Ring>) -> bool {
    forall|a: int, b: int|
        0 <= a < b < rings.len() ==> (#[trigger] rings[a]).z_milli >= (#[trigger] rings[b]).z_milli
}

/// A segment slot keeps its identity across a frame: same occupancy,
/// and an occupied slot keeps its angular index, outline resolution,
/// base radius, spectrum bin and its number of face corners. Only the
/// per-frame values (positions, projections, audio radius) may move.
pub open spec fn seg_slot_same_identity(a: Option<Segment>, b: Option<Segment>) -> bool {
    match (a, b) {
        (Some(x), Some(y)) => {
            &&& x.angle_index == y.angle_index
            &&& x.seg_count == y.seg_count
            &&& x.radius_milli == y.radius_milli
            &&& x.spectrum_bin == y.spectrum_bin
            &&& x.subs.len() == y.subs.len()
        },
        (None, None) => true,
        _ => false,
    }
}

/// A ring keeps its identity across a frame: its place in the build
/// order, its radius, its outline length, and every slot's identity. No
/// segment is created or destroyed and the woven parity pattern stands.
pub open spec fn ring_same_identity(a: Ring, b: Ring) -> bool {
    &&& a.ring_index == b.ring_index
    &&& a.radius_milli == b.radius_milli
    &&& a.segs.len() == b.segs.len()
    &&& forall|j: int|
        0 <= j < a.segs.len() ==> seg_slot_same_identity(#[trigger] a.segs[j], b.segs[j])
}

/// The depths of a ring sequence, in order.
pub open spec fn depths_of(rings: Seq<Ring>) -> Seq<int> {
    rings.map_values(|r: Ring| r.z_milli as int)
}

/// The depths a ring sequence will hold after one frame's advance.
pub open spec fn advanced_depths_of(rings: Seq<Ring>, speed: int, reversed: bool) -> Seq<int> {
    rings.map_values(|r: Ring| spec_advance_z(r.z_milli as int, speed, reversed))
}

/// The whole tunnel.
pub struct Tunnel {
    pub rings: Vec<Ring>,
    /// Angular positions per ring: 48 in low-end mode, 64 otherwise.
    pub seg_count: usize,
    /// The geometry density this tunnel was built with.
    pub low_end: bool,
}

impl Tunnel {
    pub open spec fn wf(self) -> bool {
        &&& self.seg_count == (if self.low_end {
            48int
        } else {
            64int
        })
        &&& self.rings.len() <= 200
        &&& forall|i: int| 0 <= i < self.rings.len() ==> (#[trigger] self.rings[i]).wf()
        &&& forall|i: int|
            0 <= i < self.rings.len() ==> (#[trigger] self.rings[i]).segs.len() == self.seg_count
                + 1
    }

    /// How many depth rings the tunnel holds.
    pub fn ring_count(&self) -> (r: usize)
        ensures
            r == self.rings.len(),
    {
        self.rings.len()
    }

    /// The current depth of ring `i`, thousandths of a unit.
    pub fn ring_z_milli(&self, i: usize) -> (r: i64)
        requires
            i < self.rings.len(),
        ensures
            r == self.rings[i as int].z_milli,
    {
        self.rings[i].z_milli
    }

    /// Build the tunnel once: rings from -FOV to FOV at the density the
    /// performance mode asks for, each with its alternating-parity
    /// segments and pseudo-randomly assigned spectrum bins.
    pub fn build(low_end: bool, rng: &mut Lcg) -> (t: Tunnel)
        ensures
            t.wf(),
            t.low_end == low_end,
            t.rings.len() == (if low_end {
                80int
            } else {
                160int
            }),
            forall|i: int|
                0 <= i < t.rings.len() ==> spec_built_ring(
                    #[trigger] t.rings[i],
                    i,
                    -400000 + i * (if low_end {
                        10000int
                    } else {
                        5000int
                    }),
                    if low_end {
                        48int
                    } else {
                        64int
                    },
                ),
    {
        let seg_count: usize = if low_end {
            48
        } else {
            64
        };
        let n_rings: usize = if low_end {
            80
        } else {
            160
        };
        let step: i64 = if low_end {
            10000
        } else {
            5000
        };
        let mut rings: Vec<Ring> = Vec::new();
        let mut index: usize = 0;
        while index < n_rings
            invariant
                n_rings <= 160,
                (n_rings as i64) * step == 800000,
                step == (if low_end {
                    10000int
                } else {
                    5000int
                }),
                seg_count == (if low_end {
                    48int
                } else {
                    64int
                }),
                index <= n_rings,
                rings.len() == index,
                forall|i: int| 0 <= i < rings.len() ==> (#[trigger] rings[i]).wf(),
                forall|i: int|
                    0 <= i < rings.len() ==> (#[trigger] rings[i]).segs.len() == seg_count + 1,
                forall|i: int|
                    0 <= i < rings.len() ==> spec_built_ring(
                        #[trigger] rings[i],
                        i,
                        -400000 + i * step,
                        seg_count as int,
                    ),
            decreases n_rings - index,
        {
            proof {
                assert(0 <= (index as i64) * step <= 800000 - step) by (nonlinear_arith)
                    requires
                        0 <= (index as i64),
                        (index as i64) < (n_rings as i64),
                        (n_rings as i64) * step == 800000,
                        0 < step,
                ;
            }
            let z: i64 = -400000 + (index as i64) * step;
            let ring: Ring = build_ring(index, z, seg_count, rng);
            rings.push(ring);
            index = index + 1;
        }
        Tunnel { rings, seg_count, low_end }
    }
}

/// A freshly built segment at angular index `j`: undeformed radius, no
/// projection yet, and seven face corners whose angular indices
/// alternate previous/current outline point (even corners the previous,
/// odd corners this one).
pub open spec fn spec_fresh_segment(s: Segment, j: int, seg_count: int) -> bool {
    let prev = if j > 0 {
        j - 1
    } else {
        seg_count - 1
    };
    &&& s.angle_index == j
    &&& s.seg_count == seg_count
    &&& s.radius_milli == RADIUS_MILLI
    &&& s.radius_audio_milli == RADIUS_MILLI
    &&& s.x2d == 0 && s.y2d == 0
    &&& s.subs.len() == 7
    &&& forall|k: int|
        0 <= k < 7 ==> (#[trigger] s.subs[k]).angle_index == (if k % 2 == 0 {
            prev
        } else {
            j
        })
}

/// A freshly built ring: its place and depth in the ladder, and the
/// alternating-parity population of its outline (position j holds a
/// segment exactly when j's parity matches the ring's).
pub open spec fn spec_built_ring(r: Ring, index: int, z: int, seg_count: int) -> bool {
    &&& r.ring_index == index
    &&& r.z_milli == z
    &&& r.segs.len() == seg_count + 1
    &&& forall|j: int|
        0 <= j < r.segs.len() ==> (((#[trigger] r.segs[j]) is Some) <==> j % 2 == index % 2)
    &&& forall|j: int|
        0 <= j < r.segs.len() ==> ((#[trigger] r.segs[j]) matches Some(s) ==> spec_fresh_segment(
            s,
            j,
            seg_count,
        ))
}

/// One outline point of a fresh ring: the angle of index `i` out of
/// `seg_count`, scaled by the base radius.
fn outline_point(i: usize, seg_count: usize) -> (p: (i64, i64))
    requires
        seg_count == 48 || seg_count == 64,
        i <= 64,
    ensures
        -75000 <= p.0 <= 75000,
        -75000 <= p.1 <= 75000,
{
    let theta: u32 = ((i as u32) * TAU_MILLI / (seg_count as u32)) % TAU_MILLI;
    let c: i32 = cos_milli(theta);
    let s: i32 = sin_milli(theta);
    ((c as i64) * 75, (s as i64) * 75)
}

/// Build one segment at angular index `idx`, with its seven face-quad
/// corners alternating between the previous and current outline points.
fn build_segment(
    idx: usize,
    prev_idx: usize,
    x: i64,
    y: i64,
    seg_count: usize,
    bin: usize,
) -> (s: Segment)
    requires
        seg_count == 48 || seg_count == 64,
        idx <= 64,
        prev_idx == (if idx > 0 {
            idx - 1
        } else {
            seg_count - 1
        }),
        -75000 <= x <= 75000,
        -75000 <= y <= 75000,
        8 <= bin < 1024,
    ensures
        s.wf(),
        s.spectrum_bin == bin,
        s.x_milli == x,
        s.y_milli == y,
        spec_fresh_segment(s, idx as int, seg_count as int),
{
    let mut subs: Vec<SubPoint> = Vec::new();
    let mut si: usize = 0;
    while si < 7
        invariant
            si <= 7,
            subs.len() == si,
            idx <= 64,
            prev_idx <= 64,
            forall|j: int| 0 <= j < subs.len() ==> (#[trigger] subs[j]).wf(),
            forall|j: int|
                0 <= j < subs.len() ==> (#[trigger] subs[j]).angle_index == (if j % 2 == 0 {
                    prev_idx as int
                } else {
                    idx as int
                }),
        decreases 7 - si,
    {
        let ai: usize = if si % 2 == 0 {
            prev_idx
        } else {
            idx
        };
        subs.push(SubPoint { angle_index: ai, x_milli: 0, y_milli: 0, x2d: 0, y2d: 0 });
        si = si + 1;
    }
    Segment {
        x_milli: x,
        y_milli: y,
        x2d: 0,
        y2d: 0,
        angle_index: idx,
        seg_count,
        radius_milli: RADIUS_MILLI,
        radius_audio_milli: RADIUS_MILLI,
        spectrum_bin: bin,
        subs,
    }
}

/// Build one ring at depth `z`: populated positions alternate with the
/// ring's parity, so neighboring rings weave.
fn build_ring(index: usize, z: i64, seg_count: usize, rng: &mut Lcg) -> (r: Ring)
    requires
        seg_count == 48 || seg_count == 64,
        -400000 <= z <= 400000,
    ensures
        r.wf(),
        r.segs.len() == seg_count + 1,
        r.z_milli == z,
        spec_built_ring(r, index as int, z as int, seg_count as int),
{
    let toggle: usize = index % 2;
    let mut segs: Vec<Option<Segment>> = Vec::new();
    let mut i: usize = 0;
    while i <= seg_count
        invariant
            seg_count == 48 || seg_count == 64,
            toggle == (index as int) % 2,
            i <= seg_count + 1,
            segs.len() == i,
            forall|j: int|
                0 <= j < segs.len() ==> ((#[trigger] segs[j]) matches Some(s) ==> s.wf()),
            forall|j: int|
                0 <= j < segs.len() ==> (((#[trigger] segs[j]) is Some) <==> j % 2 == (
                index as int) % 2),
            forall|j: int|
                0 <= j < segs.len() ==> ((#[trigger] segs[j]) matches Some(s)
                    ==> spec_fresh_segment(s, j, seg_count as int)),
        decreases seg_count + 1 - i,
    {
        if i % 2 == toggle {
            let prev_idx: usize = if i > 0 {
                i - 1
            } else {
                seg_count - 1
            };
            let p: (i64, i64) = outline_point(i, seg_count);
            let bin: usize = rng.next_in_range(8, 1024) as usize;
            let seg: Segment = build_segment(i, prev_idx, p.0, p.1, seg_count, bin);
            segs.push(Some(seg));
        } else {
            segs.push(None);
        }
        i = i + 1;
    }
    Ring {
        segs,
        ring_index: index,
        z_milli: z,
        center_x: 0,
        center_y: 0,
        circle_cx_milli: 0,
        circle_cy_milli: 0,
        radius_milli: RADIUS_MILLI,
        color_r_milli: 0,
        color_g_milli: 0,
        color_b_milli: 0,
    }
}

/// The per-frame ring color rule: the oscillator hue attenuated by the
/// normalized depth `(z + FOV) / FOV` (thousandths), floored by the
/// second oscillator's channel so distant rings fade to the floor color.
pub open spec fn spec_ring_color(hue: int, floor: int, z: int) -> int {
    let att = (z + 400000) / 400;
    if hue - att < floor {
        floor
    } else {
        hue - att
    }
}

/// The projected ring center along one axis: half the surface size
/// pulled toward the fixed perspective offset, scaled with depth.
pub open spec fn spec_ring_center(half_dim: int, offset: int, z: int) -> int {
    half_dim - (offset * (400000 - z)) / 380000
}

/// Truncating (toward-zero) division, the machine's signed division.
pub open spec fn tz_div(a: int, d: int) -> int {
    if a >= 0 {
        a / d
    } else {
        -((-a) / d)
    }
}

/// `a * b / 1000` with truncating division, for a trig value times a
/// radius.
fn mul_div_1000(a: i64, b: i64) -> (r: i64)
    requires
        -1000 <= a <= 1000,
        0 <= b <= 100000,
    ensures
        r == tz_div(a * b, 1000),
        -100000 <= r <= 100000,
{
    proof {
        assert(-100000000 <= a * b <= 100000000) by (nonlinear_arith)
            requires
                -1000 <= a <= 1000,
                0 <= b <= 100000,
        ;
        crate::arith::lemma_div_le(if a * b >= 0 {
            a * b
        } else {
            -(a * b)
        }, 1000, 100000);
        crate::arith::lemma_div_nonneg(if a * b >= 0 {
            a * b
        } else {
            -(a * b)
        }, 1000);
    }
    let p: i64 = a * b;
    if p >= 0 {
        ((p as u64) / 1000) as i64
    } else {
        0 - (((0 - p) as u64 / 1000) as i64)
    }
}

/// Perspective projection of one local coordinate: scale (thousandths)
/// then offset by the ring's projected center.
fn project(v: i64, scale: i64, center: i64) -> (p: i64)
    requires
        -200000 <= v <= 200000,
        0 <= scale <= 400000,
        -20000 <= center <= 20000,
    ensures
        p == tz_div(v * scale, 1000000) + center,
        -100000 <= p <= 100000,
{
    proof {
        assert(-80000000000 <= v * scale <= 80000000000) by (nonlinear_arith)
            requires
                -200000 <= v <= 200000,
                0 <= scale <= 400000,
        ;
        crate::arith::lemma_div_le(if v * scale >= 0 {
            v * scale
        } else {
            -(v * scale)
        }, 1000000, 80000);
        crate::arith::lemma_div_nonneg(if v * scale >= 0 {
            v * scale
        } else {
            -(v * scale)
        }, 1000000);
    }
    let p: i64 = v * scale;
    let q: i64 = if p >= 0 {
        ((p as u64) / 1000000) as i64
    } else {
        0 - (((0 - p) as u64 / 1000000) as i64)
    };
    q + center
}

/// The audio deformation of a segment's radius this frame:
/// `freq / 18 * (1 + boost * 0.3)`, in thousandths of a unit.
pub open spec fn spec_freq_add(freq: int, boost: int) -> int {
    (freq * (1000 + (boost * 3) / 10)) / 18
}

fn freq_add_milli(freq: u8, boost: u32) -> (r: i64)
    requires
        boost <= 6500,
    ensures
        r == spec_freq_add(freq as int, boost as int),
        0 <= r <= 41792,
{
    let factor: u32 = 1000 + (boost * 3) / 10;
    proof {
        assert((freq as int) * (factor as int) <= 255 * 2950) by (nonlinear_arith)
            requires
                freq <= 255,
                factor <= 2950,
        ;
        assert(0 <= (freq as int) * (factor as int)) by (nonlinear_arith)
            requires
                0 <= freq,
                0 <= factor,
        ;
        crate::arith::lemma_div_le((freq as int) * (factor as int), 18, 41792);
        crate::arith::lemma_div_nonneg((freq as int) * (factor as int), 18);
    }
    (((freq as u64) * (factor as u64)) / 18) as i64
}

/// Depth fog for the far side: zero up to the near threshold, then a
/// smoothstep ramp to full fog, in thousandths.
pub open spec fn spec_fog(z: int) -> int {
    if z <= 80000 {
        0
    } else {
        let raw = (z - 80000) / 288;
        let t = if raw > 1000 {
            1000
        } else {
            raw
        };
        (t * t * (3000 - 2 * t)) / 1000000
    }
}

fn fog_milli(z: i64) -> (r: u32)
    requires
        -400000 <= z <= 400000,
    ensures
        r == spec_fog(z as int),
        r <= 1000,
{
    if z <= 80000 {
        0
    } else {
        let raw: i64 = (((z - 80000) as u64) / 288) as i64;
        let t: i64 = if raw > 1000 {
            1000
        } else {
            raw
        };
        proof {
            assert(0 <= t * t <= 1000000 && 0 <= t * t * (3000 - 2 * t)
                <= 1000000000) by (nonlinear_arith)
                requires
                    0 <= t <= 1000,
            ;
            crate::arith::lemma_div_le(t * t * (3000 - 2 * t), 1000000, 1000);
            crate::arith::lemma_div_nonneg(t * t * (3000 - 2 * t), 1000000);
        }
        ((t * t * (3000 - 2 * t)) / 1000000) as u32
    }
}

/// Per-face brightness: the ring's depth fraction times the audio-driven
/// base plus the raw bin intensity, capped at full brightness. In
/// thousandths of a byte value.
pub open spec fn spec_line_value(i: int, total: int, base: int, freq: int) -> int {
    let raw = (i * (base + freq * 1000)) / total;
    if raw > 255000 {
        255000
    } else {
        raw
    }
}

fn line_value_milli(i: usize, total: usize, base: u32, freq: u8) -> (r: u32)
    requires
        i < total,
        total <= 200,
        base <= 220000,
    ensures
        r == spec_line_value(i as int, total as int, base as int, freq as int),
        r <= 255000,
{
    proof {
        assert(0 <= (i as int) * ((base + (freq as int) * 1000)) <= 200 * 475000)
            by (nonlinear_arith)
            requires
                0 <= i <= 200,
                base <= 220000,
                freq <= 255,
        ;
        crate::arith::lemma_div_nonneg((i as int) * ((base + (freq as int) * 1000)), total as int);
    }
    let raw: u32 = (((i as u64) * ((base as u64) + (freq as u64) * 1000)) / (total as u64)) as u32;
    if raw > 255000 {
        255000
    } else {
        raw
    }
}

/// One face channel after saturation boost, far-side fog toward black,
/// and beat-driven whitening; the result is a plain byte value. The
/// saturated value is clamped into the byte range before fog and
/// whitening, so an over-saturated channel cannot go negative and then
/// be re-lifted by the whitening mix; the clamp happens here, once,
/// rather than at the final byte cast.
pub open spec fn spec_shade(c: int, luma: int, fog: int, wm: int) -> int {
    let sat = if c >= luma {
        luma + ((c - luma) * 56) / 10
    } else {
        luma - ((luma - c) * 56) / 10
    };
    let sat2 = if sat < 0 {
        0
    } else if sat > 255000 {
        255000
    } else {
        sat
    };
    let fogged = (sat2 * (1000 - fog)) / 1000;
    let white = fogged + ((255000 - fogged) * wm) / 1000;
    white / 1000
}

/// The full color of one face: the ring color scaled by the per-face
/// brightness, then each channel shaded (saturation boost, fog,
/// whitening) against the shared luma.
pub open spec fn spec_face_rgb(
    col_r: int,
    col_g: int,
    col_b: int,
    energy: int,
    freq: int,
    ring_i: int,
    total: int,
    fog: int,
    wm: int,
) -> (int, int, int) {
    let base = 20000 + energy * 200;
    let lv = spec_line_value(ring_i, total, base, freq);
    let cr_m = (col_r * lv) / 1000;
    let cg_m = (col_g * lv) / 1000;
    let cb_m = (col_b * lv) / 1000;
    let luma = (cr_m + cg_m + cb_m) / 3;
    (spec_shade(cr_m, luma, fog, wm), spec_shade(cg_m, luma, fog, wm), spec_shade(
        cb_m,
        luma,
        fog,
        wm,
    ))
}

fn shade_channel(c: u32, luma: u32, fog: u32, wm: u32) -> (r: u8)
    requires
        c <= 510000,
        luma <= 510000,
        fog <= 1000,
        wm <= 1000,
    ensures
        r == spec_shade(c as int, luma as int, fog as int, wm as int),
{
    let ci: i64 = c as i64;
    let li: i64 = luma as i64;
    let sat: i64 = if ci >= li {
        li + ((ci - li) * 56) / 10
    } else {
        li - ((li - ci) * 56) / 10
    };
    let sat2: i64 = if sat < 0 {
        0
    } else if sat > 255000 {
        255000
    } else {
        sat
    };
    proof {
        assert(0 <= sat2 * (1000 - fog) <= 255000000) by (nonlinear_arith)
            requires
                0 <= sat2 <= 255000,
                0 <= fog <= 1000,
        ;
        crate::arith::lemma_div_le(sat2 * (1000 - fog), 1000, 255000);
        crate::arith::lemma_div_nonneg(sat2 * (1000 - fog), 1000);
    }
    let fogged: i64 = (sat2 * (1000 - (fog as i64))) / 1000;
    proof {
        assert(0 <= (255000 - fogged) * wm <= (255000 - fogged) * 1000) by (nonlinear_arith)
            requires
                0 <= fogged <= 255000,
                0 <= wm <= 1000,
        ;
        crate::arith::lemma_div_le((255000 - fogged) * (wm as int), 1000, 255000 - fogged);
        crate::arith::lemma_div_nonneg((255000 - fogged) * (wm as int), 1000);
    }
    let white: i64 = fogged + ((255000 - fogged) * (wm as i64)) / 1000;
    proof {
        crate::arith::lemma_div_le(white as int, 1000, 255);
        crate::arith::lemma_div_nonneg(white as int, 1000);
    }
    (white / 1000) as u8
}

/// `y` is the nine-fifths power of `x/1000`, in thousandths: the sharp
/// threshold curve of the beat whitening.
pub open spec fn spec_is_pow95(x: int, y: int) -> bool {
    let x3 = x * x * x;
    let x9 = x3 * x3 * x3;
    let y2 = (y + 1) * (y + 1);
    let y5lo = y * y * (y * y) * y;
    &&& y5lo * 1000000000000 <= x9
    &&& x9 < y2 * y2 * (y + 1) * 1000000000000
}

/// The nine-fifths power by bounded search.
pub fn pow_nine_fifths(x: u32) -> (y: u32)
    requires
        x <= 1000,
    ensures
        spec_is_pow95(x as int, y as int),
        y <= 1000,
{
    proof {
        assert((x as u128) * (x as u128) <= 1000000 && (x as u128) * (x as u128) * (x as u128)
            <= 1000000000) by (nonlinear_arith)
            requires
                x <= 1000,
        ;
    }
    let x3: u128 = (x as u128) * (x as u128) * (x as u128);
    proof {
        assert(x3 * x3 <= 1000000000000000000u128 && x3 * x3 * x3
            <= 1000000000000000000000000000u128) by (nonlinear_arith)
            requires
                x3 <= 1000000000,
        ;
    }
    let x9: u128 = x3 * x3 * x3;
    let mut y: u32 = 0;
    while pow5_scaled(y + 1) <= x9
        invariant
            y <= 1000,
            x <= 1000,
            x3 == (x as int) * (x as int) * (x as int),
            x9 == x3 * x3 * x3,
            x9 <= 1000000000000000000000000000,
            ((y as int) * (y as int) * ((y as int) * (y as int)) * (y as int)) * 1000000000000
                <= x9,
        decreases 1000 - y,
    {
        proof {
            assert(y < 1000) by (nonlinear_arith)
                requires
                    ((y + 1) as int) * ((y + 1) as int) * (((y + 1) as int) * ((y + 1) as int)) * ((
                    y + 1) as int) * 1000000000000 <= x9,
                    x9 <= 1000000000000000000000000000,
                    0 <= y,
            ;
        }
        y = y + 1;
    }
    y
}

/// `v^5 * 10^12`, for the bounded search above.
fn pow5_scaled(v: u32) -> (r: u128)
    requires
        v <= 1001,
    ensures
        r == ((v as int) * (v as int) * ((v as int) * (v as int)) * (v as int)) * 1000000000000,
{
    proof {
        assert((v as u128) * (v as u128) <= 1002001 && (v as u128) * (v as u128) * ((
        v as u128) * (v as u128)) <= 1004006004001u128 && (v as u128) * (v as u128) * ((
        v as u128) * (v as u128)) * (v as u128) <= 1005010010005001000u128) by (nonlinear_arith)
            requires
                v <= 1001,
        ;
    }
    let v2: u128 = (v as u128) * (v as u128);
    let v5: u128 = v2 * v2 * (v as u128);
    v5 * 1000000000000
}

/// The spectrum intensity a segment reads: bin lookups wrap modulo the
/// live active-bin count and a silent spectrum reads as zero.
pub open spec fn spec_spectrum_at(s: Seq<u8>, active: int, bin: int) -> int {
    if active <= 0 {
        0
    } else {
        s[bin % active] as int
    }
}

fn spectrum_at(audio: &AudioState, bin: usize) -> (f: u8)
    requires
        audio.wf(),
    ensures
        f as int == spec_spectrum_at(audio.spectrum@, audio.active as int, bin as int),
{
    if audio.active == 0 {
        0
    } else {
        audio.spectrum[bin % audio.active]
    }
}

impl FrameBuf {
    /// One face edge: a line whose contract here is only that it keeps
    /// the alpha bytes sane (the exact pixel contract lives on the
    /// rasterizer itself).
    fn face_line(&mut self, x1: i64, y1: i64, x2: i64, y2: i64, r: u8, g: u8, b: u8)
        requires
            old(self).wf(),
            -200000 <= x1 <= 200000,
            -200000 <= y1 <= 200000,
            -200000 <= x2 <= 200000,
            -200000 <= y2 <= 200000,
        ensures
            final(self).wf(),
            old(self).same_dims(*final(self)),
            keeps_alpha(old(self).data@, final(self).data@),
            crate::framebuf::only_recolors(old(self).data@, final(self).data@, r, g, b),
            0 <= x1 < old(self).width && 0 <= y1 < old(self).height
                ==> crate::framebuf::pixel_is(
                final(self).data@,
                old(self).width as int,
                x1 as int,
                y1 as int,
                r,
                g,
                b,
            ),
            0 <= x2 < old(self).width && 0 <= y2 < old(self).height
                ==> crate::framebuf::pixel_is(
                final(self).data@,
                old(self).width as int,
                x2 as int,
                y2 as int,
                r,
                g,
                b,
            ),
    {
        let ghost pre = self.data@;
        self.draw_line(x1 as i32, y1 as i32, x2 as i32, y2 as i32, r, g, b);
        proof {
            lemma_only_recolors_keeps_alpha(pre, self.data@, r, g, b);
        }
    }
}

impl Segment {
    /// One frame of segment work: project, deform the radius by the
    /// spectrum, refresh the seven face corners, draw the audio-deformed
    /// inner quad with its connecting edges (and the static outer quad
    /// when the ring is near), then recompute the local position.
    fn update_and_draw(
        &mut self,
        fb: &mut FrameBuf,
        trig: &TrigTable,
        freq: u8,
        boost: u32,
        energy: u32,
        white_mix: u32,
        z_milli: i64,
        draw_faces: bool,
        low_end: bool,
        ring_i: usize,
        total: usize,
        cx: i64,
        cy: i64,
        scale: i64,
        pcx: i64,
        pcy: i64,
        scale_back: i64,
        col_r: u32,
        col_g: u32,
        col_b: u32,
    )
        requires
            old(self).wf(),
            old(fb).wf(),
            trig.wf(),
            boost <= 6500,
            energy <= 1000,
            white_mix <= 600,
            -400000 <= z_milli <= 400000,
            ring_i < total,
            total <= 200,
            -20000 <= cx <= 20000,
            -20000 <= cy <= 20000,
            -20000 <= pcx <= 20000,
            -20000 <= pcy <= 20000,
            0 <= scale <= 400000,
            0 <= scale_back <= 400000,
            col_r <= 2000,
            col_g <= 2000,
            col_b <= 2000,
        ensures
            final(self).wf(),
            final(fb).wf(),
            old(fb).same_dims(*final(fb)),
            keeps_alpha(old(fb).data@, final(fb).data@),
            final(self).radius_audio_milli == 75000 - spec_freq_add(freq as int, boost as int),
            final(self).x2d == tz_div(old(self).x_milli * scale, 1000000) + cx,
            final(self).y2d == tz_div(old(self).y_milli * scale, 1000000) + cy,
            final(self).angle_index == old(self).angle_index,
            final(self).seg_count == old(self).seg_count,
            final(self).radius_milli == old(self).radius_milli,
            final(self).spectrum_bin == old(self).spectrum_bin,
            final(self).subs.len() == old(self).subs.len(),
            ({
                let zabs = if z_milli >= 0 {
                    z_milli as int
                } else {
                    -(z_milli as int)
                };
                let fog = spec_fog(z_milli as int);
                let px_ = tz_div(old(self).x_milli * scale, 1000000) + cx;
                let py_ = tz_div(old(self).y_milli * scale, 1000000) + cy;
                let pen = spec_face_rgb(
                    col_r as int,
                    col_g as int,
                    col_b as int,
                    energy as int,
                    freq as int,
                    ring_i as int,
                    total as int,
                    fog,
                    white_mix as int,
                );
                (!(low_end && zabs > 320000) && draw_faces && fog < 999 && spec_freq_add(
                    freq as int,
                    boost as int,
                ) > 0 && 0 <= px_ < old(fb).width && 0 <= py_ < old(fb).height) ==> {
                    &&& final(fb).data@[(py_ * old(fb).width + px_) * 4] == pen.0
                    &&& final(fb).data@[(py_ * old(fb).width + px_) * 4 + 1] == pen.1
                    &&& final(fb).data@[(py_ * old(fb).width + px_) * 4 + 2] == pen.2
                    &&& final(fb).data@[(py_ * old(fb).width + px_) * 4 + 3] == 255
                }
            }),
    {
        let ghost fb0 = old(fb).data@;
        proof {
            lemma_keeps_alpha_refl(fb0);
        }
        self.x2d = project(self.x_milli, scale, cx);
        self.y2d = project(self.y_milli, scale, cy);
        let fa: i64 = freq_add_milli(freq, boost);
        self.radius_audio_milli = 75000 - fa;
        let zabs: i64 = if z_milli >= 0 {
            z_milli
        } else {
            0 - z_milli
        };
        if low_end && zabs > 320000 {
            return ;
        }
        let mut fogged_out = false;
        if draw_faces {
            let fog: u32 = fog_milli(z_milli);
            if fog >= 999 {
                fogged_out = true;
            } else {
                let base: u32 = 20000 + energy * 200;
                let lv: u32 = line_value_milli(ring_i, total, base, freq);
                proof {
                    assert(col_r * lv <= 510000000 && col_g * lv <= 510000000 && col_b * lv
                        <= 510000000) by (nonlinear_arith)
                        requires
                            col_r <= 2000,
                            col_g <= 2000,
                            col_b <= 2000,
                            lv <= 255000,
                    ;
                    crate::arith::lemma_div_le((col_r * lv) as int, 1000, 510000);
                    crate::arith::lemma_div_le((col_g * lv) as int, 1000, 510000);
                    crate::arith::lemma_div_le((col_b * lv) as int, 1000, 510000);
                    crate::arith::lemma_div_nonneg((col_r * lv) as int, 1000);
                    crate::arith::lemma_div_nonneg((col_g * lv) as int, 1000);
                    crate::arith::lemma_div_nonneg((col_b * lv) as int, 1000);
                }
                let cr_m: u32 = (col_r * lv) / 1000;
                let cg_m: u32 = (col_g * lv) / 1000;
                let cb_m: u32 = (col_b * lv) / 1000;
                let luma: u32 = (cr_m + cg_m + cb_m) / 3;
                let cr: u8 = shade_channel(cr_m, luma, fog, white_mix);
                let cg: u8 = shade_channel(cg_m, luma, fog, white_mix);
                let cb: u8 = shade_channel(cb_m, luma, fog, white_mix);
                let ra: i64 = self.radius_audio_milli;
                let ghost snap = *self;
                let mut k: usize = 0;
                while k < 7
                    invariant
                        self.subs.len() == 7,
                        forall|t: int| 0 <= t < 7 ==> (#[trigger] self.subs[t]).wf(),
                        self.x_milli == snap.x_milli,
                        self.y_milli == snap.y_milli,
                        self.x2d == snap.x2d,
                        self.y2d == snap.y2d,
                        self.angle_index == snap.angle_index,
                        self.seg_count == snap.seg_count,
                        self.radius_milli == snap.radius_milli,
                        self.radius_audio_milli == snap.radius_audio_milli,
                        self.spectrum_bin == snap.spectrum_bin,
                        snap.wf(),
                        trig.wf(),
                        ra == self.radius_audio_milli,
                        33208 <= ra <= 75000,
                        -20000 <= cx <= 20000,
                        -20000 <= cy <= 20000,
                        -20000 <= pcx <= 20000,
                        -20000 <= pcy <= 20000,
                        0 <= scale <= 400000,
                        0 <= scale_back <= 400000,
                        k <= 7,
                    decreases 7 - k,
                {
                    let mut sp: SubPoint = self.subs[k];
                    let idx: usize = sp.angle_index % self.seg_count;
                    let cv: i32 = trig.cos_at(idx);
                    let sv: i32 = trig.sin_at(idx);
                    let rad: i64 = if k <= 2 {
                        ra
                    } else {
                        75000
                    };
                    sp.x_milli = mul_div_1000(cv as i64, rad);
                    sp.y_milli = mul_div_1000(sv as i64, rad);
                    let back: bool = k == 1 || k == 2 || k == 5 || k == 6;
                    if back {
                        sp.x2d = project(sp.x_milli, scale_back, pcx);
                        sp.y2d = project(sp.y_milli, scale_back, pcy);
                    } else {
                        sp.x2d = project(sp.x_milli, scale, cx);
                        sp.y2d = project(sp.y_milli, scale, cy);
                    }
                    self.subs.set(k, sp);
                    k = k + 1;
                }
                let p1x: i64 = self.x2d;
                let p1y: i64 = self.y2d;
                let s1: SubPoint = self.subs[1];
                let s2: SubPoint = self.subs[2];
                let s0: SubPoint = self.subs[0];
                let s3: SubPoint = self.subs[3];
                let s4: SubPoint = self.subs[4];
                let s6: SubPoint = self.subs[6];
                let s5: SubPoint = self.subs[5];
                if fa > 0 {
                    let ghost a1 = fb.data@;
                    fb.face_line(p1x, p1y, s1.x2d, s1.y2d, cr, cg, cb);
                    proof {
                        lemma_keeps_alpha_trans(fb0, a1, fb.data@);
                    }
                    let ghost a2 = fb.data@;
                    fb.face_line(s1.x2d, s1.y2d, s2.x2d, s2.y2d, cr, cg, cb);
                    proof {
                        lemma_keeps_alpha_trans(fb0, a2, fb.data@);
                        if 0 <= p1x < fb.width && 0 <= p1y < fb.height
                            && crate::framebuf::pixel_is(
                            a2,
                            fb.width as int,
                            p1x as int,
                            p1y as int,
                            cr,
                            cg,
                            cb,
                        ) {
                            crate::framebuf::lemma_pixel_is_stable(
                                a2,
                                fb.data@,
                                fb.width as int,
                                fb.height as int,
                                p1x as int,
                                p1y as int,
                                cr,
                                cg,
                                cb,
                            );
                        }
                    }
                    let ghost a3 = fb.data@;
                    fb.face_line(s2.x2d, s2.y2d, s0.x2d, s0.y2d, cr, cg, cb);
                    proof {
                        lemma_keeps_alpha_trans(fb0, a3, fb.data@);
                        if 0 <= p1x < fb.width && 0 <= p1y < fb.height
                            && crate::framebuf::pixel_is(
                            a3,
                            fb.width as int,
                            p1x as int,
                            p1y as int,
                            cr,
                            cg,
                            cb,
                        ) {
                            crate::framebuf::lemma_pixel_is_stable(
                                a3,
                                fb.data@,
                                fb.width as int,
                                fb.height as int,
                                p1x as int,
                                p1y as int,
                                cr,
                                cg,
                                cb,
                            );
                        }
                    }
                    let ghost a4 = fb.data@;
                    fb.face_line(s0.x2d, s0.y2d, p1x, p1y, cr, cg, cb);
                    proof {
                        lemma_keeps_alpha_trans(fb0, a4, fb.data@);
                        if 0 <= p1x < fb.width && 0 <= p1y < fb.height
                            && crate::framebuf::pixel_is(
                            a4,
                            fb.width as int,
                            p1x as int,
                            p1y as int,
                            cr,
                            cg,
                            cb,
                        ) {
                            crate::framebuf::lemma_pixel_is_stable(
                                a4,
                                fb.data@,
                                fb.width as int,
                                fb.height as int,
                                p1x as int,
                                p1y as int,
                                cr,
                                cg,
                                cb,
                            );
                        }
                    }
                    let ghost a5 = fb.data@;
                    fb.face_line(s3.x2d, s3.y2d, p1x, p1y, cr, cg, cb);
                    proof {
                        lemma_keeps_alpha_trans(fb0, a5, fb.data@);
                        if 0 <= p1x < fb.width && 0 <= p1y < fb.height
                            && crate::framebuf::pixel_is(
                            a5,
                            fb.width as int,
                            p1x as int,
                            p1y as int,
                            cr,
                            cg,
                            cb,
                        ) {
                            crate::framebuf::lemma_pixel_is_stable(
                                a5,
                                fb.data@,
                                fb.width as int,
                                fb.height as int,
                                p1x as int,
                                p1y as int,
                                cr,
                                cg,
                                cb,
                            );
                        }
                    }
                    let ghost a6 = fb.data@;
                    fb.face_line(s4.x2d, s4.y2d, s0.x2d, s0.y2d, cr, cg, cb);
                    proof {
                        lemma_keeps_alpha_trans(fb0, a6, fb.data@);
                        if 0 <= p1x < fb.width && 0 <= p1y < fb.height
                            && crate::framebuf::pixel_is(
                            a6,
                            fb.width as int,
                            p1x as int,
                            p1y as int,
                            cr,
                            cg,
                            cb,
                        ) {
                            crate::framebuf::lemma_pixel_is_stable(
                                a6,
                                fb.data@,
                                fb.width as int,
                                fb.height as int,
                                p1x as int,
                                p1y as int,
                                cr,
                                cg,
                                cb,
                            );
                        }
                    }
                    let ghost a7 = fb.data@;
                    fb.face_line(s6.x2d, s6.y2d, s2.x2d, s2.y2d, cr, cg, cb);
                    proof {
                        lemma_keeps_alpha_trans(fb0, a7, fb.data@);
                        if 0 <= p1x < fb.width && 0 <= p1y < fb.height
                            && crate::framebuf::pixel_is(
                            a7,
                            fb.width as int,
                            p1x as int,
                            p1y as int,
                            cr,
                            cg,
                            cb,
                        ) {
                            crate::framebuf::lemma_pixel_is_stable(
                                a7,
                                fb.data@,
                                fb.width as int,
                                fb.height as int,
                                p1x as int,
                                p1y as int,
                                cr,
                                cg,
                                cb,
                            );
                        }
                    }
                    let ghost a8 = fb.data@;
                    fb.face_line(s5.x2d, s5.y2d, s1.x2d, s1.y2d, cr, cg, cb);
                    proof {
                        lemma_keeps_alpha_trans(fb0, a8, fb.data@);
                        if 0 <= p1x < fb.width && 0 <= p1y < fb.height
                            && crate::framebuf::pixel_is(
                            a8,
                            fb.width as int,
                            p1x as int,
                            p1y as int,
                            cr,
                            cg,
                            cb,
                        ) {
                            crate::framebuf::lemma_pixel_is_stable(
                                a8,
                                fb.data@,
                                fb.width as int,
                                fb.height as int,
                                p1x as int,
                                p1y as int,
                                cr,
                                cg,
                                cb,
                            );
                        }
                    }
                }
                if z_milli < 133333 && !low_end {
                    let ghost b1 = fb.data@;
                    fb.face_line(s3.x2d, s3.y2d, s4.x2d, s4.y2d, cr, cg, cb);
                    proof {
                        lemma_keeps_alpha_trans(fb0, b1, fb.data@);
                        if 0 <= p1x < fb.width && 0 <= p1y < fb.height
                            && crate::framebuf::pixel_is(
                            b1,
                            fb.width as int,
                            p1x as int,
                            p1y as int,
                            cr,
                            cg,
                            cb,
                        ) {
                            crate::framebuf::lemma_pixel_is_stable(
                                b1,
                                fb.data@,
                                fb.width as int,
                                fb.height as int,
                                p1x as int,
                                p1y as int,
                                cr,
                                cg,
                                cb,
                            );
                        }
                    }
                    let ghost b2 = fb.data@;
                    fb.face_line(s4.x2d, s4.y2d, s6.x2d, s6.y2d, cr, cg, cb);
                    proof {
                        lemma_keeps_alpha_trans(fb0, b2, fb.data@);
                        if 0 <= p1x < fb.width && 0 <= p1y < fb.height
                            && crate::framebuf::pixel_is(
                            b2,
                            fb.width as int,
                            p1x as int,
                            p1y as int,
                            cr,
                            cg,
                            cb,
                        ) {
                            crate::framebuf::lemma_pixel_is_stable(
                                b2,
                                fb.data@,
                                fb.width as int,
                                fb.height as int,
                                p1x as int,
                                p1y as int,
                                cr,
                                cg,
                                cb,
                            );
                        }
                    }
                    let ghost b3 = fb.data@;
                    fb.face_line(s6.x2d, s6.y2d, s5.x2d, s5.y2d, cr, cg, cb);
                    proof {
                        lemma_keeps_alpha_trans(fb0, b3, fb.data@);
                        if 0 <= p1x < fb.width && 0 <= p1y < fb.height
                            && crate::framebuf::pixel_is(
                            b3,
                            fb.width as int,
                            p1x as int,
                            p1y as int,
                            cr,
                            cg,
                            cb,
                        ) {
                            crate::framebuf::lemma_pixel_is_stable(
                                b3,
                                fb.data@,
                                fb.width as int,
                                fb.height as int,
                                p1x as int,
                                p1y as int,
                                cr,
                                cg,
                                cb,
                            );
                        }
                    }
                    let ghost b4 = fb.data@;
                    fb.face_line(s5.x2d, s5.y2d, s3.x2d, s3.y2d, cr, cg, cb);
                    proof {
                        lemma_keeps_alpha_trans(fb0, b4, fb.data@);
                        if 0 <= p1x < fb.width && 0 <= p1y < fb.height
                            && crate::framebuf::pixel_is(
                            b4,
                            fb.width as int,
                            p1x as int,
                            p1y as int,
                            cr,
                            cg,
                            cb,
                        ) {
                            crate::framebuf::lemma_pixel_is_stable(
                                b4,
                                fb.data@,
                                fb.width as int,
                                fb.height as int,
                                p1x as int,
                                p1y as int,
                                cr,
                                cg,
                                cb,
                            );
                        }
                    }
                }
            }
        }
        if !fogged_out {
            let idx: usize = self.angle_index % self.seg_count;
            let cv: i32 = trig.cos_at(idx);
            let sv: i32 = trig.sin_at(idx);
            self.x_milli = mul_div_1000(cv as i64, self.radius_audio_milli);
            self.y_milli = mul_div_1000(sv as i64, self.radius_audio_milli);
        }
    }
}


/// The per-frame travel speed: base speed plus the clamped beat boost
/// plus a capped extra wave (0.3 of the boost, at most 2 units).
pub open spec fn spec_dyn_speed(boost: int) -> int {
    600 + boost + (if (boost * 3) / 10 <= 2000 {
        (boost * 3) / 10
    } else {
        2000
    })
}

/// Whether a ring at depth `z` crosses the far or near end this frame.
pub open spec fn spec_wraps(z: int, speed: int, reversed: bool) -> bool {
    if reversed {
        z + speed > 400000
    } else {
        z - speed < -400000
    }
}

/// The ring's depth after one frame: advance by `speed` toward (or away
/// from) the camera, wrapping by two FOV on crossing either end.
pub open spec fn spec_advance_z(z: int, speed: int, reversed: bool) -> int {
    if reversed {
        if z + speed > 400000 {
            z + speed - 800000
        } else {
            z + speed
        }
    } else {
        if z - speed < -400000 {
            z - speed + 800000
        } else {
            z - speed
        }
    }
}

/// Wrapping keeps every ring inside `[-FOV, FOV]` (and so well inside
/// `(-3 FOV, 3 FOV)`), whatever the frame count.
pub proof fn lemma_advance_z_in_range(z: int, speed: int, reversed: bool)
    requires
        -400000 <= z <= 400000,
        0 < speed <= 9100,
    ensures
        -400000 <= spec_advance_z(z, speed, reversed) <= 400000,
{
}

/// Ring depths never escape `(-3 FOV, 3 FOV)`: the well-formedness
/// invariant, which every build and every frame advance preserves, pins
/// them inside `[-FOV, FOV]` already.
pub proof fn lemma_ring_depth_bounds(t: Tunnel)
    requires
        t.wf(),
    ensures
        forall|i: int|
            0 <= i < t.rings.len() ==> -3 * FOV_MILLI < (#[trigger] t.rings[i]).z_milli < 3
                * FOV_MILLI,
{
}

/// The dynamic speed of a well-formed audio frame is positive and small.
pub proof fn lemma_dyn_speed_range(boost: int)
    requires
        0 <= boost <= 6500,
    ensures
        600 <= spec_dyn_speed(boost) <= MAX_SPEED_MILLI,
{
}

impl Tunnel {
    /// The exact dynamic speed for this frame's boost.
    pub fn dyn_speed(frame_sig: &AudioFrame) -> (r: i64)
        requires
            frame_sig.wf(),
        ensures
            r == spec_dyn_speed(frame_sig.boost_milli as int),
            600 <= r <= MAX_SPEED_MILLI,
    {
        let boost: i64 = frame_sig.boost_milli as i64;
        let wave: i64 = if (boost * 3) / 10 <= 2000 {
            (boost * 3) / 10
        } else {
            2000
        };
        600 + boost + wave
    }

    /// Depth re-sort, far to near (z descending): run after a wrap so
    /// face interpolation across neighboring rings stays consistent.
    /// Insertion sort by adjacent moves of strictly out-of-order
    /// neighbors; the contract states sortedness and that the rings are
    /// a permutation (the relative order of equal depths is not stated).
    pub fn depth_sort(&mut self)
        requires
            old(self).wf(),
        ensures
            final(self).wf(),
            final(self).seg_count == old(self).seg_count,
            final(self).low_end == old(self).low_end,
            final(self).rings.len() == old(self).rings.len(),
            sorted_by_depth(final(self).rings@),
            final(self).rings@.to_multiset() == old(self).rings@.to_multiset(),
            depths_of(final(self).rings@).to_multiset() == depths_of(old(self).rings@).to_multiset(),
    {
        broadcast use vstd::seq_lib::group_to_multiset_ensures;
        broadcast use vstd::seq_lib::to_multiset_insert;

        let n: usize = self.rings.len();
        if n == 0 {
            return ;
        }
        let mut i: usize = 1;
        while i < n
            invariant
                self.wf(),
                self.seg_count == old(self).seg_count,
                self.low_end == old(self).low_end,
                n == self.rings.len(),
                n == old(self).rings.len(),
                1 <= i <= n,
                sorted_by_depth(self.rings@.subrange(0, i as int)),
                self.rings@.to_multiset() == old(self).rings@.to_multiset(),
                depths_of(self.rings@).to_multiset() == depths_of(old(self).rings@).to_multiset(),
            decreases n - i,
        {
            proof {
                assert forall|a: int, b: int| 0 <= a < b <= i && b != i implies (
                #[trigger] self.rings@[a]).z_milli >= (#[trigger] self.rings@[b]).z_milli by {
                    assert(self.rings@.subrange(0, i as int)[a] == self.rings@[a]);
                    assert(self.rings@.subrange(0, i as int)[b] == self.rings@[b]);
                }
            }
            let mut j: usize = i;
            while j > 0 && self.rings[j - 1].z_milli < self.rings[j].z_milli
                invariant
                    self.wf(),
                    self.seg_count == old(self).seg_count,
                    self.low_end == old(self).low_end,
                    n == self.rings.len(),
                    n == old(self).rings.len(),
                    i < n,
                    j <= i,
                    forall|a: int, b: int|
                        0 <= a < b <= i && b != j ==> (#[trigger] self.rings@[a]).z_milli >= (
                        #[trigger] self.rings@[b]).z_milli,
                    self.rings@.to_multiset() == old(self).rings@.to_multiset(),
                    depths_of(self.rings@).to_multiset() == depths_of(
                        old(self).rings@,
                    ).to_multiset(),
                decreases j,
            {
                let ghost s0 = self.rings@;
                let moved: Ring = self.rings.remove(j - 1);
                self.rings.insert(j, moved);
                proof {
                    let s2 = s0.remove(j - 1);
                    vstd::seq_lib::to_multiset_contains(s0, s0[j - 1]);
                    assert(s0.contains(s0[j - 1]));
                    vstd::seq_lib::to_multiset_remove(s0, j - 1);
                    vstd::seq_lib::to_multiset_insert(s2, j as int, moved);
                    assert(self.rings@ =~= s2.insert(j as int, moved));
                    assert(s2.to_multiset() =~= s0.to_multiset().remove(s0[j - 1]));
                    assert(self.rings@.to_multiset() =~= s2.to_multiset().insert(moved));
                    assert(self.rings@.to_multiset() =~= s0.to_multiset());
                    let zs0 = depths_of(s0);
                    let zs1 = depths_of(self.rings@);
                    assert(zs1 =~= zs0.remove(j - 1).insert(j as int, zs0[j - 1]));
                    vstd::seq_lib::to_multiset_contains(zs0, zs0[j - 1]);
                    assert(zs0.contains(zs0[j - 1]));
                    vstd::seq_lib::to_multiset_remove(zs0, j - 1);
                    vstd::seq_lib::to_multiset_insert(zs0.remove(j - 1), j as int, zs0[j - 1]);
                    assert(zs1.to_multiset() =~= zs0.to_multiset());
                    assert forall|p: int| 0 <= p < n implies self.rings@[p] == (if p == j - 1 {
                        s0[j as int]
                    } else if p == j {
                        s0[j - 1]
                    } else {
                        s0[p]
                    }) by {}
                }
                j = j - 1;
            }
            proof {
                assert forall|a: int, b: int| 0 <= a < b <= i implies (
                #[trigger] self.rings@[a]).z_milli >= (#[trigger] self.rings@[b]).z_milli by {
                    if b == j {
                        if j > 0 {
                            assert(self.rings@[j - 1].z_milli >= self.rings@[j as int].z_milli);
                            if a < j - 1 {
                                assert(self.rings@[a].z_milli >= self.rings@[j - 1].z_milli);
                            }
                        }
                    }
                }
                assert forall|a: int, b: int| 0 <= a < b < i + 1 implies (
                #[trigger] self.rings@.subrange(0, i + 1)[a]).z_milli >= (#[trigger] self.rings@.subrange(
                    0,
                    i + 1,
                )[b]).z_milli by {
                    assert(self.rings@.subrange(0, i + 1)[a] == self.rings@[a]);
                    assert(self.rings@.subrange(0, i + 1)[b] == self.rings@[b]);
                }
                assert(sorted_by_depth(self.rings@.subrange(0, i + 1)));
            }
            i = i + 1;
        }
        proof {
            assert(self.rings@.subrange(0, n as int) =~= self.rings@);
            assert forall|a: int, b: int| 0 <= a < b < n implies (
            #[trigger] self.rings@[a]).z_milli >= (#[trigger] self.rings@[b]).z_milli by {
                assert(self.rings@.subrange(0, n as int)[a] == self.rings@[a]);
                assert(self.rings@.subrange(0, n as int)[b] == self.rings@[b]);
            }
        }
    }
}

impl Ring {
    /// One frame of ring work, in the order the pipeline fixes: ring
    /// color from the oscillators attenuated by depth and floored by the
    /// second oscillator; projected center and depth scale; frustum cull
    /// (segment work skipped, depth bookkeeping kept); per-segment update
    /// and face drawing; depth advance with wrap detection. Returns the
    /// wrap flag and this ring's center and scale for the next ring's
    /// back-row interpolation.
    fn step(
        &mut self,
        fb: &mut FrameBuf,
        trig: &TrigTable,
        audio: &AudioState,
        energy: u32,
        boost: u32,
        white_mix: u32,
        col1: ColorMilli,
        col2: ColorMilli,
        speed: i64,
        pressed: bool,
        low_end: bool,
        draw_faces: bool,
        ring_i: usize,
        total: usize,
        prev_cx: i64,
        prev_cy: i64,
        prev_scale: i64,
        has_prev: bool,
    ) -> (res: (bool, i64, i64, i64))
        requires
            old(self).wf(),
            old(fb).wf(),
            old(fb).width >= 1,
            old(fb).height >= 1,
            trig.wf(),
            audio.wf(),
            energy <= 1000,
            boost <= 6500,
            white_mix <= 600,
            col1.bounded_from(0),
            col2.bounded_from(250),
            600 <= speed <= 9100,
            ring_i < total,
            total <= 200,
            -20000 <= prev_cx <= 20000,
            -20000 <= prev_cy <= 20000,
            0 <= prev_scale <= 400000,
        ensures
            final(self).wf(),
            final(self).segs.len() == old(self).segs.len(),
            final(fb).wf(),
            old(fb).same_dims(*final(fb)),
            keeps_alpha(old(fb).data@, final(fb).data@),
            final(self).z_milli == spec_advance_z(old(self).z_milli as int, speed as int, pressed),
            res.0 == spec_wraps(old(self).z_milli as int, speed as int, pressed),
            final(self).color_r_milli == spec_ring_color(
                col1.r as int,
                col2.r as int,
                old(self).z_milli as int,
            ),
            final(self).color_g_milli == spec_ring_color(
                col1.g as int,
                col2.g as int,
                old(self).z_milli as int,
            ),
            final(self).color_b_milli == spec_ring_color(
                col1.b as int,
                col2.b as int,
                old(self).z_milli as int,
            ),
            final(self).center_x == spec_ring_center(
                old(fb).width as int / 2,
                120,
                old(self).z_milli as int,
            ),
            final(self).center_y == spec_ring_center(
                old(fb).height as int / 2,
                20,
                old(self).z_milli as int,
            ),
            final(self).ring_index == old(self).ring_index,
            final(self).radius_milli == old(self).radius_milli,
            forall|t: int|
                0 <= t < old(self).segs.len() ==> seg_slot_same_identity(
                    #[trigger] final(self).segs[t],
                    old(self).segs[t],
                ),
            -20000 <= res.1 <= 20000,
            -20000 <= res.2 <= 20000,
            0 <= res.3 <= 400000,
    {
        let ghost fb0 = old(fb).data@;
        proof {
            lemma_keeps_alpha_refl(fb0);
        }
        let att: i64 = (((self.z_milli + 400000) as u64) / 400) as i64;
        proof {
            crate::arith::lemma_div_le((old(self).z_milli + 400000) as int, 400, 2000);
            crate::arith::lemma_div_nonneg((old(self).z_milli + 400000) as int, 400);
        }
        let vr: i64 = (col1.r as i64) - att;
        let vg: i64 = (col1.g as i64) - att;
        let vb: i64 = (col1.b as i64) - att;
        self.color_r_milli = if vr < (col2.r as i64) {
            col2.r
        } else {
            vr as u32
        };
        self.color_g_milli = if vg < (col2.g as i64) {
            col2.g
        } else {
            vg as u32
        };
        self.color_b_milli = if vb < (col2.b as i64) {
            col2.b
        } else {
            vb as u32
        };
        let dz: i64 = 400000 - self.z_milli;
        proof {
            crate::arith::lemma_div_le(120 * ((400000 - old(self).z_milli) as int), 380000, 253);
            crate::arith::lemma_div_nonneg(120 * ((400000 - old(self).z_milli) as int), 380000);
            crate::arith::lemma_div_le(20 * ((400000 - old(self).z_milli) as int), 380000, 43);
            crate::arith::lemma_div_nonneg(20 * ((400000 - old(self).z_milli) as int), 380000);
        }
        let offx: i64 = (((120 * dz) as u64) / 380000) as i64;
        let offy: i64 = (((20 * dz) as u64) / 380000) as i64;
        let cx: i64 = ((fb.width / 2) as i64) - offx;
        let cy: i64 = ((fb.height / 2) as i64) - offy;
        self.center_x = cx;
        self.center_y = cy;
        let denom_raw: i64 = 400000 + self.z_milli;
        let denom: i64 = if denom_raw < 1000 {
            1000
        } else {
            denom_raw
        };
        proof {
            crate::arith::lemma_div_le(400000000, denom as int, 400000);
            crate::arith::lemma_div_nonneg(400000000, denom as int);
        }
        let scale: i64 = (400000000u64 / (denom as u64)) as i64;
        let w_i: i64 = fb.width as i64;
        let h_i: i64 = fb.height as i64;
        let offscreen: bool = cx + 75 < 0 || cx - 75 >= w_i || cy + 75 < 0 || cy - 75 >= h_i;
        if !offscreen {
            let scale_back: i64 = if has_prev {
                prev_scale
            } else {
                scale
            };
            let pcx: i64 = if has_prev {
                prev_cx
            } else {
                cx
            };
            let pcy: i64 = if has_prev {
                prev_cy
            } else {
                cy
            };
            let z_now: i64 = self.z_milli;
            let cr_c: u32 = self.color_r_milli;
            let cg_c: u32 = self.color_g_milli;
            let cb_c: u32 = self.color_b_milli;
            let nsegs: usize = self.segs.len();
            let ghost rsnap = *self;
            let mut j: usize = 0;
            while j < nsegs
                invariant
                    self.segs.len() == nsegs,
                    forall|t: int|
                        0 <= t < self.segs.len() ==> ((#[trigger] self.segs[t]) matches Some(s)
                            ==> s.wf()),
                    forall|t: int|
                        0 <= t < self.segs.len() ==> seg_slot_same_identity(
                            #[trigger] self.segs[t],
                            rsnap.segs[t],
                        ),
                    self.z_milli == rsnap.z_milli,
                    self.ring_index == rsnap.ring_index,
                    self.center_x == rsnap.center_x,
                    self.center_y == rsnap.center_y,
                    self.circle_cx_milli == rsnap.circle_cx_milli,
                    self.circle_cy_milli == rsnap.circle_cy_milli,
                    self.radius_milli == rsnap.radius_milli,
                    self.color_r_milli == rsnap.color_r_milli,
                    self.color_g_milli == rsnap.color_g_milli,
                    self.color_b_milli == rsnap.color_b_milli,
                    rsnap.wf(),
                    z_now == rsnap.z_milli,
                    cr_c == rsnap.color_r_milli,
                    cg_c == rsnap.color_g_milli,
                    cb_c == rsnap.color_b_milli,
                    fb.wf(),
                    old(fb).same_dims(*fb),
                    fb.width >= 1,
                    fb.height >= 1,
                    keeps_alpha(fb0, fb.data@),
                    trig.wf(),
                    audio.wf(),
                    energy <= 1000,
                    boost <= 6500,
                    white_mix <= 600,
                    ring_i < total,
                    total <= 200,
                    -20000 <= cx <= 20000,
                    -20000 <= cy <= 20000,
                    -20000 <= pcx <= 20000,
                    -20000 <= pcy <= 20000,
                    0 <= scale <= 400000,
                    0 <= scale_back <= 400000,
                    j <= nsegs,
                decreases nsegs - j,
            {
                let mut freq: u8 = 0;
                let mut occupied: bool = false;
                match &self.segs[j] {
                    Some(seg) => {
                        freq = spectrum_at(audio, seg.spectrum_bin);
                        occupied = true;
                    },
                    None => {},
                }
                if occupied {
                    let ghost pre = fb.data@;
                    match &mut self.segs[j] {
                        Some(seg) => {
                            seg.update_and_draw(
                                fb,
                                trig,
                                freq,
                                boost,
                                energy,
                                white_mix,
                                z_now,
                                draw_faces,
                                low_end,
                                ring_i,
                                total,
                                cx,
                                cy,
                                scale,
                                pcx,
                                pcy,
                                scale_back,
                                cr_c,
                                cg_c,
                                cb_c,
                            );
                        },
                        None => {},
                    }
                    proof {
                        lemma_keeps_alpha_trans(fb0, pre, fb.data@);
                    }
                }
                j = j + 1;
            }
        }
        let z0: i64 = self.z_milli;
        let mut wrapped: bool = false;
        if pressed {
            let zn: i64 = z0 + speed;
            if zn > 400000 {
                self.z_milli = zn - 800000;
                wrapped = true;
            } else {
                self.z_milli = zn;
            }
        } else {
            let zn: i64 = z0 - speed;
            if zn < -400000 {
                self.z_milli = zn + 800000;
                wrapped = true;
            } else {
                self.z_milli = zn;
            }
        }
        (wrapped, cx, cy, scale)
    }
}

impl Tunnel {
    /// One full tunnel pass: per ring, in array order, update color and
    /// projection, cull, update and draw segments, then advance depth.
    /// Returns whether any ring wrapped this frame (so the caller knows
    /// one depth re-sort is owed before the next frame's faces).
    pub fn advance_frame(
        &mut self,
        fb: &mut FrameBuf,
        audio: &AudioState,
        frame_sig: &AudioFrame,
        pressed: bool,
        trig: &TrigTable,
        col1: ColorMilli,
        col2: ColorMilli,
    ) -> (wrapped: bool)
        requires
            old(self).wf(),
            old(fb).wf(),
            old(fb).width >= 1,
            old(fb).height >= 1,
            audio.wf(),
            frame_sig.wf(),
            trig.wf(),
            col1.bounded_from(0),
            col2.bounded_from(250),
        ensures
            final(self).wf(),
            final(self).seg_count == old(self).seg_count,
            final(self).low_end == old(self).low_end,
            final(self).rings.len() == old(self).rings.len(),
            final(fb).wf(),
            old(fb).same_dims(*final(fb)),
            keeps_alpha(old(fb).data@, final(fb).data@),
            forall|i: int|
                0 <= i < old(self).rings.len() ==> (#[trigger] final(self).rings[i]).z_milli
                    == spec_advance_z(
                    old(self).rings[i].z_milli as int,
                    spec_dyn_speed(frame_sig.boost_milli as int),
                    pressed,
                ),
            forall|i: int|
                0 <= i < old(self).rings.len() ==> {
                    let z = old(self).rings[i].z_milli as int;
                    &&& (#[trigger] final(self).rings[i]).color_r_milli == spec_ring_color(
                        col1.r as int,
                        col2.r as int,
                        z,
                    )
                    &&& final(self).rings[i].color_g_milli == spec_ring_color(
                        col1.g as int,
                        col2.g as int,
                        z,
                    )
                    &&& final(self).rings[i].color_b_milli == spec_ring_color(
                        col1.b as int,
                        col2.b as int,
                        z,
                    )
                    &&& final(self).rings[i].center_x == spec_ring_center(
                        old(fb).width as int / 2,
                        120,
                        z,
                    )
                    &&& final(self).rings[i].center_y == spec_ring_center(
                        old(fb).height as int / 2,
                        20,
                        z,
                    )
                },
            wrapped == exists|i: int|
                0 <= i < old(self).rings.len() && spec_wraps(
                    (#[trigger] old(self).rings[i]).z_milli as int,
                    spec_dyn_speed(frame_sig.boost_milli as int),
                    pressed,
                ),
            forall|i: int|
                0 <= i < old(self).rings.len() ==> ring_same_identity(
                    #[trigger] final(self).rings[i],
                    old(self).rings[i],
                ),
            depths_of(final(self).rings@) == advanced_depths_of(
                old(self).rings@,
                spec_dyn_speed(frame_sig.boost_milli as int),
                pressed,
            ),
    {
        let ghost fb0 = old(fb).data@;
        proof {
            lemma_keeps_alpha_refl(fb0);
        }
        let speed: i64 = Self::dyn_speed(frame_sig);
        let energy: u32 = frame_sig.energy_milli;
        let boost: u32 = frame_sig.boost_milli;
        proof {
            crate::arith::lemma_div_nonneg((boost * 1000) as int, 6500);
            crate::arith::lemma_div_le((boost * 1000) as int, 6500, 1000);
        }
        let ratio: u32 = (boost * 1000) / 6500;
        let pw: u32 = pow_nine_fifths(ratio);
        let white_mix: u32 = (pw * 6) / 10;
        let low_end: bool = self.low_end;
        let total: usize = self.rings.len();
        let mut wrapped: bool = false;
        let mut prev_cx: i64 = 0;
        let mut prev_cy: i64 = 0;
        let mut prev_scale: i64 = 0;
        let mut i: usize = 0;
        while i < total
            invariant
                self.seg_count == old(self).seg_count,
                self.low_end == old(self).low_end,
                low_end == self.low_end,
                self.seg_count == (if self.low_end {
                    48int
                } else {
                    64int
                }),
                total == self.rings.len(),
                total == old(self).rings.len(),
                total <= 200,
                i <= total,
                forall|r: int|
                    0 <= r < i ==> (#[trigger] self.rings[r]).wf() && self.rings[r].segs.len()
                        == old(self).rings[r].segs.len(),
                forall|r: int| i <= r < total ==> (#[trigger] self.rings[r]) == old(self).rings[r],
                forall|r: int|
                    0 <= r < i ==> (#[trigger] self.rings[r]).z_milli == spec_advance_z(
                        old(self).rings[r].z_milli as int,
                        speed as int,
                        pressed,
                    ),
                forall|r: int|
                    0 <= r < i ==> ring_same_identity(
                        #[trigger] self.rings[r],
                        old(self).rings[r],
                    ),
                forall|r: int|
                    0 <= r < i ==> {
                        let z = old(self).rings[r].z_milli as int;
                        &&& (#[trigger] self.rings[r]).color_r_milli == spec_ring_color(
                            col1.r as int,
                            col2.r as int,
                            z,
                        )
                        &&& self.rings[r].color_g_milli == spec_ring_color(
                            col1.g as int,
                            col2.g as int,
                            z,
                        )
                        &&& self.rings[r].color_b_milli == spec_ring_color(
                            col1.b as int,
                            col2.b as int,
                            z,
                        )
                        &&& self.rings[r].center_x == spec_ring_center(
                            old(fb).width as int / 2,
                            120,
                            z,
                        )
                        &&& self.rings[r].center_y == spec_ring_center(
                            old(fb).height as int / 2,
                            20,
                            z,
                        )
                    },
                wrapped == exists|r: int|
                    0 <= r < i && spec_wraps(
                        (#[trigger] old(self).rings[r]).z_milli as int,
                        speed as int,
                        pressed,
                    ),
                old(self).wf(),
                fb.wf(),
                old(fb).same_dims(*fb),
                fb.width >= 1,
                fb.height >= 1,
                keeps_alpha(fb0, fb.data@),
                trig.wf(),
                audio.wf(),
                energy <= 1000,
                boost <= 6500,
                white_mix <= 600,
                speed == spec_dyn_speed(boost as int),
                600 <= speed <= 9100,
                col1.bounded_from(0),
                col2.bounded_from(250),
                -20000 <= prev_cx <= 20000,
                -20000 <= prev_cy <= 20000,
                0 <= prev_scale <= 400000,
            decreases total - i,
        {
            let draw_faces: bool = i > 0 && i + 1 < total;
            let has_prev: bool = i > 0;
            let ghost pre = fb.data@;
            let ring = &mut self.rings[i];
            let res: (bool, i64, i64, i64) = ring.step(
                fb,
                trig,
                audio,
                energy,
                boost,
                white_mix,
                col1,
                col2,
                speed,
                pressed,
                low_end,
                draw_faces,
                i,
                total,
                prev_cx,
                prev_cy,
                prev_scale,
                has_prev,
            );
            proof {
                lemma_keeps_alpha_trans(fb0, pre, fb.data@);
            }
            wrapped = wrapped || res.0;
            prev_cx = res.1;
            prev_cy = res.2;
            prev_scale = res.3;
            i = i + 1;
        }
        proof {
            assert(depths_of(self.rings@) =~= advanced_depths_of(
                old(self).rings@,
                speed as int,
                pressed,
            ));
        }
        wrapped
    }
}


} // verus!
