//! RGBA frame buffer and line rasterizer.
//!
//! The buffer is row-major, 4 bytes per pixel in R,G,B,A order. The
//! rasterizer is a classical Bresenham walk with a bounding-box rejection
//! of fully offscreen lines; every touched pixel gets the line color with
//! the alpha forced opaque, out-of-surface steps are skipped, and there is
//! no blending. The drawing contracts say that a line changes bytes only
//! to its own color (per channel) or to opaque alpha, that it touches
//! nothing outside its endpoints' bounding box, and that every pixel of
//! the Bresenham walk that lies on the surface -- the endpoints
//! included -- really is painted.

use vstd::prelude::*;

verus! {

/// The largest surface edge the renderer accepts, so pixel index
/// arithmetic stays far from overflow.
pub const MAX_DIM: usize = 16384;

/// The band of screen coordinates the rasterizer accepts; projected
/// points are clamped into it long before the surface edge matters.
pub const COORD_LIMIT: i32 = 200000;

/// Every alpha byte (index 3 mod 4) is opaque.
pub open spec fn alpha_opaque(s: Seq<u8>) -> bool {
    forall|k: int| 0 <= k < s.len() && k % 4 == 3 ==> #[trigger] s[k] == 255
}

/// The pixel at (x, y) holds exactly (r, g, b, 255).
pub open spec fn pixel_is(s: Seq<u8>, w: int, x: int, y: int, r: u8, g: u8, b: u8) -> bool {
    &&& s[(y * w + x) * 4] == r
    &&& s[(y * w + x) * 4 + 1] == g
    &&& s[(y * w + x) * 4 + 2] == b
    &&& s[(y * w + x) * 4 + 3] == 255
}

/// (qx, qy) lies outside the closed bounding box of the two endpoints
/// (x1, y1), (x2, y2).
pub open spec fn outside_box(qx: int, qy: int, x1: int, y1: int, x2: int, y2: int) -> bool {
    ||| qx < (if x1 <= x2 {
        x1
    } else {
        x2
    })
    ||| qx > (if x1 <= x2 {
        x2
    } else {
        x1
    })
    ||| qy < (if y1 <= y2 {
        y1
    } else {
        y2
    })
    ||| qy > (if y1 <= y2 {
        y2
    } else {
        y1
    })
}

/// A line is rejected outright when both endpoints lie beyond the same
/// surface edge.
pub open spec fn spec_line_rejected(x1: int, y1: int, x2: int, y2: int, w: int, h: int) -> bool {
    (x1 < 0 && x2 < 0) || (x1 >= w && x2 >= w) || (y1 < 0 && y2 < 0) || (y1 >= h && y2 >= h)
}

/// One step of the Bresenham error bookkeeping: advance x and/or y
/// toward the far endpoint and update the error term.
pub open spec fn walk_step(x0: int, y0: int, err: int, dx: int, dy: int, sx: int, sy: int) -> (
    int,
    int,
    int,
) {
    let e2 = 2 * err;
    let x1n = if e2 > -dy {
        x0 + sx
    } else {
        x0
    };
    let err1 = if e2 > -dy {
        err - dy
    } else {
        err
    };
    let y1n = if e2 < dx {
        y0 + sy
    } else {
        y0
    };
    let err2 = if e2 < dx {
        err1 + dx
    } else {
        err1
    };
    (x1n, y1n, err2)
}

/// Whether the walk from (x0, y0) with error term `err` passes through
/// (qx, qy) at or before the far endpoint, within `fuel` steps.
pub open spec fn walk_visits(
    qx: int,
    qy: int,
    x0: int,
    y0: int,
    err: int,
    x2: int,
    y2: int,
    dx: int,
    dy: int,
    sx: int,
    sy: int,
    fuel: nat,
) -> bool
    decreases fuel,
{
    if qx == x0 && qy == y0 {
        true
    } else if (x0 == x2 && y0 == y2) || fuel == 0 {
        false
    } else {
        let next = walk_step(x0, y0, err, dx, dy, sx, sy);
        walk_visits(qx, qy, next.0, next.1, next.2, x2, y2, dx, dy, sx, sy, (fuel - 1) as nat)
    }
}

/// The pixels of the Bresenham line from (x1, y1) to (x2, y2): the walk
/// started with error `dx - dy` and enough fuel to reach the end.
pub open spec fn spec_line_visits(x1: int, y1: int, x2: int, y2: int, qx: int, qy: int) -> bool {
    let dx = if x2 > x1 {
        x2 - x1
    } else {
        x1 - x2
    };
    let dy = if y2 > y1 {
        y2 - y1
    } else {
        y1 - y2
    };
    let sx: int = if x1 < x2 {
        1
    } else {
        -1
    };
    let sy: int = if y1 < y2 {
        1
    } else {
        -1
    };
    walk_visits(qx, qy, x1, y1, dx - dy, x2, y2, dx, dy, sx, sy, (dx + dy) as nat)
}

/// (qx, qy) lies outside the endpoints' bounding box inflated by a
/// margin `m` on every side.
pub open spec fn outside_box_margin(
    qx: int,
    qy: int,
    x1: int,
    y1: int,
    x2: int,
    y2: int,
    m: int,
) -> bool {
    ||| qx < (if x1 <= x2 {
        x1
    } else {
        x2
    }) - m
    ||| qx > (if x1 <= x2 {
        x2
    } else {
        x1
    }) + m
    ||| qy < (if y1 <= y2 {
        y1
    } else {
        y2
    }) - m
    ||| qy > (if y1 <= y2 {
        y2
    } else {
        y1
    }) + m
}

/// More fuel never shrinks the set of visited points.
proof fn lemma_walk_visits_mono(
    qx: int,
    qy: int,
    x0: int,
    y0: int,
    err: int,
    x2: int,
    y2: int,
    dx: int,
    dy: int,
    sx: int,
    sy: int,
    f1: nat,
    f2: nat,
)
    requires
        f1 <= f2,
        walk_visits(qx, qy, x0, y0, err, x2, y2, dx, dy, sx, sy, f1),
    ensures
        walk_visits(qx, qy, x0, y0, err, x2, y2, dx, dy, sx, sy, f2),
    decreases f1,
{
    if !(qx == x0 && qy == y0) {
        let next = walk_step(x0, y0, err, dx, dy, sx, sy);
        lemma_walk_visits_mono(
            qx,
            qy,
            next.0,
            next.1,
            next.2,
            x2,
            y2,
            dx,
            dy,
            sx,
            sy,
            (f1 - 1) as nat,
            (f2 - 1) as nat,
        );
    }
}

/// A whole line's worth of painted pixels survives any further drawing
/// with the same pen.
proof fn lemma_line_painted_stable(
    pre: Seq<u8>,
    post: Seq<u8>,
    w: int,
    h: int,
    lx1: int,
    ly1: int,
    lx2: int,
    ly2: int,
    r: u8,
    g: u8,
    b: u8,
)
    requires
        pre.len() == w * h * 4,
        only_recolors(pre, post, r, g, b),
        forall|qx: int, qy: int|
            #[trigger] spec_line_visits(lx1, ly1, lx2, ly2, qx, qy) && 0 <= qx < w && 0 <= qy < h
                ==> pixel_is(pre, w, qx, qy, r, g, b),
    ensures
        forall|qx: int, qy: int|
            #[trigger] spec_line_visits(lx1, ly1, lx2, ly2, qx, qy) && 0 <= qx < w && 0 <= qy < h
                ==> pixel_is(post, w, qx, qy, r, g, b),
{
    assert forall|qx: int, qy: int|
        #[trigger] spec_line_visits(lx1, ly1, lx2, ly2, qx, qy) && 0 <= qx < w && 0 <= qy < h
        implies pixel_is(post, w, qx, qy, r, g, b) by {
        lemma_pixel_is_stable(pre, post, w, h, qx, qy, r, g, b);
    }
}

/// `post` differs from `pre` only where a pen of color (r, g, b) could
/// have painted: each byte is unchanged, or holds the pen's value for its
/// own channel, or is an opaque alpha byte.
pub open spec fn only_recolors(pre: Seq<u8>, post: Seq<u8>, r: u8, g: u8, b: u8) -> bool {
    &&& post.len() == pre.len()
    &&& forall|k: int|
        0 <= k < pre.len() ==> (#[trigger] post[k]) == pre[k] || (k % 4 == 0 && post[k] == r) || (
        k % 4 == 1 && post[k] == g) || (k % 4 == 2 && post[k] == b) || (k % 4 == 3 && post[k]
            == 255)
}

/// `post` keeps every alpha byte either unchanged or opaque: the common
/// guarantee of all drawing, whatever colors were used.
pub open spec fn keeps_alpha(pre: Seq<u8>, post: Seq<u8>) -> bool {
    &&& post.len() == pre.len()
    &&& forall|k: int|
        0 <= k < pre.len() && k % 4 == 3 ==> (#[trigger] post[k]) == pre[k] || post[k] == 255
}

pub proof fn lemma_keeps_alpha_refl(s: Seq<u8>)
    ensures
        keeps_alpha(s, s),
{
}

pub proof fn lemma_keeps_alpha_trans(a: Seq<u8>, b: Seq<u8>, c: Seq<u8>)
    requires
        keeps_alpha(a, b),
        keeps_alpha(b, c),
    ensures
        keeps_alpha(a, c),
{
    assert forall|k: int| 0 <= k < a.len() && k % 4 == 3 implies (#[trigger] c[k]) == a[k] || c[k]
        == 255 by {
        assert(b[k] == a[k] || b[k] == 255);
        assert(c[k] == b[k] || c[k] == 255);
    }
}

pub proof fn lemma_only_recolors_keeps_alpha(pre: Seq<u8>, post: Seq<u8>, pr: u8, pg: u8, pb: u8)
    requires
        only_recolors(pre, post, pr, pg, pb),
    ensures
        keeps_alpha(pre, post),
{
    assert forall|k: int| 0 <= k < pre.len() && k % 4 == 3 implies (#[trigger] post[k]) == pre[k]
        || post[k] == 255 by {
        assert(post[k] == pre[k] || (k % 4 == 3 && post[k] == 255));
    }
}

/// Drawing over an opaque-alpha buffer leaves it opaque.
pub proof fn lemma_keeps_alpha_opaque(pre: Seq<u8>, post: Seq<u8>)
    requires
        alpha_opaque(pre),
        keeps_alpha(pre, post),
    ensures
        alpha_opaque(post),
{
    assert forall|k: int| 0 <= k < post.len() && k % 4 == 3 implies #[trigger] post[k] == 255 by {
        assert(pre[k] == 255);
        assert(post[k] == pre[k] || post[k] == 255);
    }
}

pub proof fn lemma_only_recolors_trans(a: Seq<u8>, b: Seq<u8>, c: Seq<u8>, pr: u8, pg: u8, pb: u8)
    requires
        only_recolors(a, b, pr, pg, pb),
        only_recolors(b, c, pr, pg, pb),
    ensures
        only_recolors(a, c, pr, pg, pb),
{
    assert forall|k: int| 0 <= k < a.len() implies (#[trigger] c[k]) == a[k] || (k % 4 == 0 && c[k]
        == pr) || (k % 4 == 1 && c[k] == pg) || (k % 4 == 2 && c[k] == pb) || (k % 4 == 3 && c[k]
        == 255) by {
        assert(b[k] == a[k] || (k % 4 == 0 && b[k] == pr) || (k % 4 == 1 && b[k] == pg) || (k % 4
            == 2 && b[k] == pb) || (k % 4 == 3 && b[k] == 255));
    }
}

/// Distinct pixels occupy distinct cells of the row-major grid.
proof fn lemma_pixel_cells_distinct(w: int, xa: int, ya: int, xb: int, yb: int)
    requires
        0 <= xa < w,
        0 <= xb < w,
        0 <= ya,
        0 <= yb,
        xa != xb || ya != yb,
    ensures
        ya * w + xa != yb * w + xb,
{
    if ya != yb {
        assert(ya * w + xa != yb * w + xb) by (nonlinear_arith)
            requires
                0 <= xa < w,
                0 <= xb < w,
                0 <= ya,
                0 <= yb,
                ya != yb,
        ;
    }
}

/// A pixel already holding the pen's color keeps it under any further
/// drawing with the same pen.
pub(crate) proof fn lemma_pixel_is_stable(
    pre: Seq<u8>,
    post: Seq<u8>,
    w: int,
    h: int,
    x: int,
    y: int,
    r: u8,
    g: u8,
    b: u8,
)
    requires
        0 <= x < w,
        0 <= y < h,
        pre.len() == w * h * 4,
        pixel_is(pre, w, x, y, r, g, b),
        only_recolors(pre, post, r, g, b),
    ensures
        pixel_is(post, w, x, y, r, g, b),
{
    lemma_pixel_index(w, h, x, y);
}

pub(crate) proof fn lemma_pixel_index(w: int, h: int, x: int, y: int)
    requires
        0 <= x < w,
        0 <= y < h,
    ensures
        0 <= (y * w + x) * 4,
        (y * w + x) * 4 + 3 < w * h * 4,
        ((y * w + x) * 4) % 4 == 0,
        ((y * w + x) * 4 + 1) % 4 == 1,
        ((y * w + x) * 4 + 2) % 4 == 2,
        ((y * w + x) * 4 + 3) % 4 == 3,
{
    assert(0 <= y * w + x && y * w + x < w * h) by (nonlinear_arith)
        requires
            0 <= x < w,
            0 <= y < h,
    ;
    let m = y * w + x;
    assert((m * 4) % 4 == 0 && (m * 4 + 1) % 4 == 1 && (m * 4 + 2) % 4 == 2 && (m * 4 + 3) % 4
        == 3) by (nonlinear_arith)
        requires
            0 <= m,
    ;
}

/// Row-major RGBA pixel buffer.
pub struct FrameBuf {
    pub width: usize,
    pub height: usize,
    pub data: Vec<u8>,
}

impl FrameBuf {
    pub open spec fn wf(self) -> bool {
        &&& self.width <= MAX_DIM
        &&& self.height <= MAX_DIM
        &&& self.data.len() == self.width * self.height * 4
    }

    /// Dimensions carried over unchanged.
    pub open spec fn same_dims(self, other: FrameBuf) -> bool {
        self.width == other.width && self.height == other.height
    }

    /// An all-zero buffer of the given dimensions.
    pub fn new_sized(width: usize, height: usize) -> (r: FrameBuf)
        requires
            width <= MAX_DIM,
            height <= MAX_DIM,
        ensures
            r.wf(),
            r.width == width,
            r.height == height,
            forall|k: int| 0 <= k < r.data.len() ==> #[trigger] r.data[k] == 0,
    {
        proof {
            assert(width * height <= 16384 * 16384) by (nonlinear_arith)
                requires
                    width <= 16384,
                    height <= 16384,
            ;
        }
        let n: usize = width * height * 4;
        let mut data: Vec<u8> = Vec::new();
        let mut i: usize = 0;
        while i < n
            invariant
                i <= n,
                data.len() == i,
                forall|k: int| 0 <= k < i ==> #[trigger] data[k] == 0,
            decreases n - i,
        {
            data.push(0);
            i = i + 1;
        }
        FrameBuf { width, height, data }
    }

    /// Reset every pixel to opaque black (0, 0, 0, 255): the
    /// start-of-frame state.
    pub fn clear(&mut self)
        requires
            old(self).wf(),
        ensures
            final(self).wf(),
            old(self).same_dims(*final(self)),
            final(self).data.len() == old(self).data.len(),
            forall|k: int|
                0 <= k < final(self).data.len() ==> #[trigger] final(self).data[k] == (if k % 4
                    == 3 {
                    255u8
                } else {
                    0u8
                }),
    {
        let n: usize = self.data.len();
        let mut i: usize = 0;
        while i < n
            invariant
                i <= n,
                n == self.data.len(),
                self.width == old(self).width,
                self.height == old(self).height,
                self.data.len() == old(self).data.len(),
                forall|k: int|
                    0 <= k < i ==> #[trigger] self.data[k] == (if k % 4 == 3 {
                        255u8
                    } else {
                        0u8
                    }),
            decreases n - i,
        {
            if i % 4 == 3 {
                self.data.set(i, 255);
            } else {
                self.data.set(i, 0);
            }
            i = i + 1;
        }
    }

    /// Paint one pixel: the three channels take the pen color and the
    /// alpha is forced opaque. Nothing else moves.
    pub fn put_pixel(&mut self, x: usize, y: usize, r: u8, g: u8, b: u8)
        requires
            old(self).wf(),
            x < old(self).width,
            y < old(self).height,
        ensures
            final(self).wf(),
            old(self).same_dims(*final(self)),
            final(self).data.len() == old(self).data.len(),
            pixel_is(final(self).data@, old(self).width as int, x as int, y as int, r, g, b),
            only_recolors(old(self).data@, final(self).data@, r, g, b),
            forall|k: int|
                0 <= k < final(self).data.len() && !((y * old(self).width + x) * 4 <= k < (y * old(
                    self,
                ).width + x) * 4 + 4) ==> #[trigger] final(self).data[k] == old(self).data[k],
    {
        proof {
            lemma_pixel_index(
                self.width as int,
                self.height as int,
                x as int,
                y as int,
            );
        }
        let idx: usize = (y * self.width + x) * 4;
        self.data.set(idx, r);
        self.data.set(idx + 1, g);
        self.data.set(idx + 2, b);
        self.data.set(idx + 3, 255);
    }

    /// Single-pixel Bresenham line. Fully offscreen lines are rejected by
    /// their bounding box; every stepped pixel inside the surface takes
    /// the pen color; steps outside are skipped. If the far endpoint lies
    /// inside the surface it is painted.
    pub fn draw_line(&mut self, x1: i32, y1: i32, x2: i32, y2: i32, r: u8, g: u8, b: u8)
        requires
            old(self).wf(),
            -COORD_LIMIT <= x1 <= COORD_LIMIT,
            -COORD_LIMIT <= y1 <= COORD_LIMIT,
            -COORD_LIMIT <= x2 <= COORD_LIMIT,
            -COORD_LIMIT <= y2 <= COORD_LIMIT,
        ensures
            final(self).wf(),
            old(self).same_dims(*final(self)),
            only_recolors(old(self).data@, final(self).data@, r, g, b),
            0 <= x2 < old(self).width && 0 <= y2 < old(self).height ==> pixel_is(
                final(self).data@,
                old(self).width as int,
                x2 as int,
                y2 as int,
                r,
                g,
                b,
            ),
            0 <= x1 < old(self).width && 0 <= y1 < old(self).height ==> pixel_is(
                final(self).data@,
                old(self).width as int,
                x1 as int,
                y1 as int,
                r,
                g,
                b,
            ),
            forall|qx: int, qy: int, c: int|
                0 <= qx < old(self).width && 0 <= qy < old(self).height && 0 <= c < 4
                    && outside_box(qx, qy, x1 as int, y1 as int, x2 as int, y2 as int)
                    ==> #[trigger] final(self).data[(qy * old(self).width + qx) * 4 + c] == old(
                    self,
                ).data[(qy * old(self).width + qx) * 4 + c],
            !spec_line_rejected(
                x1 as int,
                y1 as int,
                x2 as int,
                y2 as int,
                old(self).width as int,
                old(self).height as int,
            ) ==> forall|qx: int, qy: int|
                #[trigger] spec_line_visits(x1 as int, y1 as int, x2 as int, y2 as int, qx, qy) && 0
                    <= qx < old(self).width && 0 <= qy < old(self).height ==> pixel_is(
                    final(self).data@,
                    old(self).width as int,
                    qx,
                    qy,
                    r,
                    g,
                    b,
                ),
    {
        let w_i32: i32 = self.width as i32;
        let h_i32: i32 = self.height as i32;
        if (x1 < 0 && x2 < 0) || (x1 >= w_i32 && x2 >= w_i32) || (y1 < 0 && y2 < 0) || (y1 >= h_i32
            && y2 >= h_i32) {
            return ;
        }
        let mut x0: i32 = x1;
        let mut y0: i32 = y1;
        let dx: i32 = if x2 > x1 {
            x2 - x1
        } else {
            x1 - x2
        };
        let dy: i32 = if y2 > y1 {
            y2 - y1
        } else {
            y1 - y2
        };
        let sx: i32 = if x1 < x2 {
            1
        } else {
            -1
        };
        let sy: i32 = if y1 < y2 {
            1
        } else {
            -1
        };
        let mut err: i32 = dx - dy;
        let ghost fuel: nat = (dx + dy) as nat;
        let ghost mut px: int = 0;
        let ghost mut py: int = 0;
        loop
            invariant_except_break
                fuel == (dx + dy) as nat,
                forall|qx: int, qy: int|
                    #[trigger] walk_visits(
                        qx,
                        qy,
                        x1 as int,
                        y1 as int,
                        dx - dy,
                        x2 as int,
                        y2 as int,
                        dx as int,
                        dy as int,
                        sx as int,
                        sy as int,
                        fuel,
                    ) && 0 <= qx < self.width && 0 <= qy < self.height ==> pixel_is(
                        self.data@,
                        self.width as int,
                        qx,
                        qy,
                        r,
                        g,
                        b,
                    ) || walk_visits(
                        qx,
                        qy,
                        x0 as int,
                        y0 as int,
                        err as int,
                        x2 as int,
                        y2 as int,
                        dx as int,
                        dy as int,
                        sx as int,
                        sy as int,
                        fuel,
                    ),
                self.wf(),
                old(self).same_dims(*self),
                only_recolors(old(self).data@, self.data@, r, g, b),
                w_i32 == self.width as i32,
                h_i32 == self.height as i32,
                -COORD_LIMIT <= x1 <= COORD_LIMIT,
                -COORD_LIMIT <= y1 <= COORD_LIMIT,
                -COORD_LIMIT <= x2 <= COORD_LIMIT,
                -COORD_LIMIT <= y2 <= COORD_LIMIT,
                dx == (if x2 > x1 {
                    x2 - x1
                } else {
                    x1 - x2
                }),
                dy == (if y2 > y1 {
                    y2 - y1
                } else {
                    y1 - y2
                }),
                sx == (if x1 < x2 {
                    1int
                } else {
                    -1int
                }),
                sy == (if y1 < y2 {
                    1int
                } else {
                    -1int
                }),
                0 <= px <= dx,
                0 <= py <= dy,
                x0 == (if x1 < x2 {
                    x1 + px
                } else {
                    x1 - px
                }),
                y0 == (if y1 < y2 {
                    y1 + py
                } else {
                    y1 - py
                }),
                err == dx * (1 + py) - dy * (1 + px),
                -2 * dy <= err <= 2 * dx,
                (0 <= x1 < self.width && 0 <= y1 < self.height && (px != 0 || py != 0))
                    ==> pixel_is(self.data@, self.width as int, x1 as int, y1 as int, r, g, b),
                forall|qx: int, qy: int, c: int|
                    0 <= qx < self.width && 0 <= qy < self.height && 0 <= c < 4 && outside_box(
                        qx,
                        qy,
                        x1 as int,
                        y1 as int,
                        x2 as int,
                        y2 as int,
                    ) ==> #[trigger] self.data[(qy * self.width + qx) * 4 + c] == old(self).data[(qy
                    * self.width + qx) * 4 + c],
            ensures
                self.wf(),
                old(self).same_dims(*self),
                only_recolors(old(self).data@, self.data@, r, g, b),
                0 <= x2 < old(self).width && 0 <= y2 < old(self).height ==> pixel_is(
                    self.data@,
                    old(self).width as int,
                    x2 as int,
                    y2 as int,
                    r,
                    g,
                    b,
                ),
                0 <= x1 < old(self).width && 0 <= y1 < old(self).height ==> pixel_is(
                    self.data@,
                    old(self).width as int,
                    x1 as int,
                    y1 as int,
                    r,
                    g,
                    b,
                ),
                forall|qx: int, qy: int, c: int|
                    0 <= qx < old(self).width && 0 <= qy < old(self).height && 0 <= c < 4
                        && outside_box(qx, qy, x1 as int, y1 as int, x2 as int, y2 as int)
                        ==> #[trigger] self.data[(qy * old(self).width + qx) * 4 + c] == old(
                        self,
                    ).data[(qy * old(self).width + qx) * 4 + c],
                forall|qx: int, qy: int|
                    #[trigger] spec_line_visits(x1 as int, y1 as int, x2 as int, y2 as int, qx, qy)
                        && 0 <= qx < old(self).width && 0 <= qy < old(self).height ==> pixel_is(
                        self.data@,
                        old(self).width as int,
                        qx,
                        qy,
                        r,
                        g,
                        b,
                    ),
            decreases (dx - px) + (dy - py),
        {
            let ghost data_entry = self.data@;
            if x0 >= 0 && x0 < w_i32 && y0 >= 0 && y0 < h_i32 {
                let ghost pre = self.data@;
                self.put_pixel(x0 as usize, y0 as usize, r, g, b);
                proof {
                    lemma_only_recolors_trans(old(self).data@, pre, self.data@, r, g, b);
                    if 0 <= x1 && (x1 as int) < self.width && 0 <= y1 && (y1 as int) < self.height
                        && (px != 0 || py != 0) {
                        lemma_pixel_is_stable(
                            pre,
                            self.data@,
                            self.width as int,
                            self.height as int,
                            x1 as int,
                            y1 as int,
                            r,
                            g,
                            b,
                        );
                    }
                    assert forall|qx: int, qy: int, c: int|
                        0 <= qx < self.width && 0 <= qy < self.height && 0 <= c < 4 && outside_box(
                            qx,
                            qy,
                            x1 as int,
                            y1 as int,
                            x2 as int,
                            y2 as int,
                        ) implies #[trigger] self.data[(qy * self.width + qx) * 4 + c] == old(
                        self,
                    ).data[(qy * self.width + qx) * 4 + c] by {
                        lemma_pixel_cells_distinct(
                            self.width as int,
                            qx,
                            qy,
                            x0 as int,
                            y0 as int,
                        );
                        lemma_pixel_index(self.width as int, self.height as int, qx, qy);
                        assert(pre[(qy * self.width + qx) * 4 + c] == old(self).data[(qy
                            * self.width + qx) * 4 + c]);
                    }
                }
            }
            proof {
                assert(x0 >= 0 && x0 < w_i32 && y0 >= 0 && y0 < h_i32 ==> pixel_is(
                    self.data@,
                    self.width as int,
                    x0 as int,
                    y0 as int,
                    r,
                    g,
                    b,
                ));
                assert(only_recolors(data_entry, self.data@, r, g, b));
            }
            if x0 == x2 && y0 == y2 {
                proof {
                    assert forall|qx: int, qy: int|
                        #[trigger] walk_visits(
                            qx,
                            qy,
                            x1 as int,
                            y1 as int,
                            dx - dy,
                            x2 as int,
                            y2 as int,
                            dx as int,
                            dy as int,
                            sx as int,
                            sy as int,
                            fuel,
                        ) && 0 <= qx < self.width && 0 <= qy < self.height implies pixel_is(
                        self.data@,
                        self.width as int,
                        qx,
                        qy,
                        r,
                        g,
                        b,
                    ) by {
                        if pixel_is(data_entry, self.width as int, qx, qy, r, g, b) {
                            lemma_pixel_is_stable(
                                data_entry,
                                self.data@,
                                self.width as int,
                                self.height as int,
                                qx,
                                qy,
                                r,
                                g,
                                b,
                            );
                        } else {
                            assert(walk_visits(
                                qx,
                                qy,
                                x0 as int,
                                y0 as int,
                                err as int,
                                x2 as int,
                                y2 as int,
                                dx as int,
                                dy as int,
                                sx as int,
                                sy as int,
                                fuel,
                            ));
                            assert(qx == x0 as int && qy == y0 as int);
                        }
                    }
                    assert forall|qx: int, qy: int|
                        #[trigger] spec_line_visits(
                            x1 as int,
                            y1 as int,
                            x2 as int,
                            y2 as int,
                            qx,
                            qy,
                        ) && 0 <= qx < old(self).width && 0 <= qy < old(self).height
                        implies pixel_is(self.data@, old(self).width as int, qx, qy, r, g, b) by {}
                }
                break ;
            }
            proof {
                lemma_bresenham_progress(dx as int, dy as int, px, py, err as int);
            }
            let e2: i32 = 2 * err;
            let ghost err0: int = err as int;
            let ghost px0: int = px;
            let ghost x0g: int = x0 as int;
            let ghost y0g: int = y0 as int;
            if e2 > -dy {
                proof {
                    lemma_bresenham_x_stays(dx as int, dy as int, px, py, err as int);
                    assert(dy * (1 + (px + 1)) == dy * (1 + px) + dy) by (nonlinear_arith);
                }
                err = err - dy;
                x0 = x0 + sx;
                proof {
                    px = px + 1;
                }
            }
            if e2 < dx {
                proof {
                    lemma_bresenham_y_stays(dx as int, dy as int, px0, py, err0, e2 as int);
                    assert(dx * (1 + (py + 1)) == dx * (1 + py) + dx) by (nonlinear_arith);
                }
                err = err + dx;
                y0 = y0 + sy;
                proof {
                    py = py + 1;
                }
            }
            proof {
                let stepped = walk_step(
                    x0g,
                    y0g,
                    err0,
                    dx as int,
                    dy as int,
                    sx as int,
                    sy as int,
                );
                assert(stepped.0 == x0 as int && stepped.1 == y0 as int && stepped.2 == err as int);
                assert(fuel >= 1);
                assert forall|qx: int, qy: int|
                    #[trigger] walk_visits(
                        qx,
                        qy,
                        x1 as int,
                        y1 as int,
                        dx - dy,
                        x2 as int,
                        y2 as int,
                        dx as int,
                        dy as int,
                        sx as int,
                        sy as int,
                        fuel,
                    ) && 0 <= qx < self.width && 0 <= qy < self.height implies pixel_is(
                    self.data@,
                    self.width as int,
                    qx,
                    qy,
                    r,
                    g,
                    b,
                ) || walk_visits(
                    qx,
                    qy,
                    x0 as int,
                    y0 as int,
                    err as int,
                    x2 as int,
                    y2 as int,
                    dx as int,
                    dy as int,
                    sx as int,
                    sy as int,
                    fuel,
                ) by {
                    if pixel_is(data_entry, self.width as int, qx, qy, r, g, b) {
                        lemma_pixel_is_stable(
                            data_entry,
                            self.data@,
                            self.width as int,
                            self.height as int,
                            qx,
                            qy,
                            r,
                            g,
                            b,
                        );
                    } else if qx == x0g && qy == y0g {
                        assert(pixel_is(self.data@, self.width as int, qx, qy, r, g, b));
                    } else {
                        assert(walk_visits(
                            qx,
                            qy,
                            x0g,
                            y0g,
                            err0,
                            x2 as int,
                            y2 as int,
                            dx as int,
                            dy as int,
                            sx as int,
                            sy as int,
                            fuel,
                        ));
                        assert(walk_visits(
                            qx,
                            qy,
                            stepped.0,
                            stepped.1,
                            stepped.2,
                            x2 as int,
                            y2 as int,
                            dx as int,
                            dy as int,
                            sx as int,
                            sy as int,
                            (fuel - 1) as nat,
                        ));
                        lemma_walk_visits_mono(
                            qx,
                            qy,
                            stepped.0,
                            stepped.1,
                            stepped.2,
                            x2 as int,
                            y2 as int,
                            dx as int,
                            dy as int,
                            sx as int,
                            sy as int,
                            (fuel - 1) as nat,
                            fuel,
                        );
                    }
                }
            }
        }
    }

    /// Thick line: several parallel single-pixel lines offset
    /// perpendicular to the dominant axis.
    pub fn draw_thick_line(
        &mut self,
        x1: i32,
        y1: i32,
        x2: i32,
        y2: i32,
        r: u8,
        g: u8,
        b: u8,
        t: i32,
    )
        requires
            old(self).wf(),
            -100000 <= x1 <= 100000,
            -100000 <= y1 <= 100000,
            -100000 <= x2 <= 100000,
            -100000 <= y2 <= 100000,
            0 <= t <= 100,
        ensures
            final(self).wf(),
            old(self).same_dims(*final(self)),
            only_recolors(old(self).data@, final(self).data@, r, g, b),
            0 <= x1 < old(self).width && 0 <= y1 < old(self).height ==> pixel_is(
                final(self).data@,
                old(self).width as int,
                x1 as int,
                y1 as int,
                r,
                g,
                b,
            ),
            0 <= x2 < old(self).width && 0 <= y2 < old(self).height ==> pixel_is(
                final(self).data@,
                old(self).width as int,
                x2 as int,
                y2 as int,
                r,
                g,
                b,
            ),
            !spec_line_rejected(
                x1 as int,
                y1 as int,
                x2 as int,
                y2 as int,
                old(self).width as int,
                old(self).height as int,
            ) ==> forall|qx: int, qy: int|
                #[trigger] spec_line_visits(x1 as int, y1 as int, x2 as int, y2 as int, qx, qy) && 0
                    <= qx < old(self).width && 0 <= qy < old(self).height ==> pixel_is(
                    final(self).data@,
                    old(self).width as int,
                    qx,
                    qy,
                    r,
                    g,
                    b,
                ),
            forall|qx: int, qy: int, c: int|
                0 <= qx < old(self).width && 0 <= qy < old(self).height && 0 <= c < 4
                    && outside_box_margin(
                    qx,
                    qy,
                    x1 as int,
                    y1 as int,
                    x2 as int,
                    y2 as int,
                    (if t > 1 {
                        t / 2
                    } else {
                        0
                    }) as int,
                ) ==> #[trigger] final(self).data[(qy * old(self).width + qx) * 4 + c] == old(
                    self,
                ).data[(qy * old(self).width + qx) * 4 + c],
    {
        let half: i32 = if t > 1 {
            t / 2
        } else {
            0
        };
        let mut o: i32 = -half;
        while o <= half
            invariant
                self.wf(),
                old(self).same_dims(*self),
                only_recolors(old(self).data@, self.data@, r, g, b),
                -half <= o <= half + 1,
                0 <= half <= 50,
                -100000 <= x1 <= 100000,
                -100000 <= y1 <= 100000,
                -100000 <= x2 <= 100000,
                -100000 <= y2 <= 100000,
                (o > 0 && 0 <= x1 < self.width && 0 <= y1 < self.height) ==> pixel_is(
                    self.data@,
                    self.width as int,
                    x1 as int,
                    y1 as int,
                    r,
                    g,
                    b,
                ),
                (o > 0 && 0 <= x2 < self.width && 0 <= y2 < self.height) ==> pixel_is(
                    self.data@,
                    self.width as int,
                    x2 as int,
                    y2 as int,
                    r,
                    g,
                    b,
                ),
                (o > 0 && !spec_line_rejected(
                    x1 as int,
                    y1 as int,
                    x2 as int,
                    y2 as int,
                    self.width as int,
                    self.height as int,
                )) ==> (forall|qx: int, qy: int|
                    #[trigger] spec_line_visits(x1 as int, y1 as int, x2 as int, y2 as int, qx, qy)
                        && 0 <= qx < self.width && 0 <= qy < self.height ==> pixel_is(
                        self.data@,
                        self.width as int,
                        qx,
                        qy,
                        r,
                        g,
                        b,
                    )),
                forall|qx: int, qy: int, c: int|
                    0 <= qx < self.width && 0 <= qy < self.height && 0 <= c < 4
                        && outside_box_margin(
                        qx,
                        qy,
                        x1 as int,
                        y1 as int,
                        x2 as int,
                        y2 as int,
                        half as int,
                    ) ==> #[trigger] self.data[(qy * self.width + qx) * 4 + c] == old(self).data[(qy
                    * self.width + qx) * 4 + c],
            decreases half - o + 1,
        {
            let ghost pre = self.data@;
            if x1 == x2 {
                self.draw_line(x1 + o, y1, x2 + o, y2, r, g, b);
                proof {
                    lemma_only_recolors_trans(old(self).data@, pre, self.data@, r, g, b);
                    if 0 <= x1 && (x1 as int) < self.width && 0 <= y1 && (y1 as int)
                        < self.height && pixel_is(
                        pre,
                        self.width as int,
                        x1 as int,
                        y1 as int,
                        r,
                        g,
                        b,
                    ) {
                        lemma_pixel_is_stable(
                            pre,
                            self.data@,
                            self.width as int,
                            self.height as int,
                            x1 as int,
                            y1 as int,
                            r,
                            g,
                            b,
                        );
                    }
                    if 0 <= x2 && (x2 as int) < self.width && 0 <= y2 && (y2 as int)
                        < self.height && pixel_is(
                        pre,
                        self.width as int,
                        x2 as int,
                        y2 as int,
                        r,
                        g,
                        b,
                    ) {
                        lemma_pixel_is_stable(
                            pre,
                            self.data@,
                            self.width as int,
                            self.height as int,
                            x2 as int,
                            y2 as int,
                            r,
                            g,
                            b,
                        );
                    }
                }
                proof {
                    if o >= 0 && !spec_line_rejected(
                        x1 as int,
                        y1 as int,
                        x2 as int,
                        y2 as int,
                        self.width as int,
                        self.height as int,
                    ) {
                        if o == 0 {
                            assert(x1 + o == x1 && x2 + o == x2);
                        } else {
                            lemma_line_painted_stable(
                                pre,
                                self.data@,
                                self.width as int,
                                self.height as int,
                                x1 as int,
                                y1 as int,
                                x2 as int,
                                y2 as int,
                                r,
                                g,
                                b,
                            );
                        }
                        assert(forall|qx: int, qy: int|
                            #[trigger] spec_line_visits(
                                x1 as int,
                                y1 as int,
                                x2 as int,
                                y2 as int,
                                qx,
                                qy,
                            ) && 0 <= qx < self.width && 0 <= qy < self.height ==> pixel_is(
                                self.data@,
                                self.width as int,
                                qx,
                                qy,
                                r,
                                g,
                                b,
                            ));
                    }
                    assert forall|qx: int, qy: int, c: int|
                        0 <= qx < self.width && 0 <= qy < self.height && 0 <= c < 4
                            && outside_box_margin(
                            qx,
                            qy,
                            x1 as int,
                            y1 as int,
                            x2 as int,
                            y2 as int,
                            half as int,
                        ) implies #[trigger] self.data[(qy * self.width + qx) * 4 + c] == old(
                        self,
                    ).data[(qy * self.width + qx) * 4 + c] by {
                        lemma_pixel_index(self.width as int, self.height as int, qx, qy);
                        assert(outside_box(qx, qy, (x1 + o) as int, y1 as int, (x2 + o) as int,
                            y2 as int));
                        assert(pre[(qy * self.width + qx) * 4 + c] == old(self).data[(qy
                            * self.width + qx) * 4 + c]);
                    }
                }
            } else if y1 == y2 {
                self.draw_line(x1, y1 + o, x2, y2 + o, r, g, b);
                proof {
                    lemma_only_recolors_trans(old(self).data@, pre, self.data@, r, g, b);
                    if 0 <= x1 && (x1 as int) < self.width && 0 <= y1 && (y1 as int)
                        < self.height && pixel_is(
                        pre,
                        self.width as int,
                        x1 as int,
                        y1 as int,
                        r,
                        g,
                        b,
                    ) {
                        lemma_pixel_is_stable(
                            pre,
                            self.data@,
                            self.width as int,
                            self.height as int,
                            x1 as int,
                            y1 as int,
                            r,
                            g,
                            b,
                        );
                    }
                    if 0 <= x2 && (x2 as int) < self.width && 0 <= y2 && (y2 as int)
                        < self.height && pixel_is(
                        pre,
                        self.width as int,
                        x2 as int,
                        y2 as int,
                        r,
                        g,
                        b,
                    ) {
                        lemma_pixel_is_stable(
                            pre,
                            self.data@,
                            self.width as int,
                            self.height as int,
                            x2 as int,
                            y2 as int,
                            r,
                            g,
                            b,
                        );
                    }
                }
                proof {
                    if o >= 0 && !spec_line_rejected(
                        x1 as int,
                        y1 as int,
                        x2 as int,
                        y2 as int,
                        self.width as int,
                        self.height as int,
                    ) {
                        if o == 0 {
                            assert(y1 + o == y1 && y2 + o == y2);
                        } else {
                            lemma_line_painted_stable(
                                pre,
                                self.data@,
                                self.width as int,
                                self.height as int,
                                x1 as int,
                                y1 as int,
                                x2 as int,
                                y2 as int,
                                r,
                                g,
                                b,
                            );
                        }
                        assert(forall|qx: int, qy: int|
                            #[trigger] spec_line_visits(
                                x1 as int,
                                y1 as int,
                                x2 as int,
                                y2 as int,
                                qx,
                                qy,
                            ) && 0 <= qx < self.width && 0 <= qy < self.height ==> pixel_is(
                                self.data@,
                                self.width as int,
                                qx,
                                qy,
                                r,
                                g,
                                b,
                            ));
                    }
                    assert forall|qx: int, qy: int, c: int|
                        0 <= qx < self.width && 0 <= qy < self.height && 0 <= c < 4
                            && outside_box_margin(
                            qx,
                            qy,
                            x1 as int,
                            y1 as int,
                            x2 as int,
                            y2 as int,
                            half as int,
                        ) implies #[trigger] self.data[(qy * self.width + qx) * 4 + c] == old(
                        self,
                    ).data[(qy * self.width + qx) * 4 + c] by {
                        lemma_pixel_index(self.width as int, self.height as int, qx, qy);
                        assert(outside_box(qx, qy, x1 as int, (y1 + o) as int, x2 as int, (y2
                            + o) as int));
                        assert(pre[(qy * self.width + qx) * 4 + c] == old(self).data[(qy
                            * self.width + qx) * 4 + c]);
                    }
                }
            } else {
                self.draw_line(x1 + o, y1, x2 + o, y2, r, g, b);
                proof {
                    lemma_only_recolors_trans(old(self).data@, pre, self.data@, r, g, b);
                    if 0 <= x1 && (x1 as int) < self.width && 0 <= y1 && (y1 as int)
                        < self.height && pixel_is(
                        pre,
                        self.width as int,
                        x1 as int,
                        y1 as int,
                        r,
                        g,
                        b,
                    ) {
                        lemma_pixel_is_stable(
                            pre,
                            self.data@,
                            self.width as int,
                            self.height as int,
                            x1 as int,
                            y1 as int,
                            r,
                            g,
                            b,
                        );
                    }
                    if 0 <= x2 && (x2 as int) < self.width && 0 <= y2 && (y2 as int)
                        < self.height && pixel_is(
                        pre,
                        self.width as int,
                        x2 as int,
                        y2 as int,
                        r,
                        g,
                        b,
                    ) {
                        lemma_pixel_is_stable(
                            pre,
                            self.data@,
                            self.width as int,
                            self.height as int,
                            x2 as int,
                            y2 as int,
                            r,
                            g,
                            b,
                        );
                    }
                }
                let ghost mid = self.data@;
                self.draw_line(x1, y1 + o, x2, y2 + o, r, g, b);
                proof {
                    lemma_only_recolors_trans(old(self).data@, mid, self.data@, r, g, b);
                    lemma_only_recolors_trans(pre, mid, self.data@, r, g, b);
                    if 0 <= x1 && (x1 as int) < self.width && 0 <= y1 && (y1 as int)
                        < self.height && pixel_is(
                        mid,
                        self.width as int,
                        x1 as int,
                        y1 as int,
                        r,
                        g,
                        b,
                    ) {
                        lemma_pixel_is_stable(
                            mid,
                            self.data@,
                            self.width as int,
                            self.height as int,
                            x1 as int,
                            y1 as int,
                            r,
                            g,
                            b,
                        );
                    }
                    if 0 <= x2 && (x2 as int) < self.width && 0 <= y2 && (y2 as int)
                        < self.height && pixel_is(
                        mid,
                        self.width as int,
                        x2 as int,
                        y2 as int,
                        r,
                        g,
                        b,
                    ) {
                        lemma_pixel_is_stable(
                            mid,
                            self.data@,
                            self.width as int,
                            self.height as int,
                            x2 as int,
                            y2 as int,
                            r,
                            g,
                            b,
                        );
                    }
                }
                proof {
                    if o >= 0 && !spec_line_rejected(
                        x1 as int,
                        y1 as int,
                        x2 as int,
                        y2 as int,
                        self.width as int,
                        self.height as int,
                    ) {
                        if o == 0 {
                            assert(y1 + o == y1 && y2 + o == y2);
                        } else {
                            lemma_line_painted_stable(
                                pre,
                                self.data@,
                                self.width as int,
                                self.height as int,
                                x1 as int,
                                y1 as int,
                                x2 as int,
                                y2 as int,
                                r,
                                g,
                                b,
                            );
                        }
                        assert(forall|qx: int, qy: int|
                            #[trigger] spec_line_visits(
                                x1 as int,
                                y1 as int,
                                x2 as int,
                                y2 as int,
                                qx,
                                qy,
                            ) && 0 <= qx < self.width && 0 <= qy < self.height ==> pixel_is(
                                self.data@,
                                self.width as int,
                                qx,
                                qy,
                                r,
                                g,
                                b,
                            ));
                    }
                    assert forall|qx: int, qy: int, c: int|
                        0 <= qx < self.width && 0 <= qy < self.height && 0 <= c < 4
                            && outside_box_margin(
                            qx,
                            qy,
                            x1 as int,
                            y1 as int,
                            x2 as int,
                            y2 as int,
                            half as int,
                        ) implies #[trigger] self.data[(qy * self.width + qx) * 4 + c] == old(
                        self,
                    ).data[(qy * self.width + qx) * 4 + c] by {
                        lemma_pixel_index(self.width as int, self.height as int, qx, qy);
                        assert(outside_box(qx, qy, (x1 + o) as int, y1 as int, (x2 + o) as int,
                            y2 as int));
                        assert(outside_box(qx, qy, x1 as int, (y1 + o) as int, x2 as int, (y2
                            + o) as int));
                        assert(mid[(qy * self.width + qx) * 4 + c] == pre[(qy * self.width + qx)
                            * 4 + c]);
                        assert(pre[(qy * self.width + qx) * 4 + c] == old(self).data[(qy
                            * self.width + qx) * 4 + c]);
                    }
                }
            }
            o = o + 1;
        }
    }
}

/// When the walk is not yet at the far endpoint, at least one of the two
/// Bresenham step conditions fires.
proof fn lemma_bresenham_progress(dx: int, dy: int, px: int, py: int, err: int)
    requires
        0 <= px <= dx,
        0 <= py <= dy,
        err == dx * (1 + py) - dy * (1 + px),
        !(px == dx && py == dy),
    ensures
        2 * err > -dy || 2 * err < dx,
{
    if !(2 * err > -dy) && !(2 * err < dx) {
        assert(dx <= 2 * err && 2 * err <= -dy);
        assert(dx == 0 && dy == 0);
        assert(err == 0) by (nonlinear_arith)
            requires
                dx == 0,
                dy == 0,
                err == dx * (1 + py) - dy * (1 + px),
        ;
        assert(false);
    }
}

/// An x-step never overshoots: when its condition fires and the walk is
/// not at the end, the x progress is still short of dx.
proof fn lemma_bresenham_x_stays(dx: int, dy: int, px: int, py: int, err: int)
    requires
        0 <= px <= dx,
        0 <= py <= dy,
        err == dx * (1 + py) - dy * (1 + px),
        2 * err > -dy,
        !(px == dx && py == dy),
    ensures
        px < dx,
{
    if px == dx {
        assert(py < dy);
        assert(false) by (nonlinear_arith)
            requires
                px == dx,
                0 <= py < dy,
                0 <= dx,
                err == dx * (1 + py) - dy * (1 + px),
                2 * err > -dy,
        ;
    }
}

/// A y-step never overshoots. The e2 value is the one sampled before any
/// x-step of the same iteration, which is why it is passed separately.
proof fn lemma_bresenham_y_stays(dx: int, dy: int, px: int, py: int, err: int, e2: int)
    requires
        0 <= px <= dx,
        0 <= py <= dy,
        err == dx * (1 + py) - dy * (1 + px),
        e2 == 2 * err,
        e2 < dx,
        !(px == dx && py == dy),
    ensures
        py < dy,
{
    if py == dy {
        assert(px < dx);
        assert(false) by (nonlinear_arith)
            requires
                py == dy,
                0 <= px < dx,
                0 <= dy,
                err == dx * (1 + py) - dy * (1 + px),
                2 * err < dx,
        ;
    }
}

} // verus!
