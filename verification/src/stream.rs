//! River streams: the smooth per-cell curve segment of the river
//! centerline. A stream is a quadratic curve through the midpoints of
//! consecutive sites, or a degenerate point where the two sites coincide.
//! To keep the midpoints exact over integer sites, a stream stores its
//! control points in doubled coordinates: a stored value is twice the real
//! one. Evaluation is exact rational arithmetic, and the collision query
//! projects onto a fixed grid of curve parameters, comparing squared
//! distances exactly.

use vstd::prelude::*;

use crate::field::COORD_LIMIT;

verus! {

/// Number of parameter steps of the collision grid: the curve is sampled
/// at `i / SAMPLE_DEN` for `i` from zero to `SAMPLE_DEN` inclusive, which
/// includes both endpoints and the midpoint.
pub const SAMPLE_DEN: u32 = 64;

/// One river segment, in doubled coordinates.
#[derive(Clone, Copy, PartialEq, Eq, Structural, Debug)]
pub enum Stream {
    /// A quadratic curve: start, shaping handle, end.
    Path { ax2: i64, ay2: i64, hx2: i64, hy2: i64, ex2: i64, ey2: i64 },
    /// A zero-length stream at a single site.
    Point { x2: i64, y2: i64 },
}

/// All stored (doubled) coordinates stay within twice the site bound.
pub open spec fn stream_wf(s: Stream) -> bool {
    match s {
        Stream::Path { ax2, ay2, hx2, hy2, ex2, ey2 } => {
            &&& -2 * COORD_LIMIT <= ax2 <= 2 * COORD_LIMIT
            &&& -2 * COORD_LIMIT <= ay2 <= 2 * COORD_LIMIT
            &&& -2 * COORD_LIMIT <= hx2 <= 2 * COORD_LIMIT
            &&& -2 * COORD_LIMIT <= hy2 <= 2 * COORD_LIMIT
            &&& -2 * COORD_LIMIT <= ex2 <= 2 * COORD_LIMIT
            &&& -2 * COORD_LIMIT <= ey2 <= 2 * COORD_LIMIT
        },
        Stream::Point { x2, y2 } => {
            &&& -2 * COORD_LIMIT <= x2 <= 2 * COORD_LIMIT
            &&& -2 * COORD_LIMIT <= y2 <= 2 * COORD_LIMIT
        },
    }
}

/// The stream synthesized from three consecutive sites: it runs from the
/// midpoint of the first pair, around the middle site as shaping handle,
/// to the midpoint of the second pair; coincident first sites degenerate
/// to a point.
pub open spec fn synth_stream(
    s0x: int,
    s0y: int,
    s1x: int,
    s1y: int,
    s2x: int,
    s2y: int,
) -> Stream {
    if s0x == s1x && s0y == s1y {
        Stream::Point { x2: (2 * s0x) as i64, y2: (2 * s0y) as i64 }
    } else {
        Stream::Path {
            ax2: (s0x + s1x) as i64,
            ay2: (s0y + s1y) as i64,
            hx2: (2 * s1x) as i64,
            hy2: (2 * s1y) as i64,
            ex2: (s1x + s2x) as i64,
            ey2: (s1y + s2y) as i64,
        }
    }
}

/// Numerator of the x coordinate of the stream at parameter
/// `t_num / t_den`, over the common denominator `2 * t_den * t_den`.
pub open spec fn eval_x_num(s: Stream, t_num: int, t_den: int) -> int {
    match s {
        Stream::Path { ax2, hx2, ex2, .. } => (t_den - t_num) * (t_den - t_num) * ax2 + 2 * (t_den
            - t_num) * t_num * hx2 + t_num * t_num * ex2,
        Stream::Point { x2, .. } => x2 * t_den * t_den,
    }
}

/// Numerator of the y coordinate of the stream at parameter
/// `t_num / t_den`, over the common denominator `2 * t_den * t_den`.
pub open spec fn eval_y_num(s: Stream, t_num: int, t_den: int) -> int {
    match s {
        Stream::Path { ay2, hy2, ey2, .. } => (t_den - t_num) * (t_den - t_num) * ay2 + 2 * (t_den
            - t_num) * t_num * hy2 + t_num * t_num * ey2,
        Stream::Point { y2, .. } => y2 * t_den * t_den,
    }
}

/// Squared distance, scaled by the squared common denominator
/// `(2 * SAMPLE_DEN * SAMPLE_DEN)^2`, between the query point `(x, y)` and
/// the curve point at grid parameter `i / SAMPLE_DEN`.
pub open spec fn grid_dist_sq(s: Stream, i: int, x: int, y: int) -> int {
    let dxn = eval_x_num(s, i, SAMPLE_DEN as int) - 2 * x * (SAMPLE_DEN as int) * (
    SAMPLE_DEN as int);
    let dyn_ = eval_y_num(s, i, SAMPLE_DEN as int) - 2 * y * (SAMPLE_DEN as int) * (
    SAMPLE_DEN as int);
    dxn * dxn + dyn_ * dyn_
}

/// Whether the query point `(x, y)` lies strictly within `width` of the
/// stream: within `width` of its site for a point, within `width` of some
/// grid sample of the curve for a path. Distances are compared squared
/// and exactly, over the grid's common denominator.
pub open spec fn stream_collides(s: Stream, x: int, y: int, width: int) -> bool {
    match s {
        Stream::Path { .. } => exists|i: int|
            0 <= i <= SAMPLE_DEN as int && #[trigger] grid_dist_sq(s, i, x, y) < 4 * width * width
                * (SAMPLE_DEN as int) * (SAMPLE_DEN as int) * (SAMPLE_DEN as int) * (
            SAMPLE_DEN as int),
        Stream::Point { x2, y2 } => (x2 - 2 * x) * (x2 - 2 * x) + (y2 - 2 * y) * (y2 - 2 * y) < 4
            * width * width,
    }
}

impl Stream {
    /// Build the stream for a cell from its own site and the next two
    /// sites downstream.
    pub fn new(site_0: (i64, i64), site_1: (i64, i64), site_2: (i64, i64)) -> (s: Stream)
        requires
            -COORD_LIMIT <= site_0.0 <= COORD_LIMIT,
            -COORD_LIMIT <= site_0.1 <= COORD_LIMIT,
            -COORD_LIMIT <= site_1.0 <= COORD_LIMIT,
            -COORD_LIMIT <= site_1.1 <= COORD_LIMIT,
            -COORD_LIMIT <= site_2.0 <= COORD_LIMIT,
            -COORD_LIMIT <= site_2.1 <= COORD_LIMIT,
        ensures
            s == synth_stream(
                site_0.0 as int,
                site_0.1 as int,
                site_1.0 as int,
                site_1.1 as int,
                site_2.0 as int,
                site_2.1 as int,
            ),
            stream_wf(s),
    {
        if site_0.0 == site_1.0 && site_0.1 == site_1.1 {
            Stream::Point { x2: 2 * site_0.0, y2: 2 * site_0.1 }
        } else {
            Stream::Path {
                ax2: site_0.0 + site_1.0,
                ay2: site_0.1 + site_1.1,
                hx2: 2 * site_1.0,
                hy2: 2 * site_1.1,
                ex2: site_1.0 + site_2.0,
                ey2: site_1.1 + site_2.1,
            }
        }
    }

    /// Evaluate the stream at parameter `t_num / t_den` in `[0, 1]`. The
    /// exact position is the returned numerator pair over the returned
    /// denominator `2 * t_den * t_den` (a point evaluates to itself).
    pub fn evaluate(&self, t_num: u32, t_den: u32) -> (r: (i128, i128, u128))
        requires
            stream_wf(*self),
            1 <= t_den <= 0x1_0000,
            t_num <= t_den,
        ensures
            r.0 == eval_x_num(*self, t_num as int, t_den as int),
            r.1 == eval_y_num(*self, t_num as int, t_den as int),
            r.2 == 2 * (t_den as int) * (t_den as int),
    {
        let td = t_den as i128;
        let tn = t_num as i128;
        proof {
            assert(2 * td * td <= 0x2_0000_0000) by (nonlinear_arith)
                requires 0 < td <= 0x1_0000,
            ;
        }
        match self {
            Stream::Path { ax2, ay2, hx2, hy2, ex2, ey2 } => {
                let u = td - tn;
                proof {
                    assert(u * u * (*ax2 as i128) <= 0x1_0000_0000_0000_0000_0000i128 && u * u * (
                    *ax2 as i128) >= -0x1_0000_0000_0000_0000_0000i128 && 2 * u * tn * (
                    *hx2 as i128) <= 0x2_0000_0000_0000_0000_0000i128 && 2 * u * tn * (
                    *hx2 as i128) >= -0x2_0000_0000_0000_0000_0000i128 && tn * tn * (
                    *ex2 as i128) <= 0x1_0000_0000_0000_0000_0000i128 && tn * tn * (
                    *ex2 as i128) >= -0x1_0000_0000_0000_0000_0000i128) by (nonlinear_arith)
                        requires
                            0 <= u <= 0x1_0000,
                            0 <= tn <= 0x1_0000,
                            -0x1_0000_0000 <= *ax2 as i128 <= 0x1_0000_0000,
                            -0x1_0000_0000 <= *hx2 as i128 <= 0x1_0000_0000,
                            -0x1_0000_0000 <= *ex2 as i128 <= 0x1_0000_0000,
                    ;
                    assert(u * u * (*ay2 as i128) <= 0x1_0000_0000_0000_0000_0000i128 && u * u * (
                    *ay2 as i128) >= -0x1_0000_0000_0000_0000_0000i128 && 2 * u * tn * (
                    *hy2 as i128) <= 0x2_0000_0000_0000_0000_0000i128 && 2 * u * tn * (
                    *hy2 as i128) >= -0x2_0000_0000_0000_0000_0000i128 && tn * tn * (
                    *ey2 as i128) <= 0x1_0000_0000_0000_0000_0000i128 && tn * tn * (
                    *ey2 as i128) >= -0x1_0000_0000_0000_0000_0000i128) by (nonlinear_arith)
                        requires
                            0 <= u <= 0x1_0000,
                            0 <= tn <= 0x1_0000,
                            -0x1_0000_0000 <= *ay2 as i128 <= 0x1_0000_0000,
                            -0x1_0000_0000 <= *hy2 as i128 <= 0x1_0000_0000,
                            -0x1_0000_0000 <= *ey2 as i128 <= 0x1_0000_0000,
                    ;
                }
                proof {
                    assert(0 <= u * u <= 0x1_0000_0000 && 0 <= tn * tn <= 0x1_0000_0000 && 0 <= 2
                        * u * tn <= 0x2_0000_0000) by (nonlinear_arith)
                        requires
                            0 <= u <= 0x1_0000,
                            0 <= tn <= 0x1_0000,
                    ;
                }
                let x = u * u * (*ax2 as i128) + 2 * u * tn * (*hx2 as i128) + tn * tn * (
                *ex2 as i128);
                let y = u * u * (*ay2 as i128) + 2 * u * tn * (*hy2 as i128) + tn * tn * (
                *ey2 as i128);
                (x, y, (2 * td * td) as u128)
            },
            Stream::Point { x2, y2 } => {
                proof {
                    assert((*x2 as i128) * td * td <= 0x1_0000_0000_0000_0000_0000i128 && (
                    *x2 as i128) * td * td >= -0x1_0000_0000_0000_0000_0000i128 && (*y2 as i128)
                        * td * td <= 0x1_0000_0000_0000_0000_0000i128 && (*y2 as i128) * td * td
                        >= -0x1_0000_0000_0000_0000_0000i128) by (nonlinear_arith)
                        requires
                            0 < td <= 0x1_0000,
                            -0x1_0000_0000 <= *x2 as i128 <= 0x1_0000_0000,
                            -0x1_0000_0000 <= *y2 as i128 <= 0x1_0000_0000,
                    ;
                }
                proof {
                    assert(-0x1_0000_0000_0000 <= (*x2 as i128) * td <= 0x1_0000_0000_0000
                        && -0x1_0000_0000_0000 <= (*y2 as i128) * td <= 0x1_0000_0000_0000) by (
                    nonlinear_arith)
                        requires
                            0 < td <= 0x1_0000,
                            -0x1_0000_0000 <= *x2 as i128 <= 0x1_0000_0000,
                            -0x1_0000_0000 <= *y2 as i128 <= 0x1_0000_0000,
                    ;
                }
                ((*x2 as i128) * td * td, (*y2 as i128) * td * td, (2 * td * td) as u128)
            },
        }
    }

    /// Whether the point `(x, y)` lies strictly within `width` of this
    /// stream, by exact squared-distance comparison against the site (for
    /// a point) or against every sample of the parameter grid (for a
    /// path).
    pub fn collides(&self, x: i64, y: i64, width: u128) -> (r: bool)
        requires
            stream_wf(*self),
            -COORD_LIMIT <= x <= COORD_LIMIT,
            -COORD_LIMIT <= y <= COORD_LIMIT,
        ensures
            r == stream_collides(*self, x as int, y as int, width as int),
    {
        match self {
            Stream::Point { x2, y2 } => {
                let dx = (*x2 as i128) - 2 * (x as i128);
                let dy = (*y2 as i128) - 2 * (y as i128);
                proof {
                    assert(dx * dx >= 0 && dy * dy >= 0) by (nonlinear_arith);
                    assert(dx * dx <= 0x40000000000000000i128 && dy * dy
                        <= 0x40000000000000000i128) by (nonlinear_arith)
                        requires
                            -0x200000000 <= dx <= 0x200000000,
                            -0x200000000 <= dy <= 0x200000000,
                    ;
                }
                let d2 = dx * dx + dy * dy;
                let ghost wgi = width as int;
                if width >= 0x8_0000_0000 {
                    proof {
                        assert(4 * wgi * wgi > 0x80000000000000000) by (nonlinear_arith)
                            requires wgi >= 0x8_0000_0000,
                        ;
                    }
                    true
                } else {
                    let w = width as i128;
                    proof {
                        assert(4 * w * w <= 0x1000000000000000000i128 && 4 * w * w >= 0) by (
                        nonlinear_arith)
                            requires 0 <= w < 0x8_0000_0000i128,
                        ;
                    }
                    d2 < 4 * w * w
                }
            },
            Stream::Path { .. } => {
                let ghost gw = width as int;
                let ghost gden = SAMPLE_DEN as int;
                let mut i: u32 = 0;
                let mut hit = false;
                while i <= SAMPLE_DEN
                    invariant
                        stream_wf(*self),
                        self is Path,
                        -COORD_LIMIT <= x <= COORD_LIMIT,
                        -COORD_LIMIT <= y <= COORD_LIMIT,
                        i <= SAMPLE_DEN + 1,
                        hit ==> stream_collides(*self, x as int, y as int, gw),
                        !hit ==> (forall|j: int|
                            0 <= j < i ==> !(#[trigger] grid_dist_sq(*self, j, x as int, y as int)
                                < 4 * gw * gw * gden * gden * gden * gden)),
                        gw == width as int,
                        gden == SAMPLE_DEN as int,
                    decreases SAMPLE_DEN + 1 - i,
                {
                    let p = self.evaluate(i, SAMPLE_DEN);
                    let qn: i128 = 2 * (x as i128) * 4096;
                    let rn: i128 = 2 * (y as i128) * 4096;
                    proof {
                        lemma_eval_num_bounds(*self, i as int);
                        assert(qn == 2 * (x as int) * gden * gden && rn == 2 * (y as int) * gden
                            * gden) by (nonlinear_arith)
                            requires
                                gden == 64,
                                qn == 2 * (x as int) * 4096,
                                rn == 2 * (y as int) * 4096,
                        ;
                    }
                    let dx = p.0 - qn;
                    let dy = p.1 - rn;
                    proof {
                        assert(dx * dx >= 0 && dy * dy >= 0) by (nonlinear_arith);
                        assert(dx * dx <= 0x40000000000000000000000i128 && dy * dy
                            <= 0x40000000000000000000000i128) by (nonlinear_arith)
                            requires
                                -0x200000000000 <= dx <= 0x200000000000,
                                -0x200000000000 <= dy <= 0x200000000000,
                        ;
                    }
                    let d2 = dx * dx + dy * dy;
                    let sample_hit: bool = if width >= 0x2_0000_0000 {
                        proof {
                            assert(4 * gw * gw * gden * gden * gden * gden
                                > 0x80000000000000000000000) by (nonlinear_arith)
                                requires
                                    gw >= 0x2_0000_0000,
                                    gden == 64,
                            ;
                            assert(d2 < 4 * gw * gw * gden * gden * gden * gden);
                        }
                        true
                    } else {
                        let w = width as i128;
                        proof {
                            assert(4 * w * w * 64 * 64 * 64 * 64
                                <= 0x100000000000000000000000i128 && 4 * w * w * 64 * 64 * 64 * 64
                                >= 0) by (nonlinear_arith)
                                requires 0 <= w < 0x2_0000_0000i128,
                            ;
                        }
                        d2 < 4 * w * w * 64 * 64 * 64 * 64
                    };
                    if sample_hit {
                        proof {
                            assert(grid_dist_sq(*self, i as int, x as int, y as int) < 4 * gw * gw
                                * gden * gden * gden * gden);
                        }
                        hit = true;
                        i = SAMPLE_DEN + 1;
                    } else {
                        i = i + 1;
                    }
                }
                hit
            },
        }
    }
}

/// Over the parameter grid, the evaluated numerators stay within the
/// product of the squared grid denominator and the coordinate bound.
proof fn lemma_eval_num_bounds(s: Stream, i: int)
    requires
        stream_wf(s),
        0 <= i <= SAMPLE_DEN as int,
    ensures
        -0x1000_0000_0000 <= eval_x_num(s, i, SAMPLE_DEN as int) <= 0x1000_0000_0000,
        -0x1000_0000_0000 <= eval_y_num(s, i, SAMPLE_DEN as int) <= 0x1000_0000_0000,
{
    let d = SAMPLE_DEN as int;
    match s {
        Stream::Path { ax2, ay2, hx2, hy2, ex2, ey2 } => {
            assert((d - i) * (d - i) * ax2 + 2 * (d - i) * i * hx2 + i * i * ex2
                <= 0x1000_0000_0000 && (d - i) * (d - i) * ax2 + 2 * (d - i) * i * hx2 + i * i
                * ex2 >= -0x1000_0000_0000 && (d - i) * (d - i) * ay2 + 2 * (d - i) * i * hy2 + i
                * i * ey2 <= 0x1000_0000_0000 && (d - i) * (d - i) * ay2 + 2 * (d - i) * i * hy2
                + i * i * ey2 >= -0x1000_0000_0000) by (nonlinear_arith)
                requires
                    0 <= i <= d,
                    d == 64,
                    -0x1_0000_0000 <= ax2 <= 0x1_0000_0000,
                    -0x1_0000_0000 <= ay2 <= 0x1_0000_0000,
                    -0x1_0000_0000 <= hx2 <= 0x1_0000_0000,
                    -0x1_0000_0000 <= hy2 <= 0x1_0000_0000,
                    -0x1_0000_0000 <= ex2 <= 0x1_0000_0000,
                    -0x1_0000_0000 <= ey2 <= 0x1_0000_0000,
            ;
            assert(eval_x_num(s, i, d) == (d - i) * (d - i) * ax2 + 2 * (d - i) * i * hx2 + i * i
                * ex2);
            assert(eval_y_num(s, i, d) == (d - i) * (d - i) * ay2 + 2 * (d - i) * i * hy2 + i * i
                * ey2);
        },
        Stream::Point { x2, y2 } => {
            assert(x2 * d * d <= 0x1000_0000_0000 && x2 * d * d >= -0x1000_0000_0000 && y2 * d
                * d <= 0x1000_0000_0000 && y2 * d * d >= -0x1000_0000_0000) by (
            nonlinear_arith)
                requires
                    d == 64,
                    -0x1_0000_0000 <= x2 <= 0x1_0000_0000,
                    -0x1_0000_0000 <= y2 <= 0x1_0000_0000,
            ;
            assert(eval_x_num(s, i, d) == x2 * d * d);
            assert(eval_y_num(s, i, d) == y2 * d * d);
        },
    }
}

} // verus!
