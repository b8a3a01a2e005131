//! The projection and rasterization pipeline.

use vstd::prelude::*;
use vstd::arithmetic::div_mod::{
    lemma_div_is_ordered, lemma_div_is_ordered_by_denominator, lemma_div_multiples_vanish,
    lemma_div_pos_is_pos,
};
use crate::camera::Camera;
use crate::fixed::{
    abs_i, div_floor, div_trunc, div_trunc_i64, fx_div, fx_mul, is_sqrt, lemma_abs_prod_le,
    lemma_sqrt_floor_is_sqrt, sqrt_floor, ONE,
};
use crate::matrix::{ent, matrix_vector_multiply, mvm_fits, Matrix4x4};
use crate::mesh::Mesh;
use crate::triangle::{
    calculate_normal, normal_cx, normal_cy, normal_cz, normal_fits, normal_ssq, Triangle,
};
use crate::vector3::{dot_product, subtract, Vector3};
use crate::surface::{
    lemma_painted_compose, lemma_painted_equiv, lemma_painted_none, line_sel, painted, span_hi,
    span_lo, surface_wf, Surface,
};

verus! {

/// A point in screen space, in pixel coordinates with the origin at the
/// top left.
#[derive(Copy, Clone, Debug, PartialEq, Eq, Structural)]
pub struct Point {
    pub x: i64,
    pub y: i64,
}

impl Point {
    /// A point from its pixel coordinates.
    pub fn new(x: i64, y: i64) -> (p: Self)
        ensures
            p == (Point { x, y }),
    {
        Self { x, y }
    }
}

/// All coordinates the rasterizer accepts: 2^30 pixels in magnitude, so
/// every edge interpolation product fits in `i64`.
pub open spec fn point_ok(p: Point) -> bool {
    abs_i(p.x as int) <= 0x4000_0000 && abs_i(p.y as int) <= 0x4000_0000
}

/// The x coordinate where the edge from `(ax, ay)` to `(bx, by)` crosses
/// the scanline `y`, interpolated with truncating division.
pub open spec fn interp_x(ax: int, ay: int, bx: int, by: int, y: int) -> int {
    ax + div_trunc((y - ay) * (bx - ax), by - ay)
}

/// The pixels of a flat-bottom triangle: apex `(x1, y1)` on top, flat
/// edge between `(x2, y2)` and `(x3, y3)` below, filled scanline by
/// scanline between the two edge cursors.
pub open spec fn bottom_flat_sel(
    x1: int,
    y1: int,
    x2: int,
    y2: int,
    x3: int,
    y3: int,
) -> spec_fn(int, int) -> bool {
    |xx: int, yy: int|
        {
            let c1 = interp_x(x1, y1, x2, y2, yy);
            let c2 = interp_x(x1, y1, x3, y3, yy);
            y1 <= yy <= y2 && span_lo(c1, c2) <= xx <= span_hi(c1, c2)
        }
}

/// The pixels of a flat-top triangle: flat edge between `(x1, y1)` and
/// `(x2, y2)` on top, apex `(x3, y3)` below, filled scanline by scanline
/// between the two edge cursors anchored at the apex.
pub open spec fn top_flat_sel(
    x1: int,
    y1: int,
    x2: int,
    y2: int,
    x3: int,
    y3: int,
) -> spec_fn(int, int) -> bool {
    |xx: int, yy: int|
        {
            let c1 = interp_x(x3, y3, x1, y1, yy);
            let c2 = interp_x(x3, y3, x2, y2, yy);
            y1 <= yy <= y3 && span_lo(c1, c2) <= xx <= span_hi(c1, c2)
        }
}

/// Fills a flat-bottom triangle: apex `v1` strictly above the flat edge
/// `v2`-`v3`, one horizontal span per scanline from top to bottom.
pub fn fill_bottom_flat_triangle(
    surface: &mut Surface,
    v1: Point,
    v2: Point,
    v3: Point,
    color: (u8, u8, u8),
)
    requires
        surface_wf(*old(surface)),
        point_ok(v1),
        point_ok(v2),
        point_ok(v3),
        v1.y < v2.y,
        v2.y == v3.y,
    ensures
        surface_wf(*final(surface)),
        final(surface).width == old(surface).width,
        final(surface).height == old(surface).height,
        final(surface).pixels@ == painted(
            old(surface).pixels@,
            old(surface).width as int,
            bottom_flat_sel(v1.x as int, v1.y as int, v2.x as int, v2.y as int, v3.x as int, v3.y as int),
            color,
        ),
{
    let ghost w = surface.width as int;
    let ghost sel_full = bottom_flat_sel(
        v1.x as int,
        v1.y as int,
        v2.x as int,
        v2.y as int,
        v3.x as int,
        v3.y as int,
    );
    if surface.width == 0 {
        proof {
            assert(surface.pixels@.len() == 0);
            assert(painted(old(surface).pixels@, w, sel_full, color) =~= surface.pixels@);
        }
        return ;
    }
    let mut sy: i64 = v1.y;
    proof {
        let sel0 = (|xx: int, yy: int|
            {
                let c1 = interp_x(v1.x as int, v1.y as int, v2.x as int, v2.y as int, yy);
                let c2 = interp_x(v1.x as int, v1.y as int, v3.x as int, v3.y as int, yy);
                v1.y <= yy < sy && span_lo(c1, c2) <= xx <= span_hi(c1, c2)
            });
        assert forall|xx: int, yy: int|
            0 <= xx < w && 0 <= yy && yy * w + xx < surface.pixels@.len() implies !(
        #[trigger] sel0(xx, yy)) by {}
        lemma_painted_none(old(surface).pixels@, w, sel0, color);
    }
    while sy <= v2.y
        invariant
            surface_wf(*surface),
            surface.width == old(surface).width,
            surface.height == old(surface).height,
            w == surface.width as int,
            0 < w,
            point_ok(v1),
            point_ok(v2),
            point_ok(v3),
            v1.y < v2.y,
            v2.y == v3.y,
            v1.y <= sy <= v2.y + 1,
            (surface.pixels@ == painted(
                old(surface).pixels@,
                w,
                (|xx: int, yy: int|
                    {
                        let c1 = interp_x(v1.x as int, v1.y as int, v2.x as int, v2.y as int, yy);
                        let c2 = interp_x(v1.x as int, v1.y as int, v3.x as int, v3.y as int, yy);
                        v1.y <= yy < sy && span_lo(c1, c2) <= xx <= span_hi(c1, c2)
                    }),
                color,
            )),
        decreases v2.y + 1 - sy,
    {
        let ghost sel_a = (|xx: int, yy: int|
            {
                let c1 = interp_x(v1.x as int, v1.y as int, v2.x as int, v2.y as int, yy);
                let c2 = interp_x(v1.x as int, v1.y as int, v3.x as int, v3.y as int, yy);
                v1.y <= yy < sy && span_lo(c1, c2) <= xx <= span_hi(c1, c2)
            });
        let ghost sel_b = (|xx: int, yy: int|
            {
                let c1 = interp_x(v1.x as int, v1.y as int, v2.x as int, v2.y as int, yy);
                let c2 = interp_x(v1.x as int, v1.y as int, v3.x as int, v3.y as int, yy);
                v1.y <= yy < sy + 1 && span_lo(c1, c2) <= xx <= span_hi(c1, c2)
            });
        proof {
            assert(abs_i((sy - v1.y) as int * (v2.x - v1.x) as int) <= 0x4000_0000_0000_0000)
                by (nonlinear_arith)
                requires
                    abs_i((sy - v1.y) as int) <= 0x8000_0000 && abs_i((v2.x - v1.x) as int)
                        <= 0x8000_0000;
            assert(abs_i((sy - v1.y) as int * (v3.x - v1.x) as int) <= 0x4000_0000_0000_0000)
                by (nonlinear_arith)
                requires
                    abs_i((sy - v1.y) as int) <= 0x8000_0000 && abs_i((v3.x - v1.x) as int)
                        <= 0x8000_0000;
        }
        let c1: i64 = v1.x + div_trunc_i64((sy - v1.y) * (v2.x - v1.x), v2.y - v1.y);
        let c2: i64 = v1.x + div_trunc_i64((sy - v1.y) * (v3.x - v1.x), v3.y - v1.y);
        let ghost pre = surface.pixels@;
        surface.draw_horizontal_line(c1, c2, sy, color);
        proof {
            let row_sel = (|xx: int, yy: int|
                yy == sy && span_lo(c1 as int, c2 as int) <= xx <= span_hi(c1 as int, c2 as int));
            assert forall|xx: int, yy: int| #[trigger] sel_b(xx, yy) <==> (#[trigger] sel_a(xx, yy)
                || #[trigger] row_sel(xx, yy)) by {
                assert(c1 as int == interp_x(
                    v1.x as int,
                    v1.y as int,
                    v2.x as int,
                    v2.y as int,
                    sy as int,
                ));
                assert(c2 as int == interp_x(
                    v1.x as int,
                    v1.y as int,
                    v3.x as int,
                    v3.y as int,
                    sy as int,
                ));
            }
            lemma_painted_compose(old(surface).pixels@, w, sel_a, row_sel, sel_b, color);
            assert(surface.pixels@ =~= painted(old(surface).pixels@, w, sel_b, color));
        }
        sy = sy + 1;
    }
    proof {
        let sel_done = (|xx: int, yy: int|
            {
                let c1 = interp_x(v1.x as int, v1.y as int, v2.x as int, v2.y as int, yy);
                let c2 = interp_x(v1.x as int, v1.y as int, v3.x as int, v3.y as int, yy);
                v1.y <= yy < sy && span_lo(c1, c2) <= xx <= span_hi(c1, c2)
            });
        assert forall|xx: int, yy: int|
            0 <= xx < w && 0 <= yy && yy * w + xx < old(surface).pixels@.len() implies (
        #[trigger] sel_done(xx, yy) <==> #[trigger] sel_full(xx, yy)) by {}
        lemma_painted_equiv(old(surface).pixels@, w, sel_done, sel_full, color);
    }
}

/// Fills a flat-top triangle: flat edge `v1`-`v2` on top, apex `v3`
/// strictly below, one horizontal span per scanline from bottom to top.
pub fn fill_top_flat_triangle(
    surface: &mut Surface,
    v1: Point,
    v2: Point,
    v3: Point,
    color: (u8, u8, u8),
)
    requires
        surface_wf(*old(surface)),
        point_ok(v1),
        point_ok(v2),
        point_ok(v3),
        v1.y == v2.y,
        v2.y < v3.y,
    ensures
        surface_wf(*final(surface)),
        final(surface).width == old(surface).width,
        final(surface).height == old(surface).height,
        final(surface).pixels@ == painted(
            old(surface).pixels@,
            old(surface).width as int,
            top_flat_sel(v1.x as int, v1.y as int, v2.x as int, v2.y as int, v3.x as int, v3.y as int),
            color,
        ),
{
    let ghost w = surface.width as int;
    let ghost sel_full = top_flat_sel(
        v1.x as int,
        v1.y as int,
        v2.x as int,
        v2.y as int,
        v3.x as int,
        v3.y as int,
    );
    if surface.width == 0 {
        proof {
            assert(surface.pixels@.len() == 0);
            assert(painted(old(surface).pixels@, w, sel_full, color) =~= surface.pixels@);
        }
        return ;
    }
    let mut sy: i64 = v3.y;
    proof {
        let sel0 = (|xx: int, yy: int|
            {
                let c1 = interp_x(v3.x as int, v3.y as int, v1.x as int, v1.y as int, yy);
                let c2 = interp_x(v3.x as int, v3.y as int, v2.x as int, v2.y as int, yy);
                sy < yy <= v3.y && span_lo(c1, c2) <= xx <= span_hi(c1, c2)
            });
        assert forall|xx: int, yy: int|
            0 <= xx < w && 0 <= yy && yy * w + xx < surface.pixels@.len() implies !(
        #[trigger] sel0(xx, yy)) by {}
        lemma_painted_none(old(surface).pixels@, w, sel0, color);
    }
    while sy >= v1.y
        invariant
            surface_wf(*surface),
            surface.width == old(surface).width,
            surface.height == old(surface).height,
            w == surface.width as int,
            0 < w,
            point_ok(v1),
            point_ok(v2),
            point_ok(v3),
            v1.y == v2.y,
            v2.y < v3.y,
            v1.y - 1 <= sy <= v3.y,
            (surface.pixels@ == painted(
                old(surface).pixels@,
                w,
                (|xx: int, yy: int|
                    {
                        let c1 = interp_x(v3.x as int, v3.y as int, v1.x as int, v1.y as int, yy);
                        let c2 = interp_x(v3.x as int, v3.y as int, v2.x as int, v2.y as int, yy);
                        sy < yy <= v3.y && span_lo(c1, c2) <= xx <= span_hi(c1, c2)
                    }),
                color,
            )),
        decreases sy - v1.y + 1,
    {
        let ghost sel_a = (|xx: int, yy: int|
            {
                let c1 = interp_x(v3.x as int, v3.y as int, v1.x as int, v1.y as int, yy);
                let c2 = interp_x(v3.x as int, v3.y as int, v2.x as int, v2.y as int, yy);
                sy < yy <= v3.y && span_lo(c1, c2) <= xx <= span_hi(c1, c2)
            });
        let ghost sel_b = (|xx: int, yy: int|
            {
                let c1 = interp_x(v3.x as int, v3.y as int, v1.x as int, v1.y as int, yy);
                let c2 = interp_x(v3.x as int, v3.y as int, v2.x as int, v2.y as int, yy);
                sy - 1 < yy <= v3.y && span_lo(c1, c2) <= xx <= span_hi(c1, c2)
            });
        proof {
            assert(abs_i((sy - v3.y) as int * (v1.x - v3.x) as int) <= 0x4000_0000_0000_0000)
                by (nonlinear_arith)
                requires
                    abs_i((sy - v3.y) as int) <= 0x8000_0000 && abs_i((v1.x - v3.x) as int)
                        <= 0x8000_0000;
            assert(abs_i((sy - v3.y) as int * (v2.x - v3.x) as int) <= 0x4000_0000_0000_0000)
                by (nonlinear_arith)
                requires
                    abs_i((sy - v3.y) as int) <= 0x8000_0000 && abs_i((v2.x - v3.x) as int)
                        <= 0x8000_0000;
        }
        let c1: i64 = v3.x + div_trunc_i64((sy - v3.y) * (v1.x - v3.x), v1.y - v3.y);
        let c2: i64 = v3.x + div_trunc_i64((sy - v3.y) * (v2.x - v3.x), v2.y - v3.y);
        let ghost pre = surface.pixels@;
        surface.draw_horizontal_line(c1, c2, sy, color);
        proof {
            let row_sel = (|xx: int, yy: int|
                yy == sy && span_lo(c1 as int, c2 as int) <= xx <= span_hi(c1 as int, c2 as int));
            assert forall|xx: int, yy: int| #[trigger] sel_b(xx, yy) <==> (#[trigger] sel_a(xx, yy)
                || #[trigger] row_sel(xx, yy)) by {
                assert(c1 as int == interp_x(
                    v3.x as int,
                    v3.y as int,
                    v1.x as int,
                    v1.y as int,
                    sy as int,
                ));
                assert(c2 as int == interp_x(
                    v3.x as int,
                    v3.y as int,
                    v2.x as int,
                    v2.y as int,
                    sy as int,
                ));
            }
            lemma_painted_compose(old(surface).pixels@, w, sel_a, row_sel, sel_b, color);
            assert(surface.pixels@ =~= painted(old(surface).pixels@, w, sel_b, color));
        }
        sy = sy - 1;
    }
    proof {
        let sel_done = (|xx: int, yy: int|
            {
                let c1 = interp_x(v3.x as int, v3.y as int, v1.x as int, v1.y as int, yy);
                let c2 = interp_x(v3.x as int, v3.y as int, v2.x as int, v2.y as int, yy);
                sy < yy <= v3.y && span_lo(c1, c2) <= xx <= span_hi(c1, c2)
            });
        assert forall|xx: int, yy: int|
            0 <= xx < w && 0 <= yy && yy * w + xx < old(surface).pixels@.len() implies (
        #[trigger] sel_done(xx, yy) <==> #[trigger] sel_full(xx, yy)) by {}
        lemma_painted_equiv(old(surface).pixels@, w, sel_done, sel_full, color);
    }
}


/// The three points ordered by ascending y coordinate (stable for ties).
pub open spec fn sorted3(v1: Point, v2: Point, v3: Point) -> (Point, Point, Point) {
    let a = if v2.y < v1.y {
        v2
    } else {
        v1
    };
    let b = if v2.y < v1.y {
        v1
    } else {
        v2
    };
    if v3.y < a.y {
        (v3, a, b)
    } else if v3.y < b.y {
        (a, v3, b)
    } else {
        (a, b, v3)
    }
}

/// The x coordinate of the synthesized fourth vertex: the long edge of
/// the sorted triangle crossed at the middle vertex's scanline.
pub open spec fn split_x(a: Point, b: Point, c: Point) -> int {
    a.x + div_trunc((b.y - a.y) * (c.x - a.x), c.y - a.y)
}

/// The pixels the triangle fill covers: after sorting by y, a flat-bottom
/// fill, a flat-top fill, or both halves split at the middle vertex's
/// scanline.  A triangle whose vertices share one scanline is degenerate
/// and covers nothing.
pub open spec fn fill_sel(v1: Point, v2: Point, v3: Point) -> spec_fn(int, int) -> bool {
    |xx: int, yy: int|
        {
            let (a, b, c) = sorted3(v1, v2, v3);
            if a.y == c.y {
                false
            } else if b.y == c.y {
                bottom_flat_sel(a.x as int, a.y as int, b.x as int, b.y as int, c.x as int, c.y as int)(
                    xx,
                    yy,
                )
            } else if a.y == b.y {
                top_flat_sel(a.x as int, a.y as int, b.x as int, b.y as int, c.x as int, c.y as int)(
                    xx,
                    yy,
                )
            } else {
                let v4x = split_x(a, b, c);
                bottom_flat_sel(a.x as int, a.y as int, b.x as int, b.y as int, v4x, b.y as int)(
                    xx,
                    yy,
                ) || top_flat_sel(b.x as int, b.y as int, v4x, b.y as int, c.x as int, c.y as int)(
                    xx,
                    yy,
                )
            }
        }
}

/// Fills `v1 v2 v3` with `color` by the flat-top/flat-bottom scanline
/// decomposition: the vertices are sorted by y, and the triangle is
/// filled directly when it already has a flat edge, or split at the
/// middle vertex's scanline into one triangle of each kind.  A triangle
/// whose three vertices share one scanline is skipped.
pub fn fill_triangle(surface: &mut Surface, v1: Point, v2: Point, v3: Point, color: (u8, u8, u8))
    requires
        surface_wf(*old(surface)),
        point_ok(v1),
        point_ok(v2),
        point_ok(v3),
    ensures
        surface_wf(*final(surface)),
        final(surface).width == old(surface).width,
        final(surface).height == old(surface).height,
        final(surface).pixels@ == painted(
            old(surface).pixels@,
            old(surface).width as int,
            fill_sel(v1, v2, v3),
            color,
        ),
{
    let ghost w = surface.width as int;
    let ghost sel_full = fill_sel(v1, v2, v3);
    let (a0, b0) = if v2.y < v1.y {
        (v2, v1)
    } else {
        (v1, v2)
    };
    let (a, b, c) = if v3.y < a0.y {
        (v3, a0, b0)
    } else if v3.y < b0.y {
        (a0, v3, b0)
    } else {
        (a0, b0, v3)
    };
    proof {
        assert((a, b, c) == sorted3(v1, v2, v3));
        assert(a.y <= b.y <= c.y);
    }
    if surface.width == 0 {
        proof {
            let ln = surface.pixels@.len() as int;
            let hh = surface.height as int;
            assert(ln == 0) by (nonlinear_arith)
                requires ln == 0 * hh;
            assert(painted(old(surface).pixels@, w, sel_full, color) =~= surface.pixels@);
        }
        return ;
    }
    if a.y == c.y {
        proof {
            assert forall|xx: int, yy: int|
                0 <= xx < w && 0 <= yy && yy * w + xx < surface.pixels@.len() implies !(
            #[trigger] sel_full(xx, yy)) by {}
            lemma_painted_none(old(surface).pixels@, w, sel_full, color);
        }
    } else if b.y == c.y {
        let ghost bf = bottom_flat_sel(
            a.x as int,
            a.y as int,
            b.x as int,
            b.y as int,
            c.x as int,
            c.y as int,
        );
        fill_bottom_flat_triangle(surface, a, b, c, color);
        proof {
            assert forall|xx: int, yy: int|
                0 <= xx < w && 0 <= yy && yy * w + xx < old(surface).pixels@.len() implies (
            #[trigger] bf(xx, yy) <==> #[trigger] sel_full(xx, yy)) by {}
            lemma_painted_equiv(old(surface).pixels@, w, bf, sel_full, color);
        }
    } else if a.y == b.y {
        let ghost tf = top_flat_sel(
            a.x as int,
            a.y as int,
            b.x as int,
            b.y as int,
            c.x as int,
            c.y as int,
        );
        fill_top_flat_triangle(surface, a, b, c, color);
        proof {
            assert forall|xx: int, yy: int|
                0 <= xx < w && 0 <= yy && yy * w + xx < old(surface).pixels@.len() implies (
            #[trigger] tf(xx, yy) <==> #[trigger] sel_full(xx, yy)) by {}
            lemma_painted_equiv(old(surface).pixels@, w, tf, sel_full, color);
        }
    } else {
        proof {
            assert(abs_i((b.y - a.y) as int * (c.x - a.x) as int) <= 0x4000_0000_0000_0000)
                by (nonlinear_arith)
                requires
                    abs_i((b.y - a.y) as int) <= 0x8000_0000 && abs_i((c.x - a.x) as int)
                        <= 0x8000_0000;
            crate::fixed::lemma_div_trunc_interp_range(
                (b.y - a.y) as int,
                (c.x - a.x) as int,
                (c.y - a.y) as int,
            );
        }
        let v4x: i64 = a.x + div_trunc_i64((b.y - a.y) * (c.x - a.x), c.y - a.y);
        let v4 = Point::new(v4x, b.y);
        proof {
            assert(v4x as int == split_x(a, b, c));
        }
        let ghost bf = bottom_flat_sel(
            a.x as int,
            a.y as int,
            b.x as int,
            b.y as int,
            v4.x as int,
            v4.y as int,
        );
        let ghost tf = top_flat_sel(
            b.x as int,
            b.y as int,
            v4.x as int,
            v4.y as int,
            c.x as int,
            c.y as int,
        );
        fill_bottom_flat_triangle(surface, a, b, v4, color);
        fill_top_flat_triangle(surface, b, v4, c, color);
        proof {
            let ghost both = (|xx: int, yy: int| bf(xx, yy) || tf(xx, yy));
            lemma_painted_compose(old(surface).pixels@, w, bf, tf, both, color);
            assert(surface.pixels@ =~= painted(old(surface).pixels@, w, both, color));
            assert forall|xx: int, yy: int|
                0 <= xx < w && 0 <= yy && yy * w + xx < old(surface).pixels@.len() implies (
            #[trigger] both(xx, yy) <==> #[trigger] sel_full(xx, yy)) by {}
            lemma_painted_equiv(old(surface).pixels@, w, both, sel_full, color);
        }
    }
}


/// The largest raw vertex coordinate the projection accepts: 2^21, or 32
/// real units from the origin on each axis.
pub const PROJ_COORD_MAX: i64 = 0x20_0000;

/// The largest raw camera parameter and focal factor the projection
/// accepts: 2^26, or 1024 real units.
pub const PROJ_PARAM_MAX: i64 = 0x400_0000;

/// The vertex lies within the coordinate range the projection accepts.
pub open spec fn vertex_in_range(v: Vector3) -> bool {
    &&& abs_i(v.x as int) <= PROJ_COORD_MAX
    &&& abs_i(v.y as int) <= PROJ_COORD_MAX
    &&& abs_i(v.z as int) <= PROJ_COORD_MAX
}

/// All three vertices lie within the coordinate range.
pub open spec fn triangle_in_range(t: Triangle) -> bool {
    vertex_in_range(t.vertices[0]) && vertex_in_range(t.vertices[1]) && vertex_in_range(
        t.vertices[2],
    )
}

/// The camera parameters are within the supported range: the position in
/// the vertex coordinate range, the near plane positive, and the far
/// plane at least one unit beyond it.
pub open spec fn camera_ok(c: Camera) -> bool {
    &&& abs_i(c.position.x as int) <= PROJ_COORD_MAX
    &&& abs_i(c.position.y as int) <= PROJ_COORD_MAX
    &&& abs_i(c.position.z as int) <= PROJ_COORD_MAX
    &&& 0 < c.z_near
    &&& c.z_near + ONE <= c.z_far
    &&& c.z_far <= PROJ_PARAM_MAX
}

/// The focal factors (the reciprocal tangents of the half fields of
/// view, which the host's trigonometry supplies) are positive and in
/// range.
pub open spec fn focal_ok(hf: int, vf: int) -> bool {
    0 < hf <= PROJ_PARAM_MAX && 0 < vf <= PROJ_PARAM_MAX
}

/// The entry of the perspective matrix built from the focal factors and
/// the near and far planes.
pub open spec fn proj_ent(hf: int, vf: int, z_near: int, z_far: int, i: int, j: int) -> int {
    if i == 0 && j == 0 {
        hf
    } else if i == 1 && j == 1 {
        vf
    } else if i == 2 && j == 2 {
        fx_div(z_far, z_far - z_near)
    } else if i == 2 && j == 3 {
        -fx_mul(z_near, fx_div(z_far, z_far - z_near))
    } else if i == 3 && j == 2 {
        ONE as int
    } else {
        0
    }
}

/// Why a triangle was dropped from the frame.
#[derive(Copy, Clone, Debug, PartialEq, Eq, Structural)]
pub enum TriangleReject {
    /// Its face normal points away from (or square to) the camera ray.
    Backface,
    /// Some vertex sits at or behind the near threshold `w <= 1`.
    BehindNear,
    /// Some vertex leaves the normalized device cube after the divide.
    OutOfBounds,
}

/// The triangle faces away from (or edge-on to) the camera: the dot
/// product of its unit face normal with the ray from the camera position
/// to its first vertex is not negative.  The ray uses the first vertex
/// rather than the centroid, and ignores the camera's rotation; both are
/// documented limitations of this pipeline.
pub open spec fn backface(t: Triangle, cam_pos: Vector3) -> bool {
    let m = sqrt_floor(normal_ssq(t));
    let nx = if m == 0 {
        normal_cx(t)
    } else {
        fx_div(normal_cx(t), m)
    };
    let ny = if m == 0 {
        normal_cy(t)
    } else {
        fx_div(normal_cy(t), m)
    };
    let nz = if m == 0 {
        normal_cz(t)
    } else {
        fx_div(normal_cz(t), m)
    };
    let rx = t.vertices[0].x - cam_pos.x;
    let ry = t.vertices[0].y - cam_pos.y;
    let rz = t.vertices[0].z - cam_pos.z;
    (nx * rx + ny * ry + nz * rz) / (ONE as int) >= 0
}

/// The homogeneous w of a vertex under the perspective matrix.  The
/// matrix's last row is `(0, 0, 1, 0)`, so w is exactly the vertex's z.
pub open spec fn clip_w(v: Vector3) -> int {
    v.z as int
}

/// The third clip-space component of a vertex: z scaled by the depth
/// ratio, offset by the near-plane term.
pub open spec fn clip_z(z_near: int, z_far: int, v: Vector3) -> int {
    let lam = fx_div(z_far, z_far - z_near);
    (lam * v.z + (-fx_mul(z_near, lam)) * (ONE as int)) / (ONE as int)
}

/// The normalized device x of a vertex: the first clip component divided
/// by w.
pub open spec fn ndc_x(hf: int, v: Vector3) -> int {
    fx_div(fx_mul(hf, v.x as int), clip_w(v))
}

/// The normalized device y of a vertex, negated to flip to the
/// screen-space downward convention.
pub open spec fn ndc_y(vf: int, v: Vector3) -> int {
    fx_div(-fx_mul(vf, v.y as int), clip_w(v))
}

/// The normalized device z of a vertex.
pub open spec fn ndc_z(z_near: int, z_far: int, v: Vector3) -> int {
    fx_div(clip_z(z_near, z_far, v), clip_w(v))
}

/// The vertex sits at or behind the near threshold.
pub open spec fn vertex_behind(v: Vector3) -> bool {
    clip_w(v) <= ONE as int
}

/// The vertex leaves the normalized device cube: some component exceeds
/// one in magnitude after the divide.  A component of exactly one is
/// retained.
pub open spec fn vertex_out(hf: int, vf: int, z_near: int, z_far: int, v: Vector3) -> bool {
    ||| abs_i(ndc_x(hf, v)) > ONE as int
    ||| abs_i(ndc_y(vf, v)) > ONE as int
    ||| abs_i(ndc_z(z_near, z_far, v)) > ONE as int
}

/// The screen-space point of a visible vertex: device coordinates mapped
/// to pixels with the origin at the top left.
pub open spec fn screen_pt(
    hf: int,
    vf: int,
    z_near: int,
    z_far: int,
    half_w: int,
    half_h: int,
    v: Vector3,
) -> (int, int) {
    (
        fx_mul(ndc_x(hf, v), half_w) + half_w,
        fx_mul(ndc_y(vf, v), half_h) + half_h,
    )
}

/// The reject reason of the first failing check, walking the vertices in
/// order and checking the near threshold before the bounds at each.
pub open spec fn first_vertex_reject(
    hf: int,
    vf: int,
    z_near: int,
    z_far: int,
    t: Triangle,
) -> Option<TriangleReject> {
    if vertex_behind(t.vertices[0]) {
        Some(TriangleReject::BehindNear)
    } else if vertex_out(hf, vf, z_near, z_far, t.vertices[0]) {
        Some(TriangleReject::OutOfBounds)
    } else if vertex_behind(t.vertices[1]) {
        Some(TriangleReject::BehindNear)
    } else if vertex_out(hf, vf, z_near, z_far, t.vertices[1]) {
        Some(TriangleReject::OutOfBounds)
    } else if vertex_behind(t.vertices[2]) {
        Some(TriangleReject::BehindNear)
    } else if vertex_out(hf, vf, z_near, z_far, t.vertices[2]) {
        Some(TriangleReject::OutOfBounds)
    } else {
        None
    }
}

/// Whether and why the triangle is dropped: the back-face cull first,
/// then the per-vertex checks in order.
pub open spec fn tri_status(
    cam: Camera,
    hf: int,
    vf: int,
    t: Triangle,
) -> Option<TriangleReject> {
    if backface(t, cam.position) {
        Some(TriangleReject::Backface)
    } else {
        first_vertex_reject(hf, vf, cam.z_near as int, cam.z_far as int, t)
    }
}

/// The coordinate range implies every fit condition the face-normal
/// computation needs.
proof fn lemma_range_normal_fits(t: Triangle)
    requires
        triangle_in_range(t),
    ensures
        normal_fits(t),
{
    let v0 = t.vertices[0];
    let v1 = t.vertices[1];
    let v2 = t.vertices[2];
    let b: int = 2 * PROJ_COORD_MAX as int;
    lemma_abs_prod_le((v1.y - v0.y) as int, (v2.z - v0.z) as int, b, b);
    lemma_abs_prod_le((v1.z - v0.z) as int, (v2.y - v0.y) as int, b, b);
    lemma_abs_prod_le((v1.z - v0.z) as int, (v2.x - v0.x) as int, b, b);
    lemma_abs_prod_le((v1.x - v0.x) as int, (v2.z - v0.z) as int, b, b);
    lemma_abs_prod_le((v1.x - v0.x) as int, (v2.y - v0.y) as int, b, b);
    lemma_abs_prod_le((v1.y - v0.y) as int, (v2.x - v0.x) as int, b, b);
    assert(b * b == 0x1000_0000_0000) by (nonlinear_arith)
        requires b == 0x40_0000;
    let cx = normal_cx(t);
    let cy = normal_cy(t);
    let cz = normal_cz(t);
    lemma_fx_quotient_bound((v1.y - v0.y) * (v2.z - v0.z) - (v1.z - v0.z) * (v2.y - v0.y));
    lemma_fx_quotient_bound((v1.z - v0.z) * (v2.x - v0.x) - (v1.x - v0.x) * (v2.z - v0.z));
    lemma_fx_quotient_bound((v1.x - v0.x) * (v2.y - v0.y) - (v1.y - v0.y) * (v2.x - v0.x));
    lemma_abs_prod_le(cx, cx, 0x2000_0000, 0x2000_0000);
    lemma_abs_prod_le(cy, cy, 0x2000_0000, 0x2000_0000);
    lemma_abs_prod_le(cz, cz, 0x2000_0000, 0x2000_0000);
    assert(0x2000_0000 * 0x2000_0000 == 0x400_0000_0000_0000) by (nonlinear_arith);
    assert(cx * cx >= 0) by (nonlinear_arith);
    assert(cy * cy >= 0) by (nonlinear_arith);
    assert(cz * cz >= 0) by (nonlinear_arith);
    lemma_abs_prod_le(cx, ONE as int, 0x2000_0000, ONE as int);
    lemma_abs_prod_le(cy, ONE as int, 0x2000_0000, ONE as int);
    lemma_abs_prod_le(cz, ONE as int, 0x2000_0000, ONE as int);
}

/// A raw value within `2^45` scales down to within `2^29`.
proof fn lemma_fx_quotient_bound(n: int)
    requires
        abs_i(n) <= 0x2000_0000_0000,
    ensures
        abs_i(n / (ONE as int)) <= 0x2000_0000,
{
    let one: int = ONE as int;
    lemma_div_is_ordered(n, 0x2000_0000_0000, one);
    lemma_div_is_ordered(-0x2000_0000_0000, n, one);
    lemma_div_multiples_vanish(0x2000_0000, one);
    lemma_div_multiples_vanish(-0x2000_0000, one);
    assert(one * 0x2000_0000 == 0x2000_0000_0000);
    assert(one * -0x2000_0000 == -0x2000_0000_0000);
}

/// A magnitude-bounded numerator divided by its own bound stays within
/// the raw one.
proof fn lemma_fx_div_unit(a: int, m: int)
    requires
        0 < m,
        abs_i(a) <= m,
    ensures
        abs_i(fx_div(a, m)) <= ONE as int,
{
    let one: int = ONE as int;
    assert(a * one <= m * one) by (nonlinear_arith)
        requires a <= m && 0 < one;
    assert(-(m * one) <= a * one) by (nonlinear_arith)
        requires -m <= a && 0 < one;
    lemma_div_is_ordered(a * one, m * one, m);
    lemma_div_is_ordered(-(m * one), a * one, m);
    lemma_div_multiples_vanish(one, m);
    lemma_div_multiples_vanish(-one, m);
    assert(m * -one == -(m * one)) by (nonlinear_arith);
}

/// A squared value within a square root's reach is within the root.
proof fn lemma_sq_within_sqrt(a: int, s: int, m: int)
    requires
        a * a <= s,
        is_sqrt(s, m),
    ensures
        abs_i(a) <= m,
{
    if abs_i(a) > m {
        assert((m + 1) * (m + 1) <= a * a) by (nonlinear_arith)
            requires 0 <= m && m + 1 <= abs_i(a);
    }
}

/// The perspective matrix from the camera's focal factors and depth
/// planes: the focal factors on the diagonal, the depth ratio and near
/// offset in the third row, and a w row that copies z.
pub fn projection_matrix(hf: i64, vf: i64, z_near: i64, z_far: i64) -> (r: Matrix4x4)
    requires
        focal_ok(hf as int, vf as int),
        0 < z_near,
        z_near + ONE <= z_far,
        z_far <= PROJ_PARAM_MAX,
    ensures
        forall|i: int, j: int|
            0 <= i < 4 && 0 <= j < 4 ==> #[trigger] ent(r, i, j) == proj_ent(
                hf as int,
                vf as int,
                z_near as int,
                z_far as int,
                i,
                j,
            ),
        0 <= fx_div(z_far as int, z_far as int - z_near as int) <= z_far,
        abs_i(fx_mul(z_near as int, fx_div(z_far as int, z_far as int - z_near as int)))
            <= 0x10_0000_0000,
{
    let diff: i64 = z_far - z_near;
    let lambda: i64 = div_floor(z_far * ONE, diff);
    proof {
        let one: int = ONE as int;
        lemma_div_pos_is_pos(z_far * one, diff as int);
        lemma_div_is_ordered_by_denominator(z_far * one, one, diff as int);
        lemma_div_multiples_vanish(z_far as int, one);
        assert(one * z_far == z_far * one);
        assert(lambda <= z_far);
        lemma_abs_prod_le(z_near as int, lambda as int, PROJ_PARAM_MAX as int, PROJ_PARAM_MAX as int);
        assert((PROJ_PARAM_MAX as int) * (PROJ_PARAM_MAX as int) == 0x10_0000_0000_0000)
            by (nonlinear_arith);
        lemma_div_is_ordered(z_near * lambda, 0x10_0000_0000_0000, one);
        lemma_div_is_ordered(-0x10_0000_0000_0000, z_near * lambda, one);
        lemma_div_multiples_vanish(0x10_0000_0000, one);
        lemma_div_multiples_vanish(-0x10_0000_0000, one);
        assert(one * 0x10_0000_0000 == 0x10_0000_0000_0000);
        assert(one * -0x10_0000_0000 == -0x10_0000_0000_0000);
    }
    let m23: i64 = -div_floor(z_near * lambda, ONE);
    let m: [[i64; 4]; 4] = [
        [hf, 0, 0, 0],
        [0, vf, 0, 0],
        [0, 0, lambda, m23],
        [0, 0, ONE, 0],
    ];
    Matrix4x4 { m }
}


/// A raw magnitude below `b * ONE` scales down to below `b`.
proof fn lemma_fx_scale_bound(n: int, b: int)
    requires
        0 <= b,
        abs_i(n) <= b * (ONE as int),
    ensures
        abs_i(n / (ONE as int)) <= b,
{
    let one: int = ONE as int;
    lemma_div_is_ordered(n, b * one, one);
    lemma_div_is_ordered(-(b * one), n, one);
    lemma_div_multiples_vanish(b, one);
    lemma_div_multiples_vanish(-b, one);
    assert(one * b == b * one) by (nonlinear_arith);
    assert(one * -b == -(b * one)) by (nonlinear_arith);
}

/// Every row of the perspective matrix times an in-range vertex fits.
proof fn lemma_proj_mvm_fits(pm: Matrix4x4, v: Vector3, hf: int, vf: int, z_near: int, z_far: int)
    requires
        forall|i: int, j: int|
            0 <= i < 4 && 0 <= j < 4 ==> #[trigger] ent(pm, i, j) == proj_ent(
                hf,
                vf,
                z_near,
                z_far,
                i,
                j,
            ),
        focal_ok(hf, vf),
        0 < z_near,
        z_near + ONE <= z_far,
        z_far <= PROJ_PARAM_MAX,
        0 <= fx_div(z_far, z_far - z_near) <= z_far,
        abs_i(fx_mul(z_near, fx_div(z_far, z_far - z_near))) <= 0x10_0000_0000,
        vertex_in_range(v),
    ensures
        mvm_fits(pm, v),
{
    let one: int = ONE as int;
    let lam = fx_div(z_far, z_far - z_near);
    let m23 = -fx_mul(z_near, lam);
    assert(ent(pm, 0, 0) == hf && ent(pm, 1, 1) == vf && ent(pm, 2, 2) == lam && ent(pm, 2, 3)
        == m23 && ent(pm, 3, 2) == one);
    lemma_abs_prod_le(hf, v.x as int, PROJ_PARAM_MAX as int, PROJ_COORD_MAX as int);
    lemma_abs_prod_le(vf, v.y as int, PROJ_PARAM_MAX as int, PROJ_COORD_MAX as int);
    lemma_abs_prod_le(lam, v.z as int, PROJ_PARAM_MAX as int, PROJ_COORD_MAX as int);
    lemma_abs_prod_le(m23, one, 0x10_0000_0000, one);
    lemma_abs_prod_le(one, v.z as int, one, PROJ_COORD_MAX as int);
    assert((PROJ_PARAM_MAX as int) * (PROJ_COORD_MAX as int) == 0x8000_0000_0000)
        by (nonlinear_arith);
    assert(0x10_0000_0000 * one == 0x10_0000_0000_0000) by (nonlinear_arith)
        requires one == 65536;
    assert(one * (PROJ_COORD_MAX as int) == 0x20_0000_0000) by (nonlinear_arith)
        requires one == 65536;
}

/// Projects one vertex through the perspective matrix: the homogeneous
/// divide when the vertex is in front of the near threshold, the device
/// bounds check, and the mapping to pixel coordinates.
fn project_vertex(
    pm: &Matrix4x4,
    v: &Vector3,
    hf: i64,
    vf: i64,
    z_near: i64,
    z_far: i64,
    half_w: i64,
    half_h: i64,
) -> (r: Result<Point, TriangleReject>)
    requires
        forall|i: int, j: int|
            0 <= i < 4 && 0 <= j < 4 ==> #[trigger] ent(*pm, i, j) == proj_ent(
                hf as int,
                vf as int,
                z_near as int,
                z_far as int,
                i,
                j,
            ),
        focal_ok(hf as int, vf as int),
        0 < z_near,
        z_near + ONE <= z_far,
        z_far <= PROJ_PARAM_MAX,
        0 <= fx_div(z_far as int, z_far as int - z_near as int) <= z_far,
        abs_i(fx_mul(z_near as int, fx_div(z_far as int, z_far as int - z_near as int)))
            <= 0x10_0000_0000,
        vertex_in_range(*v),
        0 <= half_w <= 16384,
        0 <= half_h <= 16384,
    ensures
        match r {
            Result::Err(e) => {
                ||| (e == TriangleReject::BehindNear && vertex_behind(*v))
                ||| (e == TriangleReject::OutOfBounds && !vertex_behind(*v) && vertex_out(
                    hf as int,
                    vf as int,
                    z_near as int,
                    z_far as int,
                    *v,
                ))
            },
            Result::Ok(p) => {
                &&& !vertex_behind(*v)
                &&& !vertex_out(hf as int, vf as int, z_near as int, z_far as int, *v)
                &&& (p.x as int, p.y as int) == screen_pt(
                    hf as int,
                    vf as int,
                    z_near as int,
                    z_far as int,
                    half_w as int,
                    half_h as int,
                    *v,
                )
                &&& 0 <= p.x <= 2 * half_w
                &&& 0 <= p.y <= 2 * half_h
            },
        },
{
    proof {
        lemma_proj_mvm_fits(
            *pm,
            *v,
            hf as int,
            vf as int,
            z_near as int,
            z_far as int,
        );
    }
    let col = matrix_vector_multiply(pm, v);
    proof {
        let one: int = ONE as int;
        lemma_div_multiples_vanish(v.z as int, one);
        assert(col[3] == v.z);
        assert(col[0] as int == fx_mul(hf as int, v.x as int));
        assert(col[1] as int == fx_mul(vf as int, v.y as int));
        assert(col[2] as int == clip_z(z_near as int, z_far as int, *v));
        lemma_abs_prod_le(hf as int, v.x as int, PROJ_PARAM_MAX as int, PROJ_COORD_MAX as int);
        lemma_abs_prod_le(vf as int, v.y as int, PROJ_PARAM_MAX as int, PROJ_COORD_MAX as int);
        assert((PROJ_PARAM_MAX as int) * (PROJ_COORD_MAX as int) == 0x8000_0000 * one)
            by (nonlinear_arith)
            requires one == 65536;
        lemma_fx_scale_bound((hf as int) * (v.x as int), 0x8000_0000);
        lemma_fx_scale_bound((vf as int) * (v.y as int), 0x8000_0000);
        let lam = fx_div(z_far as int, z_far as int - z_near as int);
        let m23 = -fx_mul(z_near as int, lam);
        lemma_abs_prod_le(lam, v.z as int, PROJ_PARAM_MAX as int, PROJ_COORD_MAX as int);
        lemma_abs_prod_le(m23, one, 0x10_0000_0000, one);
        assert(0x10_0000_0000 * one == 0x10_0000_0000_0000) by (nonlinear_arith)
            requires one == 65536;
        assert(abs_i(lam * v.z + m23 * one) <= 0x20_0000_0000 * one) by (nonlinear_arith)
            requires
                abs_i(lam * (v.z as int)) <= 0x8000_0000_0000 && abs_i(m23 * one)
                    <= 0x10_0000_0000_0000 && one == 65536;
        lemma_fx_scale_bound(lam * (v.z as int) + m23 * one, 0x20_0000_0000);
    }
    let w: i64 = col[3];
    if w > ONE {
        let x: i64 = div_floor(col[0] * ONE, w);
        let y: i64 = div_floor(-col[1] * ONE, w);
        let z: i64 = div_floor(col[2] * ONE, w);
        proof {
            assert(x as int == ndc_x(hf as int, *v));
            assert(y as int == ndc_y(vf as int, *v));
            assert(z as int == ndc_z(z_near as int, z_far as int, *v));
        }
        if x > ONE || x < -ONE || y > ONE || y < -ONE || z > ONE || z < -ONE {
            Err(TriangleReject::OutOfBounds)
        } else {
            proof {
                let one: int = ONE as int;
                lemma_abs_prod_le(x as int, half_w as int, one, half_w as int);
                lemma_abs_prod_le(y as int, half_h as int, one, half_h as int);
                lemma_fx_scale_bound((x as int) * (half_w as int), half_w as int);
                lemma_fx_scale_bound((y as int) * (half_h as int), half_h as int);
                assert(one * (half_w as int) == (half_w as int) * one) by (nonlinear_arith);
                assert(one * (half_h as int) == (half_h as int) * one) by (nonlinear_arith);
            }
            let sx: i64 = div_floor(x * half_w, ONE) + half_w;
            let sy: i64 = div_floor(y * half_h, ONE) + half_h;
            Ok(Point::new(sx, sy))
        }
    } else {
        Err(TriangleReject::BehindNear)
    }
}

/// Decides the fate of one triangle: culled as a back face, dropped at
/// the first vertex behind the near threshold or outside the device
/// bounds, or projected to its three screen points.
pub fn project_triangle(
    camera: &Camera,
    t: &Triangle,
    hf: i64,
    vf: i64,
    half_w: i64,
    half_h: i64,
) -> (r: Result<[Point; 3], TriangleReject>)
    requires
        camera_ok(*camera),
        focal_ok(hf as int, vf as int),
        triangle_in_range(*t),
        0 <= half_w <= 16384,
        0 <= half_h <= 16384,
    ensures
        match r {
            Result::Err(e) => tri_status(*camera, hf as int, vf as int, *t) == Some(e),
            Result::Ok(pts) => {
                &&& tri_status(*camera, hf as int, vf as int, *t) is None
                &&& (pts[0].x as int, pts[0].y as int) == screen_pt(
                    hf as int,
                    vf as int,
                    camera.z_near as int,
                    camera.z_far as int,
                    half_w as int,
                    half_h as int,
                    t.vertices[0],
                )
                &&& (pts[1].x as int, pts[1].y as int) == screen_pt(
                    hf as int,
                    vf as int,
                    camera.z_near as int,
                    camera.z_far as int,
                    half_w as int,
                    half_h as int,
                    t.vertices[1],
                )
                &&& (pts[2].x as int, pts[2].y as int) == screen_pt(
                    hf as int,
                    vf as int,
                    camera.z_near as int,
                    camera.z_far as int,
                    half_w as int,
                    half_h as int,
                    t.vertices[2],
                )
                &&& 0 <= pts[0].x <= 2 * half_w && 0 <= pts[0].y <= 2 * half_h
                &&& 0 <= pts[1].x <= 2 * half_w && 0 <= pts[1].y <= 2 * half_h
                &&& 0 <= pts[2].x <= 2 * half_w && 0 <= pts[2].y <= 2 * half_h
            },
        },
{
    proof {
        lemma_range_normal_fits(*t);
    }
    let normal = calculate_normal(t);
    proof {
        let ssq = normal_ssq(*t);
        assert(normal_cx(*t) * normal_cx(*t) >= 0) by (nonlinear_arith);
        assert(normal_cy(*t) * normal_cy(*t) >= 0) by (nonlinear_arith);
        assert(normal_cz(*t) * normal_cz(*t) >= 0) by (nonlinear_arith);
        lemma_sqrt_floor_is_sqrt(ssq);
        let m = sqrt_floor(ssq);
        if m == 0 {
            assert((m + 1) * (m + 1) == 1) by (nonlinear_arith)
                requires m == 0;
            assert(normal_cx(*t) == 0 && normal_cy(*t) == 0 && normal_cz(*t) == 0)
                by (nonlinear_arith)
                requires
                    normal_cx(*t) * normal_cx(*t) + normal_cy(*t) * normal_cy(*t) + normal_cz(*t)
                        * normal_cz(*t) < 1 && normal_cx(*t) * normal_cx(*t) >= 0 && normal_cy(*t)
                        * normal_cy(*t) >= 0 && normal_cz(*t) * normal_cz(*t) >= 0;
        } else {
            lemma_sq_within_sqrt(normal_cx(*t), ssq, m);
            lemma_sq_within_sqrt(normal_cy(*t), ssq, m);
            lemma_sq_within_sqrt(normal_cz(*t), ssq, m);
            lemma_fx_div_unit(normal_cx(*t), m);
            lemma_fx_div_unit(normal_cy(*t), m);
            lemma_fx_div_unit(normal_cz(*t), m);
        }
        assert(abs_i(normal.x as int) <= ONE as int);
        assert(abs_i(normal.y as int) <= ONE as int);
        assert(abs_i(normal.z as int) <= ONE as int);
    }
    let ray = subtract(&t.vertices[0], &camera.position);
    proof {
        lemma_abs_prod_le(normal.x as int, ray.x as int, ONE as int, 2 * PROJ_COORD_MAX as int);
        lemma_abs_prod_le(normal.y as int, ray.y as int, ONE as int, 2 * PROJ_COORD_MAX as int);
        lemma_abs_prod_le(normal.z as int, ray.z as int, ONE as int, 2 * PROJ_COORD_MAX as int);
        assert((ONE as int) * (2 * PROJ_COORD_MAX as int) == 0x40_0000_0000) by (nonlinear_arith);
    }
    let d = dot_product(&normal, &ray);
    if d < 0 {
        let pm = projection_matrix(hf, vf, camera.z_near, camera.z_far);
        let r0 = project_vertex(&pm, &t.vertices[0], hf, vf, camera.z_near, camera.z_far, half_w, half_h);
        let p0 = match r0 {
            Result::Err(e) => {
                return Err(e);
            },
            Result::Ok(p) => p,
        };
        let r1 = project_vertex(&pm, &t.vertices[1], hf, vf, camera.z_near, camera.z_far, half_w, half_h);
        let p1 = match r1 {
            Result::Err(e) => {
                return Err(e);
            },
            Result::Ok(p) => p,
        };
        let r2 = project_vertex(&pm, &t.vertices[2], hf, vf, camera.z_near, camera.z_far, half_w, half_h);
        let p2 = match r2 {
            Result::Err(e) => {
                return Err(e);
            },
            Result::Ok(p) => p,
        };
        Ok([p0, p1, p2])
    } else {
        Err(TriangleReject::Backface)
    }
}


/// One triangle's contribution to the frame: nothing when it is culled
/// or rejected, else its filled interior in the mesh colour with its
/// three edges outlined in black on top.
pub open spec fn render_tri(
    s: Seq<(u8, u8, u8)>,
    w: int,
    cam: Camera,
    hf: int,
    vf: int,
    half_w: int,
    half_h: int,
    t: Triangle,
    color: (u8, u8, u8),
) -> Seq<(u8, u8, u8)> {
    if tri_status(cam, hf, vf, t) is Some {
        s
    } else {
        let sp0 = screen_pt(hf, vf, cam.z_near as int, cam.z_far as int, half_w, half_h, t.vertices[0]);
        let sp1 = screen_pt(hf, vf, cam.z_near as int, cam.z_far as int, half_w, half_h, t.vertices[1]);
        let sp2 = screen_pt(hf, vf, cam.z_near as int, cam.z_far as int, half_w, half_h, t.vertices[2]);
        let p0 = Point { x: sp0.0 as i64, y: sp0.1 as i64 };
        let p1 = Point { x: sp1.0 as i64, y: sp1.1 as i64 };
        let p2 = Point { x: sp2.0 as i64, y: sp2.1 as i64 };
        let s1 = painted(s, w, fill_sel(p0, p1, p2), color);
        let s2 = painted(s1, w, line_sel(p0.x as int, p0.y as int, p1.x as int, p1.y as int), (0u8, 0u8, 0u8));
        let s3 = painted(s2, w, line_sel(p1.x as int, p1.y as int, p2.x as int, p2.y as int), (0u8, 0u8, 0u8));
        painted(s3, w, line_sel(p2.x as int, p2.y as int, p0.x as int, p0.y as int), (0u8, 0u8, 0u8))
    }
}

/// The frame after the first `n` triangles of the list have been drawn
/// in order.
pub open spec fn render_upto(
    s: Seq<(u8, u8, u8)>,
    w: int,
    cam: Camera,
    hf: int,
    vf: int,
    half_w: int,
    half_h: int,
    tris: Seq<Triangle>,
    color: (u8, u8, u8),
    n: int,
) -> Seq<(u8, u8, u8)>
    decreases n,
{
    if n <= 0 {
        s
    } else {
        render_tri(
            render_upto(s, w, cam, hf, vf, half_w, half_h, tris, color, n - 1),
            w,
            cam,
            hf,
            vf,
            half_w,
            half_h,
            tris[n - 1],
            color,
        )
    }
}

/// Every triangle of the mesh lies within the projection's coordinate
/// range.
pub open spec fn mesh_in_frustum_range(m: Mesh) -> bool {
    forall|i: int|
        0 <= i < m.triangles@.len() ==> triangle_in_range(#[trigger] m.triangles@[i])
}

/// Projects and rasterizes every triangle of the mesh against the
/// camera: back faces are culled, triangles at the near threshold or
/// outside the device bounds are dropped whole, and each survivor is
/// drawn filled in the given colour and outlined in black.
pub fn project(
    surface: &mut Surface,
    camera: &Camera,
    mesh: &Mesh,
    color: (u8, u8, u8),
    hf: i64,
    vf: i64,
)
    requires
        surface_wf(*old(surface)),
        camera_ok(*camera),
        focal_ok(hf as int, vf as int),
        mesh_in_frustum_range(*mesh),
    ensures
        surface_wf(*final(surface)),
        final(surface).width == old(surface).width,
        final(surface).height == old(surface).height,
        final(surface).pixels@ == render_upto(
            old(surface).pixels@,
            old(surface).width as int,
            *camera,
            hf as int,
            vf as int,
            old(surface).width as int / 2,
            old(surface).height as int / 2,
            mesh.triangles@,
            color,
            mesh.triangles@.len() as int,
        ),
{
    let ghost w = surface.width as int;
    let half_w: i64 = (surface.width / 2) as i64;
    let half_h: i64 = (surface.height / 2) as i64;
    proof {
        assert(half_w as int == old(surface).width as int / 2);
        assert(half_h as int == old(surface).height as int / 2);
    }
    let n = mesh.triangles.len();
    let mut i: usize = 0;
    while i < n
        invariant
            surface_wf(*surface),
            surface.width == old(surface).width,
            surface.height == old(surface).height,
            w == surface.width as int,
            camera_ok(*camera),
            focal_ok(hf as int, vf as int),
            mesh_in_frustum_range(*mesh),
            n == mesh.triangles@.len(),
            0 <= i <= n,
            half_w as int == old(surface).width as int / 2,
            half_h as int == old(surface).height as int / 2,
            0 <= half_w <= 8192,
            0 <= half_h <= 8192,
            (surface.pixels@ == render_upto(
                old(surface).pixels@,
                w,
                *camera,
                hf as int,
                vf as int,
                half_w as int,
                half_h as int,
                mesh.triangles@,
                color,
                i as int,
            )),
        decreases n - i,
    {
        let t = mesh.triangles[i];
        proof {
            assert(t == mesh.triangles@[i as int]);
            assert(triangle_in_range(mesh.triangles@[i as int]));
        }
        let ghost pre = surface.pixels@;
        let outcome = project_triangle(camera, &t, hf, vf, half_w, half_h);
        match outcome {
            Result::Ok(pts) => {
                let p0 = pts[0];
                let p1 = pts[1];
                let p2 = pts[2];
                fill_triangle(surface, p0, p1, p2, color);
                surface.draw_line(p0.x, p0.y, p1.x, p1.y, (0, 0, 0));
                surface.draw_line(p1.x, p1.y, p2.x, p2.y, (0, 0, 0));
                surface.draw_line(p2.x, p2.y, p0.x, p0.y, (0, 0, 0));
                proof {
                    assert(surface.pixels@ == render_tri(
                        pre,
                        w,
                        *camera,
                        hf as int,
                        vf as int,
                        half_w as int,
                        half_h as int,
                        t,
                        color,
                    ));
                }
            },
            Result::Err(e) => {
                proof {
                    assert(tri_status(*camera, hf as int, vf as int, t) == Some(e));
                    assert(surface.pixels@ == render_tri(
                        pre,
                        w,
                        *camera,
                        hf as int,
                        vf as int,
                        half_w as int,
                        half_h as int,
                        t,
                        color,
                    ));
                }
            },
        }
        i = i + 1;
    }
}

impl Mesh {
    /// Draws this mesh onto the surface through `project`.
    pub fn draw(
        &self,
        surface: &mut Surface,
        camera: &Camera,
        color: (u8, u8, u8),
        hf: i64,
        vf: i64,
    )
        requires
            surface_wf(*old(surface)),
            camera_ok(*camera),
            focal_ok(hf as int, vf as int),
            mesh_in_frustum_range(*self),
        ensures
            surface_wf(*final(surface)),
            final(surface).width == old(surface).width,
            final(surface).height == old(surface).height,
            final(surface).pixels@ == render_upto(
                old(surface).pixels@,
                old(surface).width as int,
                *camera,
                hf as int,
                vf as int,
                old(surface).width as int / 2,
                old(surface).height as int / 2,
                self.triangles@,
                color,
                self.triangles@.len() as int,
            ),
    {
        project(surface, camera, self, color, hf, vf);
    }
}


/// Point-reflecting an edge point-reflects its scanline crossing: the
/// interpolated x of the negated edge at the negated scanline is the
/// negation of the original.
pub proof fn lemma_interp_neg(ax: int, ay: int, bx: int, by: int, y: int)
    requires
        by != ay,
    ensures
        interp_x(-ax, -ay, -bx, -by, -y) == -interp_x(ax, ay, bx, by, y),
{
    assert((-y - (-ay)) * (-bx - (-ax)) == (y - ay) * (bx - ax)) by (nonlinear_arith);
    crate::fixed::lemma_div_trunc_neg_den((y - ay) * (bx - ax), by - ay);
}

/// Scanline fill symmetry: a flat-bottom triangle (apex above the flat
/// edge) and the flat-top triangle with all coordinates point-reflected
/// through the origin cover point-reflected pixel sets, coordinate for
/// coordinate.
pub proof fn lemma_scanline_fill_symmetry(
    x1: int,
    y1: int,
    x2: int,
    y2: int,
    x3: int,
    y3: int,
    xx: int,
    yy: int,
)
    requires
        y1 < y2,
        y2 == y3,
    ensures
        top_flat_sel(-x2, -y2, -x3, -y3, -x1, -y1)(xx, yy) <==> bottom_flat_sel(
            x1,
            y1,
            x2,
            y2,
            x3,
            y3,
        )(-xx, -yy),
{
    lemma_interp_neg(x1, y1, x2, y2, -yy);
    lemma_interp_neg(x1, y1, x3, y3, -yy);
    let c1 = interp_x(x1, y1, x2, y2, -yy);
    let c2 = interp_x(x1, y1, x3, y3, -yy);
    assert(interp_x(-x1, -y1, -x2, -y2, yy) == -c1);
    assert(interp_x(-x1, -y1, -x3, -y3, yy) == -c2);
    assert(span_lo(-c1, -c2) == -span_hi(c1, c2));
    assert(span_hi(-c1, -c2) == -span_lo(c1, c2));
}

/// Rasterizer idempotence: drawing the same triangle a second time, with
/// the same inputs, leaves the frame exactly as the first drawing left
/// it.
pub proof fn lemma_render_tri_idempotent(
    s: Seq<(u8, u8, u8)>,
    w: int,
    cam: Camera,
    hf: int,
    vf: int,
    half_w: int,
    half_h: int,
    t: Triangle,
    color: (u8, u8, u8),
)
    ensures
        render_tri(
            render_tri(s, w, cam, hf, vf, half_w, half_h, t, color),
            w,
            cam,
            hf,
            vf,
            half_w,
            half_h,
            t,
            color,
        ) == render_tri(s, w, cam, hf, vf, half_w, half_h, t, color),
{
    let once = render_tri(s, w, cam, hf, vf, half_w, half_h, t, color);
    let twice = render_tri(once, w, cam, hf, vf, half_w, half_h, t, color);
    if tri_status(cam, hf, vf, t) is Some {
    } else {
        assert(once.len() == s.len());
        assert(twice.len() == s.len());
        assert forall|k: int| 0 <= k < s.len() implies twice[k] == once[k] by {}
        assert(twice =~= once);
    }
}


/// A culled or rejected triangle contributes no pixel to the frame.
pub proof fn lemma_rejected_triangle_draws_nothing(
    s: Seq<(u8, u8, u8)>,
    w: int,
    cam: Camera,
    hf: int,
    vf: int,
    half_w: int,
    half_h: int,
    t: Triangle,
    color: (u8, u8, u8),
)
    requires
        tri_status(cam, hf, vf, t) is Some,
    ensures
        render_tri(s, w, cam, hf, vf, half_w, half_h, t, color) == s,
{
}

/// The device-bounds reject is strict: a vertex whose normalized
/// components sit exactly on the boundary, one in magnitude, is
/// retained.
pub proof fn lemma_device_boundary_retained(hf: int, vf: int, z_near: int, z_far: int, v: Vector3)
    requires
        abs_i(ndc_x(hf, v)) <= ONE as int,
        abs_i(ndc_y(vf, v)) <= ONE as int,
        abs_i(ndc_z(z_near, z_far, v)) <= ONE as int,
    ensures
        !vertex_out(hf, vf, z_near, z_far, v),
{
}


/// A frame over triangles that are all culled or rejected draws no pixel
/// at all: the buffer comes back exactly as it went in.
pub proof fn lemma_all_rejected_draws_nothing(
    s: Seq<(u8, u8, u8)>,
    w: int,
    cam: Camera,
    hf: int,
    vf: int,
    half_w: int,
    half_h: int,
    tris: Seq<Triangle>,
    color: (u8, u8, u8),
    n: int,
)
    requires
        0 <= n <= tris.len(),
        forall|i: int| 0 <= i < n ==> tri_status(cam, hf, vf, #[trigger] tris[i]) is Some,
    ensures
        render_upto(s, w, cam, hf, vf, half_w, half_h, tris, color, n) == s,
    decreases n,
{
    if n > 0 {
        lemma_all_rejected_draws_nothing(s, w, cam, hf, vf, half_w, half_h, tris, color, n - 1);
    }
}

} // verus!
