//! The pixel surface that triangles are rasterized onto.

use vstd::prelude::*;
use vstd::arithmetic::div_mod::{
    lemma_div_pos_is_pos, lemma_fundamental_div_mod, lemma_fundamental_div_mod_converse_div,
    lemma_fundamental_div_mod_converse_mod, lemma_mod_division_less_than_divisor,
};
use vstd::arithmetic::mul::lemma_mul_inequality;
use crate::fixed::{abs_i, div_trunc, div_trunc_i64};

verus! {

/// An output surface: a row-major pixel buffer of RGB colours with a
/// fixed width and height.  Pixel `(x, y)` lives at index `y * width + x`.
#[derive(Debug)]
pub struct Surface {
    pub width: usize,
    pub height: usize,
    pub pixels: Vec<(u8, u8, u8)>,
}

/// The buffer length matches the dimensions and the dimensions are within
/// the supported range.
pub open spec fn surface_wf(s: Surface) -> bool {
    &&& s.pixels@.len() == s.width * s.height
    &&& s.width <= 16384
    &&& s.height <= 16384
}

/// The pixel buffer `s` of width `w` with the colour `c` written to every
/// coordinate that `sel` selects, and every other pixel left as it was.
pub open spec fn painted(
    s: Seq<(u8, u8, u8)>,
    w: int,
    sel: spec_fn(int, int) -> bool,
    c: (u8, u8, u8),
) -> Seq<(u8, u8, u8)> {
    Seq::new(s.len(), |k: int| if sel(k % w, k / w) { c } else { s[k] })
}

/// The smaller of two coordinates.
pub open spec fn span_lo(a: int, b: int) -> int {
    if a <= b {
        a
    } else {
        b
    }
}

/// The larger of two coordinates.
pub open spec fn span_hi(a: int, b: int) -> int {
    if a <= b {
        b
    } else {
        a
    }
}

/// Pixel `(x, y)` of a row-major buffer of width `w` sits at index
/// `y * w + x`, and that index decomposes back into `x` and `y`.
pub proof fn lemma_pixel_index(w: int, x: int, y: int)
    requires
        0 < w,
        0 <= x < w,
        0 <= y,
    ensures
        (y * w + x) % w == x,
        (y * w + x) / w == y,
{
    lemma_fundamental_div_mod_converse_div(y * w + x, w, y, x);
    lemma_fundamental_div_mod_converse_mod(y * w + x, w, y, x);
}

/// Two selections that agree on every valid coordinate paint a buffer
/// identically.
pub proof fn lemma_painted_equiv(
    s: Seq<(u8, u8, u8)>,
    w: int,
    sel1: spec_fn(int, int) -> bool,
    sel2: spec_fn(int, int) -> bool,
    c: (u8, u8, u8),
)
    requires
        0 < w,
        forall|xx: int, yy: int|
            0 <= xx < w && 0 <= yy && yy * w + xx < s.len() ==> (#[trigger] sel1(xx, yy)
                <==> #[trigger] sel2(xx, yy)),
    ensures
        painted(s, w, sel1, c) == painted(s, w, sel2, c),
{
    assert forall|k: int| 0 <= k < s.len() implies painted(s, w, sel1, c)[k] == painted(
        s,
        w,
        sel2,
        c,
    )[k] by {
        lemma_mod_division_less_than_divisor(k, w);
        lemma_div_pos_is_pos(k, w);
        lemma_fundamental_div_mod(k, w);
        assert((k / w) * w + k % w == k) by (nonlinear_arith)
            requires k == w * (k / w) + k % w;
        assert(sel1(k % w, k / w) <==> sel2(k % w, k / w));
    }
    assert(painted(s, w, sel1, c) =~= painted(s, w, sel2, c));
}

/// A selection that matches no valid coordinate leaves the buffer as it
/// was.
pub proof fn lemma_painted_none(
    s: Seq<(u8, u8, u8)>,
    w: int,
    sel: spec_fn(int, int) -> bool,
    c: (u8, u8, u8),
)
    requires
        0 < w,
        forall|xx: int, yy: int|
            0 <= xx < w && 0 <= yy && yy * w + xx < s.len() ==> !(#[trigger] sel(xx, yy)),
    ensures
        painted(s, w, sel, c) == s,
{
    assert forall|k: int| 0 <= k < s.len() implies painted(s, w, sel, c)[k] == s[k] by {
        lemma_mod_division_less_than_divisor(k, w);
        lemma_div_pos_is_pos(k, w);
        lemma_fundamental_div_mod(k, w);
        assert((k / w) * w + k % w == k) by (nonlinear_arith)
            requires k == w * (k / w) + k % w;
        assert(!sel(k % w, k / w));
    }
    assert(painted(s, w, sel, c) =~= s);
}

/// Growing a selection by one in-bounds coordinate paints exactly one
/// more pixel: the buffer index of that coordinate.
pub proof fn lemma_painted_extend(
    s: Seq<(u8, u8, u8)>,
    w: int,
    sel1: spec_fn(int, int) -> bool,
    sel2: spec_fn(int, int) -> bool,
    x: int,
    y: int,
    c: (u8, u8, u8),
)
    requires
        0 < w,
        forall|xx: int, yy: int|
            #[trigger] sel2(xx, yy) <==> (#[trigger] sel1(xx, yy) || (xx == x && yy == y)),
        0 <= x < w,
        0 <= y,
        y * w + x < s.len(),
    ensures
        painted(s, w, sel2, c) == painted(s, w, sel1, c).update(y * w + x, c),
{
    let a = painted(s, w, sel2, c);
    let b = painted(s, w, sel1, c).update(y * w + x, c);
    lemma_pixel_index(w, x, y);
    assert forall|k: int| 0 <= k < s.len() implies a[k] == b[k] by {
        lemma_mod_division_less_than_divisor(k, w);
        lemma_div_pos_is_pos(k, w);
        lemma_fundamental_div_mod(k, w);
        assert(sel2(k % w, k / w) <==> (sel1(k % w, k / w) || (k % w == x && k / w == y)));
        if k % w == x && k / w == y {
            assert(k == w * (k / w) + k % w);
            assert(k == y * w + x) by (nonlinear_arith)
                requires k == w * (k / w) + k % w && k % w == x && k / w == y;
        }
    }
    assert(a =~= b);
}

/// Growing a selection by one coordinate that lies outside the surface
/// paints nothing new.
pub proof fn lemma_painted_extend_out(
    s: Seq<(u8, u8, u8)>,
    w: int,
    sel1: spec_fn(int, int) -> bool,
    sel2: spec_fn(int, int) -> bool,
    x: int,
    y: int,
    c: (u8, u8, u8),
)
    requires
        0 < w,
        forall|xx: int, yy: int|
            #[trigger] sel2(xx, yy) <==> (#[trigger] sel1(xx, yy) || (xx == x && yy == y)),
        !(0 <= x < w) || y < 0 || y * w + x >= s.len(),
    ensures
        painted(s, w, sel2, c) == painted(s, w, sel1, c),
{
    assert forall|k: int| 0 <= k < s.len() implies painted(s, w, sel2, c)[k] == painted(
        s,
        w,
        sel1,
        c,
    )[k] by {
        lemma_mod_division_less_than_divisor(k, w);
        lemma_div_pos_is_pos(k, w);
        lemma_fundamental_div_mod(k, w);
        assert(sel2(k % w, k / w) <==> (sel1(k % w, k / w) || (k % w == x && k / w == y)));
        if k % w == x && k / w == y {
            assert(k == w * (k / w) + k % w);
            assert(k == y * w + x) by (nonlinear_arith)
                requires k == w * (k / w) + k % w && k % w == x && k / w == y;
        }
    }
    assert(painted(s, w, sel2, c) =~= painted(s, w, sel1, c));
}

impl Surface {
    /// A surface of the given dimensions with every pixel set to `color`.
    pub fn new(width: usize, height: usize, color: (u8, u8, u8)) -> (s: Surface)
        requires
            width <= 16384,
            height <= 16384,
        ensures
            surface_wf(s),
            s.width == width,
            s.height == height,
            forall|k: int| 0 <= k < s.pixels@.len() ==> s.pixels@[k] == color,
    {
        proof {
            assert((width as int) * (height as int) <= 0x1000_0000) by (nonlinear_arith)
                requires width <= 16384 && height <= 16384;
        }
        let n: usize = width * height;
        let mut pixels: Vec<(u8, u8, u8)> = Vec::new();
        while pixels.len() < n
            invariant
                pixels@.len() <= n,
                forall|k: int| 0 <= k < pixels@.len() ==> pixels@[k] == color,
            decreases n - pixels@.len(),
        {
            pixels.push(color);
        }
        Surface { width, height, pixels }
    }

    /// Writes `color` at `(x, y)` if that point lies on the surface, and
    /// does nothing otherwise.
    pub fn set_pixel(&mut self, x: i64, y: i64, color: (u8, u8, u8))
        requires
            surface_wf(*old(self)),
        ensures
            surface_wf(*final(self)),
            final(self).width == old(self).width,
            final(self).height == old(self).height,
            final(self).pixels@ == if 0 <= x < old(self).width && 0 <= y < old(self).height {
                old(self).pixels@.update(y * old(self).width + x, color)
            } else {
                old(self).pixels@
            },
    {
        if x >= 0 && y >= 0 && x < self.width as i64 && y < self.height as i64 {
            proof {
                lemma_mul_inequality(y as int, self.height as int - 1, self.width as int);
                assert((self.height as int - 1) * (self.width as int) + (self.width as int) == (
                self.height as int) * (self.width as int)) by (nonlinear_arith);
                assert((self.width as int) * (self.height as int) == (self.height as int) * (
                self.width as int)) by (nonlinear_arith);
                assert((self.height as int) * (self.width as int) <= 0x1000_0000)
                    by (nonlinear_arith)
                    requires self.height <= 16384 && self.width <= 16384;
            }
            let idx: usize = (y as usize) * self.width + (x as usize);
            self.pixels[idx] = color;
        }
    }

    /// Draws the horizontal run of pixels at row `y` between `x1` and
    /// `x2` inclusive, in either order, clipped to the surface.
    pub fn draw_horizontal_line(&mut self, x1: i64, x2: i64, y: i64, color: (u8, u8, u8))
        requires
            surface_wf(*old(self)),
        ensures
            surface_wf(*final(self)),
            final(self).width == old(self).width,
            final(self).height == old(self).height,
            final(self).pixels@ == painted(
                old(self).pixels@,
                old(self).width as int,
                (|xx: int, yy: int| yy == y && span_lo(x1 as int, x2 as int) <= xx <= span_hi(
                    x1 as int,
                    x2 as int,
                )),
                color,
            ),
    {
        let ghost sel_full = (|xx: int, yy: int|
            yy == y && span_lo(x1 as int, x2 as int) <= xx <= span_hi(x1 as int, x2 as int));
        let w = self.width;
        if w == 0 {
            proof {
                assert(self.pixels@.len() == 0);
                assert(painted(old(self).pixels@, w as int, sel_full, color) =~= self.pixels@);
            }
            return ;
        }
        let lo: i64 = if x1 <= x2 {
            x1
        } else {
            x2
        };
        let hi: i64 = if x1 <= x2 {
            x2
        } else {
            x1
        };
        let plen = self.pixels.len();
        if y < 0 || y >= self.height as i64 || hi < 0 || lo >= w as i64 {
            proof {
                assert forall|xx: int, yy: int|
                    0 <= xx < w && 0 <= yy && yy * (w as int) + xx < self.pixels@.len() implies !(
                #[trigger] sel_full(xx, yy)) by {
                    if sel_full(xx, yy) {
                        assert(yy == y);
                        assert(span_lo(x1 as int, x2 as int) <= xx <= span_hi(x1 as int, x2 as int));
                        if y >= self.height as i64 {
                            lemma_mul_inequality(
                                self.height as int,
                                y as int,
                                w as int,
                            );
                            assert((self.height as int) * (w as int) == (w as int) * (
                            self.height as int)) by (nonlinear_arith);
                        }
                    }
                }
                lemma_painted_none(self.pixels@, w as int, sel_full, color);
            }
            return ;
        }
        let xs: i64 = if lo < 0 {
            0
        } else {
            lo
        };
        let xe: i64 = if hi >= w as i64 {
            w as i64 - 1
        } else {
            hi
        };
        proof {
            lemma_mul_inequality(y as int, self.height as int - 1, w as int);
            assert((self.height as int - 1) * (w as int) + (w as int) == (self.height as int) * (
            w as int)) by (nonlinear_arith);
            assert((self.width as int) * (self.height as int) == (self.height as int) * (
            self.width as int)) by (nonlinear_arith);
        }
        let row: usize = (y as usize) * w;
        let xe_u: usize = xe as usize;
        let mut cx: usize = xs as usize;
        proof {
            let sel0 = (|xx: int, yy: int| yy == y && xs as int <= xx < cx as int);
            assert forall|xx: int, yy: int| 0 <= xx < w && 0 <= yy implies !(
            #[trigger] sel0(xx, yy)) by {}
            lemma_painted_none(old(self).pixels@, w as int, sel0, color);
        }
        while cx <= xe_u
            invariant
                surface_wf(*self),
                self.width == old(self).width,
                self.height == old(self).height,
                w == self.width,
                0 < w,
                0 <= y < self.height as int,
                row == y * w,
                0 <= xs as int <= cx as int,
                xs <= xe,
                xe_u == xe as int,
                cx as int <= xe_u as int + 1,
                xe_u < w,
                (self.pixels@ == painted(
                    old(self).pixels@,
                    w as int,
                    (|xx: int, yy: int| yy == y && xs as int <= xx < cx as int),
                    color,
                )),
            decreases xe_u + 1 - cx,
        {
            let ghost pre = self.pixels@;
            let ghost sel_a = (|xx: int, yy: int| yy == y && xs as int <= xx < cx as int);
            let ghost sel_b = (|xx: int, yy: int| yy == y && xs as int <= xx < cx as int + 1);
            proof {
                lemma_mul_inequality(y as int, self.height as int - 1, w as int);
                assert((self.height as int - 1) * (w as int) + (w as int) == (self.height as int)
                    * (w as int)) by (nonlinear_arith);
                assert((self.width as int) * (self.height as int) == (self.height as int) * (
                self.width as int)) by (nonlinear_arith);
                assert((self.height as int) * (w as int) <= 0x1000_0000) by (nonlinear_arith)
                    requires self.height <= 16384 && w <= 16384;
            }
            let idx: usize = row + cx;
            proof {
                assert(idx < self.pixels@.len());
            }
            self.pixels[idx] = color;
            proof {
                assert forall|xx: int, yy: int| #[trigger] sel_b(xx, yy) <==> (#[trigger] sel_a(
                    xx,
                    yy,
                ) || (xx == cx as int && yy == y)) by {}
                lemma_painted_extend(
                    old(self).pixels@,
                    w as int,
                    sel_a,
                    sel_b,
                    cx as int,
                    y as int,
                    color,
                );
                assert(self.pixels@ =~= painted(old(self).pixels@, w as int, sel_b, color));
            }
            cx = cx + 1;
        }
        proof {
            let sel_done = (|xx: int, yy: int| yy == y && xs as int <= xx < cx as int);
            assert forall|xx: int, yy: int| 0 <= xx < w && 0 <= yy implies (#[trigger] sel_done(
                xx,
                yy,
            ) <==> #[trigger] sel_full(xx, yy)) by {}
            lemma_painted_equiv(old(self).pixels@, w as int, sel_done, sel_full, color);
        }
    }
}


/// The number of steps a line walk from `(x1, y1)` to `(x2, y2)` takes:
/// the larger of the two coordinate distances.
pub open spec fn line_steps(x1: int, y1: int, x2: int, y2: int) -> int {
    if abs_i(x2 - x1) >= abs_i(y2 - y1) {
        abs_i(x2 - x1)
    } else {
        abs_i(y2 - y1)
    }
}

/// The point the line walk visits at step `p`: both coordinates
/// interpolated with truncating division.
pub open spec fn line_point(x1: int, y1: int, x2: int, y2: int, p: int) -> (int, int) {
    let n = line_steps(x1, y1, x2, y2);
    if n == 0 {
        (x1, y1)
    } else {
        (x1 + div_trunc(p * (x2 - x1), n), y1 + div_trunc(p * (y2 - y1), n))
    }
}

/// The coordinates the line walk visits: one point per step from zero to
/// `line_steps` inclusive.
pub open spec fn line_sel(x1: int, y1: int, x2: int, y2: int) -> spec_fn(int, int) -> bool {
    |xx: int, yy: int|
        exists|p: int|
            0 <= p <= line_steps(x1, y1, x2, y2) && #[trigger] line_point(x1, y1, x2, y2, p) == (
            xx,
            yy,
            )
}

impl Surface {
    /// Draws the straight line segment from `(x1, y1)` to `(x2, y2)`
    /// inclusive, one pixel per step, clipped to the surface.
    pub fn draw_line(&mut self, x1: i64, y1: i64, x2: i64, y2: i64, color: (u8, u8, u8))
        requires
            surface_wf(*old(self)),
            abs_i(x1 as int) <= 0x4000_0000,
            abs_i(y1 as int) <= 0x4000_0000,
            abs_i(x2 as int) <= 0x4000_0000,
            abs_i(y2 as int) <= 0x4000_0000,
        ensures
            surface_wf(*final(self)),
            final(self).width == old(self).width,
            final(self).height == old(self).height,
            final(self).pixels@ == painted(
                old(self).pixels@,
                old(self).width as int,
                line_sel(x1 as int, y1 as int, x2 as int, y2 as int),
                color,
            ),
    {
        let ghost w = self.width as int;
        let ghost sel_full = line_sel(x1 as int, y1 as int, x2 as int, y2 as int);
        if self.width == 0 {
            proof {
                assert(self.pixels@.len() == 0);
                assert(painted(old(self).pixels@, w, sel_full, color) =~= self.pixels@);
            }
            return ;
        }
        let dx: i64 = x2 - x1;
        let dy: i64 = y2 - y1;
        let adx: i64 = if dx < 0 {
            -dx
        } else {
            dx
        };
        let ady: i64 = if dy < 0 {
            -dy
        } else {
            dy
        };
        let n: i64 = if adx >= ady {
            adx
        } else {
            ady
        };
        proof {
            assert(n == line_steps(x1 as int, y1 as int, x2 as int, y2 as int));
        }
        let mut p: i64 = 0;
        proof {
            let sel0 = (|xx: int, yy: int|
                exists|q: int|
                    0 <= q < p && #[trigger] line_point(x1 as int, y1 as int, x2 as int, y2 as int, q)
                        == (xx, yy));
            assert forall|xx: int, yy: int|
                0 <= xx < w && 0 <= yy && yy * w + xx < self.pixels@.len() implies !(
            #[trigger] sel0(xx, yy)) by {}
            lemma_painted_none(old(self).pixels@, w, sel0, color);
        }
        while p <= n
            invariant
                surface_wf(*self),
                self.width == old(self).width,
                self.height == old(self).height,
                w == self.width as int,
                0 < w,
                n == line_steps(x1 as int, y1 as int, x2 as int, y2 as int),
                dx == x2 - x1,
                dy == y2 - y1,
                abs_i(x1 as int) <= 0x4000_0000,
                abs_i(y1 as int) <= 0x4000_0000,
                abs_i(dx as int) <= n,
                abs_i(dy as int) <= n,
                n <= 0x8000_0000,
                0 <= p <= n + 1,
                (self.pixels@ == painted(
                    old(self).pixels@,
                    w,
                    (|xx: int, yy: int|
                        exists|q: int|
                            0 <= q < p && #[trigger] line_point(
                                x1 as int,
                                y1 as int,
                                x2 as int,
                                y2 as int,
                                q,
                            ) == (xx, yy)),
                    color,
                )),
            decreases n + 1 - p,
        {
            let ghost sel_a = (|xx: int, yy: int|
                exists|q: int|
                    0 <= q < p && #[trigger] line_point(x1 as int, y1 as int, x2 as int, y2 as int, q)
                        == (xx, yy));
            let ghost sel_b = (|xx: int, yy: int|
                exists|q: int|
                    0 <= q < p + 1 && #[trigger] line_point(
                        x1 as int,
                        y1 as int,
                        x2 as int,
                        y2 as int,
                        q,
                    ) == (xx, yy));
            let px: i64;
            let py: i64;
            if n == 0 {
                px = x1;
                py = y1;
            } else {
                proof {
                    assert(abs_i((p as int) * (dx as int)) <= 0x4000_0000_0000_0000)
                        by (nonlinear_arith)
                        requires
                            0 <= p <= n <= 0x8000_0000 && abs_i(dx as int) <= n;
                    assert(abs_i((p as int) * (dy as int)) <= 0x4000_0000_0000_0000)
                        by (nonlinear_arith)
                        requires
                            0 <= p <= n <= 0x8000_0000 && abs_i(dy as int) <= n;
                }
                px = x1 + div_trunc_i64(p * dx, n);
                py = y1 + div_trunc_i64(p * dy, n);
                proof {
                    assert(abs_i(div_trunc(p * dx, n as int)) <= abs_i(dx as int))
                        by (nonlinear_arith)
                        requires
                            0 < n && 0 <= p <= n && abs_i(dx as int) <= n && div_trunc(
                                p * dx,
                                n as int,
                            ) == if (p * dx < 0) != (n < 0) {
                                -(abs_i(p * dx) / abs_i(n as int))
                            } else {
                                abs_i(p * dx) / abs_i(n as int)
                            };
                    assert(abs_i(div_trunc(p * dy, n as int)) <= abs_i(dy as int))
                        by (nonlinear_arith)
                        requires
                            0 < n && 0 <= p <= n && abs_i(dy as int) <= n && div_trunc(
                                p * dy,
                                n as int,
                            ) == if (p * dy < 0) != (n < 0) {
                                -(abs_i(p * dy) / abs_i(n as int))
                            } else {
                                abs_i(p * dy) / abs_i(n as int)
                            };
                }
            }
            proof {
                assert(line_point(x1 as int, y1 as int, x2 as int, y2 as int, p as int) == (
                px as int,
                py as int,
                ));
                assert forall|xx: int, yy: int| #[trigger] sel_b(xx, yy) <==> (#[trigger] sel_a(
                    xx,
                    yy,
                ) || (xx == px as int && yy == py as int)) by {
                    if sel_a(xx, yy) {
                        let q = choose|q: int|
                            0 <= q < p && #[trigger] line_point(
                                x1 as int,
                                y1 as int,
                                x2 as int,
                                y2 as int,
                                q,
                            ) == (xx, yy);
                        assert(0 <= q < p + 1);
                    }
                    if xx == px as int && yy == py as int {
                        assert(0 <= p < p + 1 && line_point(
                            x1 as int,
                            y1 as int,
                            x2 as int,
                            y2 as int,
                            p as int,
                        ) == (xx, yy));
                    }
                    if sel_b(xx, yy) {
                        let q = choose|q: int|
                            0 <= q < p + 1 && #[trigger] line_point(
                                x1 as int,
                                y1 as int,
                                x2 as int,
                                y2 as int,
                                q,
                            ) == (xx, yy);
                        if q < p {
                        } else {
                            assert(q == p);
                        }
                    }
                }
            }
            let ghost pre = self.pixels@;
            self.set_pixel(px, py, color);
            proof {
                if 0 <= px < self.width as i64 && 0 <= py < self.height as i64 {
                    lemma_mul_inequality(py as int, self.height as int - 1, w);
                    assert((self.height as int - 1) * w + w == (self.height as int) * w)
                        by (nonlinear_arith);
                    assert((self.width as int) * (self.height as int) == (self.height as int) * (
                    self.width as int)) by (nonlinear_arith);
                    lemma_painted_extend(
                        old(self).pixels@,
                        w,
                        sel_a,
                        sel_b,
                        px as int,
                        py as int,
                        color,
                    );
                    assert(self.pixels@ =~= painted(old(self).pixels@, w, sel_b, color));
                } else {
                    if py >= self.height as i64 && px >= 0 && px < self.width as i64 {
                        lemma_mul_inequality(self.height as int, py as int, w);
                        assert((self.height as int) * w == w * (self.height as int))
                            by (nonlinear_arith);
                    }
                    lemma_painted_extend_out(
                        old(self).pixels@,
                        w,
                        sel_a,
                        sel_b,
                        px as int,
                        py as int,
                        color,
                    );
                    assert(self.pixels@ =~= painted(old(self).pixels@, w, sel_b, color));
                }
            }
            p = p + 1;
        }
        proof {
            let sel_done = (|xx: int, yy: int|
                exists|q: int|
                    0 <= q < p && #[trigger] line_point(x1 as int, y1 as int, x2 as int, y2 as int, q)
                        == (xx, yy));
            assert forall|xx: int, yy: int|
                0 <= xx < w && 0 <= yy && yy * w + xx < old(self).pixels@.len() implies (
            #[trigger] sel_done(xx, yy) <==> #[trigger] sel_full(xx, yy)) by {
                if sel_done(xx, yy) {
                    let q = choose|q: int|
                        0 <= q < p && #[trigger] line_point(
                            x1 as int,
                            y1 as int,
                            x2 as int,
                            y2 as int,
                            q,
                        ) == (xx, yy);
                    assert(0 <= q <= line_steps(x1 as int, y1 as int, x2 as int, y2 as int));
                }
                if sel_full(xx, yy) {
                    let q = choose|q: int|
                        0 <= q <= line_steps(x1 as int, y1 as int, x2 as int, y2 as int)
                            && #[trigger] line_point(x1 as int, y1 as int, x2 as int, y2 as int, q)
                            == (xx, yy);
                    assert(0 <= q < p);
                }
            }
            lemma_painted_equiv(old(self).pixels@, w, sel_done, sel_full, color);
        }
    }
}


/// Painting one selection and then another with the same colour is the
/// same as painting their union at once.
pub proof fn lemma_painted_compose(
    s: Seq<(u8, u8, u8)>,
    w: int,
    sel1: spec_fn(int, int) -> bool,
    sel2: spec_fn(int, int) -> bool,
    sel_u: spec_fn(int, int) -> bool,
    c: (u8, u8, u8),
)
    requires
        0 < w,
        forall|xx: int, yy: int|
            #[trigger] sel_u(xx, yy) <==> (#[trigger] sel1(xx, yy) || #[trigger] sel2(xx, yy)),
    ensures
        painted(painted(s, w, sel1, c), w, sel2, c) == painted(s, w, sel_u, c),
{
    let a = painted(painted(s, w, sel1, c), w, sel2, c);
    let b = painted(s, w, sel_u, c);
    assert forall|k: int| 0 <= k < s.len() implies a[k] == b[k] by {
        assert(sel_u(k % w, k / w) <==> (sel1(k % w, k / w) || sel2(k % w, k / w)));
    }
    assert(a =~= b);
}

} // verus!
