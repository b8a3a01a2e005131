//! Triangles and their face normals.

use vstd::prelude::*;
use crate::fixed::{abs_i, fx_div, sqrt_floor, ONE};
use crate::vector3::{cross_product, subtract, Vector3};

verus! {

/// A triangle given by its three vertices in world space.  Winding order
/// is significant: it fixes the direction of the face normal and with it
/// the back-face culling decision.
#[derive(Copy, Clone, Debug)]
pub struct Triangle {
    pub vertices: [Vector3; 3],
}

impl Triangle {
    /// A triangle from its three vertices.
    pub fn new(vertices: [Vector3; 3]) -> (t: Self)
        ensures
            t.vertices == vertices,
    {
        Self { vertices }
    }
}

/// The x raw component of the (unnormalized) fixed-point cross product of
/// the two edge vectors leaving vertex 0.
pub open spec fn normal_cx(t: Triangle) -> int {
    ((t.vertices[1].y - t.vertices[0].y) * (t.vertices[2].z - t.vertices[0].z) - (t.vertices[1].z
        - t.vertices[0].z) * (t.vertices[2].y - t.vertices[0].y)) / (ONE as int)
}

/// The y raw component of the unnormalized face normal.
pub open spec fn normal_cy(t: Triangle) -> int {
    ((t.vertices[1].z - t.vertices[0].z) * (t.vertices[2].x - t.vertices[0].x) - (t.vertices[1].x
        - t.vertices[0].x) * (t.vertices[2].z - t.vertices[0].z)) / (ONE as int)
}

/// The z raw component of the unnormalized face normal.
pub open spec fn normal_cz(t: Triangle) -> int {
    ((t.vertices[1].x - t.vertices[0].x) * (t.vertices[2].y - t.vertices[0].y) - (t.vertices[1].y
        - t.vertices[0].y) * (t.vertices[2].x - t.vertices[0].x)) / (ONE as int)
}

/// The squared raw magnitude of the unnormalized face normal.
pub open spec fn normal_ssq(t: Triangle) -> int {
    normal_cx(t) * normal_cx(t) + normal_cy(t) * normal_cy(t) + normal_cz(t) * normal_cz(t)
}

/// Every intermediate value of the face-normal computation fits in `i64`:
/// the edge differences, the edge cross products, the squared magnitude
/// of the unnormalized normal, and the scaled components the final
/// normalization divides.
pub open spec fn normal_fits(t: Triangle) -> bool {
    let v0 = t.vertices[0];
    let v1 = t.vertices[1];
    let v2 = t.vertices[2];
    &&& i64::MIN <= v1.x - v0.x <= i64::MAX
    &&& i64::MIN <= v1.y - v0.y <= i64::MAX
    &&& i64::MIN <= v1.z - v0.z <= i64::MAX
    &&& i64::MIN <= v2.x - v0.x <= i64::MAX
    &&& i64::MIN <= v2.y - v0.y <= i64::MAX
    &&& i64::MIN <= v2.z - v0.z <= i64::MAX
    &&& abs_i((v1.y - v0.y) * (v2.z - v0.z)) + abs_i((v1.z - v0.z) * (v2.y - v0.y)) <= i64::MAX
    &&& abs_i((v1.z - v0.z) * (v2.x - v0.x)) + abs_i((v1.x - v0.x) * (v2.z - v0.z)) <= i64::MAX
    &&& abs_i((v1.x - v0.x) * (v2.y - v0.y)) + abs_i((v1.y - v0.y) * (v2.x - v0.x)) <= i64::MAX
    &&& abs_i(normal_cx(t)) * (ONE as int) <= i64::MAX
    &&& abs_i(normal_cy(t)) * (ONE as int) <= i64::MAX
    &&& abs_i(normal_cz(t)) * (ONE as int) <= i64::MAX
    &&& normal_ssq(t) <= i64::MAX
}

/// The face normal of `triangle`: the cross product of the two edges
/// leaving vertex 0, scaled to magnitude one (left as the zero vector
/// when the cross product is zero).
pub fn calculate_normal(triangle: &Triangle) -> (n: Vector3)
    requires
        normal_fits(*triangle),
    ensures
        ({
            let m = sqrt_floor(normal_ssq(*triangle));
            if m == 0 {
                n.x == normal_cx(*triangle) && n.y == normal_cy(*triangle) && n.z == normal_cz(
                    *triangle,
                )
            } else {
                &&& n.x == fx_div(normal_cx(*triangle), m)
                &&& n.y == fx_div(normal_cy(*triangle), m)
                &&& n.z == fx_div(normal_cz(*triangle), m)
            }
        }),
{
    let line1 = subtract(&triangle.vertices[1], &triangle.vertices[0]);
    let line2 = subtract(&triangle.vertices[2], &triangle.vertices[0]);
    proof {
        assert(normal_cx(*triangle) * normal_cx(*triangle) >= 0) by (nonlinear_arith);
        assert(normal_cy(*triangle) * normal_cy(*triangle) >= 0) by (nonlinear_arith);
        assert(normal_cz(*triangle) * normal_cz(*triangle) >= 0) by (nonlinear_arith);
    }
    let mut normal = cross_product(&line1, &line2);
    normal.normalize();
    normal
}

} // verus!
