//! Meshes: triangle lists with a tracked pose.

use vstd::prelude::*;
use vstd::arithmetic::div_mod::lemma_div_multiples_vanish;
use crate::fixed::{abs_i, lemma_abs_prod_le, lemma_fx_pair_bound, ONE};
use crate::matrix::{
    ent, matrix_vector_multiply, mvm_fits, x_rotation_ent, x_rotation_matrix, y_rotation_ent,
    y_rotation_matrix, z_rotation_ent, z_rotation_matrix, Matrix4x4,
};
use crate::triangle::Triangle;
use crate::vector3::{subtract, Vector3};

verus! {

/// The largest raw coordinate magnitude the mesh transforms accept:
/// 2^40, about 16.8 million real units.
pub const MAX_COORD: i64 = 0x100_0000_0000;

/// All components of `v` are within the mesh coordinate range.
pub open spec fn in_world(v: Vector3) -> bool {
    &&& abs_i(v.x as int) <= MAX_COORD
    &&& abs_i(v.y as int) <= MAX_COORD
    &&& abs_i(v.z as int) <= MAX_COORD
}

/// An angle delta together with its sine and cosine as raw scalars.  The
/// host's trigonometry supplies the sine and cosine; the library requires
/// only that neither exceeds one in magnitude.
#[derive(Copy, Clone, Debug)]
pub struct Angle {
    pub radians: i64,
    pub sin: i64,
    pub cos: i64,
}

/// The sine and cosine of `a` are at most one in magnitude.
pub open spec fn angle_wf(a: Angle) -> bool {
    abs_i(a.sin as int) <= ONE as int && abs_i(a.cos as int) <= ONE as int
}

/// One x-axis rotation step applied to a point, componentwise.
pub open spec fn rot_x_p(a: Angle, p: (int, int, int)) -> (int, int, int) {
    (p.0, (a.cos * p.1 - a.sin * p.2) / (ONE as int), (a.sin * p.1 + a.cos * p.2) / (ONE as int))
}

/// One y-axis rotation step applied to a point, componentwise.
pub open spec fn rot_y_p(a: Angle, p: (int, int, int)) -> (int, int, int) {
    ((a.cos * p.0 + a.sin * p.2) / (ONE as int), p.1, (a.cos * p.2 - a.sin * p.0) / (ONE as int))
}

/// One z-axis rotation step applied to a point, componentwise.
pub open spec fn rot_z_p(a: Angle, p: (int, int, int)) -> (int, int, int) {
    ((a.cos * p.0 - a.sin * p.1) / (ONE as int), (a.sin * p.0 + a.cos * p.1) / (ONE as int), p.2)
}

/// The components of `v` as a mathematical triple.
pub open spec fn triple(v: Vector3) -> (int, int, int) {
    (v.x as int, v.y as int, v.z as int)
}

/// A vertex rotated about the world origin: the x, then the y, then the
/// z rotation applied to its components.
pub open spec fn rotated_global(ax: Angle, ay: Angle, az: Angle, v: Vector3) -> (int, int, int) {
    rot_z_p(az, rot_y_p(ay, rot_x_p(ax, triple(v))))
}

/// A vertex rotated about the pivot `pivot`: recentred on the pivot,
/// rotated as `rotated_global` rotates, and moved back.
pub open spec fn rotated_about(
    ax: Angle,
    ay: Angle,
    az: Angle,
    pivot: Vector3,
    v: Vector3,
) -> (int, int, int) {
    let p = rot_z_p(
        az,
        rot_y_p(ay, rot_x_p(ax, (v.x - pivot.x, v.y - pivot.y, v.z - pivot.z))),
    );
    (p.0 + pivot.x, p.1 + pivot.y, p.2 + pivot.z)
}

/// A mesh: an ordered triangle list in world space, with the cumulative
/// pose deltas applied so far kept alongside as bookkeeping.  The vertex
/// data is the single source of truth for rendering.
#[derive(Debug)]
pub struct Mesh {
    pub position: Vector3,
    pub rotation: Vector3,
    pub triangles: Vec<Triangle>,
}

/// Vertex `j` of triangle `i` of the mesh.
pub open spec fn vtx(m: Mesh, i: int, j: int) -> Vector3 {
    m.triangles@[i].vertices[j]
}

/// Every vertex of every triangle of `m`, and its position, lies within
/// the mesh coordinate range.
pub open spec fn mesh_in_world(m: Mesh) -> bool {
    &&& in_world(m.position)
    &&& forall|i: int, j: int|
        0 <= i < m.triangles@.len() && 0 <= j < 3 ==> in_world(#[trigger] vtx(m, i, j))
}

/// Adding the deltas to the position and to every vertex stays in `i64`.
pub open spec fn translate_fits(m: Mesh, x: int, y: int, z: int) -> bool {
    &&& i64::MIN <= m.position.x + x <= i64::MAX
    &&& i64::MIN <= m.position.y + y <= i64::MAX
    &&& i64::MIN <= m.position.z + z <= i64::MAX
    &&& forall|i: int, j: int|
        0 <= i < m.triangles@.len() && 0 <= j < 3 ==> {
            &&& i64::MIN <= (#[trigger] vtx(m, i, j)).x + x <= i64::MAX
            &&& i64::MIN <= vtx(m, i, j).y + y <= i64::MAX
            &&& i64::MIN <= vtx(m, i, j).z + z <= i64::MAX
        }
}

/// Every entry of a rotation matrix built from a well-formed angle is at
/// most the raw one in magnitude, so its product with a point whose
/// components stay within `b` fits row by row.
proof fn lemma_rot_mvm_fits(mx: Matrix4x4, v: Vector3, b: int)
    requires
        0 <= b <= 0x2000_0000_0000,
        abs_i(v.x as int) <= b,
        abs_i(v.y as int) <= b,
        abs_i(v.z as int) <= b,
        forall|i: int, j: int|
            0 <= i < 4 && 0 <= j < 4 ==> abs_i(#[trigger] ent(mx, i, j)) <= ONE as int,
    ensures
        mvm_fits(mx, *&v),
{
    let one: int = ONE as int;
    assert forall|row: int| 0 <= row < 4 implies abs_i(ent(mx, row, 0) * v.x) + abs_i(
        ent(mx, row, 1) * v.y,
    ) + abs_i(ent(mx, row, 2) * v.z) + abs_i(ent(mx, row, 3) * one) <= i64::MAX by {
        lemma_abs_prod_le(ent(mx, row, 0), v.x as int, one, b);
        lemma_abs_prod_le(ent(mx, row, 1), v.y as int, one, b);
        lemma_abs_prod_le(ent(mx, row, 2), v.z as int, one, b);
        lemma_abs_prod_le(ent(mx, row, 3), one, one, one);
    }
}

/// Applies the x, then y, then z rotations to a single point, through
/// the rotation matrices, and returns the rotated point.
fn rotate_point(v: Vector3, ax: &Angle, ay: &Angle, az: &Angle) -> (r: Vector3)
    requires
        angle_wf(*ax),
        angle_wf(*ay),
        angle_wf(*az),
        abs_i(v.x as int) <= 2 * MAX_COORD,
        abs_i(v.y as int) <= 2 * MAX_COORD,
        abs_i(v.z as int) <= 2 * MAX_COORD,
    ensures
        triple(r) == rot_z_p(*az, rot_y_p(*ay, rot_x_p(*ax, triple(v)))),
        abs_i(r.x as int) <= 16 * MAX_COORD,
        abs_i(r.y as int) <= 16 * MAX_COORD,
        abs_i(r.z as int) <= 16 * MAX_COORD,
{
    let one: Ghost<int> = Ghost(ONE as int);
    let b0: Ghost<int> = Ghost(2 * MAX_COORD as int);

    let xm = x_rotation_matrix(ax.sin, ax.cos);
    proof {
        assert forall|i: int, j: int| 0 <= i < 4 && 0 <= j < 4 implies abs_i(
            #[trigger] ent(xm, i, j),
        ) <= ONE as int by {
            assert(ent(xm, i, j) == x_rotation_ent(ax.sin as int, ax.cos as int, i, j));
        }
        lemma_rot_mvm_fits(xm, v, b0@);
    }
    let c0 = matrix_vector_multiply(&xm, &v);
    proof {
        lemma_div_multiples_vanish(v.x as int, one@);
        assert((-(ax.sin as int)) * (v.z as int) == -((ax.sin as int) * (v.z as int)))
            by (nonlinear_arith);
        assert(c0[0] == v.x);
        assert(c0[1] as int == (ax.cos * v.y - ax.sin * v.z) / one@);
        assert(c0[2] as int == (ax.sin * v.y + ax.cos * v.z) / one@);
        lemma_abs_prod_le(ax.cos as int, v.y as int, one@, b0@);
        lemma_abs_prod_le(ax.sin as int, v.z as int, one@, b0@);
        lemma_abs_prod_le(ax.sin as int, v.y as int, one@, b0@);
        lemma_abs_prod_le(ax.cos as int, v.z as int, one@, b0@);
        lemma_fx_pair_bound(ax.cos * v.y, -(ax.sin * v.z), b0@);
        lemma_fx_pair_bound(ax.sin * v.y, ax.cos * v.z, b0@);
    }
    let p1 = Vector3::new(c0[0], c0[1], c0[2]);
    let b1: Ghost<int> = Ghost(2 * b0@);

    let ym = y_rotation_matrix(ay.sin, ay.cos);
    proof {
        assert forall|i: int, j: int| 0 <= i < 4 && 0 <= j < 4 implies abs_i(
            #[trigger] ent(ym, i, j),
        ) <= ONE as int by {
            assert(ent(ym, i, j) == y_rotation_ent(ay.sin as int, ay.cos as int, i, j));
        }
        lemma_rot_mvm_fits(ym, p1, b1@);
    }
    let c1 = matrix_vector_multiply(&ym, &p1);
    proof {
        lemma_div_multiples_vanish(p1.y as int, one@);
        assert((-(ay.sin as int)) * (p1.x as int) == -((ay.sin as int) * (p1.x as int)))
            by (nonlinear_arith);
        assert(c1[0] as int == (ay.cos * p1.x + ay.sin * p1.z) / one@);
        assert(c1[1] == p1.y);
        assert(c1[2] as int == (ay.cos * p1.z - ay.sin * p1.x) / one@);
        lemma_abs_prod_le(ay.cos as int, p1.x as int, one@, b1@);
        lemma_abs_prod_le(ay.sin as int, p1.z as int, one@, b1@);
        lemma_abs_prod_le(ay.cos as int, p1.z as int, one@, b1@);
        lemma_abs_prod_le(ay.sin as int, p1.x as int, one@, b1@);
        lemma_fx_pair_bound(ay.cos * p1.x, ay.sin * p1.z, b1@);
        lemma_fx_pair_bound(ay.cos * p1.z, -(ay.sin * p1.x), b1@);
    }
    let p2 = Vector3::new(c1[0], c1[1], c1[2]);
    let b2: Ghost<int> = Ghost(2 * b1@);

    let zm = z_rotation_matrix(az.sin, az.cos);
    proof {
        assert forall|i: int, j: int| 0 <= i < 4 && 0 <= j < 4 implies abs_i(
            #[trigger] ent(zm, i, j),
        ) <= ONE as int by {
            assert(ent(zm, i, j) == z_rotation_ent(az.sin as int, az.cos as int, i, j));
        }
        lemma_rot_mvm_fits(zm, p2, b2@);
    }
    let c2 = matrix_vector_multiply(&zm, &p2);
    proof {
        lemma_div_multiples_vanish(p2.z as int, one@);
        assert((-(az.sin as int)) * (p2.y as int) == -((az.sin as int) * (p2.y as int)))
            by (nonlinear_arith);
        assert(c2[0] as int == (az.cos * p2.x - az.sin * p2.y) / one@);
        assert(c2[1] as int == (az.sin * p2.x + az.cos * p2.y) / one@);
        assert(c2[2] == p2.z);
        lemma_abs_prod_le(az.cos as int, p2.x as int, one@, b2@);
        lemma_abs_prod_le(az.sin as int, p2.y as int, one@, b2@);
        lemma_abs_prod_le(az.sin as int, p2.x as int, one@, b2@);
        lemma_abs_prod_le(az.cos as int, p2.y as int, one@, b2@);
        lemma_fx_pair_bound(az.cos * p2.x, -(az.sin * p2.y), b2@);
        lemma_fx_pair_bound(az.sin * p2.x, az.cos * p2.y, b2@);
    }
    Vector3::new(c2[0], c2[1], c2[2])
}

impl Mesh {
    /// A mesh from its pose bookkeeping and its triangles.
    pub fn new(position: Vector3, rotation: Vector3, triangles: Vec<Triangle>) -> (m: Self)
        ensures
            m.position == position,
            m.rotation == rotation,
            m.triangles == triangles,
    {
        Self { position, rotation, triangles }
    }

    /// A pure rigid shift: adds the deltas to the tracked position and to
    /// every vertex of every triangle, exactly.
    pub fn translate(&mut self, x: i64, y: i64, z: i64)
        requires
            translate_fits(*old(self), x as int, y as int, z as int),
        ensures
            final(self).position.x == old(self).position.x + x,
            final(self).position.y == old(self).position.y + y,
            final(self).position.z == old(self).position.z + z,
            final(self).rotation == old(self).rotation,
            final(self).triangles@.len() == old(self).triangles@.len(),
            forall|i: int, j: int|
                0 <= i < old(self).triangles@.len() && 0 <= j < 3 ==> {
                    &&& (#[trigger] vtx(*final(self), i, j)).x == vtx(*old(self), i, j).x + x
                    &&& vtx(*final(self), i, j).y == vtx(*old(self), i, j).y + y
                    &&& vtx(*final(self), i, j).z == vtx(*old(self), i, j).z + z
                },
    {
        self.position.translate(x, y, z);
        let n = self.triangles.len();
        let mut i: usize = 0;
        while i < n
            invariant
                n == old(self).triangles@.len(),
                self.triangles@.len() == n,
                0 <= i <= n,
                translate_fits(*old(self), x as int, y as int, z as int),
                self.position.x == old(self).position.x + x,
                self.position.y == old(self).position.y + y,
                self.position.z == old(self).position.z + z,
                self.rotation == old(self).rotation,
                forall|k: int| i <= k < n ==> self.triangles@[k] == old(self).triangles@[k],
                forall|k: int, j: int|
                    0 <= k < i && 0 <= j < 3 ==> {
                        &&& (#[trigger] vtx(*self, k, j)).x == vtx(*old(self), k, j).x + x
                        &&& vtx(*self, k, j).y == vtx(*old(self), k, j).y + y
                        &&& vtx(*self, k, j).z == vtx(*old(self), k, j).z + z
                    },
            decreases n - i,
        {
            let ghost pre = *self;
            let t = self.triangles[i];
            proof {
                assert(t == old(self).triangles@[i as int]);
                assert(vtx(*old(self), i as int, 0) == t.vertices[0]);
                assert(vtx(*old(self), i as int, 1) == t.vertices[1]);
                assert(vtx(*old(self), i as int, 2) == t.vertices[2]);
            }
            let mut v0 = t.vertices[0];
            let mut v1 = t.vertices[1];
            let mut v2 = t.vertices[2];
            v0.translate(x, y, z);
            v1.translate(x, y, z);
            v2.translate(x, y, z);
            self.triangles[i] = Triangle::new([v0, v1, v2]);
            proof {
                assert forall|k: int, j: int| 0 <= k < i + 1 && 0 <= j < 3 implies {
                    &&& (#[trigger] vtx(*self, k, j)).x == vtx(*old(self), k, j).x + x
                    &&& vtx(*self, k, j).y == vtx(*old(self), k, j).y + y
                    &&& vtx(*self, k, j).z == vtx(*old(self), k, j).z + z
                } by {
                    if k == i as int {
                        assert(vtx(*self, k, 0) == v0);
                        assert(vtx(*self, k, 1) == v1);
                        assert(vtx(*self, k, 2) == v2);
                    } else {
                        assert(self.triangles@[k] == pre.triangles@[k]);
                        assert(vtx(*self, k, j) == vtx(pre, k, j));
                        assert(vtx(pre, k, j).x == vtx(*old(self), k, j).x + x);
                    }
                }
                assert forall|k: int| i + 1 <= k < n implies self.triangles@[k] == old(
                    self,
                ).triangles@[k] by {
                    assert(self.triangles@[k] == pre.triangles@[k]);
                }
            }
            i = i + 1;
        }
    }

    /// Rotates the mesh about its own tracked position: every vertex is
    /// recentred, passed through the x, y and z rotations in that order,
    /// and moved back.  The angle deltas accumulate in the rotation field.
    pub fn rotate(&mut self, x: Angle, y: Angle, z: Angle)
        requires
            angle_wf(x),
            angle_wf(y),
            angle_wf(z),
            mesh_in_world(*old(self)),
            i64::MIN <= old(self).rotation.x + x.radians <= i64::MAX,
            i64::MIN <= old(self).rotation.y + y.radians <= i64::MAX,
            i64::MIN <= old(self).rotation.z + z.radians <= i64::MAX,
        ensures
            final(self).position == old(self).position,
            final(self).rotation.x == old(self).rotation.x + x.radians,
            final(self).rotation.y == old(self).rotation.y + y.radians,
            final(self).rotation.z == old(self).rotation.z + z.radians,
            final(self).triangles@.len() == old(self).triangles@.len(),
            forall|i: int, j: int|
                0 <= i < old(self).triangles@.len() && 0 <= j < 3 ==> triple(
                    #[trigger] vtx(*final(self), i, j),
                ) == rotated_about(x, y, z, old(self).position, vtx(*old(self), i, j)),
    {
        self.rotation.translate(x.radians, y.radians, z.radians);
        let pos = self.position;
        let n = self.triangles.len();
        let mut i: usize = 0;
        while i < n
            invariant
                n == old(self).triangles@.len(),
                self.triangles@.len() == n,
                0 <= i <= n,
                angle_wf(x),
                angle_wf(y),
                angle_wf(z),
                mesh_in_world(*old(self)),
                pos == old(self).position,
                self.position == old(self).position,
                self.rotation.x == old(self).rotation.x + x.radians,
                self.rotation.y == old(self).rotation.y + y.radians,
                self.rotation.z == old(self).rotation.z + z.radians,
                forall|k: int| i <= k < n ==> self.triangles@[k] == old(self).triangles@[k],
                forall|k: int, j: int|
                    0 <= k < i && 0 <= j < 3 ==> triple(#[trigger] vtx(*self, k, j))
                        == rotated_about(x, y, z, old(self).position, vtx(*old(self), k, j)),
            decreases n - i,
        {
            let ghost pre = *self;
            let t = self.triangles[i];
            proof {
                assert(t == old(self).triangles@[i as int]);
                assert(vtx(*old(self), i as int, 0) == t.vertices[0]);
                assert(vtx(*old(self), i as int, 1) == t.vertices[1]);
                assert(vtx(*old(self), i as int, 2) == t.vertices[2]);
                assert(in_world(vtx(*old(self), i as int, 0)));
                assert(in_world(vtx(*old(self), i as int, 1)));
                assert(in_world(vtx(*old(self), i as int, 2)));
            }
            let w0 = subtract(&t.vertices[0], &pos);
            let w1 = subtract(&t.vertices[1], &pos);
            let w2 = subtract(&t.vertices[2], &pos);
            let r0 = rotate_point(w0, &x, &y, &z);
            let r1 = rotate_point(w1, &x, &y, &z);
            let r2 = rotate_point(w2, &x, &y, &z);
            let u0 = crate::vector3::add(&r0, &pos);
            let u1 = crate::vector3::add(&r1, &pos);
            let u2 = crate::vector3::add(&r2, &pos);
            self.triangles[i] = Triangle::new([u0, u1, u2]);
            proof {
                assert forall|k: int, j: int| 0 <= k < i + 1 && 0 <= j < 3 implies triple(
                    #[trigger] vtx(*self, k, j),
                ) == rotated_about(x, y, z, old(self).position, vtx(*old(self), k, j)) by {
                    if k == i as int {
                        assert(vtx(*self, k, 0) == u0);
                        assert(vtx(*self, k, 1) == u1);
                        assert(vtx(*self, k, 2) == u2);
                    } else {
                        assert(self.triangles@[k] == pre.triangles@[k]);
                        assert(vtx(*self, k, j) == vtx(pre, k, j));
                        assert(triple(vtx(pre, k, j)) == rotated_about(
                            x,
                            y,
                            z,
                            old(self).position,
                            vtx(*old(self), k, j),
                        ));
                    }
                }
                assert forall|k: int| i + 1 <= k < n implies self.triangles@[k] == old(
                    self,
                ).triangles@[k] by {
                    assert(self.triangles@[k] == pre.triangles@[k]);
                }
            }
            i = i + 1;
        }
    }

    /// Rotates the mesh about the world origin: the same per-vertex
    /// rotation sequence as `rotate`, without recentring on the tracked
    /// position.
    pub fn global_rotate(&mut self, x: Angle, y: Angle, z: Angle)
        requires
            angle_wf(x),
            angle_wf(y),
            angle_wf(z),
            mesh_in_world(*old(self)),
            i64::MIN <= old(self).rotation.x + x.radians <= i64::MAX,
            i64::MIN <= old(self).rotation.y + y.radians <= i64::MAX,
            i64::MIN <= old(self).rotation.z + z.radians <= i64::MAX,
        ensures
            final(self).position == old(self).position,
            final(self).rotation.x == old(self).rotation.x + x.radians,
            final(self).rotation.y == old(self).rotation.y + y.radians,
            final(self).rotation.z == old(self).rotation.z + z.radians,
            final(self).triangles@.len() == old(self).triangles@.len(),
            forall|i: int, j: int|
                0 <= i < old(self).triangles@.len() && 0 <= j < 3 ==> triple(
                    #[trigger] vtx(*final(self), i, j),
                ) == rotated_global(x, y, z, vtx(*old(self), i, j)),
    {
        self.rotation.translate(x.radians, y.radians, z.radians);
        let n = self.triangles.len();
        let mut i: usize = 0;
        while i < n
            invariant
                n == old(self).triangles@.len(),
                self.triangles@.len() == n,
                0 <= i <= n,
                angle_wf(x),
                angle_wf(y),
                angle_wf(z),
                mesh_in_world(*old(self)),
                self.position == old(self).position,
                self.rotation.x == old(self).rotation.x + x.radians,
                self.rotation.y == old(self).rotation.y + y.radians,
                self.rotation.z == old(self).rotation.z + z.radians,
                forall|k: int| i <= k < n ==> self.triangles@[k] == old(self).triangles@[k],
                forall|k: int, j: int|
                    0 <= k < i && 0 <= j < 3 ==> triple(#[trigger] vtx(*self, k, j))
                        == rotated_global(x, y, z, vtx(*old(self), k, j)),
            decreases n - i,
        {
            let ghost pre = *self;
            let t = self.triangles[i];
            proof {
                assert(t == old(self).triangles@[i as int]);
                assert(vtx(*old(self), i as int, 0) == t.vertices[0]);
                assert(vtx(*old(self), i as int, 1) == t.vertices[1]);
                assert(vtx(*old(self), i as int, 2) == t.vertices[2]);
                assert(in_world(vtx(*old(self), i as int, 0)));
                assert(in_world(vtx(*old(self), i as int, 1)));
                assert(in_world(vtx(*old(self), i as int, 2)));
            }
            let u0 = rotate_point(t.vertices[0], &x, &y, &z);
            let u1 = rotate_point(t.vertices[1], &x, &y, &z);
            let u2 = rotate_point(t.vertices[2], &x, &y, &z);
            self.triangles[i] = Triangle::new([u0, u1, u2]);
            proof {
                assert forall|k: int, j: int| 0 <= k < i + 1 && 0 <= j < 3 implies triple(
                    #[trigger] vtx(*self, k, j),
                ) == rotated_global(x, y, z, vtx(*old(self), k, j)) by {
                    if k == i as int {
                        assert(vtx(*self, k, 0) == u0);
                        assert(vtx(*self, k, 1) == u1);
                        assert(vtx(*self, k, 2) == u2);
                    } else {
                        assert(self.triangles@[k] == pre.triangles@[k]);
                        assert(vtx(*self, k, j) == vtx(pre, k, j));
                        assert(triple(vtx(pre, k, j)) == rotated_global(
                            x,
                            y,
                            z,
                            vtx(*old(self), k, j),
                        ));
                    }
                }
                assert forall|k: int| i + 1 <= k < n implies self.triangles@[k] == old(
                    self,
                ).triangles@[k] by {
                    assert(self.triangles@[k] == pre.triangles@[k]);
                }
            }
            i = i + 1;
        }
    }
}


/// Which of the eight cube corners sits at vertex `j` of cube triangle
/// `i`.  Corners are numbered 1 to 8; two triangles cover each face.
pub open spec fn cube_corner_id(i: int, j: int) -> int {
    let ids: (int, int, int) = if i == 0 {
        (1, 3, 4)
    } else if i == 1 {
        (1, 4, 2)
    } else if i == 2 {
        (6, 8, 7)
    } else if i == 3 {
        (6, 7, 5)
    } else if i == 4 {
        (5, 7, 3)
    } else if i == 5 {
        (5, 3, 1)
    } else if i == 6 {
        (2, 4, 8)
    } else if i == 7 {
        (2, 8, 6)
    } else if i == 8 {
        (5, 1, 2)
    } else if i == 9 {
        (5, 2, 6)
    } else if i == 10 {
        (3, 7, 8)
    } else {
        (3, 8, 4)
    };
    if j == 0 {
        ids.0
    } else if j == 1 {
        ids.1
    } else {
        ids.2
    }
}

/// The coordinates of cube corner `k` (numbered 1 to 8) for a cube of
/// the given edge length centred on the origin.
pub open spec fn cube_vertex(size: int, k: int) -> (int, int, int) {
    let h = size / 2;
    (
        if k % 2 == 0 {
            h
        } else {
            -h
        },
        if k == 3 || k == 4 || k == 7 || k == 8 {
            h
        } else {
            -h
        },
        if k >= 5 {
            h
        } else {
            -h
        },
    )
}

/// An axis-aligned cube of the given edge length centred on the origin,
/// as twelve triangles wound to face outward, with a zeroed pose.
pub fn cube(size: i64) -> (m: Mesh)
    requires
        0 <= size,
    ensures
        m.position == (Vector3 { x: 0, y: 0, z: 0 }),
        m.rotation == (Vector3 { x: 0, y: 0, z: 0 }),
        m.triangles@.len() == 12,
        forall|i: int, j: int|
            0 <= i < 12 && 0 <= j < 3 ==> triple(#[trigger] vtx(m, i, j)) == cube_vertex(
                size as int,
                cube_corner_id(i, j),
            ),
{
    let half: i64 = size / 2;
    proof {
        assert(half == size as int / 2);
    }
    let v1 = Vector3::new(-half, -half, -half);
    let v2 = Vector3::new(half, -half, -half);
    let v3 = Vector3::new(-half, half, -half);
    let v4 = Vector3::new(half, half, -half);
    let v5 = Vector3::new(-half, -half, half);
    let v6 = Vector3::new(half, -half, half);
    let v7 = Vector3::new(-half, half, half);
    let v8 = Vector3::new(half, half, half);
    let triangles: Vec<Triangle> = vec![
        Triangle::new([v1, v3, v4]),
        Triangle::new([v1, v4, v2]),
        Triangle::new([v6, v8, v7]),
        Triangle::new([v6, v7, v5]),
        Triangle::new([v5, v7, v3]),
        Triangle::new([v5, v3, v1]),
        Triangle::new([v2, v4, v8]),
        Triangle::new([v2, v8, v6]),
        Triangle::new([v5, v1, v2]),
        Triangle::new([v5, v2, v6]),
        Triangle::new([v3, v7, v8]),
        Triangle::new([v3, v8, v4]),
    ];
    let m = Mesh { position: Vector3::new(0, 0, 0), rotation: Vector3::new(0, 0, 0), triangles };
    proof {
        assert forall|i: int, j: int| 0 <= i < 12 && 0 <= j < 3 implies triple(
            #[trigger] vtx(m, i, j),
        ) == cube_vertex(size as int, cube_corner_id(i, j)) by {
            assert(vtx(m, i, 0) == m.triangles@[i].vertices[0]);
            assert(vtx(m, i, 1) == m.triangles@[i].vertices[1]);
            assert(vtx(m, i, 2) == m.triangles@[i].vertices[2]);
        }
    }
    m
}

/// Groups a flat run of vertices into triangles, three consecutive
/// vertices each, in order.  A trailing run shorter than three vertices
/// is dropped.
pub fn triangles_from_vertices(rows: &Vec<Vector3>) -> (ts: Vec<Triangle>)
    ensures
        ts@.len() == rows@.len() as int / 3,
        forall|i: int, j: int|
            0 <= i < ts@.len() && 0 <= j < 3 ==> (#[trigger] ts@[i].vertices[j]) == rows@[3 * i
                + j],
{
    let n: usize = rows.len() / 3;
    proof {
        vstd::arithmetic::div_mod::lemma_fundamental_div_mod(rows@.len() as int, 3);
        vstd::arithmetic::div_mod::lemma_mod_division_less_than_divisor(rows@.len() as int, 3);
        assert(3 * n <= rows@.len());
        assert(rows@.len() <= usize::MAX);
    }
    let mut ts: Vec<Triangle> = Vec::new();
    let mut i: usize = 0;
    while i < n
        invariant
            n == rows@.len() as int / 3,
            3 * n <= rows@.len(),
            rows@.len() <= usize::MAX,
            0 <= i <= n,
            ts@.len() == i,
            forall|k: int, j: int|
                0 <= k < i && 0 <= j < 3 ==> (#[trigger] ts@[k].vertices[j]) == rows@[3 * k + j],
        decreases n - i,
    {
        let t = Triangle::new([rows[3 * i], rows[3 * i + 1], rows[3 * i + 2]]);
        ts.push(t);
        i = i + 1;
    }
    ts
}

} // verus!
