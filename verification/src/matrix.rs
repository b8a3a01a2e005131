//! 4x4 matrices over fixed-point scalars, row-major.

use vstd::prelude::*;
use crate::fixed::{abs_i, div_floor, fx_mul, ONE};
use crate::vector3::Vector3;

verus! {

/// A 4x4 transform matrix, row-major.  Entries are Q47.16 raw scalars.
#[derive(Copy, Clone, Debug)]
pub struct Matrix4x4 {
    pub m: [[i64; 4]; 4],
}

/// The entry of `mx` at row `r`, column `c`, as a mathematical integer.
pub open spec fn ent(mx: Matrix4x4, r: int, c: int) -> int {
    mx.m[r][c] as int
}

/// Entry `r`, `c` of the sum of two matrices.
pub open spec fn add_ent(a: Matrix4x4, b: Matrix4x4, r: int, c: int) -> int {
    ent(a, r, c) + ent(b, r, c)
}

/// Entry `r`, `c` of the difference of two matrices.
pub open spec fn sub_ent(a: Matrix4x4, b: Matrix4x4, r: int, c: int) -> int {
    ent(a, r, c) - ent(b, r, c)
}

/// Entry `r`, `c` of the product of two matrices: the exact sum of the
/// four raw products, scaled back down once, rounded toward negative
/// infinity.
pub open spec fn mul_ent(a: Matrix4x4, b: Matrix4x4, r: int, c: int) -> int {
    (ent(a, r, 0) * ent(b, 0, c) + ent(a, r, 1) * ent(b, 1, c) + ent(a, r, 2) * ent(b, 2, c)
        + ent(a, r, 3) * ent(b, 3, c)) / (ONE as int)
}

/// Row `row` of the product of `mx` with the homogeneous column
/// `(v.x, v.y, v.z, 1)`: the exact sum of raw products (the fourth being
/// the entry times the raw one), scaled back down once.
pub open spec fn mvm_ent(mx: Matrix4x4, v: Vector3, row: int) -> int {
    (ent(mx, row, 0) * v.x + ent(mx, row, 1) * v.y + ent(mx, row, 2) * v.z + ent(mx, row, 3) * (
    ONE as int)) / (ONE as int)
}

/// The entry of the identity matrix at row `r`, column `c`.
pub open spec fn identity_ent(r: int, c: int) -> int {
    if r == c {
        ONE as int
    } else {
        0
    }
}


/// Every entrywise sum or difference of `a` and `b` fits in `i64`.
pub open spec fn add_fits(a: Matrix4x4, b: Matrix4x4) -> bool {
    &&& abs_i(ent(a, 0, 0)) + abs_i(ent(b, 0, 0)) <= i64::MAX
    &&& abs_i(ent(a, 0, 1)) + abs_i(ent(b, 0, 1)) <= i64::MAX
    &&& abs_i(ent(a, 0, 2)) + abs_i(ent(b, 0, 2)) <= i64::MAX
    &&& abs_i(ent(a, 0, 3)) + abs_i(ent(b, 0, 3)) <= i64::MAX
    &&& abs_i(ent(a, 1, 0)) + abs_i(ent(b, 1, 0)) <= i64::MAX
    &&& abs_i(ent(a, 1, 1)) + abs_i(ent(b, 1, 1)) <= i64::MAX
    &&& abs_i(ent(a, 1, 2)) + abs_i(ent(b, 1, 2)) <= i64::MAX
    &&& abs_i(ent(a, 1, 3)) + abs_i(ent(b, 1, 3)) <= i64::MAX
    &&& abs_i(ent(a, 2, 0)) + abs_i(ent(b, 2, 0)) <= i64::MAX
    &&& abs_i(ent(a, 2, 1)) + abs_i(ent(b, 2, 1)) <= i64::MAX
    &&& abs_i(ent(a, 2, 2)) + abs_i(ent(b, 2, 2)) <= i64::MAX
    &&& abs_i(ent(a, 2, 3)) + abs_i(ent(b, 2, 3)) <= i64::MAX
    &&& abs_i(ent(a, 3, 0)) + abs_i(ent(b, 3, 0)) <= i64::MAX
    &&& abs_i(ent(a, 3, 1)) + abs_i(ent(b, 3, 1)) <= i64::MAX
    &&& abs_i(ent(a, 3, 2)) + abs_i(ent(b, 3, 2)) <= i64::MAX
    &&& abs_i(ent(a, 3, 3)) + abs_i(ent(b, 3, 3)) <= i64::MAX
}

/// Every entry of `a` times the scalar `k` fits in `i64`.
pub open spec fn scale_fits(a: Matrix4x4, k: int) -> bool {
    &&& abs_i(ent(a, 0, 0) * k) <= i64::MAX
    &&& abs_i(ent(a, 0, 1) * k) <= i64::MAX
    &&& abs_i(ent(a, 0, 2) * k) <= i64::MAX
    &&& abs_i(ent(a, 0, 3) * k) <= i64::MAX
    &&& abs_i(ent(a, 1, 0) * k) <= i64::MAX
    &&& abs_i(ent(a, 1, 1) * k) <= i64::MAX
    &&& abs_i(ent(a, 1, 2) * k) <= i64::MAX
    &&& abs_i(ent(a, 1, 3) * k) <= i64::MAX
    &&& abs_i(ent(a, 2, 0) * k) <= i64::MAX
    &&& abs_i(ent(a, 2, 1) * k) <= i64::MAX
    &&& abs_i(ent(a, 2, 2) * k) <= i64::MAX
    &&& abs_i(ent(a, 2, 3) * k) <= i64::MAX
    &&& abs_i(ent(a, 3, 0) * k) <= i64::MAX
    &&& abs_i(ent(a, 3, 1) * k) <= i64::MAX
    &&& abs_i(ent(a, 3, 2) * k) <= i64::MAX
    &&& abs_i(ent(a, 3, 3) * k) <= i64::MAX
}

/// The four raw products behind entry `r`, `c` of the matrix product
/// together fit in `i64`.
pub open spec fn mul_rc_fits(a: Matrix4x4, b: Matrix4x4, r: int, c: int) -> bool {
    abs_i(ent(a, r, 0) * ent(b, 0, c)) + abs_i(ent(a, r, 1) * ent(b, 1, c)) + abs_i(
        ent(a, r, 2) * ent(b, 2, c),
    ) + abs_i(ent(a, r, 3) * ent(b, 3, c)) <= i64::MAX
}

/// Every entry of the matrix product of `a` and `b` fits in `i64`.
pub open spec fn mul_fits(a: Matrix4x4, b: Matrix4x4) -> bool {
    &&& mul_rc_fits(a, b, 0, 0)
    &&& mul_rc_fits(a, b, 0, 1)
    &&& mul_rc_fits(a, b, 0, 2)
    &&& mul_rc_fits(a, b, 0, 3)
    &&& mul_rc_fits(a, b, 1, 0)
    &&& mul_rc_fits(a, b, 1, 1)
    &&& mul_rc_fits(a, b, 1, 2)
    &&& mul_rc_fits(a, b, 1, 3)
    &&& mul_rc_fits(a, b, 2, 0)
    &&& mul_rc_fits(a, b, 2, 1)
    &&& mul_rc_fits(a, b, 2, 2)
    &&& mul_rc_fits(a, b, 2, 3)
    &&& mul_rc_fits(a, b, 3, 0)
    &&& mul_rc_fits(a, b, 3, 1)
    &&& mul_rc_fits(a, b, 3, 2)
    &&& mul_rc_fits(a, b, 3, 3)
}

/// The four raw products behind every row of a matrix-vector product
/// fit in `i64`.
pub open spec fn mvm_row_fits(mx: Matrix4x4, v: Vector3, row: int) -> bool {
    abs_i(ent(mx, row, 0) * v.x) + abs_i(ent(mx, row, 1) * v.y) + abs_i(ent(mx, row, 2) * v.z)
        + abs_i(ent(mx, row, 3) * (ONE as int)) <= i64::MAX
}

/// All four rows of the matrix-vector product fit in `i64`.
pub open spec fn mvm_fits(mx: Matrix4x4, v: Vector3) -> bool {
    &&& mvm_row_fits(mx, v, 0)
    &&& mvm_row_fits(mx, v, 1)
    &&& mvm_row_fits(mx, v, 2)
    &&& mvm_row_fits(mx, v, 3)
}


impl Matrix4x4 {
    /// A matrix from its entries.
    pub fn new(m: [[i64; 4]; 4]) -> (r: Self)
        ensures
            r.m == m,
    {
        Self { m }
    }
}


/// Scales every entry of `m1` by the scalar `k`.
pub fn matrix_scale(m1: &Matrix4x4, k: i64) -> (r: Matrix4x4)
    requires
        scale_fits(*m1, k as int),
    ensures
        forall|i: int, j: int|
            0 <= i < 4 && 0 <= j < 4 ==> #[trigger] ent(r, i, j) == fx_mul(ent(*m1, i, j), k as int),
{
    let m: [[i64; 4]; 4] = [
        [div_floor(m1.m[0][0] * k, ONE), div_floor(m1.m[0][1] * k, ONE), div_floor(m1.m[0][2] * k, ONE), div_floor(m1.m[0][3] * k, ONE)],
        [div_floor(m1.m[1][0] * k, ONE), div_floor(m1.m[1][1] * k, ONE), div_floor(m1.m[1][2] * k, ONE), div_floor(m1.m[1][3] * k, ONE)],
        [div_floor(m1.m[2][0] * k, ONE), div_floor(m1.m[2][1] * k, ONE), div_floor(m1.m[2][2] * k, ONE), div_floor(m1.m[2][3] * k, ONE)],
        [div_floor(m1.m[3][0] * k, ONE), div_floor(m1.m[3][1] * k, ONE), div_floor(m1.m[3][2] * k, ONE), div_floor(m1.m[3][3] * k, ONE)],
    ];
    Matrix4x4 { m }
}


/// The entrywise sum of two matrices, exactly.
pub fn matrix_add(m1: &Matrix4x4, m2: &Matrix4x4) -> (r: Matrix4x4)
    requires
        add_fits(*m1, *m2),
    ensures
        forall|i: int, j: int|
            0 <= i < 4 && 0 <= j < 4 ==> #[trigger] ent(r, i, j) == add_ent(*m1, *m2, i, j),
{
    let m: [[i64; 4]; 4] = [
        [m1.m[0][0] + m2.m[0][0], m1.m[0][1] + m2.m[0][1], m1.m[0][2] + m2.m[0][2], m1.m[0][3] + m2.m[0][3]],
        [m1.m[1][0] + m2.m[1][0], m1.m[1][1] + m2.m[1][1], m1.m[1][2] + m2.m[1][2], m1.m[1][3] + m2.m[1][3]],
        [m1.m[2][0] + m2.m[2][0], m1.m[2][1] + m2.m[2][1], m1.m[2][2] + m2.m[2][2], m1.m[2][3] + m2.m[2][3]],
        [m1.m[3][0] + m2.m[3][0], m1.m[3][1] + m2.m[3][1], m1.m[3][2] + m2.m[3][2], m1.m[3][3] + m2.m[3][3]],
    ];
    Matrix4x4 { m }
}


/// The entrywise difference of two matrices, exactly.
pub fn matrix_subtract(m1: &Matrix4x4, m2: &Matrix4x4) -> (r: Matrix4x4)
    requires
        add_fits(*m1, *m2),
    ensures
        forall|i: int, j: int|
            0 <= i < 4 && 0 <= j < 4 ==> #[trigger] ent(r, i, j) == sub_ent(*m1, *m2, i, j),
{
    let m: [[i64; 4]; 4] = [
        [m1.m[0][0] - m2.m[0][0], m1.m[0][1] - m2.m[0][1], m1.m[0][2] - m2.m[0][2], m1.m[0][3] - m2.m[0][3]],
        [m1.m[1][0] - m2.m[1][0], m1.m[1][1] - m2.m[1][1], m1.m[1][2] - m2.m[1][2], m1.m[1][3] - m2.m[1][3]],
        [m1.m[2][0] - m2.m[2][0], m1.m[2][1] - m2.m[2][1], m1.m[2][2] - m2.m[2][2], m1.m[2][3] - m2.m[2][3]],
        [m1.m[3][0] - m2.m[3][0], m1.m[3][1] - m2.m[3][1], m1.m[3][2] - m2.m[3][2], m1.m[3][3] - m2.m[3][3]],
    ];
    Matrix4x4 { m }
}


/// The standard 4x4 matrix product, each entry scaled back down once.
pub fn matrix_matrix_multiply(m1: &Matrix4x4, m2: &Matrix4x4) -> (r: Matrix4x4)
    requires
        mul_fits(*m1, *m2),
    ensures
        forall|i: int, j: int|
            0 <= i < 4 && 0 <= j < 4 ==> #[trigger] ent(r, i, j) == mul_ent(*m1, *m2, i, j),
{
    let m: [[i64; 4]; 4] = [
        [div_floor(m1.m[0][0] * m2.m[0][0] + m1.m[0][1] * m2.m[1][0] + m1.m[0][2] * m2.m[2][0] + m1.m[0][3] * m2.m[3][0], ONE), div_floor(m1.m[0][0] * m2.m[0][1] + m1.m[0][1] * m2.m[1][1] + m1.m[0][2] * m2.m[2][1] + m1.m[0][3] * m2.m[3][1], ONE), div_floor(m1.m[0][0] * m2.m[0][2] + m1.m[0][1] * m2.m[1][2] + m1.m[0][2] * m2.m[2][2] + m1.m[0][3] * m2.m[3][2], ONE), div_floor(m1.m[0][0] * m2.m[0][3] + m1.m[0][1] * m2.m[1][3] + m1.m[0][2] * m2.m[2][3] + m1.m[0][3] * m2.m[3][3], ONE)],
        [div_floor(m1.m[1][0] * m2.m[0][0] + m1.m[1][1] * m2.m[1][0] + m1.m[1][2] * m2.m[2][0] + m1.m[1][3] * m2.m[3][0], ONE), div_floor(m1.m[1][0] * m2.m[0][1] + m1.m[1][1] * m2.m[1][1] + m1.m[1][2] * m2.m[2][1] + m1.m[1][3] * m2.m[3][1], ONE), div_floor(m1.m[1][0] * m2.m[0][2] + m1.m[1][1] * m2.m[1][2] + m1.m[1][2] * m2.m[2][2] + m1.m[1][3] * m2.m[3][2], ONE), div_floor(m1.m[1][0] * m2.m[0][3] + m1.m[1][1] * m2.m[1][3] + m1.m[1][2] * m2.m[2][3] + m1.m[1][3] * m2.m[3][3], ONE)],
        [div_floor(m1.m[2][0] * m2.m[0][0] + m1.m[2][1] * m2.m[1][0] + m1.m[2][2] * m2.m[2][0] + m1.m[2][3] * m2.m[3][0], ONE), div_floor(m1.m[2][0] * m2.m[0][1] + m1.m[2][1] * m2.m[1][1] + m1.m[2][2] * m2.m[2][1] + m1.m[2][3] * m2.m[3][1], ONE), div_floor(m1.m[2][0] * m2.m[0][2] + m1.m[2][1] * m2.m[1][2] + m1.m[2][2] * m2.m[2][2] + m1.m[2][3] * m2.m[3][2], ONE), div_floor(m1.m[2][0] * m2.m[0][3] + m1.m[2][1] * m2.m[1][3] + m1.m[2][2] * m2.m[2][3] + m1.m[2][3] * m2.m[3][3], ONE)],
        [div_floor(m1.m[3][0] * m2.m[0][0] + m1.m[3][1] * m2.m[1][0] + m1.m[3][2] * m2.m[2][0] + m1.m[3][3] * m2.m[3][0], ONE), div_floor(m1.m[3][0] * m2.m[0][1] + m1.m[3][1] * m2.m[1][1] + m1.m[3][2] * m2.m[2][1] + m1.m[3][3] * m2.m[3][1], ONE), div_floor(m1.m[3][0] * m2.m[0][2] + m1.m[3][1] * m2.m[1][2] + m1.m[3][2] * m2.m[2][2] + m1.m[3][3] * m2.m[3][2], ONE), div_floor(m1.m[3][0] * m2.m[0][3] + m1.m[3][1] * m2.m[1][3] + m1.m[3][2] * m2.m[2][3] + m1.m[3][3] * m2.m[3][3], ONE)],
    ];
    Matrix4x4 { m }
}


/// The product of `m1` with the homogeneous column `(v.x, v.y, v.z, 1)`,
/// returned as the four components of the resulting column.
pub fn matrix_vector_multiply(m1: &Matrix4x4, v: &Vector3) -> (r: [i64; 4])
    requires
        mvm_fits(*m1, *v),
    ensures
        r[0] == mvm_ent(*m1, *v, 0),
        r[1] == mvm_ent(*m1, *v, 1),
        r[2] == mvm_ent(*m1, *v, 2),
        r[3] == mvm_ent(*m1, *v, 3),
{
    [
        div_floor(m1.m[0][0] * v.x + m1.m[0][1] * v.y + m1.m[0][2] * v.z + m1.m[0][3] * ONE, ONE),
        div_floor(m1.m[1][0] * v.x + m1.m[1][1] * v.y + m1.m[1][2] * v.z + m1.m[1][3] * ONE, ONE),
        div_floor(m1.m[2][0] * v.x + m1.m[2][1] * v.y + m1.m[2][2] * v.z + m1.m[2][3] * ONE, ONE),
        div_floor(m1.m[3][0] * v.x + m1.m[3][1] * v.y + m1.m[3][2] * v.z + m1.m[3][3] * ONE, ONE)
    ]
}


/// The identity transform: raw one on the diagonal, zero elsewhere.
pub fn identity_matrix() -> (r: Matrix4x4)
    ensures
        forall|i: int, j: int|
            0 <= i < 4 && 0 <= j < 4 ==> #[trigger] ent(r, i, j) == identity_ent(i, j),
{
    let m: [[i64; 4]; 4] = [
        [ONE, 0, 0, 0],
        [0, ONE, 0, 0],
        [0, 0, ONE, 0],
        [0, 0, 0, ONE],
    ];
    Matrix4x4 { m }
}


/// The entry of the rotation matrix about the x axis, built from the raw
/// sine and cosine of the angle.
pub open spec fn x_rotation_ent(sin_r: int, cos_r: int, i: int, j: int) -> int {
    if (i == 0 && j == 0) || (i == 3 && j == 3) {
        ONE as int
    } else if i == 1 && j == 1 {
        cos_r
    } else if i == 1 && j == 2 {
        -sin_r
    } else if i == 2 && j == 1 {
        sin_r
    } else if i == 2 && j == 2 {
        cos_r
    } else {
        0
    }
}

/// The entry of the rotation matrix about the y axis.
pub open spec fn y_rotation_ent(sin_r: int, cos_r: int, i: int, j: int) -> int {
    if (i == 1 && j == 1) || (i == 3 && j == 3) {
        ONE as int
    } else if i == 0 && j == 0 {
        cos_r
    } else if i == 0 && j == 2 {
        sin_r
    } else if i == 2 && j == 0 {
        -sin_r
    } else if i == 2 && j == 2 {
        cos_r
    } else {
        0
    }
}

/// The entry of the rotation matrix about the z axis.
pub open spec fn z_rotation_ent(sin_r: int, cos_r: int, i: int, j: int) -> int {
    if (i == 2 && j == 2) || (i == 3 && j == 3) {
        ONE as int
    } else if i == 0 && j == 0 {
        cos_r
    } else if i == 0 && j == 1 {
        -sin_r
    } else if i == 1 && j == 0 {
        sin_r
    } else if i == 1 && j == 1 {
        cos_r
    } else {
        0
    }
}

/// The right-handed rotation about the x axis, from the raw sine and
/// cosine of the angle, which the host's trigonometry supplies.
pub fn x_rotation_matrix(sin_r: i64, cos_r: i64) -> (r: Matrix4x4)
    requires
        sin_r > i64::MIN,
    ensures
        forall|i: int, j: int|
            0 <= i < 4 && 0 <= j < 4 ==> #[trigger] ent(r, i, j) == x_rotation_ent(
                sin_r as int,
                cos_r as int,
                i,
                j,
            ),
{
    let m: [[i64; 4]; 4] = [
        [ONE, 0, 0, 0],
        [0, cos_r, -sin_r, 0],
        [0, sin_r, cos_r, 0],
        [0, 0, 0, ONE],
    ];
    Matrix4x4 { m }
}

/// The right-handed rotation about the y axis, from the raw sine and
/// cosine of the angle.
pub fn y_rotation_matrix(sin_r: i64, cos_r: i64) -> (r: Matrix4x4)
    requires
        sin_r > i64::MIN,
    ensures
        forall|i: int, j: int|
            0 <= i < 4 && 0 <= j < 4 ==> #[trigger] ent(r, i, j) == y_rotation_ent(
                sin_r as int,
                cos_r as int,
                i,
                j,
            ),
{
    let m: [[i64; 4]; 4] = [
        [cos_r, 0, sin_r, 0],
        [0, ONE, 0, 0],
        [-sin_r, 0, cos_r, 0],
        [0, 0, 0, ONE],
    ];
    Matrix4x4 { m }
}

/// The right-handed rotation about the z axis, from the raw sine and
/// cosine of the angle.
pub fn z_rotation_matrix(sin_r: i64, cos_r: i64) -> (r: Matrix4x4)
    requires
        sin_r > i64::MIN,
    ensures
        forall|i: int, j: int|
            0 <= i < 4 && 0 <= j < 4 ==> #[trigger] ent(r, i, j) == z_rotation_ent(
                sin_r as int,
                cos_r as int,
                i,
                j,
            ),
{
    let m: [[i64; 4]; 4] = [
        [cos_r, -sin_r, 0, 0],
        [sin_r, cos_r, 0, 0],
        [0, 0, ONE, 0],
        [0, 0, 0, ONE],
    ];
    Matrix4x4 { m }
}

/// The entry of the scale matrix with factors `x`, `y`, `z`.
pub open spec fn scale_ent(x: int, y: int, z: int, i: int, j: int) -> int {
    if i == 0 && j == 0 {
        x
    } else if i == 1 && j == 1 {
        y
    } else if i == 2 && j == 2 {
        z
    } else if i == 3 && j == 3 {
        ONE as int
    } else {
        0
    }
}

/// The entry of the translation matrix with offsets `x`, `y`, `z`.
pub open spec fn translation_ent(x: int, y: int, z: int, i: int, j: int) -> int {
    if i == 0 && j == 3 {
        x
    } else if i == 1 && j == 3 {
        y
    } else if i == 2 && j == 3 {
        z
    } else if i == 3 && j == 3 {
        ONE as int
    } else {
        0
    }
}

/// The non-uniform scale transform with the given diagonal factors.
pub fn scale_matrix(x: i64, y: i64, z: i64) -> (r: Matrix4x4)
    ensures
        forall|i: int, j: int|
            0 <= i < 4 && 0 <= j < 4 ==> #[trigger] ent(r, i, j) == scale_ent(
                x as int,
                y as int,
                z as int,
                i,
                j,
            ),
{
    let m: [[i64; 4]; 4] = [
        [x, 0, 0, 0],
        [0, y, 0, 0],
        [0, 0, z, 0],
        [0, 0, 0, ONE],
    ];
    Matrix4x4 { m }
}

/// A matrix holding the offsets `x`, `y`, `z` in its last column and raw
/// one in its lower-right corner.  Its diagonal is otherwise zero, so it
/// is not a standard affine translation matrix: applied to a homogeneous
/// column it yields `(x, y, z, 1)` regardless of the input point.
pub fn translation_matrix(x: i64, y: i64, z: i64) -> (r: Matrix4x4)
    ensures
        forall|i: int, j: int|
            0 <= i < 4 && 0 <= j < 4 ==> #[trigger] ent(r, i, j) == translation_ent(
                x as int,
                y as int,
                z as int,
                i,
                j,
            ),
{
    let m: [[i64; 4]; 4] = [
        [0, 0, 0, x],
        [0, 0, 0, y],
        [0, 0, 0, z],
        [0, 0, 0, ONE],
    ];
    Matrix4x4 { m }
}

/// Scaling a sum of matrices by the scalar one equals the sum of the two
/// matrices each scaled by one, entry for entry, exactly.
pub proof fn lemma_scale_one_over_add(a: Matrix4x4, b: Matrix4x4)
    ensures
        forall|i: int, j: int|
            0 <= i < 4 && 0 <= j < 4 ==> fx_mul(#[trigger] add_ent(a, b, i, j), ONE as int)
                == fx_mul(ent(a, i, j), ONE as int) + fx_mul(ent(b, i, j), ONE as int),
{
    assert forall|i: int, j: int| 0 <= i < 4 && 0 <= j < 4 implies fx_mul(
        #[trigger] add_ent(a, b, i, j),
        ONE as int,
    ) == fx_mul(ent(a, i, j), ONE as int) + fx_mul(ent(b, i, j), ONE as int) by {
        crate::fixed::lemma_fx_mul_one(add_ent(a, b, i, j));
        crate::fixed::lemma_fx_mul_one(ent(a, i, j));
        crate::fixed::lemma_fx_mul_one(ent(b, i, j));
    }
}

/// Adding a matrix and then subtracting it again returns the first
/// matrix, entry for entry, exactly.
pub proof fn lemma_add_then_subtract(a: Matrix4x4, b: Matrix4x4)
    ensures
        forall|i: int, j: int|
            0 <= i < 4 && 0 <= j < 4 ==> #[trigger] add_ent(a, b, i, j) - ent(b, i, j) == ent(
                a,
                i,
                j,
            ),
{
}

/// Multiplying any matrix by the identity on the left returns that
/// matrix, entry for entry, exactly.
pub proof fn lemma_identity_multiply_left(id: Matrix4x4, a: Matrix4x4)
    requires
        forall|i: int, j: int|
            0 <= i < 4 && 0 <= j < 4 ==> #[trigger] ent(id, i, j) == identity_ent(i, j),
    ensures
        forall|i: int, j: int|
            0 <= i < 4 && 0 <= j < 4 ==> #[trigger] mul_ent(id, a, i, j) == ent(a, i, j),
{
    assert forall|i: int, j: int| 0 <= i < 4 && 0 <= j < 4 implies #[trigger] mul_ent(id, a, i, j)
        == ent(a, i, j) by {
        assert(ent(id, i, 0) == identity_ent(i, 0));
        assert(ent(id, i, 1) == identity_ent(i, 1));
        assert(ent(id, i, 2) == identity_ent(i, 2));
        assert(ent(id, i, 3) == identity_ent(i, 3));
        crate::fixed::lemma_fx_mul_one(ent(a, i, j));
        assert(ent(a, i, j) * (ONE as int) == (ONE as int) * ent(a, i, j)) by (nonlinear_arith);
    }
}

} // verus!
