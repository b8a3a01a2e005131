//! The viewpoint the scene is projected from.

use vstd::prelude::*;
use crate::vector3::Vector3;

verus! {

/// A camera: a position and rotation in world space, horizontal and
/// vertical field of view in fixed-point degrees, and the near and far
/// plane distances.  The rotation is tracked but not applied by the
/// projection, a documented limitation of this pipeline.
#[derive(Copy, Clone, Debug)]
pub struct Camera {
    pub position: Vector3,
    pub rotation: Vector3,
    pub h_fov: i64,
    pub v_fov: i64,
    pub z_near: i64,
    pub z_far: i64,
}

impl Camera {
    /// A camera from its parts.  The near plane must sit strictly between
    /// zero and the far plane.
    pub fn new(
        position: Vector3,
        rotation: Vector3,
        h_fov: i64,
        v_fov: i64,
        z_near: i64,
        z_far: i64,
    ) -> (c: Self)
        requires
            0 < z_near < z_far,
        ensures
            c == (Camera { position, rotation, h_fov, v_fov, z_near, z_far }),
    {
        Self { position, rotation, h_fov, v_fov, z_near, z_far }
    }

    /// Moves the camera by the given deltas, exactly.
    pub fn translate(&mut self, x: i64, y: i64, z: i64)
        requires
            i64::MIN <= old(self).position.x + x <= i64::MAX,
            i64::MIN <= old(self).position.y + y <= i64::MAX,
            i64::MIN <= old(self).position.z + z <= i64::MAX,
        ensures
            final(self).position.x == old(self).position.x + x,
            final(self).position.y == old(self).position.y + y,
            final(self).position.z == old(self).position.z + z,
            final(self).rotation == old(self).rotation,
            final(self).h_fov == old(self).h_fov,
            final(self).v_fov == old(self).v_fov,
            final(self).z_near == old(self).z_near,
            final(self).z_far == old(self).z_far,
    {
        self.position.translate(x, y, z);
    }

    /// Turns the camera by the given angle deltas, exactly.  The angles
    /// accumulate; the projection does not yet read them.
    pub fn rotate(&mut self, x: i64, y: i64, z: i64)
        requires
            i64::MIN <= old(self).rotation.x + x <= i64::MAX,
            i64::MIN <= old(self).rotation.y + y <= i64::MAX,
            i64::MIN <= old(self).rotation.z + z <= i64::MAX,
        ensures
            final(self).rotation.x == old(self).rotation.x + x,
            final(self).rotation.y == old(self).rotation.y + y,
            final(self).rotation.z == old(self).rotation.z + z,
            final(self).position == old(self).position,
            final(self).h_fov == old(self).h_fov,
            final(self).v_fov == old(self).v_fov,
            final(self).z_near == old(self).z_near,
            final(self).z_far == old(self).z_far,
    {
        self.rotation.translate(x, y, z);
    }
}

} // verus!
