//! The camera: where the eye is, how it is turned, and what it can see.
use crate::data_types::Plane;
use crate::fixed::{fx, Fixed, SCALE};
use crate::mat4::{identity_spec, Mat4x4};
use crate::math::{sqrt_f, sqrt_raw};
use crate::vec3::Vec3;
use vstd::prelude::*;

verus! {

/// The eye of a scene. Its five planes bound what it sees: near, left, right,
/// top and bottom, in that order.
#[derive(Clone, Copy, Debug)]
pub struct Camera {
    pub pos: Vec3,
    pub orientation: Mat4x4,
    pub clipping_planes: [Plane; 5],
}

/// The five planes of a symmetric pyramid with its apex at the eye, for the
/// slope constant `s2`: the near plane at depth one, and four side planes
/// through the eye.
pub open spec fn clipping_planes_spec(s2: Fixed) -> [Plane; 5] {
    let z = fx(0);
    let one = fx(SCALE as int);
    let neg = fx(-s2@);
    [
        Plane { normal: Vec3 { x: z, y: z, z: one }, dist: fx(-(SCALE as int)) },
        Plane { normal: Vec3 { x: s2, y: z, z: s2 }, dist: z },
        Plane { normal: Vec3 { x: neg, y: z, z: s2 }, dist: z },
        Plane { normal: Vec3 { x: z, y: neg, z: s2 }, dist: z },
        Plane { normal: Vec3 { x: z, y: s2, z: s2 }, dist: z },
    ]
}

/// The camera at `pos`, turned by `orientation`, with its five planes.
pub open spec fn camera_spec(pos: Vec3, orientation: Mat4x4) -> Camera {
    Camera { pos, orientation, clipping_planes: clipping_planes_spec(slope_constant()) }
}

/// The slope constant of the camera's side planes: the square root of two.
pub open spec fn slope_constant() -> Fixed {
    fx(sqrt_raw(2 * SCALE))
}

/// Builds the five planes for the slope constant `s2`.
pub fn clipping_planes(s2: Fixed) -> (planes: [Plane; 5])
    ensures
        planes == clipping_planes_spec(s2),
{
    let z = Fixed::zero();
    let planes = [
        Plane::new(Vec3::new(z, z, Fixed::one()), Fixed::one().neg()),
        Plane::new(Vec3::new(s2, z, s2), z),
        Plane::new(Vec3::new(s2.neg(), z, s2), z),
        Plane::new(Vec3::new(z, s2.neg(), s2), z),
        Plane::new(Vec3::new(z, s2, s2), z),
    ];
    assert(planes =~= clipping_planes_spec(s2));
    planes
}

impl Camera {
    /// A camera at `pos`, turned by `orientation`.
    pub fn new(pos: Vec3, orientation: Mat4x4) -> (cam: Self)
        ensures
            cam == camera_spec(pos, orientation),
    {
        let s2 = sqrt_f(Fixed::from_int(2));
        Self { pos, orientation, clipping_planes: clipping_planes(s2) }
    }

    /// A camera at the origin that is not turned.
    pub fn default() -> (cam: Self)
        ensures
            cam == camera_spec(Vec3 { x: fx(0), y: fx(0), z: fx(0) }, identity_spec()),
    {
        let z = Fixed::zero();
        Camera::new(Vec3::new(z, z, z), Mat4x4::identity())
    }
}

} // verus!
