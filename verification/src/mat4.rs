//! 4x4 matrices of fixed-point numbers, held by columns.
use crate::fixed::Fixed;
use crate::vec3::{dot4_spec, Vec4};
use vstd::prelude::*;

verus! {

/// A 4x4 matrix. Each field is one column; a transform maps the column vector
/// `v` to the matrix times `v`.
#[derive(Clone, Copy, Debug)]
pub struct Mat4x4 {
    pub x_axis: Vec4,
    pub y_axis: Vec4,
    pub z_axis: Vec4,
    pub w_axis: Vec4,
}

/// The matrix whose columns are the rows of `m`.
pub open spec fn transpose_spec(m: Mat4x4) -> Mat4x4 {
    Mat4x4 {
        x_axis: Vec4 { x: m.x_axis.x, y: m.y_axis.x, z: m.z_axis.x, w: m.w_axis.x },
        y_axis: Vec4 { x: m.x_axis.y, y: m.y_axis.y, z: m.z_axis.y, w: m.w_axis.y },
        z_axis: Vec4 { x: m.x_axis.z, y: m.y_axis.z, z: m.z_axis.z, w: m.w_axis.z },
        w_axis: Vec4 { x: m.x_axis.w, y: m.y_axis.w, z: m.z_axis.w, w: m.w_axis.w },
    }
}

/// The matrix times the column vector `v`: each component is the dot product
/// of one row with `v`.
pub open spec fn mul_mv_spec(m: Mat4x4, v: Vec4) -> Vec4 {
    let t = transpose_spec(m);
    Vec4 {
        x: dot4_spec(t.x_axis, v),
        y: dot4_spec(t.y_axis, v),
        z: dot4_spec(t.z_axis, v),
        w: dot4_spec(t.w_axis, v),
    }
}

/// The matrix product `a * b`: each column is `a` times a column of `b`.
pub open spec fn mul_mm_spec(a: Mat4x4, b: Mat4x4) -> Mat4x4 {
    Mat4x4 {
        x_axis: mul_mv_spec(a, b.x_axis),
        y_axis: mul_mv_spec(a, b.y_axis),
        z_axis: mul_mv_spec(a, b.z_axis),
        w_axis: mul_mv_spec(a, b.w_axis),
    }
}

/// The identity matrix.
pub open spec fn identity_spec() -> Mat4x4 {
    let o = crate::fixed::fx(crate::fixed::SCALE as int);
    let z = crate::fixed::fx(0);
    Mat4x4 {
        x_axis: Vec4 { x: o, y: z, z: z, w: z },
        y_axis: Vec4 { x: z, y: o, z: z, w: z },
        z_axis: Vec4 { x: z, y: z, z: o, w: z },
        w_axis: Vec4 { x: z, y: z, z: z, w: o },
    }
}

impl Mat4x4 {
    /// The matrix with the given columns.
    pub fn from_cols(x_axis: Vec4, y_axis: Vec4, z_axis: Vec4, w_axis: Vec4) -> (r: Self)
        ensures
            r == (Mat4x4 { x_axis, y_axis, z_axis, w_axis }),
    {
        Self { x_axis, y_axis, z_axis, w_axis }
    }

    /// The identity matrix.
    pub fn identity() -> (r: Self)
        ensures
            r == identity_spec(),
    {
        let o = Fixed::one();
        let z = Fixed::zero();
        Self {
            x_axis: Vec4::new(o, z, z, z),
            y_axis: Vec4::new(z, o, z, z),
            z_axis: Vec4::new(z, z, o, z),
            w_axis: Vec4::new(z, z, z, o),
        }
    }

    /// The transposed matrix.
    pub fn transpose(&self) -> (r: Self)
        ensures
            r == transpose_spec(*self),
    {
        Self {
            x_axis: Vec4::new(self.x_axis.x, self.y_axis.x, self.z_axis.x, self.w_axis.x),
            y_axis: Vec4::new(self.x_axis.y, self.y_axis.y, self.z_axis.y, self.w_axis.y),
            z_axis: Vec4::new(self.x_axis.z, self.y_axis.z, self.z_axis.z, self.w_axis.z),
            w_axis: Vec4::new(self.x_axis.w, self.y_axis.w, self.z_axis.w, self.w_axis.w),
        }
    }

    /// The matrix times the column vector `v`.
    pub fn mul_vec4(&self, v: Vec4) -> (r: Vec4)
        ensures
            r == mul_mv_spec(*self, v),
    {
        let t = self.transpose();
        Vec4::new(t.x_axis.dot(v), t.y_axis.dot(v), t.z_axis.dot(v), t.w_axis.dot(v))
    }

    /// The matrix product `self * other`.
    pub fn mul_mat4(&self, other: &Self) -> (r: Self)
        ensures
            r == mul_mm_spec(*self, *other),
    {
        Self {
            x_axis: self.mul_vec4(other.x_axis),
            y_axis: self.mul_vec4(other.y_axis),
            z_axis: self.mul_vec4(other.z_axis),
            w_axis: self.mul_vec4(other.w_axis),
        }
    }
}

} // verus!
