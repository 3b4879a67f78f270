//! Three- and four-component vectors of fixed-point numbers.
use crate::fixed::{fx, prod, wide_prod, Fixed};
use vstd::prelude::*;

verus! {

/// A position or direction in model, world or camera space.
#[derive(Clone, Copy, Debug)]
pub struct Vec3 {
    pub x: Fixed,
    pub y: Fixed,
    pub z: Fixed,
}

/// The place of an instance.
pub type Position = Vec3;

/// A homogeneous position: what a 4x4 transform takes and gives.
#[derive(Clone, Copy, Debug)]
pub struct Vec4 {
    pub x: Fixed,
    pub y: Fixed,
    pub z: Fixed,
    pub w: Fixed,
}

/// The sum of the three rounded products, before clamping.
pub open spec fn dot3_wide(u: Vec3, v: Vec3) -> int {
    prod(u.x@, v.x@) + prod(u.y@, v.y@) + prod(u.z@, v.z@)
}

/// The sum of the four rounded products, before clamping.
pub open spec fn dot4_wide(u: Vec4, v: Vec4) -> int {
    prod(u.x@, v.x@) + prod(u.y@, v.y@) + prod(u.z@, v.z@) + prod(u.w@, v.w@)
}

/// The dot product: each product is rounded, the sum is clamped once.
pub open spec fn dot_spec(u: Vec3, v: Vec3) -> Fixed {
    fx(dot3_wide(u, v))
}

/// The dot product of two homogeneous vectors.
pub open spec fn dot4_spec(u: Vec4, v: Vec4) -> Fixed {
    fx(dot4_wide(u, v))
}

/// The cross product: each product is rounded, each difference clamped once.
pub open spec fn cross_spec(u: Vec3, v: Vec3) -> Vec3 {
    Vec3 {
        x: fx(prod(u.y@, v.z@) - prod(u.z@, v.y@)),
        y: fx(prod(u.z@, v.x@) - prod(u.x@, v.z@)),
        z: fx(prod(u.x@, v.y@) - prod(u.y@, v.x@)),
    }
}

/// The componentwise sum.
pub open spec fn sum_spec(u: Vec3, v: Vec3) -> Vec3 {
    Vec3 { x: fx(u.x@ + v.x@), y: fx(u.y@ + v.y@), z: fx(u.z@ + v.z@) }
}

/// The componentwise difference.
pub open spec fn diff_spec(u: Vec3, v: Vec3) -> Vec3 {
    Vec3 { x: fx(u.x@ - v.x@), y: fx(u.y@ - v.y@), z: fx(u.z@ - v.z@) }
}

/// The vector with every component multiplied by `s`.
pub open spec fn scaled_spec(u: Vec3, s: Fixed) -> Vec3 {
    Vec3 { x: fx(prod(u.x@, s@)), y: fx(prod(u.y@, s@)), z: fx(prod(u.z@, s@)) }
}

/// The vector with every component negated.
pub open spec fn neg_spec(u: Vec3) -> Vec3 {
    Vec3 { x: fx(-u.x@), y: fx(-u.y@), z: fx(-u.z@) }
}

/// The first three components of a homogeneous vector.
pub open spec fn truncate_spec(v: Vec4) -> Vec3 {
    Vec3 { x: v.x, y: v.y, z: v.z }
}

/// The homogeneous position of a point: its fourth component is one.
pub open spec fn point_spec(v: Vec3) -> Vec4 {
    Vec4 { x: v.x, y: v.y, z: v.z, w: fx(crate::fixed::SCALE as int) }
}

impl Vec3 {
    /// The vector with the given components.
    pub fn new(x: Fixed, y: Fixed, z: Fixed) -> (r: Self)
        ensures
            r == (Vec3 { x, y, z }),
    {
        Self { x, y, z }
    }

    /// Subtracts `other` from `self`, component by component.
    pub fn sub(&mut self, other: &Self)
        ensures
            *final(self) == diff_spec(*old(self), *other),
    {
        self.x = self.x.sub(other.x);
        self.y = self.y.sub(other.y);
        self.z = self.z.sub(other.z);
    }

    /// Adds `other` to `self`, component by component.
    pub fn add(&mut self, other: &Self)
        ensures
            *final(self) == sum_spec(*old(self), *other),
    {
        self.x = self.x.add(other.x);
        self.y = self.y.add(other.y);
        self.z = self.z.add(other.z);
    }

    /// Multiplies `self` by `other`, component by component.
    pub fn mul(&mut self, other: &Self)
        ensures
            *final(self) == (Vec3 {
                x: fx(prod(old(self).x@, other.x@)),
                y: fx(prod(old(self).y@, other.y@)),
                z: fx(prod(old(self).z@, other.z@)),
            }),
    {
        self.x = self.x.mul(other.x);
        self.y = self.y.mul(other.y);
        self.z = self.z.mul(other.z);
    }

    /// Multiplies every component of `self` by `scalar`.
    pub fn scale(&mut self, scalar: Fixed)
        ensures
            *final(self) == scaled_spec(*old(self), scalar),
    {
        self.x = self.x.mul(scalar);
        self.y = self.y.mul(scalar);
        self.z = self.z.mul(scalar);
    }

    /// The dot product of `self` with itself.
    pub fn length_squared(&self) -> (r: Fixed)
        ensures
            r == dot_spec(*self, *self),
    {
        dot(self, self)
    }

    /// The sum `self + other` as a new vector.
    pub fn plus(self, other: Self) -> (r: Self)
        ensures
            r == sum_spec(self, other),
    {
        let mut r = self;
        r.add(&other);
        r
    }

    /// The difference `self - other` as a new vector.
    pub fn minus(self, other: Self) -> (r: Self)
        ensures
            r == diff_spec(self, other),
    {
        let mut r = self;
        r.sub(&other);
        r
    }

    /// The vector `self` scaled by `scalar`, as a new vector.
    pub fn times(self, scalar: Fixed) -> (r: Self)
        ensures
            r == scaled_spec(self, scalar),
    {
        let mut r = self;
        r.scale(scalar);
        r
    }
}

impl Vec4 {
    /// The vector with the given components.
    pub fn new(x: Fixed, y: Fixed, z: Fixed, w: Fixed) -> (r: Self)
        ensures
            r == (Vec4 { x, y, z, w }),
    {
        Self { x, y, z, w }
    }

    /// The homogeneous position of the point `v`.
    pub fn from_point(v: Vec3) -> (r: Self)
        ensures
            r == point_spec(v),
    {
        Self { x: v.x, y: v.y, z: v.z, w: Fixed::one() }
    }

    /// Drops the fourth component.
    pub fn truncate(self) -> (r: Vec3)
        ensures
            r == truncate_spec(self),
    {
        Vec3 { x: self.x, y: self.y, z: self.z }
    }

    /// The dot product with `other`.
    pub fn dot(self, other: Vec4) -> (r: Fixed)
        ensures
            r == dot4_spec(self, other),
    {
        let s: i128 = wide_prod(self.x.raw, other.x.raw) + wide_prod(self.y.raw, other.y.raw)
            + wide_prod(self.z.raw, other.z.raw) + wide_prod(self.w.raw, other.w.raw);
        Fixed::from_wide(s)
    }
}

/// The vector `u` negated.
pub fn neg(u: &Vec3) -> (r: Vec3)
    ensures
        r == neg_spec(*u),
{
    Vec3::new(u.x.neg(), u.y.neg(), u.z.neg())
}

/// The dot product of `u` and `v`.
pub fn dot(u: &Vec3, v: &Vec3) -> (r: Fixed)
    ensures
        r == dot_spec(*u, *v),
{
    let s: i128 = wide_prod(u.x.raw, v.x.raw) + wide_prod(u.y.raw, v.y.raw) + wide_prod(
        u.z.raw,
        v.z.raw,
    );
    Fixed::from_wide(s)
}

/// The cross product of `u` and `v`.
pub fn cross(u: &Vec3, v: &Vec3) -> (r: Vec3)
    ensures
        r == cross_spec(*u, *v),
{
    Vec3::new(
        Fixed::from_wide(wide_prod(u.y.raw, v.z.raw) - wide_prod(u.z.raw, v.y.raw)),
        Fixed::from_wide(wide_prod(u.z.raw, v.x.raw) - wide_prod(u.x.raw, v.z.raw)),
        Fixed::from_wide(wide_prod(u.x.raw, v.y.raw) - wide_prod(u.y.raw, v.x.raw)),
    )
}

} // verus!
