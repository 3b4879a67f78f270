//! What holds of the pipeline as a whole.
//!
//! Each proof function here states a law over the same specification
//! functions that the contracts of the library use.
use crate::camera::Camera;
use crate::color::{mul_color_spec, Color24};
use crate::context::GlobalCtx;
use crate::fixed::{
    clamp, lemma_prod_error, lemma_trunc_div_error, prod, quot, Fixed, INFINITY_RAW, SCALE,
};
use crate::mat4::{mul_mm_spec, mul_mv_spec, transpose_spec, Mat4x4};
use crate::clipping::{
    kept_pred, sphere_rejected, transformed_vertices, triangle_inside, triangle_kept,
};
use crate::data_types::{InstanceView, Triangle};
use crate::fixed::{fx, whole};
use crate::render::{
    back_facing_spec, camera_view_matrix_spec, combined_transform_spec, depth_after, depth_cell,
    depth_hit, draw_line_spec, edge_interpolate_spec, sides_of, magnitude, outline_shade, outline_spec, sorted_corners,
    fill_rows, fill_span, is_closer, line_index, pixel_at, plot_run, plot_spec,
    projected_spec, render_instance_spec, render_scene_spec, render_triangle_spec,
    render_triangles_spec, rgba_of, scan_depths, triangle_sides, Frame, Sides,
};
use crate::utils::{interpolate_spec, project_vertex_spec, slope_spec};
use crate::vec3::{dot4_wide, point_spec, truncate_spec, Vec3, Vec4};
use vstd::prelude::*;

verus! {

/// The magnitude of a raw value.
pub open spec fn magnitude_of(a: int) -> int {
    if a < 0 {
        -a
    } else {
        a
    }
}

/// The sum of the magnitudes of the four components.
pub open spec fn norm1(v: Vec4) -> int {
    magnitude_of(v.x@) + magnitude_of(v.y@) + magnitude_of(v.z@) + magnitude_of(v.w@)
}

/// Whether a raw value is representable without clamping.
pub open spec fn fits(v: int) -> bool {
    i64::MIN <= v <= i64::MAX
}

/// Whether no component of the matrix times the vector is clamped.
pub open spec fn mul_mv_fits(m: Mat4x4, v: Vec4) -> bool {
    let t = transpose_spec(m);
    &&& fits(dot4_wide(t.x_axis, v))
    &&& fits(dot4_wide(t.y_axis, v))
    &&& fits(dot4_wide(t.z_axis, v))
    &&& fits(dot4_wide(t.w_axis, v))
}

/// Whether no entry of the matrix product is clamped.
pub open spec fn mul_mm_fits(a: Mat4x4, b: Mat4x4) -> bool {
    &&& mul_mv_fits(a, b.x_axis)
    &&& mul_mv_fits(a, b.y_axis)
    &&& mul_mv_fits(a, b.z_axis)
    &&& mul_mv_fits(a, b.w_axis)
}

/// A row `r` applied to the product of `b` and `v`, the product of `r` and
/// `b` being formed first: the sum over the columns of `b` of the row times
/// the column, times the component of `v`.
pub open spec fn row_after_product(r: Vec4, b: Mat4x4, v: Vec4) -> int {
    prod(dot4_wide(r, b.x_axis), v.x@) + prod(dot4_wide(r, b.y_axis), v.y@) + prod(
        dot4_wide(r, b.z_axis),
        v.z@,
    ) + prod(dot4_wide(r, b.w_axis), v.w@)
}

/// A row `r` applied to the product of `b` and `v`, the product of `b` and
/// `v` being formed first.
pub open spec fn row_after_vector(r: Vec4, b: Mat4x4, v: Vec4) -> int {
    let t = transpose_spec(b);
    prod(r.x@, dot4_wide(t.x_axis, v)) + prod(r.y@, dot4_wide(t.y_axis, v)) + prod(
        r.z@,
        dot4_wide(t.z_axis, v),
    ) + prod(r.w@, dot4_wide(t.w_axis, v))
}

/// Multiplication is associative.
proof fn lemma_mul_assoc(a: int, b: int, c: int)
    by (nonlinear_arith)
    ensures
        (a * b) * c == a * (b * c),
{
}

/// The first two factors of a product of three change places.
proof fn lemma_mul_swap(a: int, b: int, c: int)
    by (nonlinear_arith)
    ensures
        a * (b * c) == b * (a * c),
{
}

/// Multiplication is commutative.
proof fn lemma_mul_comm(a: int, b: int)
    by (nonlinear_arith)
    ensures
        a * b == b * a,
{
}

/// A sum of two times a factor.
proof fn lemma_mul_dist2(a: int, b: int, v: int)
    by (nonlinear_arith)
    ensures
        (a + b) * v == a * v + b * v,
{
}

/// A factor times a sum of two.
proof fn lemma_mul_dist2_left(r: int, a: int, b: int)
    by (nonlinear_arith)
    ensures
        r * (a + b) == r * a + r * b,
{
}

/// A sum of four times a factor.
proof fn lemma_mul_dist4(a: int, b: int, c: int, d: int, v: int)
    by (nonlinear_arith)
    ensures
        (a + b + c + d) * v == a * v + b * v + c * v + d * v,
{
}

/// A factor times a sum of four.
proof fn lemma_mul_dist4_left(r: int, a: int, b: int, c: int, d: int)
    by (nonlinear_arith)
    ensures
        r * (a + b + c + d) == r * a + r * b + r * c + r * d,
{
}

/// A bounded value times a factor is bounded by the bound times the
/// magnitude of the factor.
proof fn lemma_mul_bound(e: int, v: int, bound: int)
    by (nonlinear_arith)
    requires
        -bound < e < bound,
    ensures
        -(bound * magnitude_of(v)) <= e * v <= bound * magnitude_of(v),
{
}

/// The two orders of applying one row differ by the rounding of the products
/// alone: by at most eight units of `2^-32`, plus four for each whole unit in
/// the magnitudes of the vector and of the row.
proof fn lemma_row_composition(r: Vec4, b: Mat4x4, v: Vec4)
    ensures
        SCALE * magnitude_of(row_after_product(r, b, v) - row_after_vector(r, b, v)) <= 8 * SCALE + 4
            * (norm1(v) + norm1(r)),
{
    let s = SCALE as int;
    let r0 = r.x@;
    let r1 = r.y@;
    let r2 = r.z@;
    let r3 = r.w@;
    let c00 = b.x_axis.x@;
    let c01 = b.x_axis.y@;
    let c02 = b.x_axis.z@;
    let c03 = b.x_axis.w@;
    let c10 = b.y_axis.x@;
    let c11 = b.y_axis.y@;
    let c12 = b.y_axis.z@;
    let c13 = b.y_axis.w@;
    let c20 = b.z_axis.x@;
    let c21 = b.z_axis.y@;
    let c22 = b.z_axis.z@;
    let c23 = b.z_axis.w@;
    let c30 = b.w_axis.x@;
    let c31 = b.w_axis.y@;
    let c32 = b.w_axis.z@;
    let c33 = b.w_axis.w@;
    let v0 = v.x@;
    let v1 = v.y@;
    let v2 = v.z@;
    let v3 = v.w@;
    let m0 = prod(r0, c00) + prod(r1, c01) + prod(r2, c02) + prod(r3, c03);
    let m1 = prod(r0, c10) + prod(r1, c11) + prod(r2, c12) + prod(r3, c13);
    let m2 = prod(r0, c20) + prod(r1, c21) + prod(r2, c22) + prod(r3, c23);
    let m3 = prod(r0, c30) + prod(r1, c31) + prod(r2, c32) + prod(r3, c33);
    let u0 = prod(c00, v0) + prod(c10, v1) + prod(c20, v2) + prod(c30, v3);
    let u1 = prod(c01, v0) + prod(c11, v1) + prod(c21, v2) + prod(c31, v3);
    let u2 = prod(c02, v0) + prod(c12, v1) + prod(c22, v2) + prod(c32, v3);
    let u3 = prod(c03, v0) + prod(c13, v1) + prod(c23, v2) + prod(c33, v3);
    let l = prod(m0, v0) + prod(m1, v1) + prod(m2, v2) + prod(m3, v3);
    let rr = prod(r0, u0) + prod(r1, u1) + prod(r2, u2) + prod(r3, u3);
    assert(l == row_after_product(r, b, v));
    assert(rr == row_after_vector(r, b, v));
    lemma_prod_error(r0, c00);
    lemma_prod_error(c00, v0);
    lemma_prod_error(r1, c01);
    lemma_prod_error(c01, v0);
    lemma_prod_error(r2, c02);
    lemma_prod_error(c02, v0);
    lemma_prod_error(r3, c03);
    lemma_prod_error(c03, v0);
    lemma_prod_error(r0, c10);
    lemma_prod_error(c10, v1);
    lemma_prod_error(r1, c11);
    lemma_prod_error(c11, v1);
    lemma_prod_error(r2, c12);
    lemma_prod_error(c12, v1);
    lemma_prod_error(r3, c13);
    lemma_prod_error(c13, v1);
    lemma_prod_error(r0, c20);
    lemma_prod_error(c20, v2);
    lemma_prod_error(r1, c21);
    lemma_prod_error(c21, v2);
    lemma_prod_error(r2, c22);
    lemma_prod_error(c22, v2);
    lemma_prod_error(r3, c23);
    lemma_prod_error(c23, v2);
    lemma_prod_error(r0, c30);
    lemma_prod_error(c30, v3);
    lemma_prod_error(r1, c31);
    lemma_prod_error(c31, v3);
    lemma_prod_error(r2, c32);
    lemma_prod_error(c32, v3);
    lemma_prod_error(r3, c33);
    lemma_prod_error(c33, v3);
    lemma_prod_error(m0, v0);
    lemma_prod_error(m1, v1);
    lemma_prod_error(m2, v2);
    lemma_prod_error(m3, v3);
    lemma_prod_error(r0, u0);
    lemma_prod_error(r1, u1);
    lemma_prod_error(r2, u2);
    lemma_prod_error(r3, u3);
    let a0 = r0 * c00 + r1 * c01 + r2 * c02 + r3 * c03;
    let e0 = s * m0 - a0;
    assert(-4 * s < e0 < 4 * s);
    let a1 = r0 * c10 + r1 * c11 + r2 * c12 + r3 * c13;
    let e1 = s * m1 - a1;
    assert(-4 * s < e1 < 4 * s);
    let a2 = r0 * c20 + r1 * c21 + r2 * c22 + r3 * c23;
    let e2 = s * m2 - a2;
    assert(-4 * s < e2 < 4 * s);
    let a3 = r0 * c30 + r1 * c31 + r2 * c32 + r3 * c33;
    let e3 = s * m3 - a3;
    assert(-4 * s < e3 < 4 * s);
    let b0 = c00 * v0 + c10 * v1 + c20 * v2 + c30 * v3;
    let h0 = s * u0 - b0;
    assert(-4 * s < h0 < 4 * s);
    let b1 = c01 * v0 + c11 * v1 + c21 * v2 + c31 * v3;
    let h1 = s * u1 - b1;
    assert(-4 * s < h1 < 4 * s);
    let b2 = c02 * v0 + c12 * v1 + c22 * v2 + c32 * v3;
    let h2 = s * u2 - b2;
    assert(-4 * s < h2 < 4 * s);
    let b3 = c03 * v0 + c13 * v1 + c23 * v2 + c33 * v3;
    let h3 = s * u3 - b3;
    assert(-4 * s < h3 < 4 * s);
    let g = s * l - (m0 * v0 + m1 * v1 + m2 * v2 + m3 * v3);
    assert(-4 * s < g < 4 * s);
    let q = s * rr - (r0 * u0 + r1 * u1 + r2 * u2 + r3 * u3);
    assert(-4 * s < q < 4 * s);
    assert(s * (m0 * v0) == (r0 * c00) * v0 + (r1 * c01) * v0 + (r2 * c02) * v0 + (r3 * c03) * v0 + e0 * v0) by {
        lemma_mul_assoc(s, m0, v0);
        lemma_mul_dist2(a0, e0, v0);
        lemma_mul_dist4(r0 * c00, r1 * c01, r2 * c02, r3 * c03, v0);
    }
    lemma_mul_bound(e0, v0, 4 * s);
    assert(s * (m1 * v1) == (r0 * c10) * v1 + (r1 * c11) * v1 + (r2 * c12) * v1 + (r3 * c13) * v1 + e1 * v1) by {
        lemma_mul_assoc(s, m1, v1);
        lemma_mul_dist2(a1, e1, v1);
        lemma_mul_dist4(r0 * c10, r1 * c11, r2 * c12, r3 * c13, v1);
    }
    lemma_mul_bound(e1, v1, 4 * s);
    assert(s * (m2 * v2) == (r0 * c20) * v2 + (r1 * c21) * v2 + (r2 * c22) * v2 + (r3 * c23) * v2 + e2 * v2) by {
        lemma_mul_assoc(s, m2, v2);
        lemma_mul_dist2(a2, e2, v2);
        lemma_mul_dist4(r0 * c20, r1 * c21, r2 * c22, r3 * c23, v2);
    }
    lemma_mul_bound(e2, v2, 4 * s);
    assert(s * (m3 * v3) == (r0 * c30) * v3 + (r1 * c31) * v3 + (r2 * c32) * v3 + (r3 * c33) * v3 + e3 * v3) by {
        lemma_mul_assoc(s, m3, v3);
        lemma_mul_dist2(a3, e3, v3);
        lemma_mul_dist4(r0 * c30, r1 * c31, r2 * c32, r3 * c33, v3);
    }
    lemma_mul_bound(e3, v3, 4 * s);
    assert(s * (r0 * u0) == (r0 * c00) * v0 + (r0 * c10) * v1 + (r0 * c20) * v2 + (r0 * c30) * v3 + r0 * h0) by {
        lemma_mul_swap(s, r0, u0);
        lemma_mul_dist2_left(r0, b0, h0);
        lemma_mul_dist4_left(r0, c00 * v0, c10 * v1, c20 * v2, c30 * v3);
        lemma_mul_assoc(r0, c00, v0);
        lemma_mul_assoc(r0, c10, v1);
        lemma_mul_assoc(r0, c20, v2);
        lemma_mul_assoc(r0, c30, v3);
    }
    lemma_mul_bound(h0, r0, 4 * s);
    lemma_mul_comm(h0, r0);
    assert(s * (r1 * u1) == (r1 * c01) * v0 + (r1 * c11) * v1 + (r1 * c21) * v2 + (r1 * c31) * v3 + r1 * h1) by {
        lemma_mul_swap(s, r1, u1);
        lemma_mul_dist2_left(r1, b1, h1);
        lemma_mul_dist4_left(r1, c01 * v0, c11 * v1, c21 * v2, c31 * v3);
        lemma_mul_assoc(r1, c01, v0);
        lemma_mul_assoc(r1, c11, v1);
        lemma_mul_assoc(r1, c21, v2);
        lemma_mul_assoc(r1, c31, v3);
    }
    lemma_mul_bound(h1, r1, 4 * s);
    lemma_mul_comm(h1, r1);
    assert(s * (r2 * u2) == (r2 * c02) * v0 + (r2 * c12) * v1 + (r2 * c22) * v2 + (r2 * c32) * v3 + r2 * h2) by {
        lemma_mul_swap(s, r2, u2);
        lemma_mul_dist2_left(r2, b2, h2);
        lemma_mul_dist4_left(r2, c02 * v0, c12 * v1, c22 * v2, c32 * v3);
        lemma_mul_assoc(r2, c02, v0);
        lemma_mul_assoc(r2, c12, v1);
        lemma_mul_assoc(r2, c22, v2);
        lemma_mul_assoc(r2, c32, v3);
    }
    lemma_mul_bound(h2, r2, 4 * s);
    lemma_mul_comm(h2, r2);
    assert(s * (r3 * u3) == (r3 * c03) * v0 + (r3 * c13) * v1 + (r3 * c23) * v2 + (r3 * c33) * v3 + r3 * h3) by {
        lemma_mul_swap(s, r3, u3);
        lemma_mul_dist2_left(r3, b3, h3);
        lemma_mul_dist4_left(r3, c03 * v0, c13 * v1, c23 * v2, c33 * v3);
        lemma_mul_assoc(r3, c03, v0);
        lemma_mul_assoc(r3, c13, v1);
        lemma_mul_assoc(r3, c23, v2);
        lemma_mul_assoc(r3, c33, v3);
    }
    lemma_mul_bound(h3, r3, 4 * s);
    lemma_mul_comm(h3, r3);
    let total = (r0 * c00) * v0 + (r1 * c01) * v0 + (r2 * c02) * v0 + (r3 * c03) * v0 + (r0 * c10) * v1 + (r1 * c11) * v1 + (r2 * c12) * v1 + (r3 * c13) * v1 + (r0 * c20) * v2 + (r1 * c21) * v2 + (r2 * c22) * v2 + (r3 * c23) * v2 + (r0 * c30) * v3 + (r1 * c31) * v3 + (r2 * c32) * v3 + (r3 * c33) * v3;
    let ev = e0 * v0 + e1 * v1 + e2 * v2 + e3 * v3;
    let rh = r0 * h0 + r1 * h1 + r2 * h2 + r3 * h3;
    assert(s * (s * l) == total + ev + s * g);
    assert(s * (s * rr) == total + rh + s * q);
    assert(-(4 * s * norm1(v)) <= ev <= 4 * s * norm1(v));
    assert(-(4 * s * norm1(r)) <= rh <= 4 * s * norm1(r));
    assert(s * (s * (l - rr)) == ev - rh + s * g - s * q);
}

/// When no entry of the product of `a` and `b` and no component of `b`
/// times `v` is clamped, each component of either result is the clamped value
/// of its row applied in that order.
proof fn lemma_rows(a: Mat4x4, b: Mat4x4, v: Vec4)
    requires
        mul_mm_fits(a, b),
        mul_mv_fits(b, v),
    ensures
        ({
            let l = mul_mv_spec(mul_mm_spec(a, b), v);
            let r = mul_mv_spec(a, mul_mv_spec(b, v));
            let t = transpose_spec(a);
            &&& l.x@ == clamp(row_after_product(t.x_axis, b, v))
            &&& l.y@ == clamp(row_after_product(t.y_axis, b, v))
            &&& l.z@ == clamp(row_after_product(t.z_axis, b, v))
            &&& l.w@ == clamp(row_after_product(t.w_axis, b, v))
            &&& r.x@ == clamp(row_after_vector(t.x_axis, b, v))
            &&& r.y@ == clamp(row_after_vector(t.y_axis, b, v))
            &&& r.z@ == clamp(row_after_vector(t.z_axis, b, v))
            &&& r.w@ == clamp(row_after_vector(t.w_axis, b, v))
        }),
{
}

/// Clamping brings two values no further apart.
proof fn lemma_clamp_close(p: int, q: int)
    ensures
        magnitude_of(clamp(p) - clamp(q)) <= magnitude_of(p - q),
{
}

/// Transform composition: applying the product of two matrices to a vector,
/// and applying the second matrix and then the first, give the same vector up
/// to rounding. As long as no entry of the product and no component of the
/// second matrix times the vector is clamped, each component differs by at
/// most eight units of `2^-32`, plus four such units for each whole unit in
/// the sum of the magnitudes of the vector's components and of the entries in
/// the matching row of the first matrix. The two results themselves may be
/// clamped.
pub proof fn law_transform_composition(a: Mat4x4, b: Mat4x4, v: Vec4)
    requires
        mul_mm_fits(a, b),
        mul_mv_fits(b, v),
    ensures
        ({
            let l = mul_mv_spec(mul_mm_spec(a, b), v);
            let r = mul_mv_spec(a, mul_mv_spec(b, v));
            let t = transpose_spec(a);
            &&& SCALE * magnitude_of(l.x@ - r.x@) <= 8 * SCALE + 4 * (norm1(v) + norm1(t.x_axis))
            &&& SCALE * magnitude_of(l.y@ - r.y@) <= 8 * SCALE + 4 * (norm1(v) + norm1(t.y_axis))
            &&& SCALE * magnitude_of(l.z@ - r.z@) <= 8 * SCALE + 4 * (norm1(v) + norm1(t.z_axis))
            &&& SCALE * magnitude_of(l.w@ - r.w@) <= 8 * SCALE + 4 * (norm1(v) + norm1(t.w_axis))
        }),
{
    let t = transpose_spec(a);
    lemma_rows(a, b, v);
    lemma_row_composition(t.x_axis, b, v);
    lemma_row_composition(t.y_axis, b, v);
    lemma_row_composition(t.z_axis, b, v);
    lemma_row_composition(t.w_axis, b, v);
    lemma_clamp_close(row_after_product(t.x_axis, b, v), row_after_vector(t.x_axis, b, v));
    lemma_clamp_close(row_after_product(t.y_axis, b, v), row_after_vector(t.y_axis, b, v));
    lemma_clamp_close(row_after_product(t.z_axis, b, v), row_after_vector(t.z_axis, b, v));
    lemma_clamp_close(row_after_product(t.w_axis, b, v), row_after_vector(t.w_axis, b, v));
}

/// Transform composition for an instance and a camera: the combined transform
/// applied to a vertex, and the instance's transform followed by the camera's
/// view matrix, agree within the bound of [`law_transform_composition`].
pub proof fn law_combined_transform(cam: Camera, transform: Mat4x4, vertex: Vec3)
    requires
        mul_mm_fits(camera_view_matrix_spec(cam), transform),
        mul_mv_fits(transform, point_spec(vertex)),
    ensures
        ({
            let v = point_spec(vertex);
            let l = mul_mv_spec(combined_transform_spec(cam, transform), v);
            let r = mul_mv_spec(camera_view_matrix_spec(cam), mul_mv_spec(transform, v));
            let t = transpose_spec(camera_view_matrix_spec(cam));
            &&& SCALE * magnitude_of(l.x@ - r.x@) <= 8 * SCALE + 4 * (norm1(v) + norm1(t.x_axis))
            &&& SCALE * magnitude_of(l.y@ - r.y@) <= 8 * SCALE + 4 * (norm1(v) + norm1(t.y_axis))
            &&& SCALE * magnitude_of(l.z@ - r.z@) <= 8 * SCALE + 4 * (norm1(v) + norm1(t.z_axis))
            &&& SCALE * magnitude_of(l.w@ - r.w@) <= 8 * SCALE + 4 * (norm1(v) + norm1(t.w_axis))
        }),
{
    law_transform_composition(camera_view_matrix_spec(cam), transform, point_spec(vertex));
}

/// Depth ordering: of two fragments at one position, the closer one decides
/// the frame, whichever is drawn first. With `near` strictly closer than
/// `far`, drawing both in either order leaves the frame as drawing `near`
/// alone leaves it.
pub proof fn law_depth_ordering(
    f: Frame,
    ctx: GlobalCtx,
    x: int,
    y: int,
    near: Fixed,
    near_color: Color24,
    far: Fixed,
    far_color: Color24,
)
    requires
        far@ < near@ < INFINITY_RAW,
    ensures
        plot_spec(plot_spec(f, ctx, x, y, near, near_color), ctx, x, y, far, far_color)
            == plot_spec(f, ctx, x, y, near, near_color),
        plot_spec(plot_spec(f, ctx, x, y, far, far_color), ctx, x, y, near, near_color)
            == plot_spec(f, ctx, x, y, near, near_color),
{
    let only = plot_spec(f, ctx, x, y, near, near_color);
    let first = plot_spec(plot_spec(f, ctx, x, y, near, near_color), ctx, x, y, far, far_color);
    let second = plot_spec(plot_spec(f, ctx, x, y, far, far_color), ctx, x, y, near, near_color);
    assert(first.pixels =~= only.pixels);
    assert(first.depth =~= only.depth);
    assert(second.pixels =~= only.pixels);
    assert(second.depth =~= only.depth);
}

/// The depth buffer only moves closer: a cell that was written keeps its
/// value or takes a larger inverse depth, and every other cell is untouched.
pub proof fn law_depth_never_recedes(
    f: Frame,
    ctx: GlobalCtx,
    x: int,
    y: int,
    inv_z: Fixed,
    color: Color24,
    cell: int,
)
    requires
        0 <= cell < f.depth.len(),
        f.depth[cell]@ != INFINITY_RAW,
    ensures
        plot_spec(f, ctx, x, y, inv_z, color).depth.len() == f.depth.len(),
        plot_spec(f, ctx, x, y, inv_z, color).depth[cell]@ >= f.depth[cell]@,
{
}

/// Rounding a quotient loses less than one divisor.
pub proof fn lemma_quot_error(a: int, b: int)
    requires
        b != 0,
    ensures
        magnitude_of(quot(a, b) * b - a * SCALE) < magnitude_of(b),
{
    if b > 0 {
        lemma_trunc_div_error(a * SCALE, b);
    } else {
        lemma_trunc_div_error(-a * SCALE, -b);
        assert(quot(a, b) * b == -(quot(a, b) * (-b))) by (nonlinear_arith);
    }
}

/// One coordinate through the projection, over raw values: multiplied by the
/// viewport distance, divided by the depth, multiplied by the canvas extent
/// and divided by the viewport extent.
pub open spec fn projected_raw(x: int, z: int, dist: int, extent: int, view: int) -> int {
    quot(prod(quot(prod(x, dist), z), extent * SCALE), view)
}

/// Whether no step of the projection of one coordinate is clamped.
pub open spec fn projection_fits(x: int, z: int, dist: int, extent: int, view: int) -> bool {
    &&& fits(extent * SCALE)
    &&& fits(prod(x, dist))
    &&& fits(quot(prod(x, dist), z))
    &&& fits(prod(quot(prod(x, dist), z), extent * SCALE))
    &&& fits(projected_raw(x, z, dist, extent, view))
}

/// The round trip of one coordinate: the projected coordinate, multiplied
/// back by the viewport extent and the depth, is the coordinate times the
/// viewport distance and the canvas extent, up to the rounding of the three
/// steps that round.
proof fn lemma_round_trip(x: int, z: int, dist: int, extent: int, view: int)
    requires
        z != 0,
        view != 0,
        extent >= 0,
    ensures
        magnitude_of(projected_raw(x, z, dist, extent, view) * view * z - x * dist * (extent * SCALE))
            < (SCALE + magnitude_of(z)) * (extent * SCALE) + magnitude_of(view) * magnitude_of(z),
{
    let s = SCALE as int;
    let t1 = prod(x, dist);
    let t2 = quot(t1, z);
    let t3 = prod(t2, extent * s);
    let t4 = quot(t3, view);
    lemma_prod_error(x, dist);
    lemma_quot_error(t1, z);
    lemma_quot_error(t3, view);
    assert(t3 == t2 * extent) by {
        assert(t2 * (extent * s) == (t2 * extent) * s) by (nonlinear_arith);
        crate::fixed::lemma_trunc_div_exact(t2 * extent, s);
    }
    let e1 = t1 * s - x * dist;
    let e2 = t2 * z - t1 * s;
    let e4 = t4 * view - t3 * s;
    let w = extent * s;
    assert(t4 * view * z == (t4 * view) * z) by (nonlinear_arith);
    assert((t3 * s + e4) * z == t3 * s * z + e4 * z) by (nonlinear_arith);
    assert(t3 * s * z == (t2 * z) * w) by (nonlinear_arith)
        requires
            t3 == t2 * extent,
            w == extent * s,
    ;
    assert((t1 * s + e2) * w == t1 * s * w + e2 * w) by (nonlinear_arith);
    assert((x * dist + e1) * w == x * dist * w + e1 * w) by (nonlinear_arith);
    assert(t1 * s * w == (t1 * s) * w) by (nonlinear_arith);
    assert((e1 + e2) * w == e1 * w + e2 * w) by (nonlinear_arith);
    assert(t4 * view * z == t3 * s * z + e4 * z);
    assert((t2 * z) * w == t1 * s * w + e2 * w);
    assert((t1 * s) * w == x * dist * w + e1 * w);
    assert(t4 * view * z - x * dist * w == (e1 + e2) * w + e4 * z);
    assert(magnitude_of((e1 + e2) * w) <= (s + magnitude_of(z) - 1) * w) by (nonlinear_arith)
        requires
            -s < e1 < s,
            magnitude_of(e2) < magnitude_of(z),
            w >= 0,
    ;
    assert(magnitude_of(e4 * z) <= (magnitude_of(view) - 1) * magnitude_of(z)) by (nonlinear_arith)
        requires
            magnitude_of(e4) < magnitude_of(view),
    ;
    assert((s + magnitude_of(z) - 1) * w <= (s + magnitude_of(z)) * w) by (nonlinear_arith)
        requires
            w >= 0,
    ;
    assert((magnitude_of(view) - 1) * magnitude_of(z) < magnitude_of(view) * magnitude_of(z))
        by (nonlinear_arith)
        requires
            magnitude_of(z) > 0,
    ;
}

/// Round-trip projection: projecting a camera-space point keeps its ratios
/// `x / z` and `y / z`. As long as no step is clamped, the projected column
/// times the viewport width and the depth is `x` times the viewport distance
/// and the canvas width, up to the stated rounding; and likewise for the row.
/// Dividing both sides by depth, canvas width and viewport distance gives the
/// ratio back.
pub proof fn law_projection_round_trip(ctx: GlobalCtx, v: Vec4)
    requires
        v.z@ != 0,
        ctx.view_width@ != 0,
        ctx.view_height@ != 0,
        projection_fits(v.x@, v.z@, ctx.viewport_dist@, ctx.width as int, ctx.view_width@),
        projection_fits(v.y@, v.z@, ctx.viewport_dist@, ctx.height as int, ctx.view_height@),
    ensures
        ({
            let p = project_vertex_spec(ctx, v);
            &&& magnitude_of(
                p.x@ * ctx.view_width@ * v.z@ - v.x@ * ctx.viewport_dist@ * (ctx.width * SCALE),
            ) < (SCALE + magnitude_of(v.z@)) * (ctx.width * SCALE) + magnitude_of(ctx.view_width@)
                * magnitude_of(v.z@)
            &&& magnitude_of(
                p.y@ * ctx.view_height@ * v.z@ - v.y@ * ctx.viewport_dist@ * (ctx.height * SCALE),
            ) < (SCALE + magnitude_of(v.z@)) * (ctx.height * SCALE) + magnitude_of(
                ctx.view_height@,
            ) * magnitude_of(v.z@)
        }),
{
    let p = project_vertex_spec(ctx, v);
    assert(p.x@ == projected_raw(v.x@, v.z@, ctx.viewport_dist@, ctx.width as int, ctx.view_width@));
    assert(p.y@ == projected_raw(
        v.y@,
        v.z@,
        ctx.viewport_dist@,
        ctx.height as int,
        ctx.view_height@,
    ));
    lemma_round_trip(v.x@, v.z@, ctx.viewport_dist@, ctx.width as int, ctx.view_width@);
    lemma_round_trip(v.y@, v.z@, ctx.viewport_dist@, ctx.height as int, ctx.view_height@);
}

/// Whether two frames have the same size: of the image, of the pixel list and
/// of the depth buffer.
pub open spec fn same_shape(f: Frame, g: Frame) -> bool {
    &&& g.width == f.width
    &&& g.height == f.height
    &&& g.pixels.len() == f.pixels.len()
    &&& g.depth.len() == f.depth.len()
}

/// What a frame `g` holds at one position if, starting from the frame `f`,
/// one fragment or none was drawn there and nothing else touched the
/// position. With a fragment, the depth cell takes its inverse depth and the
/// pixel its colour if it passes the depth test against `f`; without one,
/// cell and pixel are as in `f`.
pub open spec fn position_effect(
    f: Frame,
    g: Frame,
    ctx: GlobalCtx,
    x: int,
    y: int,
    fragment: Option<Fixed>,
    color: Color24,
) -> bool {
    &&& depth_cell(ctx, f.depth.len() as int, x, y) matches Some(c) ==> g.depth[c] == (match fragment {
        Some(inv_z) => if is_closer(f.depth[c], inv_z) {
            inv_z
        } else {
            f.depth[c]
        },
        None => f.depth[c],
    })
    &&& pixel_at(f.width, f.height, f.pixels.len() as int, x, y) matches Some(i) ==> g.pixels[i]
        == (match fragment {
        Some(inv_z) => if depth_hit(ctx, f.depth, x, y, inv_z) {
            rgba_of(color)
        } else {
            f.pixels[i]
        },
        None => f.pixels[i],
    })
}

/// The fragment that a span of `n` fragments has at a position, if any.
pub open spec fn span_fragment(
    y: int,
    x_start: int,
    z_scan: Seq<Fixed>,
    n: nat,
    x: int,
    at_y: int,
) -> Option<Fixed> {
    if at_y == y && x_start <= x < x_start + n {
        Some(z_scan[x - x_start])
    } else {
        None
    }
}

/// The fragment that the first `n` scanlines of a triangle have at a
/// position, if any: the position lies on one of the scanlines, between the
/// whole parts of the left and the right side, and the fragment has the
/// inverse depth interpolated across the scanline.
pub open spec fn sides_fragment(s: Sides, n: nat, x: int, y: int) -> Option<Fixed> {
    let row = y - s.y_start;
    if 0 <= row < n {
        let z_scan = scan_depths(s.x_left, s.x_right, s.iz_left, s.iz_right, row);
        span_fragment(y, whole(s.x_left[row]@), z_scan, z_scan.len(), x, y)
    } else {
        None
    }
}

/// Two positions with the same depth cell are the same position.
proof fn lemma_cells_differ(ctx: GlobalCtx, len: int, x1: int, y1: int, x2: int, y2: int)
    requires
        depth_cell(ctx, len, x1, y1) is Some,
        depth_cell(ctx, len, x1, y1) == depth_cell(ctx, len, x2, y2),
    ensures
        x1 == x2,
        y1 == y2,
{
    let w = ctx.width as int;
    let a = ctx.height / 2 + y1;
    let b = ctx.height / 2 + y2;
    assert(a == b) by (nonlinear_arith)
        requires
            0 <= ctx.width / 2 + x1 < w,
            0 <= ctx.width / 2 + x2 < w,
            ctx.width / 2 + x1 + w * a == ctx.width / 2 + x2 + w * b,
    ;
}

/// Two positions with the same pixel are the same position.
proof fn lemma_pixels_differ(width: nat, height: nat, len: int, x1: int, y1: int, x2: int, y2: int)
    requires
        pixel_at(width, height, len, x1, y1) is Some,
        pixel_at(width, height, len, x1, y1) == pixel_at(width, height, len, x2, y2),
    ensures
        x1 == x2,
        y1 == y2,
{
    let w = width as int;
    let a = y1 + height / 2;
    let b = y2 + height / 2;
    assert(a == b) by (nonlinear_arith)
        requires
            0 <= x1 + width / 2 < w,
            0 <= x2 + width / 2 < w,
            a * w + (x1 + width / 2) == b * w + (x2 + width / 2),
    ;
}

/// One fragment changes the frame at its own position only, and there as
/// `position_effect` says.
proof fn lemma_plot_position(
    f: Frame,
    ctx: GlobalCtx,
    x: int,
    y: int,
    inv_z: Fixed,
    color: Color24,
    at_x: int,
    at_y: int,
)
    ensures
        same_shape(f, plot_spec(f, ctx, x, y, inv_z, color)),
        position_effect(
            f,
            plot_spec(f, ctx, x, y, inv_z, color),
            ctx,
            at_x,
            at_y,
            if at_x == x && at_y == y {
                Some(inv_z)
            } else {
                None
            },
            color,
        ),
{
    if !(at_x == x && at_y == y) {
        if depth_cell(ctx, f.depth.len() as int, at_x, at_y) is Some && depth_cell(
            ctx,
            f.depth.len() as int,
            at_x,
            at_y,
        ) == depth_cell(ctx, f.depth.len() as int, x, y) {
            lemma_cells_differ(ctx, f.depth.len() as int, at_x, at_y, x, y);
        }
        if pixel_at(f.width, f.height, f.pixels.len() as int, at_x, at_y) is Some && pixel_at(
            f.width,
            f.height,
            f.pixels.len() as int,
            at_x,
            at_y,
        ) == pixel_at(f.width, f.height, f.pixels.len() as int, x, y) {
            lemma_pixels_differ(f.width, f.height, f.pixels.len() as int, at_x, at_y, x, y);
        }
    }
}

/// A span, position by position: after the first `n` fragments of a span,
/// every position holds what its own fragment, tested against the frame from
/// before the span, leaves there, and positions outside the span are
/// untouched.
pub proof fn law_span_positions(
    f: Frame,
    ctx: GlobalCtx,
    y: int,
    x_start: int,
    z_scan: Seq<Fixed>,
    color: Color24,
    n: nat,
    at_x: int,
    at_y: int,
)
    ensures
        same_shape(f, fill_span(f, ctx, y, x_start, z_scan, color, n)),
        position_effect(
            f,
            fill_span(f, ctx, y, x_start, z_scan, color, n),
            ctx,
            at_x,
            at_y,
            span_fragment(y, x_start, z_scan, n, at_x, at_y),
            color,
        ),
    decreases n,
{
    if n > 0 {
        let h = fill_span(f, ctx, y, x_start, z_scan, color, (n - 1) as nat);
        let x = x_start + n - 1;
        let inv_z = z_scan[n - 1];
        law_span_positions(f, ctx, y, x_start, z_scan, color, (n - 1) as nat, at_x, at_y);
        law_span_positions(f, ctx, y, x_start, z_scan, color, (n - 1) as nat, x, y);
        lemma_plot_position(h, ctx, x, y, inv_z, color, at_x, at_y);
    }
}

/// A filled triangle, position by position: after the first `n` scanlines,
/// every position holds what its own fragment, tested against the frame from
/// before the triangle, leaves there, and positions outside the triangle are
/// untouched.
pub proof fn law_rows_positions(
    f: Frame,
    ctx: GlobalCtx,
    s: Sides,
    color: Color24,
    n: nat,
    at_x: int,
    at_y: int,
)
    ensures
        same_shape(
            f,
            fill_rows(f, ctx, s.y_start, s.x_left, s.x_right, s.iz_left, s.iz_right, color, n),
        ),
        position_effect(
            f,
            fill_rows(f, ctx, s.y_start, s.x_left, s.x_right, s.iz_left, s.iz_right, color, n),
            ctx,
            at_x,
            at_y,
            sides_fragment(s, n, at_x, at_y),
            color,
        ),
    decreases n,
{
    if n > 0 {
        let k = n - 1;
        let h = fill_rows(
            f,
            ctx,
            s.y_start,
            s.x_left,
            s.x_right,
            s.iz_left,
            s.iz_right,
            color,
            k as nat,
        );
        let z_scan = scan_depths(s.x_left, s.x_right, s.iz_left, s.iz_right, k);
        law_rows_positions(f, ctx, s, color, k as nat, at_x, at_y);
        law_span_positions(
            h,
            ctx,
            s.y_start + k,
            whole(s.x_left[k]@),
            z_scan,
            color,
            z_scan.len(),
            at_x,
            at_y,
        );
    }
}

/// Scan fill: a triangle that faces the eye, drawn without outline, changes
/// the frame exactly at the positions between its sides. Each such position
/// gets one fragment, with the inverse depth interpolated across its
/// scanline; the fragment is tested against the frame from before the
/// triangle, and where it passes, the depth cell takes its inverse depth and
/// the pixel the colour of the triangle. Every other position is untouched.
pub proof fn law_scan_fill(
    f: Frame,
    ctx: GlobalCtx,
    t: Triangle,
    verts: Seq<Vec3>,
    projected: Seq<Vec3>,
    at_x: int,
    at_y: int,
)
    requires
        !ctx.draw_outline,
        !back_facing_spec(verts[t.ind[0] as int], verts[t.ind[1] as int], verts[t.ind[2] as int]),
    ensures
        same_shape(f, render_triangle_spec(f, ctx, t, verts, projected)),
        position_effect(
            f,
            render_triangle_spec(f, ctx, t, verts, projected),
            ctx,
            at_x,
            at_y,
            sides_fragment(
                triangle_sides(t, verts, projected),
                triangle_sides(t, verts, projected).x_left.len(),
                at_x,
                at_y,
            ),
            t.color,
        ),
{
    reveal(render_triangle_spec);
    let s = triangle_sides(t, verts, projected);
    law_rows_positions(f, ctx, s, t.color, s.x_left.len(), at_x, at_y);
}

/// A triangle that faces away from the eye changes nothing.
pub proof fn law_back_face_culled(
    f: Frame,
    ctx: GlobalCtx,
    t: Triangle,
    verts: Seq<Vec3>,
    projected: Seq<Vec3>,
)
    requires
        back_facing_spec(verts[t.ind[0] as int], verts[t.ind[1] as int], verts[t.ind[2] as int]),
    ensures
        render_triangle_spec(f, ctx, t, verts, projected) == f,
{
    reveal(render_triangle_spec);
}

/// The pixel that step `k` of a line sets, if the image has it.
pub open spec fn run_pixel(
    width: nat,
    height: nat,
    len: int,
    sideways: bool,
    start: int,
    origin: Fixed,
    vals: Seq<Fixed>,
    k: int,
) -> Option<int> {
    let along = start + k;
    let across = whole(vals[line_index(along, origin)]@);
    if sideways {
        pixel_at(width, height, len, along, across)
    } else {
        pixel_at(width, height, len, across, along)
    }
}

/// A line, pixel by pixel: after the first `n` steps of a line, a pixel has
/// the colour of the line if one of the steps set it, and is untouched
/// otherwise.
pub proof fn law_line_pixels(
    pixels: Seq<(u8, u8, u8, u8)>,
    width: nat,
    height: nat,
    sideways: bool,
    start: int,
    origin: Fixed,
    vals: Seq<Fixed>,
    color: Color24,
    n: nat,
    i: int,
)
    requires
        0 <= i < pixels.len(),
    ensures
        plot_run(pixels, width, height, sideways, start, origin, vals, color, n).len()
            == pixels.len(),
        plot_run(pixels, width, height, sideways, start, origin, vals, color, n)[i] == (if exists|
            k: int,
        |
            0 <= k < n && #[trigger] run_pixel(
                width,
                height,
                pixels.len() as int,
                sideways,
                start,
                origin,
                vals,
                k,
            ) == Some(i) {
            rgba_of(color)
        } else {
            pixels[i]
        }),
    decreases n,
{
    if n > 0 {
        law_line_pixels(pixels, width, height, sideways, start, origin, vals, color, (n - 1) as nat, i);
        let len = pixels.len() as int;
        let last = run_pixel(width, height, len, sideways, start, origin, vals, n - 1);
        if last == Some(i) {
        } else {
            if exists|k: int|
                0 <= k < n && #[trigger] run_pixel(
                    width,
                    height,
                    len,
                    sideways,
                    start,
                    origin,
                    vals,
                    k,
                ) == Some(i) {
                let k = choose|k: int|
                    0 <= k < n && #[trigger] run_pixel(
                        width,
                        height,
                        len,
                        sideways,
                        start,
                        origin,
                        vals,
                        k,
                    ) == Some(i);
                assert(k < n - 1);
            }
        }
    }
}

/// Frustum rejection: an instance whose bounding sphere is rejected by a
/// plane of the camera draws nothing.
pub proof fn law_frustum_rejection(f: Frame, ctx: GlobalCtx, cam: Camera, inst: InstanceView)
    requires
        sphere_rejected(
            cam.clipping_planes@,
            truncate_spec(
                mul_mv_spec(combined_transform_spec(cam, inst.transform), inst.model.bounds_center),
            ),
            inst.model.bounds_radius,
        ),
    ensures
        render_instance_spec(f, ctx, cam, inst) == f,
{
}

/// Nothing from triangles that are cut off: an instance draws nothing if,
/// for one plane of the camera, each of its triangles has a vertex that is
/// not strictly inside the plane. So it is, in particular, when the whole
/// model lies behind the near plane.
pub proof fn law_clipped_away(f: Frame, ctx: GlobalCtx, cam: Camera, inst: InstanceView, plane: int)
    requires
        0 <= plane < cam.clipping_planes@.len(),
        forall|i: int|
            0 <= i < inst.model.triangles.len() ==> !triangle_inside(
                #[trigger] inst.model.triangles[i],
                cam.clipping_planes@[plane],
                transformed_vertices(
                    combined_transform_spec(cam, inst.transform),
                    inst.model.verticies,
                ),
            ),
    ensures
        render_instance_spec(f, ctx, cam, inst) == f,
{
    let planes = cam.clipping_planes@;
    let verts = transformed_vertices(
        combined_transform_spec(cam, inst.transform),
        inst.model.verticies,
    );
    let kept = kept_pred(planes, planes.len() as int, verts);
    let tris = inst.model.triangles.filter(kept);
    if tris.len() > 0 {
        let t = tris[0];
        inst.model.triangles.lemma_filter_pred(kept, 0);
        assert(tris.contains(t));
        inst.model.triangles.lemma_filter_contains_rev(kept, t);
        let i = choose|i: int| 0 <= i < inst.model.triangles.len() && inst.model.triangles[i] == t;
        assert(!triangle_inside(inst.model.triangles[i], planes[plane], verts));
        assert(triangle_kept(t, planes, planes.len() as int, verts));
    }
}

/// Whether the pixel list and the depth buffer of a frame hold no more than
/// the image and the canvas have positions for.
pub open spec fn within_canvas(f: Frame, ctx: GlobalCtx) -> bool {
    &&& f.pixels.len() <= f.width * f.height
    &&& f.depth.len() <= ctx.width * ctx.height
}

/// Whether the fragments of two triangles can be told apart by depth: no
/// fragment is infinitely close, and where both triangles have a fragment,
/// the two inverse depths differ.
pub open spec fn depths_differ(a: Sides, b: Sides) -> bool {
    forall|x: int, y: int|
        {
            let fa = #[trigger] sides_fragment(a, a.x_left.len(), x, y);
            let fb = sides_fragment(b, b.x_left.len(), x, y);
            &&& fa matches Some(za) ==> za@ != INFINITY_RAW
            &&& fb matches Some(zb) ==> zb@ != INFINITY_RAW
            &&& fa matches Some(za) ==> (fb matches Some(zb) ==> za@ != zb@)
        }
}

/// Every pixel of a frame within its image is the pixel of a position.
proof fn lemma_pixel_position(width: nat, height: nat, len: int, i: int)
    requires
        0 <= i < len <= width * height,
    ensures
        width > 0,
        pixel_at(width, height, len, i % (width as int) - width / 2, i / (width as int) - height / 2)
            == Some(i),
{
    let w = width as int;
    assert(w > 0) by (nonlinear_arith)
        requires
            0 < width * height,
            w == width,
    ;
    vstd::arithmetic::div_mod::lemma_fundamental_div_mod(i, w);
    vstd::arithmetic::div_mod::lemma_mod_bound(i, w);
    vstd::arithmetic::div_mod::lemma_div_pos_is_pos(i, w);
    assert(i / w < height) by (nonlinear_arith)
        requires
            i < w * height,
            w > 0,
            i == w * (i / w) + i % w,
            0 <= i % w,
    ;
    assert((i / w) * w == w * (i / w)) by (nonlinear_arith);
}

/// Every cell of a depth buffer within its canvas is the cell of a position.
proof fn lemma_cell_position(ctx: GlobalCtx, len: int, c: int)
    requires
        0 <= c < len <= ctx.width * ctx.height,
    ensures
        ctx.width > 0,
        depth_cell(
            ctx,
            len,
            c % (ctx.width as int) - ctx.width / 2,
            c / (ctx.width as int) - ctx.height / 2,
        ) == Some(c),
{
    let w = ctx.width as int;
    assert(w > 0) by (nonlinear_arith)
        requires
            0 < ctx.width * ctx.height,
            w == ctx.width,
    ;
    vstd::arithmetic::div_mod::lemma_fundamental_div_mod(c, w);
    vstd::arithmetic::div_mod::lemma_mod_bound(c, w);
    vstd::arithmetic::div_mod::lemma_div_pos_is_pos(c, w);
    assert(c / w < ctx.height) by (nonlinear_arith)
        requires
            c < w * ctx.height,
            w > 0,
            c == w * (c / w) + c % w,
            0 <= c % w,
    ;
}

/// Two fills at one position come out the same in either order.
proof fn lemma_fill_order_at(
    f: Frame,
    ctx: GlobalCtx,
    a: Sides,
    a_color: Color24,
    b: Sides,
    b_color: Color24,
    x: int,
    y: int,
)
    requires
        depths_differ(a, b),
    ensures
        ({
            let fa = fill_rows(
                f,
                ctx,
                a.y_start,
                a.x_left,
                a.x_right,
                a.iz_left,
                a.iz_right,
                a_color,
                a.x_left.len(),
            );
            let fab = fill_rows(
                fa,
                ctx,
                b.y_start,
                b.x_left,
                b.x_right,
                b.iz_left,
                b.iz_right,
                b_color,
                b.x_left.len(),
            );
            let fb = fill_rows(
                f,
                ctx,
                b.y_start,
                b.x_left,
                b.x_right,
                b.iz_left,
                b.iz_right,
                b_color,
                b.x_left.len(),
            );
            let fba = fill_rows(
                fb,
                ctx,
                a.y_start,
                a.x_left,
                a.x_right,
                a.iz_left,
                a.iz_right,
                a_color,
                a.x_left.len(),
            );
            &&& same_shape(f, fab)
            &&& same_shape(f, fba)
            &&& depth_cell(ctx, f.depth.len() as int, x, y) matches Some(c) ==> fab.depth[c]
                == fba.depth[c]
            &&& pixel_at(f.width, f.height, f.pixels.len() as int, x, y) matches Some(i)
                ==> fab.pixels[i] == fba.pixels[i]
        }),
{
    let fa = fill_rows(
        f,
        ctx,
        a.y_start,
        a.x_left,
        a.x_right,
        a.iz_left,
        a.iz_right,
        a_color,
        a.x_left.len(),
    );
    let fb = fill_rows(
        f,
        ctx,
        b.y_start,
        b.x_left,
        b.x_right,
        b.iz_left,
        b.iz_right,
        b_color,
        b.x_left.len(),
    );
    law_rows_positions(f, ctx, a, a_color, a.x_left.len(), x, y);
    law_rows_positions(fa, ctx, b, b_color, b.x_left.len(), x, y);
    law_rows_positions(f, ctx, b, b_color, b.x_left.len(), x, y);
    law_rows_positions(fb, ctx, a, a_color, a.x_left.len(), x, y);
    let frag_a = sides_fragment(a, a.x_left.len(), x, y);
    let frag_b = sides_fragment(b, b.x_left.len(), x, y);
    assert(frag_a matches Some(za) ==> za@ != INFINITY_RAW);
    assert(frag_b matches Some(zb) ==> zb@ != INFINITY_RAW);
}

/// Order of filling: two triangles whose fragments can be told apart by
/// depth give the same frame whichever is filled first. At every position
/// the closer fragment decides depth and colour.
pub proof fn law_fill_order(
    f: Frame,
    ctx: GlobalCtx,
    a: Sides,
    a_color: Color24,
    b: Sides,
    b_color: Color24,
)
    requires
        within_canvas(f, ctx),
        depths_differ(a, b),
    ensures
        fill_rows(
            fill_rows(
                f,
                ctx,
                a.y_start,
                a.x_left,
                a.x_right,
                a.iz_left,
                a.iz_right,
                a_color,
                a.x_left.len(),
            ),
            ctx,
            b.y_start,
            b.x_left,
            b.x_right,
            b.iz_left,
            b.iz_right,
            b_color,
            b.x_left.len(),
        ) == fill_rows(
            fill_rows(
                f,
                ctx,
                b.y_start,
                b.x_left,
                b.x_right,
                b.iz_left,
                b.iz_right,
                b_color,
                b.x_left.len(),
            ),
            ctx,
            a.y_start,
            a.x_left,
            a.x_right,
            a.iz_left,
            a.iz_right,
            a_color,
            a.x_left.len(),
        ),
{
    let fa = fill_rows(
        f,
        ctx,
        a.y_start,
        a.x_left,
        a.x_right,
        a.iz_left,
        a.iz_right,
        a_color,
        a.x_left.len(),
    );
    let fab = fill_rows(
        fa,
        ctx,
        b.y_start,
        b.x_left,
        b.x_right,
        b.iz_left,
        b.iz_right,
        b_color,
        b.x_left.len(),
    );
    let fb = fill_rows(
        f,
        ctx,
        b.y_start,
        b.x_left,
        b.x_right,
        b.iz_left,
        b.iz_right,
        b_color,
        b.x_left.len(),
    );
    let fba = fill_rows(
        fb,
        ctx,
        a.y_start,
        a.x_left,
        a.x_right,
        a.iz_left,
        a.iz_right,
        a_color,
        a.x_left.len(),
    );
    lemma_fill_order_at(f, ctx, a, a_color, b, b_color, 0, 0);
    assert forall|i: int| 0 <= i < fab.pixels.len() implies fab.pixels[i] == fba.pixels[i] by {
        lemma_pixel_position(f.width, f.height, f.pixels.len() as int, i);
        let w = f.width as int;
        lemma_fill_order_at(
            f,
            ctx,
            a,
            a_color,
            b,
            b_color,
            i % w - f.width / 2,
            i / w - f.height / 2,
        );
    }
    assert forall|c: int| 0 <= c < fab.depth.len() implies fab.depth[c] == fba.depth[c] by {
        lemma_cell_position(ctx, f.depth.len() as int, c);
        let w = ctx.width as int;
        lemma_fill_order_at(
            f,
            ctx,
            a,
            a_color,
            b,
            b_color,
            c % w - ctx.width / 2,
            c / w - ctx.height / 2,
        );
    }
    assert(fab.pixels =~= fba.pixels);
    assert(fab.depth =~= fba.depth);
}

/// Depth ordering for triangles: two triangles drawn without outline, whose
/// fragments can be told apart by depth, give the same frame whichever is
/// drawn first; at every position where they overlap, the closer one shows.
pub proof fn law_triangle_order(
    f: Frame,
    ctx: GlobalCtx,
    a: Triangle,
    b: Triangle,
    verts: Seq<Vec3>,
    projected: Seq<Vec3>,
)
    requires
        !ctx.draw_outline,
        within_canvas(f, ctx),
        depths_differ(triangle_sides(a, verts, projected), triangle_sides(b, verts, projected)),
    ensures
        render_triangle_spec(render_triangle_spec(f, ctx, a, verts, projected), ctx, b, verts, projected)
            == render_triangle_spec(
            render_triangle_spec(f, ctx, b, verts, projected),
            ctx,
            a,
            verts,
            projected,
        ),
{
    reveal(render_triangle_spec);
    law_fill_order(
        f,
        ctx,
        triangle_sides(a, verts, projected),
        a.color,
        triangle_sides(b, verts, projected),
        b.color,
    );
}

/// One cell to a pixel: when the image has the size of the canvas and the
/// depth buffer has as many cells as the image has pixels, the cell of a
/// position is the pixel of that position, and a position has a cell exactly
/// if it lies on the canvas.
pub proof fn law_cell_is_pixel(f: Frame, ctx: GlobalCtx, x: int, y: int)
    requires
        f.width == ctx.width,
        f.height == ctx.height,
        f.pixels.len() == ctx.width * ctx.height,
        f.depth.len() == ctx.width * ctx.height,
    ensures
        depth_cell(ctx, f.depth.len() as int, x, y) == pixel_at(
            f.width,
            f.height,
            f.pixels.len() as int,
            x,
            y,
        ),
        depth_cell(ctx, f.depth.len() as int, x, y) is Some <==> (0 <= x + ctx.width / 2 < ctx.width
            && 0 <= y + ctx.height / 2 < ctx.height),
{
    let w = ctx.width as int;
    let h = ctx.height as int;
    let cx = x + ctx.width / 2;
    let cy = y + ctx.height / 2;
    assert(w * cy == cy * w) by (nonlinear_arith);
    if 0 <= cx < w && 0 <= cy < h {
        assert(cx + w * cy < w * h) by (nonlinear_arith)
            requires
                0 <= cx < w,
                0 <= cy < h,
        ;
    }
}

/// The depth test at a position of the canvas: with one cell to a pixel, a
/// fragment passes exactly if its position lies on the canvas and its cell
/// was never written or holds a smaller inverse depth. When it passes, its
/// cell takes its inverse depth and no other cell changes; when it fails, no
/// cell changes.
pub proof fn law_depth_test(ctx: GlobalCtx, depth: Seq<Fixed>, x: int, y: int, inv_z: Fixed)
    requires
        depth.len() == ctx.width * ctx.height,
    ensures
        ({
            let cx = x + ctx.width / 2;
            let cy = y + ctx.height / 2;
            let cell = cy * ctx.width + cx;
            let on_canvas = 0 <= cx < ctx.width && 0 <= cy < ctx.height;
            &&& on_canvas ==> 0 <= cell < depth.len()
            &&& depth_hit(ctx, depth, x, y, inv_z) <==> (on_canvas && is_closer(depth[cell], inv_z))
            &&& depth_hit(ctx, depth, x, y, inv_z) ==> depth_after(ctx, depth, x, y, inv_z)
                == depth.update(cell, inv_z)
            &&& !depth_hit(ctx, depth, x, y, inv_z) ==> depth_after(ctx, depth, x, y, inv_z)
                == depth
        }),
{
    let w = ctx.width as int;
    let h = ctx.height as int;
    let cx = x + ctx.width / 2;
    let cy = y + ctx.height / 2;
    assert(w * cy == cy * w) by (nonlinear_arith);
    if 0 <= cx < w && 0 <= cy < h {
        assert(0 <= cx + w * cy < w * h) by (nonlinear_arith)
            requires
                0 <= cx < w,
                0 <= cy < h,
        ;
    }
}

/// Whether a line runs mainly sideways: its ends differ more in their
/// columns than in their rows.
pub open spec fn line_sideways(p0: Vec3, p1: Vec3) -> bool {
    magnitude(fx(p1.x@ - p0.x@))@ > magnitude(fx(p1.y@ - p0.y@))@
}

/// The end of a line from which it is drawn: the one with the smaller
/// coordinate along the line's main axis.
pub open spec fn line_first(p0: Vec3, p1: Vec3) -> Vec3 {
    if line_sideways(p0, p1) {
        if p0.x@ > p1.x@ {
            p1
        } else {
            p0
        }
    } else {
        if p0.y@ > p1.y@ {
            p1
        } else {
            p0
        }
    }
}

/// The end of a line toward which it is drawn.
pub open spec fn line_last(p0: Vec3, p1: Vec3) -> Vec3 {
    if line_sideways(p0, p1) {
        if p0.x@ > p1.x@ {
            p0
        } else {
            p1
        }
    } else {
        if p0.y@ > p1.y@ {
            p0
        } else {
            p1
        }
    }
}

/// The coordinate of a point along the main axis of a line.
pub open spec fn along_axis(sideways: bool, p: Vec3) -> Fixed {
    if sideways {
        p.x
    } else {
        p.y
    }
}

/// The coordinate of a point across the main axis of a line.
pub open spec fn across_axis(sideways: bool, p: Vec3) -> Fixed {
    if sideways {
        p.y
    } else {
        p.x
    }
}

/// The interpolated values of a line: its coordinate across the main axis,
/// at each whole step along it.
pub open spec fn line_values(p0: Vec3, p1: Vec3) -> Seq<Fixed> {
    let s = line_sideways(p0, p1);
    let a = line_first(p0, p1);
    let b = line_last(p0, p1);
    interpolate_spec(along_axis(s, a), across_axis(s, a), along_axis(s, b), across_axis(s, b))
}

/// The pixel that step `k` of the line from `p0` to `p1` sets, if the image
/// has it.
pub open spec fn line_pixel(width: nat, height: nat, len: int, p0: Vec3, p1: Vec3, k: int) -> Option<
    int,
> {
    let s = line_sideways(p0, p1);
    let origin = along_axis(s, line_first(p0, p1));
    run_pixel(width, height, len, s, whole(origin@), origin, line_values(p0, p1), k)
}

/// Whether the line from `p0` to `p1` sets the pixel `i`: one of its steps
/// lands on it.
pub open spec fn line_sets(width: nat, height: nat, len: int, p0: Vec3, p1: Vec3, i: int) -> bool {
    exists|k: int|
        0 <= k < line_values(p0, p1).len() && #[trigger] line_pixel(width, height, len, p0, p1, k)
            == Some(i)
}

/// A drawn line, pixel by pixel: a pixel has the colour of the line if the
/// line sets it, and is untouched otherwise.
pub proof fn law_draw_line(
    pixels: Seq<(u8, u8, u8, u8)>,
    width: nat,
    height: nat,
    p0: Vec3,
    p1: Vec3,
    color: Color24,
    i: int,
)
    requires
        0 <= i < pixels.len(),
    ensures
        draw_line_spec(pixels, width, height, p0, p1, color).len() == pixels.len(),
        draw_line_spec(pixels, width, height, p0, p1, color)[i] == (if line_sets(
            width,
            height,
            pixels.len() as int,
            p0,
            p1,
            i,
        ) {
            rgba_of(color)
        } else {
            pixels[i]
        }),
{
    let s = line_sideways(p0, p1);
    let origin = along_axis(s, line_first(p0, p1));
    let vals = line_values(p0, p1);
    let len = pixels.len() as int;
    assert(draw_line_spec(pixels, width, height, p0, p1, color) == plot_run(
        pixels,
        width,
        height,
        s,
        whole(origin@),
        origin,
        vals,
        color,
        vals.len(),
    ));
    law_line_pixels(pixels, width, height, s, whole(origin@), origin, vals, color, vals.len(), i);
    let by_run = exists|k: int|
        0 <= k < vals.len() && #[trigger] run_pixel(
            width,
            height,
            len,
            s,
            whole(origin@),
            origin,
            vals,
            k,
        ) == Some(i);
    if by_run {
        let k = choose|k: int|
            0 <= k < vals.len() && #[trigger] run_pixel(
                width,
                height,
                len,
                s,
                whole(origin@),
                origin,
                vals,
                k,
            ) == Some(i);
        assert(line_pixel(width, height, len, p0, p1, k) == Some(i));
    }
    if line_sets(width, height, len, p0, p1, i) {
        let k = choose|k: int|
            0 <= k < line_values(p0, p1).len() && #[trigger] line_pixel(
                width,
                height,
                len,
                p0,
                p1,
                k,
            ) == Some(i);
        assert(run_pixel(width, height, len, s, whole(origin@), origin, vals, k) == Some(i));
    }
}

/// Whether one of the three edges of a triangle sets the pixel `i`.
pub open spec fn outline_sets(
    width: nat,
    height: nat,
    len: int,
    p0: Vec3,
    p1: Vec3,
    p2: Vec3,
    i: int,
) -> bool {
    ||| line_sets(width, height, len, p0, p1, i)
    ||| line_sets(width, height, len, p0, p2, i)
    ||| line_sets(width, height, len, p2, p1, i)
}

/// An outline, pixel by pixel: a pixel has the colour of the outline if one
/// of the three edges sets it, and is untouched otherwise; the depth buffer
/// is untouched.
pub proof fn law_outline(f: Frame, p0: Vec3, p1: Vec3, p2: Vec3, color: Color24, i: int)
    requires
        0 <= i < f.pixels.len(),
    ensures
        same_shape(f, outline_spec(f, p0, p1, p2, color)),
        outline_spec(f, p0, p1, p2, color).depth == f.depth,
        outline_spec(f, p0, p1, p2, color).pixels[i] == (if outline_sets(
            f.width,
            f.height,
            f.pixels.len() as int,
            p0,
            p1,
            p2,
            i,
        ) {
            rgba_of(color)
        } else {
            f.pixels[i]
        }),
{
    let first = draw_line_spec(f.pixels, f.width, f.height, p0, p1, color);
    let second = draw_line_spec(first, f.width, f.height, p0, p2, color);
    law_draw_line(f.pixels, f.width, f.height, p0, p1, color, i);
    law_draw_line(first, f.width, f.height, p0, p2, color, i);
    law_draw_line(second, f.width, f.height, p2, p1, color, i);
}

/// A drawn triangle, position by position, with or without outline. A
/// triangle that faces the eye leaves in every depth cell what its own
/// fragment, tested against the frame from before the triangle, leaves
/// there. A pixel that an edge of the outline sets has the darker shade of
/// the triangle; every other pixel has the colour of the triangle if its
/// fragment passed the depth test, and is untouched if it did not or if the
/// triangle has no fragment there. So a triangle never changes a pixel off its
/// outline, or a depth cell, where something closer was drawn before.
pub proof fn law_triangle_positions(
    f: Frame,
    ctx: GlobalCtx,
    t: Triangle,
    verts: Seq<Vec3>,
    projected: Seq<Vec3>,
    at_x: int,
    at_y: int,
)
    requires
        !back_facing_spec(verts[t.ind[0] as int], verts[t.ind[1] as int], verts[t.ind[2] as int]),
    ensures
        ({
            let g = render_triangle_spec(f, ctx, t, verts, projected);
            let s = triangle_sides(t, verts, projected);
            let fragment = sides_fragment(s, s.x_left.len(), at_x, at_y);
            let corners = sorted_corners(t, projected);
            &&& same_shape(f, g)
            &&& depth_cell(ctx, f.depth.len() as int, at_x, at_y) matches Some(c) ==> g.depth[c]
                == (match fragment {
                Some(inv_z) => if is_closer(f.depth[c], inv_z) {
                    inv_z
                } else {
                    f.depth[c]
                },
                None => f.depth[c],
            })
            &&& pixel_at(f.width, f.height, f.pixels.len() as int, at_x, at_y) matches Some(i)
                ==> g.pixels[i] == (if ctx.draw_outline && outline_sets(
                f.width,
                f.height,
                f.pixels.len() as int,
                projected[corners.0],
                projected[corners.1],
                projected[corners.2],
                i,
            ) {
                rgba_of(mul_color_spec(t.color, outline_shade()))
            } else {
                match fragment {
                    Some(inv_z) => if depth_hit(ctx, f.depth, at_x, at_y, inv_z) {
                        rgba_of(t.color)
                    } else {
                        f.pixels[i]
                    },
                    None => f.pixels[i],
                }
            })
        }),
{
    reveal(render_triangle_spec);
    let s = triangle_sides(t, verts, projected);
    let filled = fill_rows(
        f,
        ctx,
        s.y_start,
        s.x_left,
        s.x_right,
        s.iz_left,
        s.iz_right,
        t.color,
        s.x_left.len(),
    );
    law_rows_positions(f, ctx, s, t.color, s.x_left.len(), at_x, at_y);
    if ctx.draw_outline {
        let corners = sorted_corners(t, projected);
        let shade = mul_color_spec(t.color, outline_shade());
        match pixel_at(f.width, f.height, f.pixels.len() as int, at_x, at_y) {
            Some(i) => {
                law_outline(
                    filled,
                    projected[corners.0],
                    projected[corners.1],
                    projected[corners.2],
                    shade,
                    i,
                );
            },
            None => {
                if filled.pixels.len() > 0 {
                    law_outline(
                        filled,
                        projected[corners.0],
                        projected[corners.1],
                        projected[corners.2],
                        shade,
                        0,
                    );
                } else {
                    assert(draw_line_spec(
                        filled.pixels,
                        filled.width,
                        filled.height,
                        projected[corners.0],
                        projected[corners.1],
                        shade,
                    ).len() == 0) by {
                        lemma_line_length(
                            filled.pixels,
                            filled.width,
                            filled.height,
                            projected[corners.0],
                            projected[corners.1],
                            shade,
                        );
                    }
                    lemma_line_length(
                        draw_line_spec(
                            filled.pixels,
                            filled.width,
                            filled.height,
                            projected[corners.0],
                            projected[corners.1],
                            shade,
                        ),
                        filled.width,
                        filled.height,
                        projected[corners.0],
                        projected[corners.2],
                        shade,
                    );
                    lemma_line_length(
                        draw_line_spec(
                            draw_line_spec(
                                filled.pixels,
                                filled.width,
                                filled.height,
                                projected[corners.0],
                                projected[corners.1],
                                shade,
                            ),
                            filled.width,
                            filled.height,
                            projected[corners.0],
                            projected[corners.2],
                            shade,
                        ),
                        filled.width,
                        filled.height,
                        projected[corners.2],
                        projected[corners.1],
                        shade,
                    );
                }
            },
        }
    }
}

/// A run of steps leaves the pixel list as long as it was.
proof fn lemma_run_length(
    pixels: Seq<(u8, u8, u8, u8)>,
    width: nat,
    height: nat,
    sideways: bool,
    start: int,
    origin: Fixed,
    vals: Seq<Fixed>,
    color: Color24,
    n: nat,
)
    ensures
        plot_run(pixels, width, height, sideways, start, origin, vals, color, n).len()
            == pixels.len(),
    decreases n,
{
    if n > 0 {
        lemma_run_length(pixels, width, height, sideways, start, origin, vals, color, (n - 1) as nat);
    }
}

/// A drawn line leaves the pixel list as long as it was.
proof fn lemma_line_length(
    pixels: Seq<(u8, u8, u8, u8)>,
    width: nat,
    height: nat,
    p0: Vec3,
    p1: Vec3,
    color: Color24,
)
    ensures
        draw_line_spec(pixels, width, height, p0, p1, color).len() == pixels.len(),
{
    let s = line_sideways(p0, p1);
    let origin = along_axis(s, line_first(p0, p1));
    let vals = line_values(p0, p1);
    lemma_run_length(pixels, width, height, s, whole(origin@), origin, vals, color, vals.len());
}

/// A triangle drawn without outline leaves the frame in its shape.
proof fn lemma_triangle_shape(
    f: Frame,
    ctx: GlobalCtx,
    t: Triangle,
    verts: Seq<Vec3>,
    projected: Seq<Vec3>,
)
    requires
        !ctx.draw_outline,
    ensures
        same_shape(f, render_triangle_spec(f, ctx, t, verts, projected)),
{
    reveal(render_triangle_spec);
    let s = triangle_sides(t, verts, projected);
    law_rows_positions(f, ctx, s, t.color, s.x_left.len(), 0, 0);
}

/// Two triangles of two models, drawn without outline, give the same frame in
/// either order if their fragments can be told apart by depth.
proof fn lemma_triangle_pair(
    f: Frame,
    ctx: GlobalCtx,
    a: Triangle,
    a_verts: Seq<Vec3>,
    a_projected: Seq<Vec3>,
    b: Triangle,
    b_verts: Seq<Vec3>,
    b_projected: Seq<Vec3>,
)
    requires
        !ctx.draw_outline,
        within_canvas(f, ctx),
        depths_differ(
            triangle_sides(a, a_verts, a_projected),
            triangle_sides(b, b_verts, b_projected),
        ),
    ensures
        render_triangle_spec(
            render_triangle_spec(f, ctx, a, a_verts, a_projected),
            ctx,
            b,
            b_verts,
            b_projected,
        ) == render_triangle_spec(
            render_triangle_spec(f, ctx, b, b_verts, b_projected),
            ctx,
            a,
            a_verts,
            a_projected,
        ),
{
    reveal(render_triangle_spec);
    law_fill_order(
        f,
        ctx,
        triangle_sides(a, a_verts, a_projected),
        a.color,
        triangle_sides(b, b_verts, b_projected),
        b.color,
    );
}

/// Whether the fragments of a triangle can be told apart by depth from those
/// of each of the first `n` triangles of a list.
pub open spec fn differs_from_each(
    a: Triangle,
    a_verts: Seq<Vec3>,
    a_projected: Seq<Vec3>,
    tris: Seq<Triangle>,
    verts: Seq<Vec3>,
    projected: Seq<Vec3>,
    n: nat,
) -> bool {
    forall|k: int|
        0 <= k < n ==> depths_differ(
            triangle_sides(a, a_verts, a_projected),
            triangle_sides(#[trigger] tris[k], verts, projected),
        )
}

/// The first `n` triangles of a list leave the frame in its shape.
proof fn lemma_triangles_shape(
    f: Frame,
    ctx: GlobalCtx,
    tris: Seq<Triangle>,
    verts: Seq<Vec3>,
    projected: Seq<Vec3>,
    n: nat,
)
    requires
        !ctx.draw_outline,
    ensures
        same_shape(f, render_triangles_spec(f, ctx, tris, verts, projected, n)),
    decreases n,
{
    if n > 0 {
        lemma_triangles_shape(f, ctx, tris, verts, projected, (n - 1) as nat);
        lemma_triangle_shape(
            render_triangles_spec(f, ctx, tris, verts, projected, (n - 1) as nat),
            ctx,
            tris[n - 1],
            verts,
            projected,
        );
    }
}

/// One triangle and the first `n` triangles of a list give the same frame in
/// either order.
proof fn lemma_triangle_past_list(
    f: Frame,
    ctx: GlobalCtx,
    a: Triangle,
    a_verts: Seq<Vec3>,
    a_projected: Seq<Vec3>,
    tris: Seq<Triangle>,
    verts: Seq<Vec3>,
    projected: Seq<Vec3>,
    n: nat,
)
    requires
        !ctx.draw_outline,
        within_canvas(f, ctx),
        differs_from_each(a, a_verts, a_projected, tris, verts, projected, n),
    ensures
        render_triangles_spec(
            render_triangle_spec(f, ctx, a, a_verts, a_projected),
            ctx,
            tris,
            verts,
            projected,
            n,
        ) == render_triangle_spec(
            render_triangles_spec(f, ctx, tris, verts, projected, n),
            ctx,
            a,
            a_verts,
            a_projected,
        ),
    decreases n,
{
    if n > 0 {
        let m = (n - 1) as nat;
        lemma_triangle_past_list(f, ctx, a, a_verts, a_projected, tris, verts, projected, m);
        let mid = render_triangles_spec(f, ctx, tris, verts, projected, m);
        lemma_triangles_shape(f, ctx, tris, verts, projected, m);
        assert(depths_differ(
            triangle_sides(a, a_verts, a_projected),
            triangle_sides(tris[n - 1], verts, projected),
        ));
        lemma_triangle_pair(mid, ctx, a, a_verts, a_projected, tris[n - 1], verts, projected);
    }
}

/// Whether the fragments of each of the first `n` triangles of one list can
/// be told apart by depth from those of each triangle of another list.
pub open spec fn lists_differ(
    a_tris: Seq<Triangle>,
    a_verts: Seq<Vec3>,
    a_projected: Seq<Vec3>,
    n: nat,
    b_tris: Seq<Triangle>,
    b_verts: Seq<Vec3>,
    b_projected: Seq<Vec3>,
) -> bool {
    forall|j: int|
        0 <= j < n ==> differs_from_each(
            #[trigger] a_tris[j],
            a_verts,
            a_projected,
            b_tris,
            b_verts,
            b_projected,
            b_tris.len(),
        )
}

/// Two lists of triangles give the same frame in either order.
proof fn lemma_list_past_list(
    f: Frame,
    ctx: GlobalCtx,
    a_tris: Seq<Triangle>,
    a_verts: Seq<Vec3>,
    a_projected: Seq<Vec3>,
    n: nat,
    b_tris: Seq<Triangle>,
    b_verts: Seq<Vec3>,
    b_projected: Seq<Vec3>,
)
    requires
        !ctx.draw_outline,
        within_canvas(f, ctx),
        lists_differ(a_tris, a_verts, a_projected, n, b_tris, b_verts, b_projected),
    ensures
        render_triangles_spec(
            render_triangles_spec(f, ctx, a_tris, a_verts, a_projected, n),
            ctx,
            b_tris,
            b_verts,
            b_projected,
            b_tris.len(),
        ) == render_triangles_spec(
            render_triangles_spec(f, ctx, b_tris, b_verts, b_projected, b_tris.len()),
            ctx,
            a_tris,
            a_verts,
            a_projected,
            n,
        ),
    decreases n,
{
    if n > 0 {
        let m = (n - 1) as nat;
        lemma_list_past_list(f, ctx, a_tris, a_verts, a_projected, m, b_tris, b_verts, b_projected);
        let mid = render_triangles_spec(f, ctx, a_tris, a_verts, a_projected, m);
        lemma_triangles_shape(f, ctx, a_tris, a_verts, a_projected, m);
        assert(differs_from_each(
            a_tris[n - 1],
            a_verts,
            a_projected,
            b_tris,
            b_verts,
            b_projected,
            b_tris.len(),
        ));
        lemma_triangle_past_list(
            mid,
            ctx,
            a_tris[n - 1],
            a_verts,
            a_projected,
            b_tris,
            b_verts,
            b_projected,
            b_tris.len(),
        );
    }
}

/// The triangles of an instance that are left after clipping, with their
/// camera-space vertices: what the instance draws, or nothing if its bounding
/// sphere is rejected.
pub open spec fn drawn_triangles(cam: Camera, inst: InstanceView) -> (Seq<Triangle>, Seq<Vec3>) {
    let transform = combined_transform_spec(cam, inst.transform);
    let planes = cam.clipping_planes@;
    let center = truncate_spec(mul_mv_spec(transform, inst.model.bounds_center));
    let verts = transformed_vertices(transform, inst.model.verticies);
    if sphere_rejected(planes, center, inst.model.bounds_radius) {
        (Seq::empty(), verts)
    } else {
        (inst.model.triangles.filter(kept_pred(planes, planes.len() as int, verts)), verts)
    }
}

/// Whether two instances can be told apart by depth: wherever a triangle of
/// the one and a triangle of the other both have a fragment, the inverse
/// depths differ, and no fragment is infinitely close.
pub open spec fn instances_differ(ctx: GlobalCtx, cam: Camera, a: InstanceView, b: InstanceView) -> bool {
    let da = drawn_triangles(cam, a);
    let db = drawn_triangles(cam, b);
    lists_differ(
        da.0,
        da.1,
        projected_spec(ctx, da.1),
        da.0.len(),
        db.0,
        db.1,
        projected_spec(ctx, db.1),
    )
}

/// An instance draws its clipped triangles in their order.
proof fn lemma_instance_draws(f: Frame, ctx: GlobalCtx, cam: Camera, inst: InstanceView)
    ensures
        render_instance_spec(f, ctx, cam, inst) == render_triangles_spec(
            f,
            ctx,
            drawn_triangles(cam, inst).0,
            drawn_triangles(cam, inst).1,
            projected_spec(ctx, drawn_triangles(cam, inst).1),
            drawn_triangles(cam, inst).0.len(),
        ),
{
}

/// Order of two instances: without outlines, two instances that can be told
/// apart by depth give the same frame whichever is drawn first.
pub proof fn law_instance_order(f: Frame, ctx: GlobalCtx, cam: Camera, a: InstanceView, b: InstanceView)
    requires
        !ctx.draw_outline,
        within_canvas(f, ctx),
        instances_differ(ctx, cam, a, b),
    ensures
        render_instance_spec(render_instance_spec(f, ctx, cam, a), ctx, cam, b)
            == render_instance_spec(render_instance_spec(f, ctx, cam, b), ctx, cam, a),
{
    let da = drawn_triangles(cam, a);
    let db = drawn_triangles(cam, b);
    lemma_instance_draws(f, ctx, cam, a);
    lemma_instance_draws(f, ctx, cam, b);
    lemma_instance_draws(render_instance_spec(f, ctx, cam, a), ctx, cam, b);
    lemma_instance_draws(render_instance_spec(f, ctx, cam, b), ctx, cam, a);
    lemma_list_past_list(
        f,
        ctx,
        da.0,
        da.1,
        projected_spec(ctx, da.1),
        da.0.len(),
        db.0,
        db.1,
        projected_spec(ctx, db.1),
    );
}

/// The first `n` instances of a scene leave the frame in its shape.
proof fn lemma_scene_shape(f: Frame, ctx: GlobalCtx, cam: Camera, instances: Seq<InstanceView>, n: nat)
    requires
        !ctx.draw_outline,
    ensures
        same_shape(f, render_scene_spec(f, ctx, cam, instances, n)),
    decreases n,
{
    if n > 0 {
        lemma_scene_shape(f, ctx, cam, instances, (n - 1) as nat);
        let mid = render_scene_spec(f, ctx, cam, instances, (n - 1) as nat);
        let d = drawn_triangles(cam, instances[n - 1]);
        lemma_instance_draws(mid, ctx, cam, instances[n - 1]);
        lemma_triangles_shape(mid, ctx, d.0, d.1, projected_spec(ctx, d.1), d.0.len());
    }
}

/// A scene drawn up to `n` depends on its first `n` instances only.
proof fn lemma_scene_prefix(
    f: Frame,
    ctx: GlobalCtx,
    cam: Camera,
    a: Seq<InstanceView>,
    b: Seq<InstanceView>,
    n: nat,
)
    requires
        forall|i: int| 0 <= i < n ==> a[i] == b[i],
    ensures
        render_scene_spec(f, ctx, cam, a, n) == render_scene_spec(f, ctx, cam, b, n),
    decreases n,
{
    if n > 0 {
        lemma_scene_prefix(f, ctx, cam, a, b, (n - 1) as nat);
    }
}

/// A scene with two neighbouring instances exchanged: the instances at `k`
/// and `k + 1` change places.
pub open spec fn exchanged(instances: Seq<InstanceView>, k: int) -> Seq<InstanceView> {
    instances.update(k, instances[k + 1]).update(k + 1, instances[k])
}

/// Order of a scene: without outlines, exchanging two neighbouring instances
/// that can be told apart by depth changes nothing in the frame, neither a
/// pixel nor a depth cell. Every reordering of a scene is a chain of such
/// exchanges.
pub proof fn law_scene_order(
    f: Frame,
    ctx: GlobalCtx,
    cam: Camera,
    instances: Seq<InstanceView>,
    k: int,
    n: nat,
)
    requires
        !ctx.draw_outline,
        within_canvas(f, ctx),
        0 <= k,
        k + 1 < instances.len(),
        n <= instances.len(),
        n != k + 1,
        instances_differ(ctx, cam, instances[k], instances[k + 1]),
    ensures
        render_scene_spec(f, ctx, cam, exchanged(instances, k), n) == render_scene_spec(
            f,
            ctx,
            cam,
            instances,
            n,
        ),
    decreases n,
{
    let other = exchanged(instances, k);
    if n <= k {
        lemma_scene_prefix(f, ctx, cam, other, instances, n);
    } else if n == k + 2 {
        lemma_scene_prefix(f, ctx, cam, other, instances, k as nat);
        let before = render_scene_spec(f, ctx, cam, instances, k as nat);
        lemma_scene_shape(f, ctx, cam, instances, k as nat);
        law_instance_order(before, ctx, cam, instances[k], instances[k + 1]);
        assert(render_scene_spec(f, ctx, cam, instances, (k + 1) as nat) == render_instance_spec(
            before,
            ctx,
            cam,
            instances[k],
        ));
        assert(render_scene_spec(f, ctx, cam, other, (k + 1) as nat) == render_instance_spec(
            render_scene_spec(f, ctx, cam, other, k as nat),
            ctx,
            cam,
            other[k],
        ));
    } else {
        law_scene_order(f, ctx, cam, instances, k, (n - 1) as nat);
    }
}

/// Whether every two instances of a scene can be told apart by depth.
pub open spec fn all_differ(ctx: GlobalCtx, cam: Camera, instances: Seq<InstanceView>) -> bool {
    forall|i: int, j: int|
        0 <= i < instances.len() && 0 <= j < instances.len() && i != j ==> #[trigger] instances_differ(
            ctx,
            cam,
            instances[i],
            instances[j],
        )
}

/// A scene after the first `m` of a chain of exchanges: exchange `ks[i]`
/// makes the instances at `ks[i]` and `ks[i] + 1` change places, and an
/// exchange that names no pair of neighbours changes nothing.
pub open spec fn reordered(instances: Seq<InstanceView>, ks: Seq<int>, m: nat) -> Seq<InstanceView>
    decreases m,
{
    if m == 0 {
        instances
    } else {
        let before = reordered(instances, ks, (m - 1) as nat);
        let k = ks[m - 1];
        if 0 <= k && k + 1 < before.len() {
            exchanged(before, k)
        } else {
            before
        }
    }
}

/// An exchange keeps every two instances apart by depth.
proof fn lemma_exchange_differ(ctx: GlobalCtx, cam: Camera, instances: Seq<InstanceView>, k: int)
    requires
        all_differ(ctx, cam, instances),
        0 <= k,
        k + 1 < instances.len(),
    ensures
        all_differ(ctx, cam, exchanged(instances, k)),
{
    let other = exchanged(instances, k);
    assert forall|i: int, j: int|
        0 <= i < other.len() && 0 <= j < other.len() && i != j implies #[trigger] instances_differ(
        ctx,
        cam,
        other[i],
        other[j],
    ) by {
        let from_i = if i == k {
            k + 1
        } else if i == k + 1 {
            k
        } else {
            i
        };
        let from_j = if j == k {
            k + 1
        } else if j == k + 1 {
            k
        } else {
            j
        };
        assert(other[i] == instances[from_i]);
        assert(other[j] == instances[from_j]);
        assert(instances_differ(ctx, cam, instances[from_i], instances[from_j]));
    }
}

/// Order of a scene, for every reordering: without outlines, a scene whose
/// instances can all be told apart by depth gives the same frame after any
/// chain of exchanges of neighbouring instances, and so in every order of
/// its instances.
pub proof fn law_scene_reordering(
    f: Frame,
    ctx: GlobalCtx,
    cam: Camera,
    instances: Seq<InstanceView>,
    ks: Seq<int>,
    m: nat,
)
    requires
        !ctx.draw_outline,
        within_canvas(f, ctx),
        all_differ(ctx, cam, instances),
    ensures
        reordered(instances, ks, m).len() == instances.len(),
        all_differ(ctx, cam, reordered(instances, ks, m)),
        render_scene_spec(f, ctx, cam, reordered(instances, ks, m), instances.len())
            == render_scene_spec(f, ctx, cam, instances, instances.len()),
    decreases m,
{
    if m > 0 {
        law_scene_reordering(f, ctx, cam, instances, ks, (m - 1) as nat);
        let before = reordered(instances, ks, (m - 1) as nat);
        let k = ks[m - 1];
        if 0 <= k && k + 1 < before.len() {
            lemma_exchange_differ(ctx, cam, before, k);
            assert(instances_differ(ctx, cam, before[k], before[k + 1]));
            law_scene_order(f, ctx, cam, before, k, before.len());
        }
    }
}

/// The settings of a render pass with outlines switched off.
pub open spec fn without_outline(ctx: GlobalCtx) -> GlobalCtx {
    GlobalCtx {
        width: ctx.width,
        height: ctx.height,
        view_width: ctx.view_width,
        view_height: ctx.view_height,
        viewport_dist: ctx.viewport_dist,
        draw_outline: false,
    }
}

/// Whether the outline of a triangle sets the pixel `i`: the triangle faces
/// the eye, and one of its three edges lands on the pixel.
pub open spec fn triangle_outlines(
    width: nat,
    height: nat,
    len: int,
    t: Triangle,
    verts: Seq<Vec3>,
    projected: Seq<Vec3>,
    i: int,
) -> bool {
    let corners = sorted_corners(t, projected);
    &&& !back_facing_spec(verts[t.ind[0] as int], verts[t.ind[1] as int], verts[t.ind[2] as int])
    &&& outline_sets(
        width,
        height,
        len,
        projected[corners.0],
        projected[corners.1],
        projected[corners.2],
        i,
    )
}

/// Whether the outline of one of the first `n` triangles of a list sets the
/// pixel `i`.
pub open spec fn list_outlines(
    width: nat,
    height: nat,
    len: int,
    tris: Seq<Triangle>,
    verts: Seq<Vec3>,
    projected: Seq<Vec3>,
    n: nat,
    i: int,
) -> bool {
    exists|k: int|
        0 <= k < n && triangle_outlines(width, height, len, #[trigger] tris[k], verts, projected, i)
}

/// Whether the outline of a triangle that an instance draws sets the pixel
/// `i`.
pub open spec fn instance_outlines(
    ctx: GlobalCtx,
    cam: Camera,
    width: nat,
    height: nat,
    len: int,
    inst: InstanceView,
    i: int,
) -> bool {
    let d = drawn_triangles(cam, inst);
    list_outlines(width, height, len, d.0, d.1, projected_spec(ctx, d.1), d.0.len(), i)
}

/// Whether the outline of a triangle of one of the first `n` instances of a
/// scene sets the pixel `i`.
pub open spec fn scene_outlines(
    ctx: GlobalCtx,
    cam: Camera,
    width: nat,
    height: nat,
    len: int,
    instances: Seq<InstanceView>,
    n: nat,
    i: int,
) -> bool {
    exists|j: int|
        0 <= j < n && instance_outlines(ctx, cam, width, height, len, #[trigger] instances[j], i)
}

/// Whether two frames have the same shape and the same depth buffer, and the
/// same colour at the pixel `i`.
pub open spec fn agree_at(g: Frame, h: Frame, i: int) -> bool {
    &&& same_shape(g, h)
    &&& g.depth == h.depth
    &&& g.pixels[i] == h.pixels[i]
}

/// One triangle, drawn with outline into one frame and without into another
/// that agrees with it, leaves the two frames in agreement at every pixel
/// that its outline does not set.
proof fn lemma_triangle_outlined(
    g: Frame,
    h: Frame,
    ctx: GlobalCtx,
    t: Triangle,
    verts: Seq<Vec3>,
    projected: Seq<Vec3>,
    i: int,
)
    requires
        within_canvas(g, ctx),
        0 <= i < g.pixels.len(),
        agree_at(g, h, i),
        !triangle_outlines(g.width, g.height, g.pixels.len() as int, t, verts, projected, i),
    ensures
        agree_at(
            render_triangle_spec(g, ctx, t, verts, projected),
            render_triangle_spec(h, without_outline(ctx), t, verts, projected),
            i,
        ),
{
    let off = without_outline(ctx);
    let g2 = render_triangle_spec(g, ctx, t, verts, projected);
    let h2 = render_triangle_spec(h, off, t, verts, projected);
    if back_facing_spec(verts[t.ind[0] as int], verts[t.ind[1] as int], verts[t.ind[2] as int]) {
        law_back_face_culled(g, ctx, t, verts, projected);
        law_back_face_culled(h, off, t, verts, projected);
    } else {
        lemma_pixel_position(g.width, g.height, g.pixels.len() as int, i);
        let w = g.width as int;
        law_triangle_positions(g, ctx, t, verts, projected, i % w - g.width / 2, i / w - g.height / 2);
        law_triangle_positions(h, off, t, verts, projected, i % w - g.width / 2, i / w - g.height / 2);
        assert forall|c: int| 0 <= c < g2.depth.len() implies g2.depth[c] == h2.depth[c] by {
            lemma_cell_position(ctx, g.depth.len() as int, c);
            let cw = ctx.width as int;
            law_triangle_positions(
                g,
                ctx,
                t,
                verts,
                projected,
                c % cw - ctx.width / 2,
                c / cw - ctx.height / 2,
            );
            law_triangle_positions(
                h,
                off,
                t,
                verts,
                projected,
                c % cw - ctx.width / 2,
                c / cw - ctx.height / 2,
            );
        }
        assert(g2.depth =~= h2.depth);
    }
}

/// A list of triangles, drawn with outlines into one frame and without into
/// another that agrees with it, leaves the two frames in agreement at every
/// pixel that none of the outlines sets.
proof fn lemma_triangles_outlined(
    g: Frame,
    h: Frame,
    ctx: GlobalCtx,
    tris: Seq<Triangle>,
    verts: Seq<Vec3>,
    projected: Seq<Vec3>,
    n: nat,
    i: int,
)
    requires
        within_canvas(g, ctx),
        0 <= i < g.pixels.len(),
        agree_at(g, h, i),
        !list_outlines(g.width, g.height, g.pixels.len() as int, tris, verts, projected, n, i),
    ensures
        agree_at(
            render_triangles_spec(g, ctx, tris, verts, projected, n),
            render_triangles_spec(h, without_outline(ctx), tris, verts, projected, n),
            i,
        ),
        same_shape(g, render_triangles_spec(g, ctx, tris, verts, projected, n)),
    decreases n,
{
    if n > 0 {
        let m = (n - 1) as nat;
        assert(!list_outlines(g.width, g.height, g.pixels.len() as int, tris, verts, projected, m, i))
            by {
            if list_outlines(g.width, g.height, g.pixels.len() as int, tris, verts, projected, m, i) {
                let k = choose|k: int|
                    0 <= k < m && triangle_outlines(
                        g.width,
                        g.height,
                        g.pixels.len() as int,
                        #[trigger] tris[k],
                        verts,
                        projected,
                        i,
                    );
                assert(0 <= k < n);
            }
        }
        lemma_triangles_outlined(g, h, ctx, tris, verts, projected, m, i);
        let g1 = render_triangles_spec(g, ctx, tris, verts, projected, m);
        let h1 = render_triangles_spec(h, without_outline(ctx), tris, verts, projected, m);
        assert(!triangle_outlines(
            g.width,
            g.height,
            g.pixels.len() as int,
            tris[n - 1],
            verts,
            projected,
            i,
        ));
        lemma_triangle_outlined(g1, h1, ctx, tris[n - 1], verts, projected, i);
        if !back_facing_spec(
            verts[tris[n - 1].ind[0] as int],
            verts[tris[n - 1].ind[1] as int],
            verts[tris[n - 1].ind[2] as int],
        ) {
            law_triangle_positions(g1, ctx, tris[n - 1], verts, projected, 0, 0);
        } else {
            law_back_face_culled(g1, ctx, tris[n - 1], verts, projected);
        }
    }
}

/// Outlines change nothing but their own pixels: a scene drawn with outlines
/// and the same scene drawn without have the same depth buffer, and the same
/// colour at every pixel that no outline of a drawn triangle sets.
pub proof fn law_outlines_apart(
    f: Frame,
    ctx: GlobalCtx,
    cam: Camera,
    instances: Seq<InstanceView>,
    n: nat,
    i: int,
)
    requires
        within_canvas(f, ctx),
        0 <= i < f.pixels.len(),
        !scene_outlines(ctx, cam, f.width, f.height, f.pixels.len() as int, instances, n, i),
    ensures
        agree_at(
            render_scene_spec(f, ctx, cam, instances, n),
            render_scene_spec(f, without_outline(ctx), cam, instances, n),
            i,
        ),
        same_shape(f, render_scene_spec(f, ctx, cam, instances, n)),
    decreases n,
{
    if n > 0 {
        let m = (n - 1) as nat;
        let len = f.pixels.len() as int;
        assert(!scene_outlines(ctx, cam, f.width, f.height, len, instances, m, i)) by {
            if scene_outlines(ctx, cam, f.width, f.height, len, instances, m, i) {
                let j = choose|j: int|
                    0 <= j < m && instance_outlines(
                        ctx,
                        cam,
                        f.width,
                        f.height,
                        len,
                        #[trigger] instances[j],
                        i,
                    );
                assert(0 <= j < n);
            }
        }
        law_outlines_apart(f, ctx, cam, instances, m, i);
        let g = render_scene_spec(f, ctx, cam, instances, m);
        let h = render_scene_spec(f, without_outline(ctx), cam, instances, m);
        let inst = instances[n - 1];
        let d = drawn_triangles(cam, inst);
        assert(!instance_outlines(ctx, cam, f.width, f.height, len, inst, i));
        lemma_instance_draws(g, ctx, cam, inst);
        lemma_instance_draws(h, without_outline(ctx), cam, inst);
        assert(projected_spec(without_outline(ctx), d.1) =~= projected_spec(ctx, d.1));
        lemma_triangles_outlined(g, h, ctx, d.0, d.1, projected_spec(ctx, d.1), d.0.len(), i);
    }
}

/// An exchange of neighbours leaves every pixel on an outline on one, and
/// every other pixel off them.
proof fn lemma_exchange_outlines(
    ctx: GlobalCtx,
    cam: Camera,
    width: nat,
    height: nat,
    len: int,
    instances: Seq<InstanceView>,
    k: int,
    i: int,
)
    requires
        0 <= k,
        k + 1 < instances.len(),
    ensures
        scene_outlines(ctx, cam, width, height, len, exchanged(instances, k), instances.len(), i)
            == scene_outlines(ctx, cam, width, height, len, instances, instances.len(), i),
{
    let other = exchanged(instances, k);
    let n = instances.len();
    if scene_outlines(ctx, cam, width, height, len, instances, n, i) {
        let j = choose|j: int|
            0 <= j < n && instance_outlines(ctx, cam, width, height, len, #[trigger] instances[j], i);
        let to = if j == k {
            k + 1
        } else if j == k + 1 {
            k
        } else {
            j
        };
        assert(other[to] == instances[j]);
        assert(instance_outlines(ctx, cam, width, height, len, other[to], i));
    }
    if scene_outlines(ctx, cam, width, height, len, other, n, i) {
        let j = choose|j: int|
            0 <= j < n && instance_outlines(ctx, cam, width, height, len, #[trigger] other[j], i);
        let from = if j == k {
            k + 1
        } else if j == k + 1 {
            k
        } else {
            j
        };
        assert(other[j] == instances[from]);
        assert(instance_outlines(ctx, cam, width, height, len, instances[from], i));
    }
}

/// A chain of exchanges leaves every pixel on an outline on one, and every
/// other pixel off them.
proof fn lemma_reordered_outlines(
    ctx: GlobalCtx,
    cam: Camera,
    width: nat,
    height: nat,
    len: int,
    instances: Seq<InstanceView>,
    ks: Seq<int>,
    m: nat,
    i: int,
)
    ensures
        reordered(instances, ks, m).len() == instances.len(),
        scene_outlines(
            ctx,
            cam,
            width,
            height,
            len,
            reordered(instances, ks, m),
            instances.len(),
            i,
        ) == scene_outlines(ctx, cam, width, height, len, instances, instances.len(), i),
    decreases m,
{
    if m > 0 {
        lemma_reordered_outlines(ctx, cam, width, height, len, instances, ks, (m - 1) as nat, i);
        let before = reordered(instances, ks, (m - 1) as nat);
        let k = ks[m - 1];
        if 0 <= k && k + 1 < before.len() {
            lemma_exchange_outlines(ctx, cam, width, height, len, before, k, i);
        }
    }
}

/// Order of a scene with outlines: a scene whose instances can all be told
/// apart by depth leaves, in every order of its instances, the same depth
/// buffer, and the same colour at every pixel that no outline of a drawn
/// triangle sets. The order shows only where outlines lie.
pub proof fn law_scene_reordering_outlined(
    f: Frame,
    ctx: GlobalCtx,
    cam: Camera,
    instances: Seq<InstanceView>,
    ks: Seq<int>,
    m: nat,
    i: int,
)
    requires
        within_canvas(f, ctx),
        all_differ(without_outline(ctx), cam, instances),
        0 <= i < f.pixels.len(),
        !scene_outlines(
            ctx,
            cam,
            f.width,
            f.height,
            f.pixels.len() as int,
            instances,
            instances.len(),
            i,
        ),
    ensures
        agree_at(
            render_scene_spec(f, ctx, cam, reordered(instances, ks, m), instances.len()),
            render_scene_spec(f, ctx, cam, instances, instances.len()),
            i,
        ),
{
    let off = without_outline(ctx);
    let other = reordered(instances, ks, m);
    lemma_reordered_outlines(
        ctx,
        cam,
        f.width,
        f.height,
        f.pixels.len() as int,
        instances,
        ks,
        m,
        i,
    );
    law_outlines_apart(f, ctx, cam, instances, instances.len(), i);
    law_outlines_apart(f, ctx, cam, other, instances.len(), i);
    law_scene_reordering(f, off, cam, instances, ks, m);
}

/// The whole number `v` as a fixed-point number.
pub open spec fn whole_number(v: int) -> Fixed {
    fx(v * SCALE)
}

/// Whether a whole number is small enough that sums and differences of two
/// such numbers are representable.
pub open spec fn small(v: int) -> bool {
    -0x4000_0000 < v < 0x4000_0000
}

/// A small whole number is held exactly.
proof fn lemma_whole_number(v: int)
    requires
        -0x8000_0000 <= v <= 0x7fff_ffff,
    ensures
        whole_number(v)@ == v * SCALE,
        whole(v * SCALE) == v,
{
    crate::fixed::lemma_trunc_div_exact(v, SCALE as int);
}

/// An upright edge between whole points: `n + 1` values, all the column of
/// the edge.
proof fn lemma_upright_edge(y0: int, n: int, x: int)
    requires
        small(y0),
        small(y0 + n),
        small(x),
        n >= 0,
    ensures
        ({
            let e = interpolate_spec(
                whole_number(y0),
                whole_number(x),
                whole_number(y0 + n),
                whole_number(x),
            );
            &&& e.len() == n + 1
            &&& forall|k: int| 0 <= k <= n ==> #[trigger] e[k] == whole_number(x)
        }),
{
    lemma_whole_number(y0);
    lemma_whole_number(y0 + n);
    lemma_whole_number(x);
    let slope = slope_spec(whole_number(y0), whole_number(x), whole_number(y0 + n), whole_number(x));
    assert(slope@ == 0) by {
        if n > 0 {
            assert(0 * SCALE == 0);
            assert(0int / (n * SCALE) == 0) by (nonlinear_arith)
                requires
                    n * SCALE > 0,
            ;
        }
    }
    let e = interpolate_spec(whole_number(y0), whole_number(x), whole_number(y0 + n), whole_number(x));
    assert forall|k: int| 0 <= k <= n implies #[trigger] e[k] == whole_number(x) by {
        assert(k * slope@ == 0) by (nonlinear_arith)
            requires
                slope@ == 0,
        ;
    }
}

/// A falling diagonal between whole points: `n + 1` values, one column less
/// at each step.
proof fn lemma_diagonal_edge(y0: int, n: int, x: int)
    requires
        small(y0),
        small(y0 + n),
        small(x),
        small(x + n),
        n >= 1,
    ensures
        ({
            let e = interpolate_spec(
                whole_number(y0),
                whole_number(x + n),
                whole_number(y0 + n),
                whole_number(x),
            );
            &&& e.len() == n + 1
            &&& forall|k: int| 0 <= k <= n ==> #[trigger] e[k] == whole_number(x + n - k)
        }),
{
    lemma_whole_number(y0);
    lemma_whole_number(y0 + n);
    lemma_whole_number(x);
    lemma_whole_number(x + n);
    let s = SCALE as int;
    let slope = slope_spec(
        whole_number(y0),
        whole_number(x + n),
        whole_number(y0 + n),
        whole_number(x),
    );
    crate::fixed::lemma_trunc_div_exact(-s, n * s);
    let rise = x * s - (x + n) * s;
    let run = (y0 + n) * s - y0 * s;
    assert(rise == -(n * s) && run == n * s) by (nonlinear_arith)
        requires
            rise == x * s - (x + n) * s,
            run == (y0 + n) * s - y0 * s,
    ;
    assert(rise * s == (-s) * (n * s)) by (nonlinear_arith)
        requires
            rise == -(n * s),
    ;
    assert(n * s > 0) by (nonlinear_arith)
        requires
            n >= 1,
            s > 0,
    ;
    assert(quot(rise, run) == -s);
    assert(1 <= n <= 0x7fff_fffe);
    assert(-0x7fff_fffe * s <= rise <= 0 && 0 <= run <= 0x7fff_fffe * s);
    assert(fx(rise)@ == rise && fx(run)@ == run);
    assert(slope@ == -s);
    let e = interpolate_spec(
        whole_number(y0),
        whole_number(x + n),
        whole_number(y0 + n),
        whole_number(x),
    );
    assert forall|k: int| 0 <= k <= n implies #[trigger] e[k] == whole_number(x + n - k) by {
        assert(k * slope@ == -(k * s)) by (nonlinear_arith)
            requires
                slope@ == -s,
        ;
        assert((x + n) * s + k * slope@ == (x + n - k) * s) by (nonlinear_arith)
            requires
                k * slope@ == -(k * s),
        ;
    }
}

/// Whether a position lies in the right triangle with its right angle at
/// `(ox, oy)` and legs of `n` pixels along the columns and along the rows,
/// the three edges counted in.
pub open spec fn in_right_triangle(ox: int, oy: int, n: int, x: int, y: int) -> bool {
    x >= ox && y >= oy && (x - ox) + (y - oy) <= n
}

/// The sides of a right triangle: with the corner of the right angle and the
/// end of the leg along the columns on one scanline, in either order, and the
/// end of the other leg `n` scanlines higher, the triangle has a fragment
/// exactly at the positions of the right triangle.
proof fn lemma_right_triangle_sides(
    p0: Vec3,
    p1: Vec3,
    p2: Vec3,
    z0: Fixed,
    z1: Fixed,
    z2: Fixed,
    ox: int,
    oy: int,
    n: int,
    x: int,
    y: int,
)
    requires
        n >= 2,
        small(ox),
        small(oy),
        small(ox + n),
        small(oy + n),
        p0.y == whole_number(oy),
        p1.y == whole_number(oy),
        p2.y == whole_number(oy + n),
        p2.x == whole_number(ox),
        (p0.x == whole_number(ox) && p1.x == whole_number(ox + n)) || (p0.x == whole_number(ox + n)
            && p1.x == whole_number(ox)),
    ensures
        sides_fragment(
            sides_of(p0, p1, p2, z0, z1, z2),
            sides_of(p0, p1, p2, z0, z1, z2).x_left.len(),
            x,
            y,
        ) is Some <==> in_right_triangle(ox, oy, n, x, y),
{
    lemma_whole_number(ox);
    lemma_whole_number(oy);
    lemma_whole_number(ox + n);
    lemma_whole_number(oy + n);
    lemma_upright_edge(oy, n, ox);
    lemma_diagonal_edge(oy, n, ox);
    lemma_upright_edge(oy, 0, ox);
    lemma_upright_edge(oy, 0, ox + n);
    let upright = interpolate_spec(
        whole_number(oy),
        whole_number(ox),
        whole_number(oy + n),
        whole_number(ox),
    );
    let diagonal = interpolate_spec(
        whole_number(oy),
        whole_number(ox + n),
        whole_number(oy + n),
        whole_number(ox),
    );
    let flat = interpolate_spec(p0.y, p0.x, p1.y, p1.x);
    assert(flat.len() == 1);
    let sides = sides_of(p0, p1, p2, z0, z1, z2);
    let xs = edge_interpolate_spec(p0.y, p0.x, p1.y, p1.x, p2.y, p2.x);
    let m = ((n + 1) / 2) as int;
    assert(1 <= m <= n - 1);
    assert(upright[m] == whole_number(ox));
    assert(diagonal[m] == whole_number(ox + n - m));
    lemma_whole_number(ox + n - m);
    if p0.x == whole_number(ox) {
        assert(xs.0 =~= upright);
        assert(xs.1 =~= diagonal);
    } else {
        assert(xs.0 =~= diagonal);
        assert(xs.1 =~= upright);
    }
    assert(sides.x_left == upright);
    assert(sides.x_right == diagonal);
    assert(sides.y_start == oy);
    let row = y - oy;
    if 0 <= row <= n {
        assert(upright[row] == whole_number(ox));
        assert(diagonal[row] == whole_number(ox + n - row));
        lemma_whole_number(ox + n - row);
        let z_scan = scan_depths(sides.x_left, sides.x_right, sides.iz_left, sides.iz_right, row);
        assert(z_scan.len() == n - row + 1);
    }
}

/// Whether the three corners of a triangle are, in some order, the corners
/// of the right triangle with its right angle at `(ox, oy)` and legs of `n`
/// pixels.
pub open spec fn has_right_corners(t: Triangle, projected: Seq<Vec3>, ox: int, oy: int, n: int) -> bool {
    let a = projected[t.ind[0] as int];
    let b = projected[t.ind[1] as int];
    let c = projected[t.ind[2] as int];
    let at_angle = |p: Vec3| p.x == whole_number(ox) && p.y == whole_number(oy);
    let at_side = |p: Vec3| p.x == whole_number(ox + n) && p.y == whole_number(oy);
    let at_top = |p: Vec3| p.x == whole_number(ox) && p.y == whole_number(oy + n);
    ||| at_angle(a) && at_side(b) && at_top(c)
    ||| at_angle(a) && at_top(b) && at_side(c)
    ||| at_side(a) && at_angle(b) && at_top(c)
    ||| at_side(a) && at_top(b) && at_angle(c)
    ||| at_top(a) && at_angle(b) && at_side(c)
    ||| at_top(a) && at_side(b) && at_angle(c)
}

/// Scan-fill completeness: a triangle that faces the eye and whose projected
/// corners are `(ox, oy)`, `(ox + n, oy)` and `(ox, oy + n)`, drawn without
/// outline into a frame with one never-written cell to each pixel, colours
/// exactly the pixels of the right triangle, its three edges counted in, and
/// leaves every other pixel as it was.
pub proof fn law_scan_fill_right_triangle(
    f: Frame,
    ctx: GlobalCtx,
    t: Triangle,
    verts: Seq<Vec3>,
    projected: Seq<Vec3>,
    ox: int,
    oy: int,
    n: int,
    x: int,
    y: int,
)
    requires
        !ctx.draw_outline,
        !back_facing_spec(verts[t.ind[0] as int], verts[t.ind[1] as int], verts[t.ind[2] as int]),
        n >= 2,
        small(ox),
        small(oy),
        small(ox + n),
        small(oy + n),
        has_right_corners(t, projected, ox, oy, n),
        f.width == ctx.width,
        f.height == ctx.height,
        f.pixels.len() == ctx.width * ctx.height,
        f.depth.len() == ctx.width * ctx.height,
        forall|c: int| 0 <= c < f.depth.len() ==> (#[trigger] f.depth[c])@ == INFINITY_RAW,
    ensures
        sides_fragment(
            triangle_sides(t, verts, projected),
            triangle_sides(t, verts, projected).x_left.len(),
            x,
            y,
        ) is Some <==> in_right_triangle(ox, oy, n, x, y),
        pixel_at(f.width, f.height, f.pixels.len() as int, x, y) matches Some(i)
            ==> render_triangle_spec(f, ctx, t, verts, projected).pixels[i] == (if in_right_triangle(
            ox,
            oy,
            n,
            x,
            y,
        ) {
            rgba_of(t.color)
        } else {
            f.pixels[i]
        }),
{
    lemma_whole_number(oy);
    lemma_whole_number(oy + n);
    let corners = sorted_corners(t, projected);
    lemma_right_triangle_sides(
        projected[corners.0],
        projected[corners.1],
        projected[corners.2],
        verts[corners.0].z,
        verts[corners.1].z,
        verts[corners.2].z,
        ox,
        oy,
        n,
        x,
        y,
    );
    law_scan_fill(f, ctx, t, verts, projected, x, y);
    law_cell_is_pixel(f, ctx, x, y);
}

} // verus!
