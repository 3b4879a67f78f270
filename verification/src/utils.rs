//! Interpolation, pixel addressing, projection and the transform builders.
use crate::context::{get_canvas_dimensions, get_view_dimensions, get_viewport_dist, GlobalCtx};
use crate::fixed::{clamp, fx, prod, quot, whole, Fixed, SCALE};
use crate::mat4::{mul_mm_spec, mul_mv_spec, Mat4x4};
use crate::math::{ceil_f, floor_f};
use crate::vec3::{Vec3, Vec4};
use vstd::prelude::*;

verus! {

/// The step of an interpolation: the change of the dependent value for one
/// unit of the independent one.
pub open spec fn slope_spec(i0: Fixed, d0: Fixed, i1: Fixed, d1: Fixed) -> Fixed {
    fx(quot(fx(d1@ - d0@)@, fx(i1@ - i0@)@))
}

/// How many values an interpolation from `i0` to `i1` has: one for each whole
/// step from the whole part of `i0` to the whole part of `i1`, both included.
pub open spec fn interpolate_len(i0: Fixed, i1: Fixed) -> nat {
    let n = whole(i1@) - whole(i0@) + 1;
    if n > 0 {
        n as nat
    } else {
        0
    }
}

/// The values of the line through `(i0, d0)` and `(i1, d1)` at whole steps
/// from `i0`: entry `k` is `d0` plus `k` times the slope, clamped.
pub open spec fn interpolate_spec(i0: Fixed, d0: Fixed, i1: Fixed, d1: Fixed) -> Seq<Fixed> {
    Seq::new(interpolate_len(i0, i1), |k: int| fx(d0@ + k * slope_spec(i0, d0, i1, d1)@))
}

/// Adding the step to a clamped value gives the clamped next value: a line
/// that has left the range does not come back.
proof fn lemma_step(d0: int, a: int, k: int)
    requires
        i64::MIN <= d0 <= i64::MAX,
        i64::MIN <= a <= i64::MAX,
        k >= 0,
    ensures
        clamp(clamp(d0 + k * a) + a) == clamp(d0 + (k + 1) * a),
{
    assert((k + 1) * a == k * a + a) by (nonlinear_arith);
    if a >= 0 {
        assert(k * a >= 0) by (nonlinear_arith)
            requires
                k >= 0,
                a >= 0,
        ;
    } else {
        assert(k * a <= 0) by (nonlinear_arith)
            requires
                k >= 0,
                a < 0,
        ;
    }
}

/// Samples the line through `(i0, d0)` and `(i1, d1)` once for each whole step
/// of the independent value from `i0` to `i1`.
pub fn interpolate(i0: Fixed, d0: Fixed, i1: Fixed, d1: Fixed) -> (values: Vec<Fixed>)
    ensures
        values@ == interpolate_spec(i0, d0, i1, d1),
{
    if i0.eq(i1) {
        let values = vec![d0];
        proof {
            let a = slope_spec(i0, d0, i1, d1)@;
            assert(0 * a == 0) by (nonlinear_arith);
            assert(d0 == fx(d0@ + 0 * a));
            assert(interpolate_len(i0, i1) == 1);
            assert(values@.len() == 1);
            assert(values@[0] == d0);
            assert(values@ =~= interpolate_spec(i0, d0, i1, d1));
        }
        return values;
    }
    let mut values: Vec<Fixed> = Vec::new();
    let a = d1.sub(d0).div(i1.sub(i0));
    let mut d = d0;
    let start: i64 = i0.trunc() as i64;
    let end: i64 = i1.trunc() as i64;
    let mut i: i64 = start;
    while i <= end
        invariant
            start == whole(i0@),
            end == whole(i1@),
            -0x8000_0000 <= start <= 0x7fff_ffff,
            -0x8000_0000 <= end <= 0x7fff_ffff,
            start <= i,
            i <= end + 1 || i == start,
            a == slope_spec(i0, d0, i1, d1),
            values@.len() == i - start,
            forall|k: int| 0 <= k < values@.len() ==> values@[k] == fx(d0@ + k * a@),
            d == fx(d0@ + (i - start) * a@),
        decreases end + 1 - i,
    {
        values.push(d);
        proof {
            lemma_step(d0@, a@, i - start);
        }
        d = d.add(a);
        i = i + 1;
    }
    assert(values@ =~= interpolate_spec(i0, d0, i1, d1));
    values
}

/// Where a centred coordinate lands along an axis of `extent` pixels: the
/// coordinate plus half the extent. A coordinate that lands before the first
/// pixel is given the index `usize::MAX`, which no canvas has.
pub open spec fn pixel_index(c: int, extent: usize) -> usize {
    let v = c + extent / 2;
    if 0 <= v <= usize::MAX {
        v as usize
    } else {
        usize::MAX
    }
}

/// Maps one centred coordinate to an index along its axis.
fn map_axis(c: i32, extent: usize) -> (r: usize)
    ensures
        r == pixel_index(c as int, extent),
{
    let half = extent / 2;
    if c >= 0 {
        let off = c as usize;
        if off <= usize::MAX - half {
            half + off
        } else {
            usize::MAX
        }
    } else {
        let back: u32 = (-(c as i64)) as u32;
        if back as u64 <= half as u64 {
            half - back as usize
        } else {
            usize::MAX
        }
    }
}

/// Maps a position whose origin is the centre of the canvas to a column and a
/// row counted from the top left corner.
pub fn map_to_pixels(x: i32, y: i32, width: usize, height: usize) -> (r: (usize, usize))
    ensures
        r.0 == pixel_index(x as int, width),
        r.1 == pixel_index(y as int, height),
{
    (map_axis(x, width), map_axis(y, height))
}

/// `a * b / c`, each step rounded toward zero and clamped.
pub open spec fn mul_div_spec(a: Fixed, b: Fixed, c: Fixed) -> Fixed {
    fx(quot(fx(prod(a@, b@))@, c@))
}

/// The canvas position of a viewport position: each coordinate is multiplied
/// by the canvas extent and divided by the viewport extent.
pub open spec fn viewport_to_canvas_spec(ctx: GlobalCtx, x: Fixed, y: Fixed) -> Vec3 {
    Vec3 {
        x: mul_div_spec(x, fx(ctx.width * SCALE), ctx.view_width),
        y: mul_div_spec(y, fx(ctx.height * SCALE), ctx.view_height),
        z: fx(SCALE as int),
    }
}

/// The viewport coordinate of a camera-space coordinate `c` at depth `z`:
/// `c` times the viewport distance, divided by the depth. At depth zero there
/// is no quotient; the coordinate is then clamped to the end of the range on
/// its side: the largest number for a positive coordinate, the smallest for a
/// negative one, and zero for zero.
pub open spec fn perspective_spec(c: Fixed, dist: Fixed, z: Fixed) -> Fixed {
    let scaled = fx(prod(c@, dist@));
    if z@ == 0 {
        if scaled@ > 0 {
            fx(i64::MAX as int)
        } else if scaled@ < 0 {
            fx(i64::MIN as int)
        } else {
            fx(0)
        }
    } else {
        fx(quot(scaled@, z@))
    }
}

/// The canvas position of a camera-space vertex: the vertex is projected onto
/// the viewport by the perspective divide and then scaled to the canvas.
pub open spec fn project_vertex_spec(ctx: GlobalCtx, v: Vec4) -> Vec3 {
    viewport_to_canvas_spec(
        ctx,
        perspective_spec(v.x, ctx.viewport_dist, v.z),
        perspective_spec(v.y, ctx.viewport_dist, v.z),
    )
}

/// A point with each coordinate cut to its whole part.
pub open spec fn truncate_parts_spec(p: Vec3) -> Vec3 {
    Vec3 { x: fx(whole(p.x@) * SCALE), y: fx(whole(p.y@) * SCALE), z: fx(whole(p.z@) * SCALE) }
}

/// `a * b / c`.
fn mul_div(a: Fixed, b: Fixed, c: Fixed) -> (r: Fixed)
    ensures
        r == mul_div_spec(a, b, c),
{
    a.mul(b).div(c)
}

/// Scales a position on the viewport to the canvas.
pub fn viewport_to_canvas(ctx: &GlobalCtx, x: Fixed, y: Fixed) -> (p: Vec3)
    ensures
        p == viewport_to_canvas_spec(*ctx, x, y),
{
    let (width, height) = get_canvas_dimensions(ctx);
    let (view_width, view_height) = get_view_dimensions(ctx);
    Vec3::new(
        mul_div(x, Fixed::from_usize(width), view_width),
        mul_div(y, Fixed::from_usize(height), view_height),
        Fixed::one(),
    )
}

/// The whole part of `c` as a number.
fn truncate_part(c: Fixed) -> (r: Fixed)
    ensures
        r == fx(whole(c@) * SCALE),
{
    if c.raw < 0 {
        ceil_f(c)
    } else {
        floor_f(c)
    }
}

/// Cuts each coordinate of `p` to its whole part.
pub fn truncate_parts(p: &mut Vec3)
    ensures
        *final(p) == truncate_parts_spec(*old(p)),
{
    p.x = truncate_part(p.x);
    p.y = truncate_part(p.y);
    p.z = truncate_part(p.z);
}

/// The perspective divide of one coordinate, guarded at depth zero.
pub fn perspective_divide(c: Fixed, dist: Fixed, z: Fixed) -> (r: Fixed)
    ensures
        r == perspective_spec(c, dist, z),
{
    let scaled = c.mul(dist);
    if z.raw == 0 {
        if scaled.raw > 0 {
            Fixed::from_raw(i64::MAX)
        } else if scaled.raw < 0 {
            Fixed::from_raw(i64::MIN)
        } else {
            Fixed::zero()
        }
    } else {
        scaled.div(z)
    }
}

/// Projects a camera-space vertex to the canvas.
///
/// A vertex at depth zero has no projection, and nothing is divided by its
/// depth: each of its coordinates is clamped to the end of the range on its
/// side before it is scaled to the canvas, so that the vertex lands as far
/// out as a canvas coordinate can be, or at zero where the coordinate is zero.
pub fn project_vertex(ctx: &GlobalCtx, v: Vec4) -> (p: Vec3)
    ensures
        p == project_vertex_spec(*ctx, v),
        v.z@ == 0 ==> p == viewport_to_canvas_spec(
            *ctx,
            fx(
                if prod(v.x@, ctx.viewport_dist@) > 0 {
                    i64::MAX as int
                } else if prod(v.x@, ctx.viewport_dist@) < 0 {
                    i64::MIN as int
                } else {
                    0
                },
            ),
            fx(
                if prod(v.y@, ctx.viewport_dist@) > 0 {
                    i64::MAX as int
                } else if prod(v.y@, ctx.viewport_dist@) < 0 {
                    i64::MIN as int
                } else {
                    0
                },
            ),
        ),
{
    let viewport_dist = get_viewport_dist(ctx);
    viewport_to_canvas(
        ctx,
        perspective_divide(v.x, viewport_dist, v.z),
        perspective_divide(v.y, viewport_dist, v.z),
    )
}

/// The rotation about the vertical axis by the angle with the given cosine
/// and sine.
pub open spec fn rotation_spec(cos: Fixed, sin: Fixed) -> Mat4x4 {
    let o = fx(SCALE as int);
    let z = fx(0);
    Mat4x4 {
        x_axis: Vec4 { x: cos, y: z, z: sin, w: z },
        y_axis: Vec4 { x: z, y: o, z: z, w: z },
        z_axis: Vec4 { x: fx(-sin@), y: z, z: cos, w: z },
        w_axis: Vec4 { x: z, y: z, z: z, w: o },
    }
}

/// The translation by `t`.
pub open spec fn translation_spec(t: Vec3) -> Mat4x4 {
    let o = fx(SCALE as int);
    let z = fx(0);
    Mat4x4 {
        x_axis: Vec4 { x: o, y: z, z: z, w: z },
        y_axis: Vec4 { x: z, y: o, z: z, w: z },
        z_axis: Vec4 { x: z, y: z, z: o, w: z },
        w_axis: Vec4 { x: t.x, y: t.y, z: t.z, w: o },
    }
}

/// The uniform scaling by `s`.
pub open spec fn scaling_spec(s: Fixed) -> Mat4x4 {
    let o = fx(SCALE as int);
    let z = fx(0);
    Mat4x4 {
        x_axis: Vec4 { x: s, y: z, z: z, w: z },
        y_axis: Vec4 { x: z, y: s, z: z, w: z },
        z_axis: Vec4 { x: z, y: z, z: s, w: z },
        w_axis: Vec4 { x: z, y: z, z: z, w: o },
    }
}

/// Builds the rotation about the vertical axis from the cosine and the sine of
/// its angle.
pub fn make_rotation_mat(cos: Fixed, sin: Fixed) -> (m: Mat4x4)
    ensures
        m == rotation_spec(cos, sin),
{
    let o = Fixed::one();
    let z = Fixed::zero();
    Mat4x4::from_cols(
        Vec4::new(cos, z, sin.neg(), z),
        Vec4::new(z, o, z, z),
        Vec4::new(sin, z, cos, z),
        Vec4::new(z, z, z, o),
    ).transpose()
}

/// Builds the translation by `translation`.
pub fn make_translation_mat(translation: Vec3) -> (m: Mat4x4)
    ensures
        m == translation_spec(translation),
{
    let o = Fixed::one();
    let z = Fixed::zero();
    Mat4x4::from_cols(
        Vec4::new(o, z, z, translation.x),
        Vec4::new(z, o, z, translation.y),
        Vec4::new(z, z, o, translation.z),
        Vec4::new(z, z, z, o),
    ).transpose()
}

/// Builds the uniform scaling by `scale`.
pub fn make_scaling_mat(scale: Fixed) -> (m: Mat4x4)
    ensures
        m == scaling_spec(scale),
{
    let o = Fixed::one();
    let z = Fixed::zero();
    Mat4x4::from_cols(
        Vec4::new(scale, z, z, z),
        Vec4::new(z, scale, z, z),
        Vec4::new(z, z, scale, z),
        Vec4::new(z, z, z, o),
    ).transpose()
}

/// The matrix times the vector.
pub fn mul_mv(mat: Mat4x4, vec: Vec4) -> (r: Vec4)
    ensures
        r == mul_mv_spec(mat, vec),
{
    mat.mul_vec4(vec)
}

/// The product of two matrices.
pub fn mul_mm(mat_a: Mat4x4, mat_b: Mat4x4) -> (r: Mat4x4)
    ensures
        r == mul_mm_spec(mat_a, mat_b),
{
    mat_a.mul_mat4(&mat_b)
}

} // verus!
