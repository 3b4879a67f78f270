//! The rasterizer: lines, depth-tested triangles, models and scenes.
use crate::camera::Camera;
use crate::clipping::{
    kept_pred, sphere_rejected, transform_and_clip, transformed_vertices,
};
use crate::color::{mul_color, mul_color_spec, Color24};
use crate::context::{get_canvas_dimensions, get_draw_outline, GlobalCtx};
use crate::data_types::{Instance, InstanceView, Model, Triangle};
use crate::fixed::{
    clamp, fx, lemma_trunc_div_error, lemma_trunc_div_monotonic, quot,
    whole, Fixed, INFINITY_RAW, SCALE,
};
use crate::image::{height_of, image_height, image_pixels, image_wf, image_width, set_pixel, width_of};
use crate::mat4::{mul_mm_spec, mul_mv_spec, transpose_spec, Mat4x4};
use crate::math::abs;
use crate::utils::{
    interpolate, interpolate_spec, make_translation_mat, map_to_pixels, mul_mm,
    project_vertex, project_vertex_spec, translation_spec, truncate_parts,
    truncate_parts_spec,
};
use crate::vec3::{
    cross, cross_spec, dot, dot_spec, point_spec, scaled_spec, sum_spec, truncate_spec, Vec3, Vec4,
};
use macroquad::texture::Image;
use vstd::prelude::*;

verus! {

/// What a render pass draws into: the pixels of the image, row by row, its
/// size, and the depth buffer.
pub struct Frame {
    pub pixels: Seq<(u8, u8, u8, u8)>,
    pub width: nat,
    pub height: nat,
    pub depth: Seq<Fixed>,
}

/// The frame made of an image and a depth buffer.
pub open spec fn frame_of(image: Image, depth: Seq<Fixed>) -> Frame {
    Frame {
        pixels: image_pixels(image),
        width: image_width(image),
        height: image_height(image),
        depth,
    }
}

/// The bytes of an opaque pixel of the given colour.
pub open spec fn rgba_of(c: Color24) -> (u8, u8, u8, u8) {
    (c.r, c.g, c.b, 255u8)
}

/// The index of the pixel at a position that counts from the centre of an
/// image, if the image has the position and the pixel list reaches it.
pub open spec fn pixel_at(width: nat, height: nat, len: int, x: int, y: int) -> Option<int> {
    let cx = x + width / 2;
    let cy = y + height / 2;
    if 0 <= cx < width && 0 <= cy < height && cy * width + cx < len {
        Some(cy * width + cx)
    } else {
        None
    }
}

/// The pixels after one pixel is set. A position without a pixel changes
/// nothing.
pub open spec fn put_pixel_spec(
    pixels: Seq<(u8, u8, u8, u8)>,
    width: nat,
    height: nat,
    x: int,
    y: int,
    color: Color24,
) -> Seq<(u8, u8, u8, u8)> {
    match pixel_at(width, height, pixels.len() as int, x, y) {
        Some(i) => pixels.update(i, rgba_of(color)),
        None => pixels,
    }
}

/// Sets the pixel at a position that counts from the centre of the image.
/// Positions outside the image are skipped.
pub fn put_pixel(image: &mut Image, x: i32, y: i32, color: Color24)
    requires
        image_wf(*old(image)),
    ensures
        image_wf(*final(image)),
        image_width(*final(image)) == image_width(*old(image)),
        image_height(*final(image)) == image_height(*old(image)),
        image_pixels(*final(image)) == put_pixel_spec(
            image_pixels(*old(image)),
            image_width(*old(image)),
            image_height(*old(image)),
            x as int,
            y as int,
            color,
        ),
{
    let width = width_of(image);
    let height = height_of(image);
    let (x_mapped, y_mapped) = map_to_pixels(x, y, width, height);
    if x_mapped >= width || y_mapped >= height {
        return;
    }
    assert(y_mapped * width + x_mapped < width * height) by (nonlinear_arith)
        requires
            0 <= x_mapped < width,
            0 <= y_mapped < height,
    ;
    set_pixel(image, x_mapped as u32, y_mapped as u32, color.r, color.g, color.b, 255);
}

/// The cell of the depth buffer for a position that counts from the centre of
/// the canvas, if the position has one. The buffer is laid out row by row as
/// the pixels of the canvas are, one cell to a pixel.
pub open spec fn depth_cell(ctx: GlobalCtx, len: int, x: int, y: int) -> Option<int> {
    let cx = ctx.width / 2 + x;
    let cy = ctx.height / 2 + y;
    let cell = cx + ctx.width * cy;
    if 0 <= cx < ctx.width && 0 <= cy < ctx.height && cell < len {
        Some(cell)
    } else {
        None
    }
}

/// Whether a surface with inverse depth `inv_z` is closer than what the cell
/// holds: the cell was never written, or holds a smaller inverse depth.
pub open spec fn is_closer(stored: Fixed, inv_z: Fixed) -> bool {
    stored@ == INFINITY_RAW || stored@ < inv_z@
}

/// Whether a fragment at the position passes the depth test.
pub open spec fn depth_hit(ctx: GlobalCtx, depth: Seq<Fixed>, x: int, y: int, inv_z: Fixed) -> bool {
    match depth_cell(ctx, depth.len() as int, x, y) {
        Some(cell) => is_closer(depth[cell], inv_z),
        None => false,
    }
}

/// The depth buffer after a fragment at the position was tested.
pub open spec fn depth_after(ctx: GlobalCtx, depth: Seq<Fixed>, x: int, y: int, inv_z: Fixed) -> Seq<
    Fixed,
> {
    match depth_cell(ctx, depth.len() as int, x, y) {
        Some(cell) => if is_closer(depth[cell], inv_z) {
            depth.update(cell, inv_z)
        } else {
            depth
        },
        None => depth,
    }
}

/// Tests a fragment against the depth buffer, and records it if it is closer.
/// A position outside the canvas, or without a cell in the buffer, fails the
/// test and changes nothing.
pub fn update_depth_buffer_is_closer(
    ctx: &GlobalCtx,
    depth_buf: &mut Vec<Fixed>,
    x: isize,
    y: isize,
    inv_z: Fixed,
) -> (closer: bool)
    ensures
        closer == depth_hit(*ctx, old(depth_buf)@, x as int, y as int, inv_z),
        final(depth_buf)@ == depth_after(*ctx, old(depth_buf)@, x as int, y as int, inv_z),
{
    let (width, height) = get_canvas_dimensions(ctx);
    let canv_x: i128 = (width / 2) as i128 + x as i128;
    let canv_y: i128 = (height / 2) as i128 + y as i128;
    if canv_x < 0 || canv_x >= width as i128 || canv_y < 0 || canv_y >= height as i128 {
        return false;
    }
    assert(0 <= width * canv_y <= 0xffff_ffff_ffff_ffff * 0xffff_ffff_ffff_ffff) by (nonlinear_arith)
        requires
            0 <= width <= 0xffff_ffff_ffff_ffff,
            0 <= canv_y <= 0xffff_ffff_ffff_ffff,
    ;
    let cell: u128 = canv_x as u128 + (width as u128) * (canv_y as u128);
    if cell >= depth_buf.len() as u128 {
        return false;
    }
    let offset = cell as usize;
    let stored = depth_buf[offset];
    if stored.raw == INFINITY_RAW || stored.raw < inv_z.raw {
        depth_buf[offset] = inv_z;
        return true;
    }
    false
}

/// The frame after one fragment: if the fragment passes the depth test, its
/// inverse depth is recorded and its pixel takes the colour.
pub open spec fn plot_spec(f: Frame, ctx: GlobalCtx, x: int, y: int, inv_z: Fixed, color: Color24) -> Frame {
    if depth_hit(ctx, f.depth, x, y, inv_z) {
        Frame {
            pixels: put_pixel_spec(f.pixels, f.width, f.height, x, y, color),
            width: f.width,
            height: f.height,
            depth: depth_after(ctx, f.depth, x, y, inv_z),
        }
    } else {
        f
    }
}

/// The key of the vertex with position `i` in the triangle: the first,
/// second or third of the three.
pub open spec fn key_at(y0: int, y1: int, y2: int, i: int) -> int {
    if i == 0 {
        y0
    } else if i == 1 {
        y1
    } else {
        y2
    }
}

/// Whether `(a, b, c)` lists the positions 0, 1 and 2 by ascending key, with
/// equal keys in their first order. Exactly one triple does.
pub open spec fn is_stable_order(y0: int, y1: int, y2: int, a: int, b: int, c: int) -> bool {
    &&& 0 <= a < 3 && 0 <= b < 3 && 0 <= c < 3
    &&& a != b && b != c && a != c
    &&& key_at(y0, y1, y2, a) <= key_at(y0, y1, y2, b) <= key_at(y0, y1, y2, c)
    &&& key_at(y0, y1, y2, a) == key_at(y0, y1, y2, b) ==> a < b
    &&& key_at(y0, y1, y2, b) == key_at(y0, y1, y2, c) ==> b < c
}

/// The positions 0, 1 and 2 by ascending key, equal keys in their first order.
pub open spec fn sorted_indices_spec(y0: int, y1: int, y2: int) -> (int, int, int) {
    if y0 <= y1 {
        if y1 <= y2 {
            (0, 1, 2)
        } else if y0 <= y2 {
            (0, 2, 1)
        } else {
            (2, 0, 1)
        }
    } else {
        if y0 <= y2 {
            (1, 0, 2)
        } else if y1 <= y2 {
            (1, 2, 0)
        } else {
            (2, 1, 0)
        }
    }
}

/// The order that `sorted_indices_spec` gives is the stable order, and no
/// other triple is.
pub proof fn lemma_sorted_indices_stable(y0: int, y1: int, y2: int, a: int, b: int, c: int)
    ensures
        is_stable_order(y0, y1, y2, a, b, c) <==> (a, b, c) == sorted_indices_spec(y0, y1, y2),
{
}

/// Orders the three vertices of a triangle by the height of their projected
/// points, lowest first. The result lists positions within the triangle, not
/// vertex indices; vertices of equal height keep their order.
pub fn sorted_vertex_indicies(triangle: &Triangle, projected: &Vec<Vec3>) -> (ind: [usize; 3])
    requires
        triangle.indices_below(projected@.len() as int),
    ensures
        (ind[0] as int, ind[1] as int, ind[2] as int) == sorted_indices_spec(
            projected@[triangle.ind[0] as int].y@,
            projected@[triangle.ind[1] as int].y@,
            projected@[triangle.ind[2] as int].y@,
        ),
        is_stable_order(
            projected@[triangle.ind[0] as int].y@,
            projected@[triangle.ind[1] as int].y@,
            projected@[triangle.ind[2] as int].y@,
            ind[0] as int,
            ind[1] as int,
            ind[2] as int,
        ),
{
    let mut ind: [usize; 3] = [0, 1, 2];
    if projected[triangle.ind[ind[1]]].y.raw < projected[triangle.ind[ind[0]]].y.raw {
        let swap = ind[0];
        ind[0] = ind[1];
        ind[1] = swap;
    }
    if projected[triangle.ind[ind[2]]].y.raw < projected[triangle.ind[ind[1]]].y.raw {
        let swap = ind[1];
        ind[1] = ind[2];
        ind[2] = swap;
    }
    if projected[triangle.ind[ind[1]]].y.raw < projected[triangle.ind[ind[0]]].y.raw {
        let swap = ind[0];
        ind[0] = ind[1];
        ind[1] = swap;
    }
    ind
}

/// The normal of a triangle: the cross product of its edges from the first
/// vertex to the second and to the third.
pub open spec fn triangle_normal_spec(v0: Vec3, v1: Vec3, v2: Vec3) -> Vec3 {
    let back = scaled_spec(v0, fx(-(SCALE as int)));
    cross_spec(sum_spec(v1, back), sum_spec(v2, back))
}

/// The direction from a triangle to the eye, which sits at the origin: minus
/// one third of the sum of the vertices.
pub open spec fn to_eye_spec(v0: Vec3, v1: Vec3, v2: Vec3) -> Vec3 {
    scaled_spec(sum_spec(sum_spec(v0, v1), v2), fx(quot(-(SCALE as int), 3 * SCALE)))
}

/// Whether a triangle faces away from the eye: its normal points away from
/// the direction to the eye.
pub open spec fn back_facing_spec(v0: Vec3, v1: Vec3, v2: Vec3) -> bool {
    dot_spec(to_eye_spec(v0, v1, v2), triangle_normal_spec(v0, v1, v2))@ < 0
}

/// The normal of the triangle with the given camera-space vertices.
pub fn compute_triangle_normal(v0: Vec3, v1: Vec3, v2: Vec3) -> (n: Vec3)
    ensures
        n == triangle_normal_spec(v0, v1, v2),
{
    let minus_one = Fixed::one().neg();
    let v0_v1 = v1.plus(v0.times(minus_one));
    let v0_v2 = v2.plus(v0.times(minus_one));
    cross(&v0_v1, &v0_v2)
}

/// Whether the triangle with the given camera-space vertices faces away from
/// the eye and is not to be drawn.
pub fn back_facing(v0: Vec3, v1: Vec3, v2: Vec3) -> (b: bool)
    ensures
        b == back_facing_spec(v0, v1, v2),
{
    let normal = compute_triangle_normal(v0, v1, v2);
    let center = v0.plus(v1).plus(v2).times(Fixed::from_ratio(-1, 3));
    dot(&center, &normal).raw < 0
}

/// A sequence without its last entry; an empty sequence stays empty.
pub open spec fn without_last(s: Seq<Fixed>) -> Seq<Fixed> {
    if s.len() > 0 {
        s.drop_last()
    } else {
        s
    }
}

/// The values of an attribute along the two sides of a triangle whose
/// vertices are ordered by height: first along the long edge from the lowest
/// vertex to the highest, then along the two short edges through the middle
/// vertex, which is counted once.
pub open spec fn edge_interpolate_spec(
    y0: Fixed,
    v0: Fixed,
    y1: Fixed,
    v1: Fixed,
    y2: Fixed,
    v2: Fixed,
) -> (Seq<Fixed>, Seq<Fixed>) {
    (
        interpolate_spec(y0, v0, y2, v2),
        without_last(interpolate_spec(y0, v0, y1, v1)) + interpolate_spec(y1, v1, y2, v2),
    )
}

/// Interpolates an attribute along the long edge and along the two short
/// edges of a triangle.
pub fn edge_interpolate(y0: Fixed, v0: Fixed, y1: Fixed, v1: Fixed, y2: Fixed, v2: Fixed) -> (r: (
    Vec<Fixed>,
    Vec<Fixed>,
))
    ensures
        (r.0@, r.1@) == edge_interpolate_spec(y0, v0, y1, v1, y2, v2),
{
    let mut v01 = interpolate(y0, v0, y1, v1);
    let mut v12 = interpolate(y1, v1, y2, v2);
    let v02 = interpolate(y0, v0, y2, v2);
    v01.pop();
    v01.append(&mut v12);
    (v02, v01)
}

/// With the heights in ascending order, both sides of a triangle have one
/// value for each scanline from the lowest vertex to the highest.
pub proof fn lemma_edge_lengths(y0: Fixed, v0: Fixed, y1: Fixed, v1: Fixed, y2: Fixed, v2: Fixed)
    requires
        y0@ <= y1@ <= y2@,
    ensures
        edge_interpolate_spec(y0, v0, y1, v1, y2, v2).0.len() == whole(y2@) - whole(y0@) + 1,
        edge_interpolate_spec(y0, v0, y1, v1, y2, v2).1.len() == whole(y2@) - whole(y0@) + 1,
        whole(y0@) <= whole(y2@),
{
    lemma_trunc_div_monotonic(y0@, y1@, SCALE as int);
    lemma_trunc_div_monotonic(y1@, y2@, SCALE as int);
}

/// The frame after the first `n` fragments of a span: the fragments lie on
/// scanline `y`, one for each column from `x_start` on, and fragment `k` has
/// the inverse depth `z_scan[k]`.
pub open spec fn fill_span(
    f: Frame,
    ctx: GlobalCtx,
    y: int,
    x_start: int,
    z_scan: Seq<Fixed>,
    color: Color24,
    n: nat,
) -> Frame
    decreases n,
{
    if n == 0 {
        f
    } else {
        plot_spec(
            fill_span(f, ctx, y, x_start, z_scan, color, (n - 1) as nat),
            ctx,
            x_start + n - 1,
            y,
            z_scan[n - 1],
            color,
        )
    }
}

/// The inverse depths across scanline `k` of a triangle, from its left side to
/// its right side.
pub open spec fn scan_depths(
    x_left: Seq<Fixed>,
    x_right: Seq<Fixed>,
    iz_left: Seq<Fixed>,
    iz_right: Seq<Fixed>,
    k: int,
) -> Seq<Fixed> {
    interpolate_spec(x_left[k], iz_left[k], x_right[k], iz_right[k])
}

/// The frame after the first `n` scanlines of a triangle were filled. Scanline
/// `k` lies at height `y_start + k` and spans the columns from the whole part
/// of `x_left[k]` to the whole part of `x_right[k]`.
pub open spec fn fill_rows(
    f: Frame,
    ctx: GlobalCtx,
    y_start: int,
    x_left: Seq<Fixed>,
    x_right: Seq<Fixed>,
    iz_left: Seq<Fixed>,
    iz_right: Seq<Fixed>,
    color: Color24,
    n: nat,
) -> Frame
    decreases n,
{
    if n == 0 {
        f
    } else {
        let k = n - 1;
        let z_scan = scan_depths(x_left, x_right, iz_left, iz_right, k);
        fill_span(
            fill_rows(f, ctx, y_start, x_left, x_right, iz_left, iz_right, color, k as nat),
            ctx,
            y_start + k,
            whole(x_left[k]@),
            z_scan,
            color,
            z_scan.len(),
        )
    }
}

/// Fills one span of fragments, testing each against the depth buffer.
fn fill_scanline(
    ctx: &GlobalCtx,
    image: &mut Image,
    depth_buf: &mut Vec<Fixed>,
    y: i32,
    x_start: i32,
    z_scan: &Vec<Fixed>,
    color: Color24,
)
    requires
        image_wf(*old(image)),
        x_start + z_scan@.len() <= 0x8000_0000,
    ensures
        image_wf(*final(image)),
        image_width(*final(image)) == image_width(*old(image)),
        image_height(*final(image)) == image_height(*old(image)),
        final(depth_buf)@.len() == old(depth_buf)@.len(),
        frame_of(*final(image), final(depth_buf)@) == fill_span(
            frame_of(*old(image), old(depth_buf)@),
            *ctx,
            y as int,
            x_start as int,
            z_scan@,
            color,
            z_scan@.len(),
        ),
{
    let ghost start = frame_of(*image, depth_buf@);
    let mut j: usize = 0;
    while j < z_scan.len()
        invariant
            j <= z_scan@.len(),
            x_start + z_scan@.len() <= 0x8000_0000,
            image_wf(*image),
            image_width(*image) == image_width(*old(image)),
            image_height(*image) == image_height(*old(image)),
            depth_buf@.len() == old(depth_buf)@.len(),
            frame_of(*image, depth_buf@) == fill_span(
                start,
                *ctx,
                y as int,
                x_start as int,
                z_scan@,
                color,
                j as nat,
            ),
        decreases z_scan@.len() - j,
    {
        let x: i32 = (x_start as i64 + j as i64) as i32;
        if update_depth_buffer_is_closer(ctx, depth_buf, x as isize, y as isize, z_scan[j]) {
            put_pixel(image, x, y, color);
        }
        j = j + 1;
    }
}

/// Which interpolated value belongs to step `i` of a line that starts at
/// `origin`: the whole part of the distance from the origin, and the first
/// value where that is negative.
pub open spec fn line_index(i: int, origin: Fixed) -> int {
    let d = whole(fx(i * SCALE - origin@)@);
    if d < 0 {
        0
    } else {
        d
    }
}

/// The pixels after the first `n` steps of a line. Step `k` lies at
/// `start + k` along the line's main axis; across, it lies at the whole part
/// of the interpolated value that belongs to it. A line that runs mainly
/// sideways has the columns as its main axis, another one the rows.
pub open spec fn plot_run(
    pixels: Seq<(u8, u8, u8, u8)>,
    width: nat,
    height: nat,
    sideways: bool,
    start: int,
    origin: Fixed,
    vals: Seq<Fixed>,
    color: Color24,
    n: nat,
) -> Seq<(u8, u8, u8, u8)>
    decreases n,
{
    if n == 0 {
        pixels
    } else {
        let prev = plot_run(
            pixels,
            width,
            height,
            sideways,
            start,
            origin,
            vals,
            color,
            (n - 1) as nat,
        );
        let along = start + n - 1;
        let across = whole(vals[line_index(along, origin)]@);
        if sideways {
            put_pixel_spec(prev, width, height, along, across, color)
        } else {
            put_pixel_spec(prev, width, height, across, along, color)
        }
    }
}

/// The pixels after a line from `p0` to `p1` was drawn. The line runs along
/// the axis in which its ends differ more, from the end with the smaller
/// coordinate to the other, and has one pixel for each whole step.
pub open spec fn draw_line_spec(
    pixels: Seq<(u8, u8, u8, u8)>,
    width: nat,
    height: nat,
    p0: Vec3,
    p1: Vec3,
    color: Color24,
) -> Seq<(u8, u8, u8, u8)> {
    let dx = fx(p1.x@ - p0.x@);
    let dy = fx(p1.y@ - p0.y@);
    if magnitude(dx)@ > magnitude(dy)@ {
        let a = if p0.x@ > p1.x@ {
            p1
        } else {
            p0
        };
        let b = if p0.x@ > p1.x@ {
            p0
        } else {
            p1
        };
        let ys = interpolate_spec(a.x, a.y, b.x, b.y);
        plot_run(pixels, width, height, true, whole(a.x@), a.x, ys, color, ys.len())
    } else {
        let a = if p0.y@ > p1.y@ {
            p1
        } else {
            p0
        };
        let b = if p0.y@ > p1.y@ {
            p0
        } else {
            p1
        };
        let xs = interpolate_spec(a.y, a.x, b.y, b.x);
        plot_run(pixels, width, height, false, whole(a.y@), a.y, xs, color, xs.len())
    }
}

/// The magnitude of a number, clamped.
pub open spec fn magnitude(a: Fixed) -> Fixed {
    fx(if a@ < 0 {
        -a@
    } else {
        a@
    })
}

/// Step `k` of a line uses one of the first `k + 1` interpolated values.
proof fn lemma_line_index(origin: Fixed, k: int)
    requires
        k >= 0,
    ensures
        0 <= line_index(whole(origin@) + k, origin) <= k,
{
    lemma_trunc_div_error(origin@, SCALE as int);
    let w = whole(origin@);
    let v = (w + k) * SCALE - origin@;
    let c = clamp(v);
    assert(v < (k + 1) * SCALE);
    if c >= 0 {
        assert(c <= v);
        assert(c / (SCALE as int) <= k);
    }
}

/// Sets one pixel for each interpolated value of a line, along the columns
/// or along the rows.
fn draw_run(
    image: &mut Image,
    sideways: bool,
    origin: Fixed,
    vals: &Vec<Fixed>,
    color: Color24,
)
    requires
        image_wf(*old(image)),
        whole(origin@) + vals@.len() <= 0x8000_0000,
    ensures
        image_wf(*final(image)),
        image_width(*final(image)) == image_width(*old(image)),
        image_height(*final(image)) == image_height(*old(image)),
        image_pixels(*final(image)) == plot_run(
            image_pixels(*old(image)),
            image_width(*old(image)),
            image_height(*old(image)),
            sideways,
            whole(origin@),
            origin,
            vals@,
            color,
            vals@.len(),
        ),
{
    let ghost before = image_pixels(*image);
    let start: i32 = origin.trunc();
    let mut k: usize = 0;
    while k < vals.len()
        invariant
            k <= vals@.len(),
            start == whole(origin@),
            start + vals@.len() <= 0x8000_0000,
            image_wf(*image),
            image_width(*image) == image_width(*old(image)),
            image_height(*image) == image_height(*old(image)),
            image_pixels(*image) == plot_run(
                before,
                image_width(*old(image)),
                image_height(*old(image)),
                sideways,
                start as int,
                origin,
                vals@,
                color,
                k as nat,
            ),
        decreases vals@.len() - k,
    {
        let along: i32 = (start as i64 + k as i64) as i32;
        let offset: i32 = Fixed::from_int(along).sub(origin).trunc();
        let index: usize = if offset < 0 {
            0
        } else {
            offset as usize
        };
        proof {
            lemma_line_index(origin, k as int);
        }
        let across: i32 = vals[index].trunc();
        if sideways {
            put_pixel(image, along, across, color);
        } else {
            put_pixel(image, across, along, color);
        }
        k = k + 1;
    }
}

/// Draws a line between two points of the canvas.
pub fn draw_line(image: &mut Image, p0: Vec3, p1: Vec3, color: Color24)
    requires
        image_wf(*old(image)),
    ensures
        image_wf(*final(image)),
        image_width(*final(image)) == image_width(*old(image)),
        image_height(*final(image)) == image_height(*old(image)),
        image_pixels(*final(image)) == draw_line_spec(
            image_pixels(*old(image)),
            image_width(*old(image)),
            image_height(*old(image)),
            p0,
            p1,
            color,
        ),
{
    let dx = p1.x.sub(p0.x);
    let dy = p1.y.sub(p0.y);
    if abs(dx).gt(abs(dy)) {
        let swap = p0.x.gt(p1.x);
        let a = if swap {
            p1
        } else {
            p0
        };
        let b = if swap {
            p0
        } else {
            p1
        };
        let ys = interpolate(a.x, a.y, b.x, b.y);
        proof {
            lemma_trunc_div_monotonic(a.x@, b.x@, SCALE as int);
        }
        draw_run(image, true, a.x, &ys, color);
    } else {
        let swap = p0.y.gt(p1.y);
        let a = if swap {
            p1
        } else {
            p0
        };
        let b = if swap {
            p0
        } else {
            p1
        };
        let xs = interpolate(a.y, a.x, b.y, b.x);
        proof {
            lemma_trunc_div_monotonic(a.y@, b.y@, SCALE as int);
        }
        draw_run(image, false, a.y, &xs, color);
    }
}

/// The inverse of a depth; the inverse of depth zero is infinite.
pub open spec fn inverse_spec(z: Fixed) -> Fixed {
    fx(quot(SCALE as int, z@))
}

/// The frame with the three edges of a triangle drawn over it.
pub open spec fn outline_spec(f: Frame, p0: Vec3, p1: Vec3, p2: Vec3, color: Color24) -> Frame {
    let first = draw_line_spec(f.pixels, f.width, f.height, p0, p1, color);
    let second = draw_line_spec(first, f.width, f.height, p0, p2, color);
    let third = draw_line_spec(second, f.width, f.height, p2, p1, color);
    Frame { pixels: third, width: f.width, height: f.height, depth: f.depth }
}

/// The factor by which the outline of a triangle is darker than its face:
/// three quarters.
pub open spec fn outline_shade() -> Fixed {
    fx(quot(3 * SCALE, 4 * SCALE))
}

/// The two sides of a triangle on the canvas: the height of its lowest
/// scanline, and for each scanline the column and the inverse depth where the
/// triangle begins and where it ends.
pub struct Sides {
    pub y_start: int,
    pub x_left: Seq<Fixed>,
    pub x_right: Seq<Fixed>,
    pub iz_left: Seq<Fixed>,
    pub iz_right: Seq<Fixed>,
}

/// The projected corners of a triangle, ordered by height.
pub open spec fn sorted_corners(t: Triangle, projected: Seq<Vec3>) -> (int, int, int) {
    let order = sorted_indices_spec(
        projected[t.ind[0] as int].y@,
        projected[t.ind[1] as int].y@,
        projected[t.ind[2] as int].y@,
    );
    (t.ind[order.0] as int, t.ind[order.1] as int, t.ind[order.2] as int)
}

/// The sides of a triangle whose corners are ordered by height: `p0`, `p1`
/// and `p2` are its projected corners from the lowest to the highest, and
/// `z0`, `z1` and `z2` their depths. The columns and inverse depths are
/// interpolated along the long edge and along the two short edges, and the
/// side with the smaller column at the middle scanline is the left one.
pub open spec fn sides_of(p0: Vec3, p1: Vec3, p2: Vec3, z0: Fixed, z1: Fixed, z2: Fixed) -> Sides {
    let x = edge_interpolate_spec(p0.y, p0.x, p1.y, p1.x, p2.y, p2.x);
    let iz = edge_interpolate_spec(
        p0.y,
        inverse_spec(z0),
        p1.y,
        inverse_spec(z1),
        p2.y,
        inverse_spec(z2),
    );
    let m = (x.0.len() / 2) as int;
    if x.0[m]@ < x.1[m]@ {
        Sides { y_start: whole(p0.y@), x_left: x.0, x_right: x.1, iz_left: iz.0, iz_right: iz.1 }
    } else {
        Sides { y_start: whole(p0.y@), x_left: x.1, x_right: x.0, iz_left: iz.1, iz_right: iz.0 }
    }
}

/// The sides of a triangle of a model: its vertices are ordered by the height
/// of their projected points, and the sides are those of the ordered corners.
pub open spec fn triangle_sides(t: Triangle, verts: Seq<Vec3>, projected: Seq<Vec3>) -> Sides {
    let (i0, i1, i2) = sorted_corners(t, projected);
    sides_of(
        projected[i0],
        projected[i1],
        projected[i2],
        verts[i0].z,
        verts[i1].z,
        verts[i2].z,
    )
}

/// The frame after a triangle was drawn.
///
/// A triangle that faces away from the eye changes nothing. Otherwise every
/// scanline between its sides is filled from left to right under the depth
/// test, and with outlines switched on the three edges are drawn on top in a
/// darker shade.
#[verifier::opaque]
pub open spec fn render_triangle_spec(
    f: Frame,
    ctx: GlobalCtx,
    t: Triangle,
    verts: Seq<Vec3>,
    projected: Seq<Vec3>,
) -> Frame {
    let u0 = verts[t.ind[0] as int];
    let u1 = verts[t.ind[1] as int];
    let u2 = verts[t.ind[2] as int];
    if back_facing_spec(u0, u1, u2) {
        f
    } else {
        let s = triangle_sides(t, verts, projected);
        let filled = fill_rows(
            f,
            ctx,
            s.y_start,
            s.x_left,
            s.x_right,
            s.iz_left,
            s.iz_right,
            t.color,
            s.x_left.len(),
        );
        if ctx.draw_outline {
            let (i0, i1, i2) = sorted_corners(t, projected);
            outline_spec(
                filled,
                projected[i0],
                projected[i1],
                projected[i2],
                mul_color_spec(t.color, outline_shade()),
            )
        } else {
            filled
        }
    }
}

/// Fills the scanlines of a triangle between its two sides.
fn fill_triangle(
    ctx: &GlobalCtx,
    image: &mut Image,
    depth_buf: &mut Vec<Fixed>,
    y_start: i32,
    x_left: &Vec<Fixed>,
    x_right: &Vec<Fixed>,
    iz_left: &Vec<Fixed>,
    iz_right: &Vec<Fixed>,
    color: Color24,
)
    requires
        image_wf(*old(image)),
        y_start + x_left@.len() <= 0x8000_0000,
        x_right@.len() == x_left@.len(),
        iz_left@.len() == x_left@.len(),
        iz_right@.len() == x_left@.len(),
    ensures
        image_wf(*final(image)),
        image_width(*final(image)) == image_width(*old(image)),
        image_height(*final(image)) == image_height(*old(image)),
        final(depth_buf)@.len() == old(depth_buf)@.len(),
        frame_of(*final(image), final(depth_buf)@) == fill_rows(
            frame_of(*old(image), old(depth_buf)@),
            *ctx,
            y_start as int,
            x_left@,
            x_right@,
            iz_left@,
            iz_right@,
            color,
            x_left@.len(),
        ),
{
    let ghost start = frame_of(*image, depth_buf@);
    let mut k: usize = 0;
    while k < x_left.len()
        invariant
            k <= x_left@.len(),
            y_start + x_left@.len() <= 0x8000_0000,
            x_right@.len() == x_left@.len(),
            iz_left@.len() == x_left@.len(),
            iz_right@.len() == x_left@.len(),
            image_wf(*image),
            image_width(*image) == image_width(*old(image)),
            image_height(*image) == image_height(*old(image)),
            depth_buf@.len() == old(depth_buf)@.len(),
            frame_of(*image, depth_buf@) == fill_rows(
                start,
                *ctx,
                y_start as int,
                x_left@,
                x_right@,
                iz_left@,
                iz_right@,
                color,
                k as nat,
            ),
        decreases x_left@.len() - k,
    {
        let y: i32 = (y_start as i64 + k as i64) as i32;
        let xl = x_left[k];
        let xr = x_right[k];
        let z_scan = interpolate(xl, iz_left[k], xr, iz_right[k]);
        fill_scanline(ctx, image, depth_buf, y, xl.trunc(), &z_scan, color);
        k = k + 1;
    }
}

/// Draws one triangle of a model: culls it if it faces away, fills it under
/// the depth test, and outlines it if outlines are switched on. `verticies`
/// holds the camera-space vertices and `projected` their canvas positions.
pub fn render_triangle(
    ctx: &GlobalCtx,
    image: &mut Image,
    triangle: &Triangle,
    verticies: &Vec<Vec3>,
    projected: &Vec<Vec3>,
    depth_buf: &mut Vec<Fixed>,
)
    requires
        image_wf(*old(image)),
        triangle.indices_below(verticies@.len() as int),
        triangle.indices_below(projected@.len() as int),
    ensures
        image_wf(*final(image)),
        image_width(*final(image)) == image_width(*old(image)),
        image_height(*final(image)) == image_height(*old(image)),
        final(depth_buf)@.len() == old(depth_buf)@.len(),
        frame_of(*final(image), final(depth_buf)@) == render_triangle_spec(
            frame_of(*old(image), old(depth_buf)@),
            *ctx,
            *triangle,
            verticies@,
            projected@,
        ),
{
    proof {
        reveal(render_triangle_spec);
    }
    let unsorted = triangle.ind;
    if back_facing(verticies[unsorted[0]], verticies[unsorted[1]], verticies[unsorted[2]]) {
        return;
    }
    let indicies = sorted_vertex_indicies(triangle, projected);
    let i0 = indicies[0];
    let i1 = indicies[1];
    let i2 = indicies[2];
    let v0 = verticies[unsorted[i0]];
    let v1 = verticies[unsorted[i1]];
    let v2 = verticies[unsorted[i2]];
    let p0 = projected[unsorted[i0]];
    let p1 = projected[unsorted[i1]];
    let p2 = projected[unsorted[i2]];
    let one = Fixed::one();
    let (x02, x012) = edge_interpolate(p0.y, p0.x, p1.y, p1.x, p2.y, p2.x);
    let (iz02, iz012) = edge_interpolate(
        p0.y,
        one.div(v0.z),
        p1.y,
        one.div(v1.z),
        p2.y,
        one.div(v2.z),
    );
    proof {
        lemma_edge_lengths(p0.y, p0.x, p1.y, p1.x, p2.y, p2.x);
        lemma_edge_lengths(
            p0.y,
            inverse_spec(v0.z),
            p1.y,
            inverse_spec(v1.z),
            p2.y,
            inverse_spec(v2.z),
        );
    }
    let m = x02.len() / 2;
    let start = p0.y.trunc();
    if x02[m].lt(x012[m]) {
        fill_triangle(ctx, image, depth_buf, start, &x02, &x012, &iz02, &iz012, triangle.color);
    } else {
        fill_triangle(ctx, image, depth_buf, start, &x012, &x02, &iz012, &iz02, triangle.color);
    }
    if get_draw_outline(ctx) {
        let outline_color = mul_color(&triangle.color, Fixed::from_ratio(3, 4));
        draw_line(image, p0, p1, outline_color);
        draw_line(image, p0, p2, outline_color);
        draw_line(image, p2, p1, outline_color);
    }
}

/// The canvas position of a camera-space vertex, cut to whole pixels.
pub open spec fn project_point_spec(ctx: GlobalCtx, v: Vec3) -> Vec3 {
    truncate_parts_spec(project_vertex_spec(ctx, point_spec(v)))
}

/// The canvas positions of the vertices of a model.
pub open spec fn projected_spec(ctx: GlobalCtx, verts: Seq<Vec3>) -> Seq<Vec3> {
    Seq::new(verts.len(), |i: int| project_point_spec(ctx, verts[i]))
}

/// The frame after the first `n` triangles were drawn, in their order.
pub open spec fn render_triangles_spec(
    f: Frame,
    ctx: GlobalCtx,
    tris: Seq<Triangle>,
    verts: Seq<Vec3>,
    projected: Seq<Vec3>,
    n: nat,
) -> Frame
    decreases n,
{
    if n == 0 {
        f
    } else {
        render_triangle_spec(
            render_triangles_spec(f, ctx, tris, verts, projected, (n - 1) as nat),
            ctx,
            tris[n - 1],
            verts,
            projected,
        )
    }
}

/// The frame after a model in camera space was drawn: its vertices are
/// projected, then its triangles are drawn in their order.
pub open spec fn render_model_spec(f: Frame, ctx: GlobalCtx, tris: Seq<Triangle>, verts: Seq<Vec3>) -> Frame {
    render_triangles_spec(f, ctx, tris, verts, projected_spec(ctx, verts), tris.len())
}

/// Projects the camera-space vertices of a model to whole canvas positions.
pub fn project_vertices(ctx: &GlobalCtx, verticies: &Vec<Vec3>) -> (projected: Vec<Vec3>)
    ensures
        projected@ == projected_spec(*ctx, verticies@),
{
    let mut projected: Vec<Vec3> = Vec::new();
    let mut i: usize = 0;
    while i < verticies.len()
        invariant
            i <= verticies@.len(),
            projected@.len() == i,
            forall|k: int|
                0 <= k < i ==> projected@[k] == project_point_spec(*ctx, verticies@[k]),
        decreases verticies@.len() - i,
    {
        let mut p_v = project_vertex(ctx, Vec4::from_point(verticies[i]));
        truncate_parts(&mut p_v);
        projected.push(p_v);
        i = i + 1;
    }
    assert(projected@ =~= projected_spec(*ctx, verticies@));
    projected
}

/// Draws a model whose vertices are in camera space.
pub fn render_model(ctx: &GlobalCtx, image: &mut Image, model: Model, depth_buf: &mut Vec<Fixed>)
    requires
        image_wf(*old(image)),
        model.wf(),
    ensures
        image_wf(*final(image)),
        image_width(*final(image)) == image_width(*old(image)),
        image_height(*final(image)) == image_height(*old(image)),
        final(depth_buf)@.len() == old(depth_buf)@.len(),
        frame_of(*final(image), final(depth_buf)@) == render_model_spec(
            frame_of(*old(image), old(depth_buf)@),
            *ctx,
            model.triangles@,
            model.verticies@,
        ),
{
    let ghost start = frame_of(*image, depth_buf@);
    let projected = project_vertices(ctx, &model.verticies);
    let mut t: usize = 0;
    while t < model.triangles.len()
        invariant
            t <= model.triangles@.len(),
            model.wf(),
            projected@ == projected_spec(*ctx, model.verticies@),
            image_wf(*image),
            image_width(*image) == image_width(*old(image)),
            image_height(*image) == image_height(*old(image)),
            depth_buf@.len() == old(depth_buf)@.len(),
            frame_of(*image, depth_buf@) == render_triangles_spec(
                start,
                *ctx,
                model.triangles@,
                model.verticies@,
                projected@,
                t as nat,
            ),
        decreases model.triangles@.len() - t,
    {
        assert(model@.triangles[t as int].indices_below(model@.verticies.len() as int));
        render_triangle(ctx, image, &model.triangles[t], &model.verticies, &projected, depth_buf);
        t = t + 1;
    }
}

/// The matrix that takes world space to camera space: the camera's turn
/// undone, after its move undone.
pub open spec fn camera_view_matrix_spec(cam: Camera) -> Mat4x4 {
    mul_mm_spec(
        transpose_spec(cam.orientation),
        translation_spec(scaled_spec(cam.pos, fx(-(SCALE as int)))),
    )
}

/// The matrix that takes the model space of an instance to camera space.
pub open spec fn combined_transform_spec(cam: Camera, instance_transform: Mat4x4) -> Mat4x4 {
    mul_mm_spec(camera_view_matrix_spec(cam), instance_transform)
}

/// The matrix that takes world space to camera space.
pub fn camera_view_matrix(cam: &Camera) -> (m: Mat4x4)
    ensures
        m == camera_view_matrix_spec(*cam),
{
    mul_mm(cam.orientation.transpose(), make_translation_mat(cam.pos.times(Fixed::one().neg())))
}

/// The matrix that takes the model space of an instance straight to camera
/// space.
pub fn combined_transform(cam: &Camera, instance: &Instance) -> (m: Mat4x4)
    ensures
        m == combined_transform_spec(*cam, instance.transform),
{
    mul_mm(camera_view_matrix(cam), instance.transform)
}

/// The frame after one instance was drawn. An instance whose bounding sphere
/// is rejected changes nothing; of another one the triangles that lie inside
/// all planes of the camera are drawn.
pub open spec fn render_instance_spec(f: Frame, ctx: GlobalCtx, cam: Camera, inst: InstanceView) -> Frame {
    let transform = combined_transform_spec(cam, inst.transform);
    let planes = cam.clipping_planes@;
    let center = truncate_spec(mul_mv_spec(transform, inst.model.bounds_center));
    if sphere_rejected(planes, center, inst.model.bounds_radius) {
        f
    } else {
        let verts = transformed_vertices(transform, inst.model.verticies);
        let tris = inst.model.triangles.filter(kept_pred(planes, planes.len() as int, verts));
        render_model_spec(f, ctx, tris, verts)
    }
}

/// What a list of instances holds.
pub open spec fn instance_views(instances: Seq<Instance>) -> Seq<InstanceView> {
    Seq::new(instances.len(), |i: int| instances[i]@)
}

/// The frame after the first `n` instances were drawn, in their order.
pub open spec fn render_scene_spec(
    f: Frame,
    ctx: GlobalCtx,
    cam: Camera,
    instances: Seq<InstanceView>,
    n: nat,
) -> Frame
    decreases n,
{
    if n == 0 {
        f
    } else {
        render_instance_spec(
            render_scene_spec(f, ctx, cam, instances, (n - 1) as nat),
            ctx,
            cam,
            instances[n - 1],
        )
    }
}

/// Draws a scene: every instance is moved into camera space, clipped against
/// the camera's planes and drawn, in the order of the list.
pub fn render_scene(
    ctx: &GlobalCtx,
    image: &mut Image,
    cam: &Camera,
    instances: &Vec<Instance>,
    depth_buf: &mut Vec<Fixed>,
)
    requires
        image_wf(*old(image)),
        forall|i: int| 0 <= i < instances@.len() ==> (#[trigger] instances@[i]).model.wf(),
    ensures
        image_wf(*final(image)),
        image_width(*final(image)) == image_width(*old(image)),
        image_height(*final(image)) == image_height(*old(image)),
        final(depth_buf)@.len() == old(depth_buf)@.len(),
        frame_of(*final(image), final(depth_buf)@) == render_scene_spec(
            frame_of(*old(image), old(depth_buf)@),
            *ctx,
            *cam,
            instance_views(instances@),
            instances@.len(),
        ),
{
    let ghost start = frame_of(*image, depth_buf@);
    let camera_mat = camera_view_matrix(cam);
    let mut i: usize = 0;
    while i < instances.len()
        invariant
            i <= instances@.len(),
            camera_mat == camera_view_matrix_spec(*cam),
            forall|k: int| 0 <= k < instances@.len() ==> (#[trigger] instances@[k]).model.wf(),
            image_wf(*image),
            image_width(*image) == image_width(*old(image)),
            image_height(*image) == image_height(*old(image)),
            depth_buf@.len() == old(depth_buf)@.len(),
            frame_of(*image, depth_buf@) == render_scene_spec(
                start,
                *ctx,
                *cam,
                instance_views(instances@),
                i as nat,
            ),
        decreases instances@.len() - i,
    {
        let inst = &instances[i];
        assert(inst.model.wf());
        let transform = mul_mm(camera_mat, inst.transform);
        let planes = cam.clipping_planes.as_slice();
        match transform_and_clip(planes, inst.model, transform) {
            Some(clipped) => {
                render_model(ctx, image, clipped, depth_buf);
            },
            None => {},
        }
        i = i + 1;
    }
}

} // verus!
