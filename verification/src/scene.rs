//! The sample scene: two cubes seen from a turned camera.
use crate::camera::{camera_spec, Camera};
use crate::color::Color24;
use crate::context::{init_global_ctx, init_global_ctx_spec, GlobalCtx};
use crate::data_types::{
    debug_cube_triangles, debug_cube_vertices, instance_spec, Cube, Instance, InstanceView, Model,
    ModelView,
};
use crate::fixed::{fx, quot, Fixed, INFINITY_RAW, SCALE};
use crate::image::{
    height_of, image_height, image_pixels, image_wf, image_width, new_image, width_of,
};
use crate::mat4::identity_spec;
use crate::math::{sqrt_f, sqrt_raw};
use crate::render::{instance_views, render_scene, render_scene_spec, rgba_of, Frame};
use crate::utils::{make_rotation_mat, rotation_spec};
use crate::vec3::{Vec3, Vec4};
use macroquad::texture::Image;
use vstd::prelude::*;

verus! {

/// The raw cosine of 30 degrees, rounded toward zero.
pub const COS_30_RAW: i64 = 3719550786;

/// The raw sine of 30 degrees.
pub const SIN_30_RAW: i64 = 2147483648;

/// The raw cosine of 15 degrees, rounded toward zero.
pub const COS_15_RAW: i64 = 4148619834;

/// The raw sine of 15 degrees, rounded toward zero.
pub const SIN_15_RAW: i64 = 1111619334;

/// The camera of the sample scene: at `(-3, 1, 2)`, turned by minus 30
/// degrees about the vertical axis.
#[verifier::opaque]
pub open spec fn sample_camera() -> Camera {
    camera_spec(
        Vec3 { x: fx(-3 * SCALE), y: fx(SCALE as int), z: fx(2 * SCALE) },
        rotation_spec(fx(COS_30_RAW as int), fx(-(SIN_30_RAW as int))),
    )
}

/// The cube of the sample scene with its bounding sphere: centre at the
/// origin, radius the square root of three.
#[verifier::opaque]
pub open spec fn sample_model() -> ModelView {
    ModelView {
        triangles: debug_cube_triangles(),
        verticies: debug_cube_vertices(),
        bounds_center: Vec4 { x: fx(0), y: fx(0), z: fx(0), w: fx(SCALE as int) },
        bounds_radius: fx(sqrt_raw(3 * SCALE)),
    }
}

/// The two cubes of the sample scene: one at `(-1.5, 0, 7)` at three quarters
/// of its size, and one at `(1.25, 2.5, 7.5)` turned by 195 degrees.
#[verifier::opaque]
pub open spec fn sample_instances() -> Seq<InstanceView> {
    seq![
        instance_spec(
            sample_model(),
            Vec3 { x: fx(quot(-3 * SCALE, 2 * SCALE)), y: fx(0), z: fx(7 * SCALE) },
            identity_spec(),
            fx(quot(3 * SCALE, 4 * SCALE)),
        ),
        instance_spec(
            sample_model(),
            Vec3 {
                x: fx(quot(5 * SCALE, 4 * SCALE)),
                y: fx(quot(5 * SCALE, 2 * SCALE)),
                z: fx(quot(15 * SCALE, 2 * SCALE)),
            },
            rotation_spec(fx(-(COS_15_RAW as int)), fx(-(SIN_15_RAW as int))),
            fx(SCALE as int),
        ),
    ]
}

/// A depth buffer of `n` cells that were never written.
pub open spec fn cleared_depth(n: nat) -> Seq<Fixed> {
    Seq::new(n, |i: int| fx(INFINITY_RAW as int))
}

/// The frame that drawing the sample scene over the given pixels gives.
pub open spec fn cube_scene_spec(
    ctx: GlobalCtx,
    pixels: Seq<(u8, u8, u8, u8)>,
    width: nat,
    height: nat,
) -> Frame {
    render_scene_spec(
        Frame { pixels, width, height, depth: cleared_depth(width * height) },
        ctx,
        sample_camera(),
        sample_instances(),
        2,
    )
}

/// A fresh depth buffer with one cell for each pixel of a `width` by `height`
/// canvas.
pub fn new_depth_buffer(width: u16, height: u16) -> (depth_buf: Vec<Fixed>)
    ensures
        depth_buf@ == cleared_depth((width * height) as nat),
{
    assert(0 <= width * height <= 0xffff * 0xffff) by (nonlinear_arith)
        requires
            0 <= width <= 0xffff,
            0 <= height <= 0xffff,
    ;
    let cells: u32 = (width as u32) * (height as u32);
    let mut depth_buf: Vec<Fixed> = Vec::new();
    let mut i: u32 = 0;
    while i < cells
        invariant
            i <= cells,
            depth_buf@.len() == i,
            forall|k: int| 0 <= k < i ==> depth_buf@[k] == fx(INFINITY_RAW as int),
        decreases cells - i,
    {
        depth_buf.push(Fixed::infinity());
        i = i + 1;
    }
    assert(depth_buf@ =~= cleared_depth((width * height) as nat));
    depth_buf
}

/// Builds the camera of the sample scene.
pub fn make_sample_camera() -> (camera: Camera)
    ensures
        camera == sample_camera(),
{
    reveal(sample_camera);
    Camera::new(
        Vec3::new(Fixed::from_int(-3), Fixed::from_int(1), Fixed::from_int(2)),
        make_rotation_mat(Fixed::from_raw(COS_30_RAW), Fixed::from_raw(-SIN_30_RAW)),
    )
}

/// Builds the cube of the sample scene.
pub fn make_sample_model() -> (model: Model)
    ensures
        model@ == sample_model(),
        model.wf(),
{
    reveal(sample_model);
    let base_cube = Cube::debug_cube();
    let zero = Fixed::zero();
    let model = Model::from(
        (&base_cube, Vec4::new(zero, zero, zero, Fixed::one()), sqrt_f(Fixed::from_int(3))),
    );
    assert(model@.wf()) by {
        assert forall|i: int| 0 <= i < 12 implies (#[trigger] debug_cube_triangles()[i]).indices_below(
            8,
        ) by {}
    }
    model
}

/// Places the two cubes of the sample scene.
pub fn make_sample_instances<'a>(model: &'a Model) -> (instances: Vec<Instance<'a>>)
    requires
        model@ == sample_model(),
    ensures
        instance_views(instances@) == sample_instances(),
        instances@.len() == 2,
        forall|i: int| 0 <= i < instances@.len() ==> (#[trigger] instances@[i]).model == model,
{
    reveal(sample_instances);
    let zero = Fixed::zero();
    let first = Instance::new(
        model,
        Vec3::new(Fixed::from_ratio(-3, 2), zero, Fixed::from_int(7)),
        None,
        Some(Fixed::from_ratio(3, 4)),
    );
    let second = Instance::new(
        model,
        Vec3::new(Fixed::from_ratio(5, 4), Fixed::from_ratio(5, 2), Fixed::from_ratio(15, 2)),
        Some(make_rotation_mat(Fixed::from_raw(-COS_15_RAW), Fixed::from_raw(-SIN_15_RAW))),
        None,
    );
    let mut instances: Vec<Instance> = Vec::new();
    instances.push(first);
    instances.push(second);
    assert(instance_views(instances@) =~= sample_instances());
    instances
}

/// Draws the sample scene into the image, with a fresh depth buffer.
pub fn cube_scene(ctx: &GlobalCtx, image: &mut Image)
    requires
        image_wf(*old(image)),
    ensures
        image_wf(*final(image)),
        image_width(*final(image)) == image_width(*old(image)),
        image_height(*final(image)) == image_height(*old(image)),
        image_pixels(*final(image)) == cube_scene_spec(
            *ctx,
            image_pixels(*old(image)),
            image_width(*old(image)),
            image_height(*old(image)),
        ).pixels,
{
    let camera = make_sample_camera();
    let cube_model = make_sample_model();
    let mut depth_buf = new_depth_buffer(width_of(image) as u16, height_of(image) as u16);
    let instances = make_sample_instances(&cube_model);
    render_scene(ctx, image, &camera, &instances, &mut depth_buf);
}

/// Draws the sample scene into the image, for a canvas of the given size.
pub fn run(image: &mut Image, width: usize, height: usize)
    requires
        image_wf(*old(image)),
    ensures
        image_wf(*final(image)),
        image_width(*final(image)) == image_width(*old(image)),
        image_height(*final(image)) == image_height(*old(image)),
        image_pixels(*final(image)) == cube_scene_spec(
            init_global_ctx_spec(width, height),
            image_pixels(*old(image)),
            image_width(*old(image)),
            image_height(*old(image)),
        ).pixels,
{
    let ctx = init_global_ctx(width, height);
    cube_scene(&ctx, image);
}

/// A new image of the given size in which every pixel has the given colour.
pub fn blank_image(width: u16, height: u16, fill_color: Color24) -> (image: Image)
    ensures
        image_wf(image),
        image_width(image) == width,
        image_height(image) == height,
        image_pixels(image) == Seq::new((width * height) as nat, |i: int| rgba_of(fill_color)),
{
    let image = new_image(width, height, fill_color.r, fill_color.g, fill_color.b, 255);
    assert(image_pixels(image).len() == image_width(image) * image_height(image));
    image
}

/// A new image of the given size, filled with one colour and with the sample
/// scene drawn over it.
pub fn render_rasterizer_scene(width: u16, height: u16, fill_color: Color24) -> (image: Image)
    ensures
        image_wf(image),
        image_width(image) == width,
        image_height(image) == height,
        image_pixels(image) == cube_scene_spec(
            init_global_ctx_spec(width as usize, height as usize),
            Seq::new((width * height) as nat, |i: int| rgba_of(fill_color)),
            width as nat,
            height as nat,
        ).pixels,
{
    let mut image = blank_image(width, height, fill_color);
    run(&mut image, width as usize, height as usize);
    image
}

} // verus!
