use macroquad::color::Color;
use macroquad::texture::Image;
use softraster::camera::Camera;
use softraster::color::{blue, cyan, green, mul_color, purple, red, yellow, Color24};
use softraster::context::{
    get_canvas_dimensions, get_draw_outline, get_view_dimensions, get_viewport_dist,
    init_global_ctx,
};
use softraster::data_types::{Cube, Instance, Model, ModelInstance, ModelType, Triangle};
use softraster::fixed::{Fixed, SCALE};
use softraster::mat4::Mat4x4;
use softraster::math::sqrt_f;
use softraster::point2::Point2;
use softraster::render::{
    edge_interpolate, project_vertices, render_model, render_scene, sorted_vertex_indicies,
};
use softraster::scene::{
    blank_image, cube_scene, make_sample_camera, make_sample_instances, make_sample_model, new_depth_buffer,
    render_rasterizer_scene, run,
};
use softraster::utils::{
    interpolate, make_translation_mat, perspective_divide, project_vertex, truncate_parts,
    viewport_to_canvas,
};
use softraster::vec3::{Vec3, Vec4};

fn n(x: i32) -> Fixed {
    Fixed::from_int(x)
}

fn v3(x: i32, y: i32, z: i32) -> Vec3 {
    Vec3::new(n(x), n(y), n(z))
}

fn raws(v: &[Fixed]) -> Vec<i64> {
    v.iter().map(|f| f.raw).collect()
}

fn black_image(width: u16, height: u16) -> Image {
    Image::gen_image_color(width, height, Color::from_rgba(0, 0, 0, 255))
}

fn pixel(image: &Image, x: usize, y: usize) -> (u8, u8, u8, u8) {
    let at = 4 * (y * image.width() + x);
    (image.bytes[at], image.bytes[at + 1], image.bytes[at + 2], image.bytes[at + 3])
}

fn count(image: &Image, c: Color24) -> usize {
    let mut found = 0;
    for y in 0..image.height() {
        for x in 0..image.width() {
            if pixel(image, x, y) == (c.r, c.g, c.b, 255) {
                found += 1;
            }
        }
    }
    found
}

#[test]
fn context_starts_with_a_unit_viewport() {
    let ctx = init_global_ctx(600, 400);
    assert_eq!(get_canvas_dimensions(&ctx), (600, 400));
    let (w, h) = get_view_dimensions(&ctx);
    assert_eq!((w.raw, h.raw), (SCALE, SCALE));
    assert_eq!(get_viewport_dist(&ctx).raw, SCALE);
    assert!(get_draw_outline(&ctx));
}

#[test]
fn interpolate_walks_a_line_in_whole_steps() {
    let v = interpolate(n(0), n(10), n(10), n(0));
    assert_eq!(raws(&v), (0..=10).map(|k| (10 - k) * SCALE).collect::<Vec<i64>>());
    let w = interpolate(n(-2), n(1), n(2), n(3));
    assert_eq!(raws(&w), vec![SCALE, 3 * SCALE / 2, 2 * SCALE, 5 * SCALE / 2, 3 * SCALE]);
}

#[test]
fn interpolate_between_equal_ends_gives_the_first_value() {
    assert_eq!(raws(&interpolate(n(5), n(7), n(5), n(9))), vec![7 * SCALE]);
}

#[test]
fn interpolate_backwards_gives_nothing() {
    assert!(interpolate(n(5), n(7), n(2), n(9)).is_empty());
}

#[test]
fn interpolate_counts_whole_parts_of_its_ends() {
    // from 0.5 to 2.25: whole parts 0 to 2, slope 4 / 1.75
    let v = interpolate(Fixed::from_ratio(1, 2), n(0), Fixed::from_ratio(9, 4), n(4));
    let slope = n(4).div(Fixed::from_ratio(7, 4)).raw;
    assert_eq!(raws(&v), vec![0, slope, 2 * slope]);
    // ends that differ within one whole step give one value
    let w = interpolate(Fixed::from_ratio(1, 4), n(3), Fixed::from_ratio(3, 4), n(9));
    assert_eq!(raws(&w), vec![3 * SCALE]);
}

#[test]
fn interpolate_clamps_a_line_that_leaves_the_range() {
    let big = Fixed::from_raw(i64::MAX - 1);
    let v = interpolate(n(0), big, n(3), Fixed::from_raw(i64::MAX));
    assert_eq!(v.len(), 4);
    assert_eq!(v[0].raw, i64::MAX - 1);
    assert_eq!(v[3].raw, i64::MAX - 1);
    let down = interpolate(n(0), Fixed::from_raw(i64::MIN + 5), n(2), Fixed::from_raw(i64::MIN));
    assert_eq!(raws(&down), vec![i64::MIN + 5, i64::MIN + 3, i64::MIN + 1]);
    let steep = interpolate(n(0), n(0), n(2), Fixed::from_raw(i64::MAX));
    assert_eq!(raws(&steep), vec![0, i64::MAX / 2, i64::MAX - 1]);
    // ends 1.75 apart with three whole steps: the last step passes the largest number
    let over = interpolate(
        Fixed::from_ratio(1, 2),
        Fixed::from_raw(i64::MAX - 7 * SCALE),
        Fixed::from_ratio(9, 4),
        Fixed::from_raw(i64::MAX),
    );
    assert_eq!(raws(&over), vec![i64::MAX - 7 * SCALE, i64::MAX - 3 * SCALE, i64::MAX]);
}

#[test]
fn edge_interpolate_joins_the_short_edges() {
    let (long, short) = edge_interpolate(n(0), n(0), n(2), n(4), n(4), n(0));
    assert_eq!(raws(&long), vec![0, 0, 0, 0, 0]);
    assert_eq!(raws(&short), vec![0, 2 * SCALE, 4 * SCALE, 2 * SCALE, 0]);
    // a flat top: the first short edge has one value, which is dropped
    let (long, short) = edge_interpolate(n(0), n(0), n(0), n(10), n(2), n(0));
    assert_eq!(raws(&long), vec![0, 0, 0]);
    assert_eq!(raws(&short), vec![10 * SCALE, 5 * SCALE, 0]);
}

#[test]
fn vertices_are_sorted_by_height() {
    let projected = vec![v3(0, 5, 1), v3(0, 1, 1), v3(0, 3, 1), v3(0, 1, 1)];
    let colour = Color24::new(0, 0, 0);
    assert_eq!(sorted_vertex_indicies(&Triangle::new(0, 1, 2, colour), &projected), [1, 2, 0]);
    assert_eq!(sorted_vertex_indicies(&Triangle::new(1, 2, 0, colour), &projected), [0, 1, 2]);
    assert_eq!(sorted_vertex_indicies(&Triangle::new(2, 0, 1, colour), &projected), [2, 0, 1]);
    assert_eq!(sorted_vertex_indicies(&Triangle::new(0, 2, 1, colour), &projected), [2, 1, 0]);
}

#[test]
fn vertices_of_equal_height_keep_their_order() {
    let projected = vec![v3(0, 1, 1), v3(0, 1, 1), v3(0, 0, 1), v3(0, 2, 1)];
    let colour = Color24::new(0, 0, 0);
    assert_eq!(sorted_vertex_indicies(&Triangle::new(0, 1, 2, colour), &projected), [2, 0, 1]);
    assert_eq!(sorted_vertex_indicies(&Triangle::new(0, 1, 3, colour), &projected), [0, 1, 2]);
    assert_eq!(sorted_vertex_indicies(&Triangle::new(3, 0, 1, colour), &projected), [1, 2, 0]);
    assert_eq!(sorted_vertex_indicies(&Triangle::new(0, 0, 0, colour), &projected), [0, 1, 2]);
}

#[test]
fn projection_divides_by_depth_and_scales_to_the_canvas() {
    let ctx = init_global_ctx(600, 400);
    let p = project_vertex(&ctx, Vec4::new(n(1), n(-1), n(4), n(1)));
    assert_eq!((p.x.raw, p.y.raw, p.z.raw), (150 * SCALE, -100 * SCALE, SCALE));
    let q = viewport_to_canvas(&ctx, Fixed::from_ratio(1, 2), Fixed::from_ratio(-1, 4));
    assert_eq!((q.x.raw, q.y.raw, q.z.raw), (300 * SCALE, -100 * SCALE, SCALE));
}

#[test]
fn projection_keeps_the_ratios() {
    let ctx = init_global_ctx(600, 400);
    let x = Fixed::from_ratio(7, 3);
    let y = Fixed::from_ratio(-5, 7);
    let z = Fixed::from_ratio(11, 2);
    let p = project_vertex(&ctx, Vec4::new(x, y, z, n(1)));
    // with a unit viewport the projected column is the ratio times the width
    assert_eq!(p.x.raw, x.div(z).raw * 600);
    assert_eq!(p.y.raw, y.div(z).raw * 400);
    // and the ratio times the depth is the coordinate again, within one unit of the depth
    let back = (p.x.raw as i128 / 600) * z.raw as i128 - ((x.raw as i128) << 32);
    assert!(back.abs() < z.raw as i128);
}

#[test]
fn projection_at_depth_zero_is_clamped() {
    let ctx = init_global_ctx(600, 400);
    let p = project_vertex(&ctx, Vec4::new(n(1), n(-1), n(0), n(1)));
    assert_eq!((p.x.raw, p.y.raw), (i64::MAX, i64::MIN));
    let centre = project_vertex(&ctx, Vec4::new(n(0), n(0), n(0), n(1)));
    assert_eq!((centre.x.raw, centre.y.raw), (0, 0));
}

#[test]
fn perspective_divide_is_guarded_at_depth_zero() {
    let one = Fixed::one();
    assert_eq!(perspective_divide(n(3), one, n(4)).raw, 3 * SCALE / 4);
    assert_eq!(perspective_divide(n(3), n(2), n(-4)).raw, -3 * SCALE / 2);
    assert_eq!(perspective_divide(n(3), one, n(0)).raw, i64::MAX);
    assert_eq!(perspective_divide(n(-3), one, n(0)).raw, i64::MIN);
    assert_eq!(perspective_divide(n(3), n(-1), n(0)).raw, i64::MIN);
    assert_eq!(perspective_divide(n(0), one, n(0)).raw, 0);
    // a coordinate too small to survive the product with the distance counts as zero
    assert_eq!(perspective_divide(Fixed::from_raw(1), Fixed::from_ratio(1, 2), n(0)).raw, 0);
}

#[test]
fn truncate_parts_cuts_toward_zero() {
    let mut p = Vec3::new(Fixed::from_ratio(7, 2), Fixed::from_ratio(-7, 2), Fixed::from_raw(-1));
    truncate_parts(&mut p);
    assert_eq!((p.x.raw, p.y.raw, p.z.raw), (3 * SCALE, -3 * SCALE, 0));
}

#[test]
fn vertices_are_projected_to_whole_pixels() {
    let ctx = init_global_ctx(600, 400);
    let projected = project_vertices(&ctx, &vec![v3(1, -1, 7), v3(0, 0, 3)]);
    assert_eq!(projected.len(), 2);
    assert_eq!((projected[0].x.raw, projected[0].y.raw), (85 * SCALE, -57 * SCALE));
    assert_eq!((projected[1].x.raw, projected[1].y.raw), (0, 0));
}

#[test]
fn cube_has_twelve_triangles_on_eight_corners() {
    let cube = Cube::debug_cube();
    let inds: Vec<[usize; 3]> = cube.triangles.iter().map(|t| t.ind).collect();
    assert_eq!(
        inds,
        vec![
            [0, 1, 2],
            [0, 2, 3],
            [1, 5, 6],
            [1, 6, 2],
            [2, 6, 7],
            [2, 7, 3],
            [4, 0, 3],
            [4, 1, 0],
            [4, 3, 7],
            [4, 5, 1],
            [5, 4, 7],
            [5, 7, 6]
        ]
    );
    let colours: Vec<Color24> = cube.triangles.iter().map(|t| t.color).collect();
    assert_eq!(
        colours,
        vec![
            red(),
            red(),
            yellow(),
            yellow(),
            cyan(),
            cyan(),
            green(),
            purple(),
            green(),
            purple(),
            blue(),
            blue()
        ]
    );
    let corners: Vec<(i64, i64, i64)> =
        cube.verticies.iter().map(|v| (v.x.raw / SCALE, v.y.raw / SCALE, v.z.raw / SCALE)).collect();
    assert_eq!(
        corners,
        vec![
            (1, 1, 1),
            (-1, 1, 1),
            (-1, -1, 1),
            (1, -1, 1),
            (1, 1, -1),
            (-1, 1, -1),
            (-1, -1, -1),
            (1, -1, -1)
        ]
    );
    assert_eq!((red().r, red().g, red().b), (229, 40, 56));
    assert_eq!(mul_color(&cyan(), Fixed::from_ratio(3, 4)), Color24::new(0, 191, 191));
    assert_eq!(mul_color(&cyan(), n(2)), Color24::new(0, 255, 255));
    assert_eq!(mul_color(&cyan(), n(-1)), Color24::new(0, 0, 0));
}

#[test]
fn model_takes_over_the_cube() {
    let cube = Cube::debug_cube();
    let model = Model::from((&cube, Vec4::new(n(0), n(0), n(0), n(1)), n(2)));
    assert_eq!(model.triangles.len(), 12);
    assert_eq!(model.verticies.len(), 8);
    assert_eq!(model.triangles[7].ind, [4, 1, 0]);
    assert_eq!(model.bounds_radius.raw, 2 * SCALE);
    assert!(model.is_well_formed());
    let broken = Model::new(
        vec![Triangle::new(0, 1, 2, red()), Triangle::new(0, 3, 1, red())],
        vec![v3(0, 0, 0), v3(1, 0, 0), v3(0, 1, 0)],
        model.bounds_center,
        n(1),
    );
    assert!(!broken.is_well_formed());
    let same = Model::new(Vec::new(), Vec::new(), model.bounds_center, n(1));
    assert!(same.is_well_formed());
    assert!(same.triangles.is_empty() && same.verticies.is_empty());
    let placed = ModelInstance { model: ModelType::Cube, position: v3(1, 2, 3) };
    assert!(matches!(placed.model, ModelType::Cube));
}

#[test]
fn point2_moves_by_whole_pixels() {
    let p = Point2::new(3, -4, Fixed::from_ratio(1, 2)).add(-5, 10);
    assert_eq!((p.x, p.y, p.h.raw), (-2, 6, SCALE / 2));
}

#[test]
fn cube_head_on_is_drawn_as_its_front_face() {
    let mut ctx = init_global_ctx(100, 100);
    ctx.draw_outline = false;
    let mut image = black_image(100, 100);
    let mut depth = new_depth_buffer(100, 100);
    let cube = Cube::debug_cube();
    let model = Model::from((&cube, Vec4::new(n(0), n(0), n(0), n(1)), sqrt_f(n(3))));
    let cam = Camera::new(v3(0, 0, -5), Mat4x4::identity());
    let instances = vec![Instance::new(&model, v3(0, 0, 0), None, None)];
    render_scene(&ctx, &mut image, &cam, &instances, &mut depth);
    // the front face spans -1..1 at depth 4: 25 pixels each way from the centre
    let drawn = count(&image, blue());
    assert_eq!(drawn, 51 * 51);
    assert_eq!(count(&image, Color24::new(0, 0, 0)), 100 * 100 - 51 * 51);
    assert_eq!(pixel(&image, 25, 25), (0, 119, 242, 255));
    assert_eq!(pixel(&image, 75, 75), (0, 119, 242, 255));
    assert_eq!(pixel(&image, 76, 75), (0, 0, 0, 255));
    // the depth buffer holds the inverse of depth 4 at the cell of the centre pixel
    assert_eq!(depth[50 + 100 * 50].raw, SCALE / 4);
    assert_eq!(depth[25 + 100 * 25].raw, SCALE / 4);
    assert_eq!(depth[76 + 100 * 75].raw, i64::MAX);
}

#[test]
fn instance_behind_the_camera_draws_nothing() {
    let ctx = init_global_ctx(100, 100);
    let mut image = black_image(100, 100);
    let before = image.bytes.clone();
    let mut depth = new_depth_buffer(100, 100);
    let cube = Cube::debug_cube();
    let model = Model::from((&cube, Vec4::new(n(0), n(0), n(0), n(1)), sqrt_f(n(3))));
    let cam = Camera::default();
    let instances = vec![Instance::new(&model, v3(0, 0, -10), None, None)];
    render_scene(&ctx, &mut image, &cam, &instances, &mut depth);
    assert_eq!(image.bytes, before);
    assert!(depth.iter().all(|d| d.raw == Fixed::infinity().raw));
}

#[test]
fn render_model_draws_in_camera_space() {
    let mut ctx = init_global_ctx(100, 100);
    ctx.draw_outline = false;
    let mut image = black_image(100, 100);
    let mut depth = new_depth_buffer(100, 100);
    let verticies = vec![v3(0, 0, 2), v3(0, 1, 2), v3(1, 0, 2)];
    let triangles = vec![Triangle::new(0, 1, 2, Color24::new(9, 9, 9))];
    let model = Model::new(triangles, verticies, Vec4::new(n(0), n(0), n(2), n(1)), n(1));
    render_model(&ctx, &mut image, model, &mut depth);
    // the corners land at (0, 0), (0, 50) and (50, 0)
    assert_eq!(pixel(&image, 50, 50), (9, 9, 9, 255));
    assert_eq!(pixel(&image, 50, 99), (9, 9, 9, 255));
    assert_eq!(pixel(&image, 99, 50), (9, 9, 9, 255));
    assert_eq!(pixel(&image, 75, 75), (9, 9, 9, 255));
    assert_eq!(pixel(&image, 76, 75), (0, 0, 0, 255));
    assert_eq!(pixel(&image, 49, 50), (0, 0, 0, 255));
}

#[test]
fn order_of_instances_does_not_change_the_faces() {
    let mut ctx = init_global_ctx(120, 120);
    ctx.draw_outline = false;
    let cube = Cube::debug_cube();
    let model = Model::from((&cube, Vec4::new(n(0), n(0), n(0), n(1)), sqrt_f(n(3))));
    let cam = Camera::default();
    let near = Instance::new(&model, v3(0, 0, 5), None, None);
    let far = Instance::new(&model, Vec3::new(Fixed::from_ratio(1, 2), n(0), n(9)), None, Some(n(2)));
    let mut first = black_image(120, 120);
    let mut depth = new_depth_buffer(120, 120);
    render_scene(&ctx, &mut first, &cam, &vec![near, far], &mut depth);
    let near = Instance::new(&model, v3(0, 0, 5), None, None);
    let far = Instance::new(&model, Vec3::new(Fixed::from_ratio(1, 2), n(0), n(9)), None, Some(n(2)));
    let mut second = black_image(120, 120);
    let mut depth = new_depth_buffer(120, 120);
    render_scene(&ctx, &mut second, &cam, &vec![far, near], &mut depth);
    assert_eq!(first.bytes, second.bytes);
    assert!(count(&first, blue()) > 0);
}

#[test]
fn sample_scene_shows_both_cubes() {
    let mut image = black_image(200, 200);
    run(&mut image, 200, 200);
    assert_eq!(image.bytes.len(), 200 * 200 * 4);
    assert!(count(&image, Color24::new(0, 0, 0)) > 200 * 200 / 2);
    let faces = [red(), yellow(), cyan(), green(), purple(), blue()];
    let shown = faces.iter().filter(|c| count(&image, **c) > 0).count();
    assert!(shown >= 3, "{} faces shown", shown);
    let outlined = faces
        .iter()
        .filter(|c| count(&image, mul_color(c, Fixed::from_ratio(3, 4))) > 0)
        .count();
    assert_eq!(outlined, shown);
}

#[test]
fn sample_scene_is_the_same_through_every_entry() {
    let mut by_run = black_image(160, 120);
    run(&mut by_run, 160, 120);
    let mut by_scene = black_image(160, 120);
    cube_scene(&init_global_ctx(160, 120), &mut by_scene);
    let whole = render_rasterizer_scene(160, 120, Color24::new(0, 0, 0));
    assert_eq!(by_run.bytes, by_scene.bytes);
    assert_eq!(by_run.bytes, whole.bytes);
    assert_eq!((whole.width, whole.height), (160, 120));
    let mut by_parts = black_image(160, 120);
    let model = make_sample_model();
    let instances = make_sample_instances(&model);
    let mut depth = new_depth_buffer(160, 120);
    render_scene(&init_global_ctx(160, 120), &mut by_parts, &make_sample_camera(), &instances, &mut depth);
    assert_eq!(by_run.bytes, by_parts.bytes);
}

#[test]
fn new_image_is_filled_with_the_colour() {
    let image = render_rasterizer_scene(160, 120, Color24::new(10, 20, 30));
    assert_eq!((image.width, image.height), (160, 120));
    assert_eq!(image.bytes.len(), 160 * 120 * 4);
    // the scene does not reach the corners, which keep the fill
    assert_eq!(pixel(&image, 0, 0), (10, 20, 30, 255));
    assert_eq!(pixel(&image, 159, 119), (10, 20, 30, 255));
    assert!(count(&image, Color24::new(10, 20, 30)) < 160 * 120);
    let depth = new_depth_buffer(3, 2);
    assert_eq!(depth.len(), 6);
    assert!(depth.iter().all(|d| d.raw == i64::MAX));
}

#[test]
fn sample_scene_parts() {
    let cam = make_sample_camera();
    assert_eq!((cam.pos.x.raw, cam.pos.y.raw, cam.pos.z.raw), (-3 * SCALE, SCALE, 2 * SCALE));
    assert_eq!(cam.orientation.x_axis.x.raw, 3719550786);
    assert_eq!(cam.orientation.x_axis.z.raw, -2147483648);
    assert_eq!(cam.orientation.z_axis.x.raw, 2147483648);
    let model = make_sample_model();
    assert_eq!(model.bounds_radius.raw, 7439101573);
    let instances = make_sample_instances(&model);
    assert_eq!(instances.len(), 2);
    assert_eq!(instances[0].scale.raw, 3 * SCALE / 4);
    assert_eq!(instances[0].position.x.raw, -3 * SCALE / 2);
    assert_eq!(instances[1].scale.raw, SCALE);
    assert_eq!(instances[1].orientation.x_axis.x.raw, -4148619834);
    assert_eq!(instances[1].position.z.raw, 15 * SCALE / 2);
    let moved = make_translation_mat(instances[1].position);
    assert_eq!(moved.w_axis.y.raw, 5 * SCALE / 2);
}

#[test]
fn blank_image_holds_every_byte_value() {
    for v in 0..=255u8 {
        let image = blank_image(2, 3, Color24::new(v, 255 - v, v / 2));
        assert_eq!((image.width, image.height), (2, 3));
        assert_eq!(image.bytes.len(), 24);
        for y in 0..3 {
            for x in 0..2 {
                assert_eq!(pixel(&image, x, y), (v, 255 - v, v / 2, 255));
            }
        }
    }
}
