use macroquad::color::Color;
use macroquad::texture::Image;
use softraster::color::Color24;
use softraster::context::{init_global_ctx, GlobalCtx};
use softraster::data_types::Triangle;
use softraster::fixed::Fixed;
use softraster::render::{draw_line, put_pixel, render_triangle, update_depth_buffer_is_closer};
use softraster::vec3::Vec3;

fn black_image(width: u16, height: u16) -> Image {
    Image::gen_image_color(width, height, Color::from_rgba(0, 0, 0, 255))
}

fn pixel(image: &Image, x: usize, y: usize) -> (u8, u8, u8, u8) {
    let at = 4 * (y * image.width() + x);
    (image.bytes[at], image.bytes[at + 1], image.bytes[at + 2], image.bytes[at + 3])
}

fn point(x: i32, y: i32, z: i32) -> Vec3 {
    Vec3::new(Fixed::from_int(x), Fixed::from_int(y), Fixed::from_int(z))
}

fn plain_ctx(width: usize, height: usize) -> GlobalCtx {
    let mut ctx = init_global_ctx(width, height);
    ctx.draw_outline = false;
    ctx
}

fn cleared(width: usize, height: usize) -> Vec<Fixed> {
    vec![Fixed::infinity(); width * height]
}

#[test]
fn put_pixel_counts_from_the_centre() {
    let mut image = black_image(8, 6);
    put_pixel(&mut image, 0, 0, Color24::new(9, 8, 7));
    assert_eq!(pixel(&image, 4, 3), (9, 8, 7, 255));
    put_pixel(&mut image, -4, -3, Color24::new(1, 2, 3));
    assert_eq!(pixel(&image, 0, 0), (1, 2, 3, 255));
    put_pixel(&mut image, 3, 2, Color24::new(4, 5, 6));
    assert_eq!(pixel(&image, 7, 5), (4, 5, 6, 255));
}

#[test]
fn put_pixel_outside_the_image_changes_nothing() {
    let mut image = black_image(8, 6);
    let before = image.bytes.clone();
    put_pixel(&mut image, 4, 0, Color24::new(9, 9, 9));
    put_pixel(&mut image, -5, 0, Color24::new(9, 9, 9));
    put_pixel(&mut image, 0, 3, Color24::new(9, 9, 9));
    put_pixel(&mut image, 0, -4, Color24::new(9, 9, 9));
    put_pixel(&mut image, i32::MAX, i32::MIN, Color24::new(9, 9, 9));
    assert_eq!(image.bytes, before);
}

#[test]
fn depth_test_takes_the_first_fragment_and_then_only_closer_ones() {
    let ctx = plain_ctx(4, 4);
    let mut depth = cleared(4, 4);
    let far = Fixed::from_ratio(1, 10);
    let near = Fixed::from_ratio(1, 2);
    assert!(update_depth_buffer_is_closer(&ctx, &mut depth, 0, 0, far));
    // the cell of (0, 0) is the cell of the centre pixel
    assert_eq!(depth[2 + 4 * 2].raw, far.raw);
    assert!(!update_depth_buffer_is_closer(&ctx, &mut depth, 0, 0, far));
    assert!(update_depth_buffer_is_closer(&ctx, &mut depth, 0, 0, near));
    assert_eq!(depth[2 + 4 * 2].raw, near.raw);
    assert!(!update_depth_buffer_is_closer(&ctx, &mut depth, 0, 0, far));
    assert_eq!(depth[2 + 4 * 2].raw, near.raw);
}

#[test]
fn depth_test_skips_positions_without_a_cell() {
    let ctx = plain_ctx(4, 4);
    let mut depth = cleared(4, 4);
    let z = Fixed::from_int(1);
    assert!(!update_depth_buffer_is_closer(&ctx, &mut depth, 2, 0, z));
    assert!(!update_depth_buffer_is_closer(&ctx, &mut depth, -3, 0, z));
    assert!(!update_depth_buffer_is_closer(&ctx, &mut depth, 0, -3, z));
    assert!(!update_depth_buffer_is_closer(&ctx, &mut depth, 0, 2, z));
    assert!(!update_depth_buffer_is_closer(&ctx, &mut depth, isize::MAX, isize::MIN, z));
    assert!(depth.iter().all(|d| d.raw == Fixed::infinity().raw));
    let mut short = vec![Fixed::infinity(); 3];
    assert!(!update_depth_buffer_is_closer(&ctx, &mut short, 0, 0, z));
}

#[test]
fn depth_test_has_a_cell_for_every_pixel() {
    let ctx = plain_ctx(4, 4);
    let mut depth = cleared(4, 4);
    let z = Fixed::from_ratio(1, 2);
    // the top row of the canvas: centred (0, -2) is pixel (2, 0)
    assert!(update_depth_buffer_is_closer(&ctx, &mut depth, 0, -2, z));
    assert_eq!(depth[2].raw, z.raw);
    assert_eq!(depth.iter().filter(|d| d.raw != Fixed::infinity().raw).count(), 1);
    // every corner of the canvas
    assert!(update_depth_buffer_is_closer(&ctx, &mut depth, -2, -2, z));
    assert!(update_depth_buffer_is_closer(&ctx, &mut depth, 1, -2, z));
    assert!(update_depth_buffer_is_closer(&ctx, &mut depth, -2, 1, z));
    assert!(update_depth_buffer_is_closer(&ctx, &mut depth, 1, 1, z));
    assert_eq!((depth[0].raw, depth[3].raw, depth[12].raw, depth[15].raw), (z.raw, z.raw, z.raw, z.raw));
    let mut all = cleared(4, 4);
    for y in -2..2 {
        for x in -2..2 {
            assert!(update_depth_buffer_is_closer(&ctx, &mut all, x, y, z));
        }
    }
    assert!(all.iter().all(|d| d.raw == z.raw));
}

#[test]
fn top_row_of_the_canvas_is_drawn() {
    let ctx = plain_ctx(8, 8);
    let mut image = black_image(8, 8);
    let mut depth = cleared(8, 8);
    // a triangle over the top left corner of the canvas
    let verticies = vec![point(-4, -4, 1), point(-4, -1, 1), point(-1, -4, 1)];
    let projected = verticies.clone();
    let triangle = Triangle::new(0, 1, 2, Color24::new(5, 6, 7));
    render_triangle(&ctx, &mut image, &triangle, &verticies, &projected, &mut depth);
    for x in 0..4 {
        assert_eq!(pixel(&image, x, 0), (5, 6, 7, 255), "column {}", x);
        assert_eq!(depth[x].raw, Fixed::one().raw);
    }
    assert_eq!(pixel(&image, 4, 0), (0, 0, 0, 255));
    assert_eq!(pixel(&image, 0, 3), (5, 6, 7, 255));
    assert_eq!(pixel(&image, 0, 4), (0, 0, 0, 255));
}

#[test]
fn scan_fill_colours_exactly_the_right_triangle() {
    let ctx = plain_ctx(40, 40);
    let mut image = black_image(40, 40);
    let mut depth = cleared(40, 40);
    let verticies = vec![point(0, 0, 1), point(0, 10, 1), point(10, 0, 1)];
    let projected = vec![point(0, 0, 1), point(0, 10, 1), point(10, 0, 1)];
    let triangle = Triangle::new(0, 1, 2, Color24::new(200, 100, 50));
    render_triangle(&ctx, &mut image, &triangle, &verticies, &projected, &mut depth);
    for py in 0..40usize {
        for px in 0..40usize {
            let x = px as i32 - 20;
            let y = py as i32 - 20;
            let inside = x >= 0 && y >= 0 && x + y <= 10;
            let expected = if inside { (200, 100, 50, 255) } else { (0, 0, 0, 255) };
            assert_eq!(pixel(&image, px, py), expected, "at ({}, {})", x, y);
        }
    }
}

#[test]
fn triangle_facing_away_is_not_drawn() {
    let ctx = plain_ctx(40, 40);
    let mut image = black_image(40, 40);
    let before = image.bytes.clone();
    let mut depth = cleared(40, 40);
    let verticies = vec![point(0, 0, 1), point(10, 0, 1), point(0, 10, 1)];
    let projected = verticies.clone();
    let triangle = Triangle::new(0, 1, 2, Color24::new(200, 100, 50));
    render_triangle(&ctx, &mut image, &triangle, &verticies, &projected, &mut depth);
    assert_eq!(image.bytes, before);
    assert!(depth.iter().all(|d| d.raw == Fixed::infinity().raw));
}

fn overlapping_pair() -> (Vec<Vec3>, Vec<Vec3>, Triangle, Triangle) {
    // two triangles over the same pixels, the first at depth 2, the second at depth 4
    let verticies = vec![
        point(0, 0, 2),
        point(0, 10, 2),
        point(10, 0, 2),
        point(0, 0, 4),
        point(0, 10, 4),
        point(10, 0, 4),
    ];
    let projected = vec![
        point(0, 0, 1),
        point(0, 10, 1),
        point(10, 0, 1),
        point(0, 0, 1),
        point(0, 10, 1),
        point(10, 0, 1),
    ];
    let near = Triangle::new(0, 1, 2, Color24::new(255, 0, 0));
    let far = Triangle::new(3, 4, 5, Color24::new(0, 0, 255));
    (verticies, projected, near, far)
}

#[test]
fn closer_triangle_wins_when_drawn_first() {
    let ctx = plain_ctx(40, 40);
    let mut image = black_image(40, 40);
    let mut depth = cleared(40, 40);
    let (verticies, projected, near, far) = overlapping_pair();
    render_triangle(&ctx, &mut image, &near, &verticies, &projected, &mut depth);
    render_triangle(&ctx, &mut image, &far, &verticies, &projected, &mut depth);
    assert_eq!(pixel(&image, 22, 23), (255, 0, 0, 255));
    assert_eq!(pixel(&image, 20, 20), (255, 0, 0, 255));
}

#[test]
fn closer_triangle_wins_when_drawn_last() {
    let ctx = plain_ctx(40, 40);
    let mut image = black_image(40, 40);
    let mut depth = cleared(40, 40);
    let (verticies, projected, near, far) = overlapping_pair();
    render_triangle(&ctx, &mut image, &far, &verticies, &projected, &mut depth);
    assert_eq!(pixel(&image, 22, 23), (0, 0, 255, 255));
    render_triangle(&ctx, &mut image, &near, &verticies, &projected, &mut depth);
    assert_eq!(pixel(&image, 22, 23), (255, 0, 0, 255));
    assert_eq!(pixel(&image, 20, 20), (255, 0, 0, 255));
}

#[test]
fn both_orders_give_the_same_image() {
    let ctx = plain_ctx(40, 40);
    let (verticies, projected, near, far) = overlapping_pair();
    let mut first = black_image(40, 40);
    let mut depth = cleared(40, 40);
    render_triangle(&ctx, &mut first, &near, &verticies, &projected, &mut depth);
    render_triangle(&ctx, &mut first, &far, &verticies, &projected, &mut depth);
    let mut second = black_image(40, 40);
    let mut depth = cleared(40, 40);
    render_triangle(&ctx, &mut second, &far, &verticies, &projected, &mut depth);
    render_triangle(&ctx, &mut second, &near, &verticies, &projected, &mut depth);
    assert_eq!(first.bytes, second.bytes);
}

#[test]
fn draw_line_sideways() {
    let mut image = black_image(20, 20);
    draw_line(&mut image, point(-3, 1, 1), point(4, 3, 1), Color24::new(7, 7, 7));
    // slope 2 / 7, rounded toward zero: the rows are the whole parts of 1 + k * slope
    let rows = [1, 1, 1, 1, 2, 2, 2, 2];
    let mut lit = 0;
    for py in 0..20usize {
        for px in 0..20usize {
            if pixel(&image, px, py) == (7, 7, 7, 255) {
                lit += 1;
                let x = px as i32 - 10;
                let y = py as i32 - 10;
                assert!((-3..=4).contains(&x));
                assert_eq!(y, rows[(x + 3) as usize], "column {}", x);
            }
        }
    }
    assert_eq!(lit, 8);
}

#[test]
fn draw_line_upright_runs_from_the_lower_end() {
    let mut image = black_image(20, 20);
    draw_line(&mut image, point(2, 5, 1), point(2, -4, 1), Color24::new(7, 7, 7));
    for y in -4..=5 {
        assert_eq!(pixel(&image, 12, (y + 10) as usize), (7, 7, 7, 255));
    }
    assert_eq!(pixel(&image, 12, 5), (0, 0, 0, 255));
    assert_eq!(pixel(&image, 12, 16), (0, 0, 0, 255));
    assert_eq!(pixel(&image, 11, 10), (0, 0, 0, 255));
}

#[test]
fn draw_line_of_one_point() {
    let mut image = black_image(20, 20);
    draw_line(&mut image, point(1, 1, 1), point(1, 1, 1), Color24::new(7, 7, 7));
    let lit = (0..400).filter(|i| pixel(&image, i % 20, i / 20) == (7, 7, 7, 255)).count();
    assert_eq!(lit, 1);
    assert_eq!(pixel(&image, 11, 11), (7, 7, 7, 255));
}

#[test]
fn outline_is_drawn_in_a_darker_shade() {
    let ctx = init_global_ctx(40, 40);
    let mut image = black_image(40, 40);
    let mut depth = cleared(40, 40);
    let verticies = vec![point(0, 0, 1), point(0, 10, 1), point(10, 0, 1)];
    let projected = verticies.clone();
    let triangle = Triangle::new(0, 1, 2, Color24::new(200, 100, 40));
    render_triangle(&ctx, &mut image, &triangle, &verticies, &projected, &mut depth);
    assert_eq!(pixel(&image, 20, 20), (150, 75, 30, 255));
    assert_eq!(pixel(&image, 30, 20), (150, 75, 30, 255));
    assert_eq!(pixel(&image, 20, 30), (150, 75, 30, 255));
    assert_eq!(pixel(&image, 25, 25), (150, 75, 30, 255));
    assert_eq!(pixel(&image, 22, 22), (200, 100, 40, 255));
}

#[test]
fn put_pixel_stores_every_byte_value() {
    let mut image = black_image(3, 3);
    for v in 0..=255u8 {
        put_pixel(&mut image, 1, -1, Color24::new(v, v ^ 0x55, 255 - v));
        assert_eq!(pixel(&image, 2, 0), (v, v ^ 0x55, 255 - v, 255));
        assert_eq!(pixel(&image, 1, 0), (0, 0, 0, 255));
        assert_eq!(pixel(&image, 2, 1), (0, 0, 0, 255));
    }
}

fn lit_positions(image: &Image, c: (u8, u8, u8, u8)) -> Vec<(i32, i32)> {
    let mut lit = Vec::new();
    for py in 0..image.height() {
        for px in 0..image.width() {
            if pixel(image, px, py) == c {
                lit.push((px as i32 - image.width() as i32 / 2, py as i32 - image.height() as i32 / 2));
            }
        }
    }
    lit
}

#[test]
fn right_triangle_away_from_the_centre() {
    let ctx = plain_ctx(40, 40);
    let mut image = black_image(40, 40);
    let mut depth = cleared(40, 40);
    // the camera-space vertices decide the facing, the projected points the pixels
    let verticies = vec![point(0, 0, 1), point(0, 10, 1), point(10, 0, 1)];
    let projected = vec![point(-3, 2, 1), point(2, 2, 1), point(-3, 7, 1)];
    let triangle = Triangle::new(0, 1, 2, Color24::new(200, 100, 50));
    render_triangle(&ctx, &mut image, &triangle, &verticies, &projected, &mut depth);
    let mut expected = Vec::new();
    for y in 2..=7 {
        for x in -3..=2 {
            if (x + 3) + (y - 2) <= 5 {
                expected.push((x, y));
            }
        }
    }
    let mut lit = lit_positions(&image, (200, 100, 50, 255));
    lit.sort();
    expected.sort();
    assert_eq!(lit, expected);
    assert_eq!(lit.len(), 21);
}

#[test]
fn right_triangle_with_legs_of_one_pixel() {
    let ctx = plain_ctx(8, 8);
    let mut image = black_image(8, 8);
    let mut depth = cleared(8, 8);
    let verticies = vec![point(0, 0, 1), point(0, 10, 1), point(10, 0, 1)];
    let projected = vec![point(0, 0, 1), point(0, 1, 1), point(1, 0, 1)];
    let triangle = Triangle::new(0, 1, 2, Color24::new(200, 100, 50));
    render_triangle(&ctx, &mut image, &triangle, &verticies, &projected, &mut depth);
    // with two scanlines the middle one is the last, where the sides meet:
    // the sides are taken the other way round and the first scanline is empty
    assert_eq!(lit_positions(&image, (200, 100, 50, 255)), vec![(0, 1)]);
}
