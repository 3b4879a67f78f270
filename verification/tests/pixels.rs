use macroquad::color::Color;
use macroquad::texture::Image;
use softraster::color::{clamp_u8, mul_color, Color24};
use softraster::fixed::Fixed;
use softraster::utils::map_to_pixels;

#[test]
fn map_to_pixels_moves_origin_to_corner() {
    assert_eq!(map_to_pixels(0, 0, 600, 400), (300, 200));
    assert_eq!(map_to_pixels(-300, -200, 600, 400), (0, 0));
    assert_eq!(map_to_pixels(299, 199, 600, 400), (599, 399));
}

#[test]
fn map_to_pixels_left_of_canvas_is_no_index() {
    assert_eq!(map_to_pixels(-301, 0, 600, 400), (usize::MAX, 200));
    assert_eq!(map_to_pixels(0, -201, 600, 400), (300, usize::MAX));
}

#[test]
fn clamp_u8_keeps_bytes() {
    assert_eq!(clamp_u8(0), 0);
    assert_eq!(clamp_u8(200), 200);
    assert_eq!(clamp_u8(255), 255);
}

#[test]
fn mul_color_scales_each_channel() {
    let c = Color24::new(200, 100, 7);
    let d = mul_color(&c, Fixed::from_ratio(3, 4));
    assert_eq!((d.r, d.g, d.b), (150, 75, 5));
}

#[test]
fn image_can_be_made_without_a_window() {
    let image = Image::gen_image_color(4, 3, Color::from_rgba(1, 2, 3, 255));
    assert_eq!(image.bytes.len(), 48);
    assert_eq!(&image.bytes[0..4], &[1, 2, 3, 255]);
}
