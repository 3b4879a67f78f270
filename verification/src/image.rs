//! The pixel buffer that the renderer draws into.
//!
//! The buffer is macroquad's `Image`. Verus does not look inside it: what the
//! renderer needs to know of an image is given by two names, one for its
//! pixels and one for its size, and the few methods that the renderer calls
//! are wrapped with contracts over those names. These contracts are believed,
//! not proved.
use macroquad::color::Color;
use macroquad::texture::Image;
use vstd::prelude::*;

verus! {

/// macroquad's `Image`, which Verus takes as it is and does not look into.
#[verifier::external_type_specification]
#[verifier::external_body]
pub struct ExImage(Image);

/// The pixels of an image, row by row from the top, each as its red, green,
/// blue and alpha byte: the four-byte groups of the image's byte buffer.
pub uninterp spec fn image_pixels(image: Image) -> Seq<(u8, u8, u8, u8)>;

/// The size of an image: the number of pixels in a row, and the number of
/// rows.
pub uninterp spec fn image_size(image: Image) -> (nat, nat);

/// The number of pixels in a row of the image.
pub open spec fn image_width(image: Image) -> nat {
    image_size(image).0
}

/// The number of rows of the image.
pub open spec fn image_height(image: Image) -> nat {
    image_size(image).1
}

/// An image holds exactly the pixels that its width and height call for.
pub open spec fn image_wf(image: Image) -> bool {
    image_pixels(image).len() == image_width(image) * image_height(image)
}

/// `Image::gen_image_color`: a new image of the given size in which every
/// pixel has the given bytes. The colour reaches macroquad through
/// `Color::from_rgba`, which divides each byte by 255; the image stores each
/// channel times 255 again, cut to a byte, and that gives every byte back.
#[verifier::external_body]
pub(crate) fn new_image(width: u16, height: u16, r: u8, g: u8, b: u8, a: u8) -> (image: Image)
    ensures
        image_size(image) == (width as nat, height as nat),
        image_pixels(image) == Seq::new((width * height) as nat, |i: int| (r, g, b, a)),
{
    Image::gen_image_color(width, height, Color::from_rgba(r, g, b, a))
}

/// `Image::width`: the width of the image.
#[verifier::external_body]
pub(crate) fn width_of(image: &Image) -> (w: usize)
    ensures
        w == image_size(*image).0,
        w <= u16::MAX,
{
    image.width()
}

/// `Image::height`: the height of the image.
#[verifier::external_body]
pub(crate) fn height_of(image: &Image) -> (h: usize)
    ensures
        h == image_size(*image).1,
        h <= u16::MAX,
{
    image.height()
}

/// `Image::set_pixel`: replaces the pixel in column `x` of row `y` and leaves
/// every other pixel, and the size, as they were. The colour is converted as in
/// [`new_image`].
#[verifier::external_body]
pub(crate) fn set_pixel(image: &mut Image, x: u32, y: u32, r: u8, g: u8, b: u8, a: u8)
    requires
        image_wf(*old(image)),
        x < image_width(*old(image)),
        y < image_height(*old(image)),
    ensures
        image_size(*final(image)) == image_size(*old(image)),
        image_pixels(*final(image)) == image_pixels(*old(image)).update(
            y * image_width(*old(image)) + x,
            (r, g, b, a),
        ),
{
    image.set_pixel(x, y, Color::from_rgba(r, g, b, a))
}

} // verus!
