//! The pixel buffer behind an image texture: an `RgbImage` of the `image`
//! crate, three bytes to the pixel, the pixels of a row from left to right,
//! the rows from the top.
//!
//! Nothing in this file is proved. It says what the buffer's methods do, by
//! their source, over three names: the buffer's width, its height, and the
//! bytes that it holds.

use vstd::prelude::*;

verus! {

/// An `RgbImage` of the `image` crate. What it holds is known only through
/// the three names below.
#[verifier::external_body]
pub struct Raster {
    inner: image::RgbImage,
}

/// The width that `ImageBuffer::width` reports.
pub uninterp spec fn image_width(img: Raster) -> u32;

/// The height that `ImageBuffer::height` reports.
pub uninterp spec fn image_height(img: Raster) -> u32;

/// The bytes that the buffer holds.
pub uninterp spec fn image_data(img: Raster) -> Seq<u8>;

/// Where the first byte of pixel `(x, y)` stands in a buffer `width` pixels wide.
pub open spec fn pixel_offset(width: int, x: int, y: int) -> int {
    3 * (y * width + x)
}

/// The three bytes of `data` from `offset` on.
pub open spec fn rgb_at(data: Seq<u8>, offset: int) -> (u8, u8, u8) {
    (data[offset], data[offset + 1], data[offset + 2])
}

/// `len` bytes are enough for an image of `width` by `height` pixels, and
/// three times the width fits a `usize`.
pub open spec fn fits(width: u32, height: u32, len: nat) -> bool {
    3 * width <= usize::MAX && 3 * width * height <= len
}

/// `img` is `width` by `height` pixels and holds the bytes `data`.
pub open spec fn holds(img: Raster, width: u32, height: u32, data: Seq<u8>) -> bool {
    image_width(img) == width && image_height(img) == height && image_data(img) == data
}

/// `ImageBuffer::from_raw`, which takes the bytes as they are if there are
/// enough of them for the given size, and otherwise returns nothing. It
/// counts the bytes needed as three times the width times the height, and
/// gives up where either product does not fit a `usize`.
#[verifier::external_body]
pub(crate) fn from_raw(width: u32, height: u32, buf: Vec<u8>) -> (made: Option<Raster>)
    ensures
        made is Some == fits(width, height, buf@.len()),
        made is Some ==> holds(made->Some_0, width, height, buf@),
{
    match image::ImageBuffer::from_raw(width, height, buf) {
        Some(inner) => Some(Raster { inner }),
        None => None,
    }
}

/// `ImageBuffer::width`, which returns the width that the buffer was made with.
#[verifier::external_body]
pub(crate) fn width_of(img: &Raster) -> (w: u32)
    ensures
        w == image_width(*img),
{
    img.inner.width()
}

/// `ImageBuffer::height`, which returns the height that the buffer was made with.
#[verifier::external_body]
pub(crate) fn height_of(img: &Raster) -> (h: u32)
    ensures
        h == image_height(*img),
{
    img.inner.height()
}

/// `ImageBuffer::get_pixel`, which panics outside the image and otherwise
/// reads the pixel from the three bytes at `3 * (y * width + x)`.
#[verifier::external_body]
pub(crate) fn pixel_of(img: &Raster, x: u32, y: u32) -> (rgb: (u8, u8, u8))
    requires
        x < image_width(*img),
        y < image_height(*img),
    ensures
        rgb == rgb_at(image_data(*img), pixel_offset(image_width(*img) as int, x as int, y as int)),
{
    let p = img.inner.get_pixel(x, y);
    (p[0], p[1], p[2])
}

} // verus!
