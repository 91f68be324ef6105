//! The image texture: colours looked up in a decoded raster.

use vstd::prelude::*;
use crate::raster::{
    fits, from_raw, height_of, image_data, image_height, image_width, pixel_of, pixel_offset, rgb_at, width_of, Raster,
};

verus! {

/// A raster to look colours up in.
pub struct Image {
    pub data: Raster,
    pub width: u32,
    pub height: u32,
}

/// The lesser of `i` and the last index of a dimension of `size`.
pub open spec fn clamped(i: u32, size: u32) -> int {
    if i < size - 1 {
        i as int
    } else {
        size - 1
    }
}

impl Image {
    /// The recorded size is that of the raster.
    pub open spec fn wf(&self) -> bool {
        &&& self.width == image_width(self.data)
        &&& self.height == image_height(self.data)
    }

    /// The bytes of the raster: red, green and blue of each pixel, row by
    /// row from the top.
    pub open spec fn bytes(&self) -> Seq<u8> {
        image_data(self.data)
    }

    /// The texture over a decoded image of `width` by `height` pixels,
    /// whose bytes are `bytes`: three to the pixel, row by row from the top.
    /// There is none where `bytes` is too short for that size.
    pub fn new(width: u32, height: u32, bytes: Vec<u8>) -> (made: Option<Image>)
        ensures
            made is Some <==> fits(width, height, bytes@.len()),
            made matches Some(image) ==> image.wf() && image.width == width && image.height == height
                && image.bytes() == bytes@,
    {
        match from_raw(width, height, bytes) {
            Some(data) => {
                let width = width_of(&data);
                let height = height_of(&data);
                Some(Image { data, width, height })
            },
            None => None,
        }
    }

    /// The colour of the pixel in column `i` of row `j`, rows counted from
    /// the top. A column or row beyond the raster is taken for the last one.
    pub fn texel(&self, i: u32, j: u32) -> (rgb: (u8, u8, u8))
        requires
            self.wf(),
            self.width > 0,
            self.height > 0,
        ensures
            rgb == rgb_at(
                self.bytes(),
                pixel_offset(self.width as int, clamped(i, self.width), clamped(j, self.height)),
            ),
    {
        let i = if i < self.width - 1 { i } else { self.width - 1 };
        let j = if j < self.height - 1 { j } else { self.height - 1 };
        pixel_of(&self.data, i, j)
    }
}

} // verus!
