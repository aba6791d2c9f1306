//! Raw big-endian RGB565 images, as `embedded_graphics`' `ImageRawBE` reads
//! them: row after row, two bytes per pixel.
use vstd::prelude::*;

use crate::color::{high_byte, low_byte, rgb565_to_be_bytes};

verus! {

/// The offset of the first byte of pixel (`x`, `y`) in an image `width`
/// pixels wide.
pub open spec fn pixel_offset(width: int, x: int, y: int) -> int {
    (x + y * width) * 2
}

/// Stores a pixel's two bytes, most significant first, at its place in the
/// image; the other bytes stay as they were.
pub fn put_pixel_be(image: &mut Vec<u8>, width: usize, x: usize, y: usize, color: u16)
    requires
        pixel_offset(width as int, x as int, y as int) + 2 <= old(image)@.len(),
    ensures
        final(image)@ == old(image)@.update(
            pixel_offset(width as int, x as int, y as int),
            high_byte(color),
        ).update(pixel_offset(width as int, x as int, y as int) + 1, low_byte(color)),
{
    let len = image.len();
    assert(0 <= y * width) by (nonlinear_arith);
    assert((x + y * width) * 2 + 2 <= len);
    let idx = (x + y * width) * 2;
    let raw = rgb565_to_be_bytes(color);
    image.set(idx, raw[0]);
    image.set(idx + 1, raw[1]);
}

} // verus!
