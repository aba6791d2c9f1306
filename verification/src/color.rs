//! RGB565 pixels as the library holds them: the 16-bit raw value of an
//! `embedded_graphics` `Rgb565` (red in bits 15..11, green in 10..5, blue in
//! 4..0), and the order in which the panel expects their bytes.
use embedded_graphics::pixelcolor::raw::{RawU16, ToBytes};
use embedded_graphics::pixelcolor::{IntoStorage, Rgb565, RgbColor};
use vstd::prelude::*;

verus! {

/// The more significant byte of a 16-bit value.
pub open spec fn high_byte(v: u16) -> u8 {
    (v / 256) as u8
}

/// The less significant byte of a 16-bit value.
pub open spec fn low_byte(v: u16) -> u8 {
    (v % 256) as u8
}

/// A 16-bit value in big-endian byte order.
pub open spec fn be_bytes(v: u16) -> Seq<u8> {
    seq![high_byte(v), low_byte(v)]
}

/// A run of RGB565 pixels as the panel receives them: two bytes per pixel,
/// each pixel big-endian, in the order of the pixels.
pub open spec fn pixel_bytes(pixels: Seq<u16>) -> Seq<u8> {
    Seq::new(
        2 * pixels.len(),
        |k: int|
            if k % 2 == 0 {
                high_byte(pixels[k / 2])
            } else {
                low_byte(pixels[k / 2])
            },
    )
}

/// The raw value of the colour `Rgb565::BLACK`.
pub open spec fn black() -> u16 {
    0
}

/// Calls `embedded_graphics`' `ToBytes::to_be_bytes` on the `Rgb565` colour
/// whose raw value is `raw`. `Rgb565::from(RawU16)` keeps all 16 bits, and
/// `to_be_bytes` hands out the raw `u16` in big-endian order.
#[verifier::external_body]
pub(crate) fn rgb565_to_be_bytes(raw: u16) -> (bytes: [u8; 2])
    ensures
        bytes@ == be_bytes(raw),
{
    Rgb565::from(RawU16::new(raw)).to_be_bytes()
}

/// Reads the raw value of `embedded_graphics`' constant `Rgb565::BLACK`,
/// which that crate defines as `Rgb565::new(0, 0, 0)`, raw value 0.
#[verifier::external_body]
pub(crate) fn rgb565_black() -> (raw: u16)
    ensures
        raw == black(),
{
    Rgb565::BLACK.into_storage()
}

} // verus!
