//! Packed pixels and the frame buffer they live in.

use vstd::prelude::*;

verus! {

/// Number of pixel columns in a frame.
pub const SCREEN_WIDTH: usize = 320;

/// Number of pixel rows in a frame.
pub const SCREEN_HEIGHT: usize = 200;

/// The background colour: every pixel that no terrain covers shows it.
pub const SKY: u32 = 0x0087_CEEB;

/// A pixel as a number: red, green and blue as the digits of a base-256 numeral,
/// red most significant. The top byte of the 32-bit word stays zero.
pub open spec fn packed(r: u8, g: u8, b: u8) -> int {
    r * 65536 + g * 256 + b
}

/// `n` pixels of sky.
pub open spec fn cleared(n: nat) -> Seq<u32> {
    Seq::new(n, |i: int| SKY)
}

/// Packs three 8-bit channels into one `0RGB` word.
pub fn from_rgb8_to_u32(r: u8, g: u8, b: u8) -> (pixel: u32)
    ensures
        pixel == packed(r, g, b),
{
    let pixel: u32 = ((r as u32) << 16) | ((g as u32) << 8) | (b as u32);
    assert(((r as u32) << 16) | ((g as u32) << 8) | (b as u32) == r * 65536 + g * 256 + b)
        by (bit_vector);
    pixel
}

/// Overwrites every pixel of `buffer` with the sky colour.
pub fn clear_buffer(buffer: &mut Vec<u32>)
    ensures
        final(buffer)@ == cleared(old(buffer)@.len()),
{
    let sky: u32 = from_rgb8_to_u32(135, 206, 235);
    let n: usize = buffer.len();
    let mut i: usize = 0;
    while i < n
        invariant
            i <= n,
            sky == SKY,
            buffer@.len() == n,
            forall|j: int| 0 <= j < i ==> buffer@[j] == SKY,
        decreases n - i,
    {
        buffer.set(i, sky);
        i += 1;
    }
}

} // verus!
