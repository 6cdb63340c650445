use vstd::prelude::*;

verus! {

/// A colour with 8 bits per channel: a pixel of an output image after tone
/// mapping, or a texel of a bitmap.
#[derive(Clone, Copy, Debug, PartialEq, Eq, Structural)]
pub struct Rgb8 {
    pub r: u8,
    pub g: u8,
    pub b: u8,
}

} // verus!
