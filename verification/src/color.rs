use vstd::prelude::*;

verus! {

/// A color quantized to one byte per channel, the form in which pixels are
/// written to a PPM image. The unquantized, floating-point color lives
/// outside the verified core; only its byte form enters the serializer.
#[derive(Clone, Copy, PartialEq, Eq, Structural, Debug)]
pub struct ColorU8 {
    pub red: u8,
    pub green: u8,
    pub blue: u8,
}

} // verus!
