use vstd::prelude::*;

verus! {

/// One 8-bit color sample: red, green and blue channels.
#[derive(Clone, Copy, PartialEq, Eq, Structural, Debug)]
pub struct Rgb {
    pub r: u8,
    pub g: u8,
    pub b: u8,
}

} // verus!
