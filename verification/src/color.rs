use vstd::prelude::*;

verus! {

/// A colour for one LED: three channels of eight bits each.
///
/// The fields are named in the usual red, green, blue order. The order in
/// which a strip receives them belongs to the wire format and is fixed by
/// [`crate::signal::color_signal`], not by this type.
#[derive(Clone, Copy, Debug, PartialEq, Eq, Default)]
pub struct Rgb8 {
    pub r: u8,
    pub g: u8,
    pub b: u8,
}

impl Rgb8 {
    /// A colour from its red, green and blue channels.
    pub fn new(r: u8, g: u8, b: u8) -> (color: Rgb8)
        ensures
            color == (Rgb8 { r, g, b }),
    {
        Rgb8 { r, g, b }
    }
}

} // verus!
