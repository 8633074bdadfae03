use vstd::prelude::*;

verus! {

/// A colour with one byte per channel.
#[derive(Clone, Copy, Debug, PartialEq, Eq, Structural)]
pub struct Rgb {
    pub red: u8,
    pub green: u8,
    pub blue: u8,
}

impl Rgb {
    pub fn new(red: u8, green: u8, blue: u8) -> (color: Self)
        ensures
            color == (Rgb { red, green, blue }),
    {
        Rgb { red, green, blue }
    }
}

} // verus!
