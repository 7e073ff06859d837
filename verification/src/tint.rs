//! The colours that the games paint with: the terminal's named colours and
//! 24-bit RGB, as plain values.
use vstd::prelude::*;

verus! {

/// A colour of a terminal cell.
#[derive(Clone, Copy, Debug, PartialEq, Eq, Structural)]
pub enum Tint {
    Black,
    Red,
    Green,
    Yellow,
    Blue,
    Magenta,
    Cyan,
    Gray,
    DarkGray,
    LightGreen,
    White,
    Rgb(u8, u8, u8),
}

} // verus!
