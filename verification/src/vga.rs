//! Colour attributes for the text console.
//!
//! The console writer itself is a plain output sink and stays outside the
//! library; what is kept here is the palette and the attribute-byte
//! arithmetic that the writer is configured with.

use vstd::prelude::*;

verus! {

/// A colour (either foreground or background) for a console character cell.
#[derive(Debug, Clone, Copy, PartialEq, Eq, Structural)]
pub enum Color {
    Black,
    Blue,
    Green,
    Cyan,
    Red,
    Magenta,
    Brown,
    LightGray,
    DarkGray,
    LightBlue,
    LightGreen,
    LightCyan,
    LightRed,
    Pink,
    Yellow,
    White,
}

impl Color {
    /// The palette number of this colour in the standard 16-colour text mode.
    pub open spec fn code(self) -> u8 {
        match self {
            Color::Black => 0,
            Color::Blue => 1,
            Color::Green => 2,
            Color::Cyan => 3,
            Color::Red => 4,
            Color::Magenta => 5,
            Color::Brown => 6,
            Color::LightGray => 7,
            Color::DarkGray => 8,
            Color::LightBlue => 9,
            Color::LightGreen => 10,
            Color::LightCyan => 11,
            Color::LightRed => 12,
            Color::Pink => 13,
            Color::Yellow => 14,
            Color::White => 15,
        }
    }

    /// Palette number of the colour, always below 16.
    pub fn as_u8(self) -> (n: u8)
        ensures
            n == self.code(),
            n < 16,
    {
        match self {
            Color::Black => 0,
            Color::Blue => 1,
            Color::Green => 2,
            Color::Cyan => 3,
            Color::Red => 4,
            Color::Magenta => 5,
            Color::Brown => 6,
            Color::LightGray => 7,
            Color::DarkGray => 8,
            Color::LightBlue => 9,
            Color::LightGreen => 10,
            Color::LightCyan => 11,
            Color::LightRed => 12,
            Color::Pink => 13,
            Color::Yellow => 14,
            Color::White => 15,
        }
    }
}

/// The attribute byte of a character cell: background colour in the high
/// four bits, foreground colour in the low four bits.
#[derive(Debug, Clone, Copy, PartialEq, Eq, Structural)]
pub struct ColorCode {
    pub bits: u8,
}

impl ColorCode {
    /// Pack a foreground and a background colour into one attribute byte.
    pub fn new(foreground: Color, background: Color) -> (c: ColorCode)
        ensures
            c.bits == (background.code() << 4) | foreground.code(),
            c.bits == background.code() * 16 + foreground.code(),
    {
        let fg = foreground.as_u8();
        let bg = background.as_u8();
        let bits = (bg << 4) | fg;
        proof {
            let b = background.code();
            let f = foreground.code();
            assert(b < 16 && f < 16 ==> ((b << 4) | f) == b * 16 + f) by (bit_vector);
        }
        ColorCode { bits }
    }
}

} // verus!
