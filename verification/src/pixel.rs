//! The value types of the canvas: a four-channel color and a positioned pixel.

use vstd::prelude::*;

verus! {

/// One color: four independent 8-bit channels (red, green, blue, alpha).
/// Every channel value is valid; an omitted alpha on the wire means fully
/// opaque (255), which the codec supplies on decode.
#[derive(Clone, Copy, PartialEq, Eq, Structural, Debug)]
pub struct Color {
    pub r: u8,
    pub g: u8,
    pub b: u8,
    pub a: u8,
}

impl Color {
    pub fn new(r: u8, g: u8, b: u8, a: u8) -> (c: Color)
        ensures
            c == (Color { r, g, b, a }),
    {
        Color { r, g, b, a }
    }
}

/// One pixel: a coordinate pair plus an owned color. A plain value type,
/// copied freely.
#[derive(Clone, Copy, PartialEq, Eq, Structural, Debug)]
pub struct Pixel {
    pub x: u16,
    pub y: u16,
    pub color: Color,
}

impl Pixel {
    pub fn new(x: u16, y: u16, color: Color) -> (p: Pixel)
        ensures
            p == (Pixel { x, y, color }),
    {
        Pixel { x, y, color }
    }
}

} // verus!
