use vstd::prelude::*;

verus! {

/// An 8-bit colour with an alpha channel, as stored in a canvas.
#[derive(Clone, Copy, Debug, PartialEq, Eq, Structural)]
pub struct Rgba {
    pub r: u8,
    pub g: u8,
    pub b: u8,
    pub a: u8,
}

/// An 8-bit colour without alpha, as stored in a texture.
#[derive(Clone, Copy, Debug, PartialEq, Eq, Structural)]
pub struct Rgb {
    pub r: u8,
    pub g: u8,
    pub b: u8,
}

impl Rgba {
    pub fn new(r: u8, g: u8, b: u8, a: u8) -> (c: Rgba)
        ensures
            c == (Rgba { r, g, b, a }),
    {
        Rgba { r, g, b, a }
    }
}

impl Rgb {
    pub fn new(r: u8, g: u8, b: u8) -> (c: Rgb)
        ensures
            c == (Rgb { r, g, b }),
    {
        Rgb { r, g, b }
    }
}

/// The fixed palette.
pub fn white() -> (c: Rgba)
    ensures
        c == (Rgba { r: 255, g: 255, b: 255, a: 255 }),
{
    Rgba { r: 255, g: 255, b: 255, a: 255 }
}

pub fn black() -> (c: Rgba)
    ensures
        c == (Rgba { r: 0, g: 0, b: 0, a: 255 }),
{
    Rgba { r: 0, g: 0, b: 0, a: 255 }
}

pub fn clear() -> (c: Rgba)
    ensures
        c == (Rgba { r: 100, g: 100, b: 100, a: 0 }),
{
    Rgba { r: 100, g: 100, b: 100, a: 0 }
}

pub open spec fn red_value() -> Rgba {
    Rgba { r: 255, g: 0, b: 0, a: 255 }
}

pub fn red() -> (c: Rgba)
    ensures
        c == red_value(),
        c == (Rgba { r: 255, g: 0, b: 0, a: 255 }),
{
    Rgba { r: 255, g: 0, b: 0, a: 255 }
}

pub open spec fn green_value() -> Rgba {
    Rgba { r: 0, g: 255, b: 0, a: 255 }
}

pub fn green() -> (c: Rgba)
    ensures
        c == green_value(),
        c == (Rgba { r: 0, g: 255, b: 0, a: 255 }),
{
    Rgba { r: 0, g: 255, b: 0, a: 255 }
}

pub open spec fn blue_value() -> Rgba {
    Rgba { r: 0, g: 0, b: 255, a: 255 }
}

pub fn blue() -> (c: Rgba)
    ensures
        c == blue_value(),
        c == (Rgba { r: 0, g: 0, b: 255, a: 255 }),
{
    Rgba { r: 0, g: 0, b: 255, a: 255 }
}

pub fn yellow() -> (c: Rgba)
    ensures
        c == (Rgba { r: 255, g: 255, b: 0, a: 255 }),
{
    Rgba { r: 255, g: 255, b: 0, a: 255 }
}

pub fn cyan() -> (c: Rgba)
    ensures
        c == (Rgba { r: 0, g: 255, b: 255, a: 255 }),
{
    Rgba { r: 0, g: 255, b: 255, a: 255 }
}

pub fn magenta() -> (c: Rgba)
    ensures
        c == (Rgba { r: 255, g: 0, b: 255, a: 255 }),
{
    Rgba { r: 255, g: 0, b: 255, a: 255 }
}

/// Relies on rand::random: any byte may come back.
#[verifier::external_body]
fn random_byte() -> (b: u8) {
    rand::random::<u8>()
}

/// The opaque colour made from three drawn bytes, each taken modulo 255.
pub open spec fn color_of_bytes(r: u8, g: u8, b: u8) -> Rgba {
    Rgba { r: (r % 255) as u8, g: (g % 255) as u8, b: (b % 255) as u8, a: 255 }
}

/// The opaque colour made from three drawn bytes, each taken modulo 255.
pub fn color_from_bytes(r: u8, g: u8, b: u8) -> (c: Rgba)
    ensures
        c == color_of_bytes(r, g, b),
{
    Rgba { r: r % 255, g: g % 255, b: b % 255, a: 255 }
}

/// An opaque colour with each channel drawn at random below 255.
pub fn random_color() -> (c: Rgba)
    ensures
        exists|r: u8, g: u8, b: u8| c == #[trigger] color_of_bytes(r, g, b),
        c.r < 255,
        c.g < 255,
        c.b < 255,
        c.a == 255,
{
    let r = random_byte();
    let g = random_byte();
    let b = random_byte();
    color_from_bytes(r, g, b)
}

} // verus!
