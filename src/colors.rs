use vstd::prelude::*;

verus! {

/// An RGB color.
#[derive(Clone, Copy, Debug, PartialEq, Eq, Structural)]
pub struct Color {
    pub r: u8,
    pub g: u8,
    pub b: u8,
}

impl Color {
    pub fn new(r: u8, g: u8, b: u8) -> (c: Color)
        ensures
            c == (Color { r, g, b }),
    {
        Color { r, g, b }
    }
}

pub fn black() -> (c: Color)
    ensures
        c == (Color { r: 0, g: 0, b: 0 }),
{
    Color::new(0, 0, 0)
}

pub fn white() -> (c: Color)
    ensures
        c == (Color { r: 255, g: 255, b: 255 }),
{
    Color::new(255, 255, 255)
}

pub fn red() -> (c: Color)
    ensures
        c == (Color { r: 255, g: 0, b: 0 }),
{
    Color::new(255, 0, 0)
}

pub fn dark_red() -> (c: Color)
    ensures
        c == (Color { r: 191, g: 0, b: 0 }),
{
    Color::new(191, 0, 0)
}

pub fn orange() -> (c: Color)
    ensures
        c == (Color { r: 255, g: 127, b: 0 }),
{
    Color::new(255, 127, 0)
}

pub fn yellow() -> (c: Color)
    ensures
        c == (Color { r: 255, g: 255, b: 0 }),
{
    Color::new(255, 255, 0)
}

pub fn green() -> (c: Color)
    ensures
        c == (Color { r: 0, g: 255, b: 0 }),
{
    Color::new(0, 255, 0)
}

pub fn blue() -> (c: Color)
    ensures
        c == (Color { r: 0, g: 0, b: 255 }),
{
    Color::new(0, 0, 255)
}

pub fn violet() -> (c: Color)
    ensures
        c == (Color { r: 127, g: 0, b: 255 }),
{
    Color::new(127, 0, 255)
}

pub fn light_yellow() -> (c: Color)
    ensures
        c == (Color { r: 255, g: 255, b: 63 }),
{
    Color::new(255, 255, 63)
}

pub fn light_blue() -> (c: Color)
    ensures
        c == (Color { r: 63, g: 63, b: 255 }),
{
    Color::new(63, 63, 255)
}

pub fn light_orange() -> (c: Color)
    ensures
        c == (Color { r: 255, g: 159, b: 63 }),
{
    Color::new(255, 159, 63)
}

pub fn light_green() -> (c: Color)
    ensures
        c == (Color { r: 63, g: 255, b: 63 }),
{
    Color::new(63, 255, 63)
}

} // verus!
