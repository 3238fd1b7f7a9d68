use vstd::prelude::*;

verus! {

/// A pixel color with red, green and blue channels.
#[derive(Debug, Clone, Copy, PartialEq, Eq, Structural)]
pub struct Color {
    pub r: u8,
    pub g: u8,
    pub b: u8,
}

pub open spec fn red_spec() -> Color {
    Color { r: 255, g: 0, b: 0 }
}

pub open spec fn green_spec() -> Color {
    Color { r: 0, g: 255, b: 0 }
}

pub open spec fn blue_spec() -> Color {
    Color { r: 0, g: 0, b: 255 }
}

/// The color drawn below the horizon where no wall stands.
pub open spec fn floor_spec() -> Color {
    Color { r: 0, g: 0, b: 0 }
}

/// The color drawn above the horizon where no wall stands.
pub open spec fn sky_spec() -> Color {
    Color { r: 255, g: 255, b: 255 }
}

impl Color {
    pub fn rgb(r: u8, g: u8, b: u8) -> (c: Color)
        ensures
            c == (Color { r, g, b }),
    {
        Color { r, g, b }
    }

    pub fn red() -> (c: Color)
        ensures
            c == red_spec(),
    {
        Color { r: 255, g: 0, b: 0 }
    }

    pub fn green() -> (c: Color)
        ensures
            c == green_spec(),
    {
        Color { r: 0, g: 255, b: 0 }
    }

    pub fn blue() -> (c: Color)
        ensures
            c == blue_spec(),
    {
        Color { r: 0, g: 0, b: 255 }
    }

    pub fn floor() -> (c: Color)
        ensures
            c == floor_spec(),
    {
        Color { r: 0, g: 0, b: 0 }
    }

    pub fn sky() -> (c: Color)
        ensures
            c == sky_spec(),
    {
        Color { r: 255, g: 255, b: 255 }
    }
}

} // verus!
