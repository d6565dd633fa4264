//! 24-bit RGB colors and the fixed tables used to resolve indexed ANSI
//! colors.

use vstd::prelude::*;

verus! {

/// A 24-bit RGB triple.  `(0, 0, 0)` doubles as the "default background"
/// marker for background-suppression in the encoder.
#[derive(Clone, Copy, Debug, PartialEq, Eq, Structural)]
pub struct Rgb {
    pub r: u8,
    pub g: u8,
    pub b: u8,
}

/// Default foreground color of a cell: `(204, 204, 204)`.
pub open spec fn spec_default_fg() -> Rgb {
    Rgb { r: 204, g: 204, b: 204 }
}

/// Default background color of a cell: `(0, 0, 0)`.
pub open spec fn spec_default_bg() -> Rgb {
    Rgb { r: 0, g: 0, b: 0 }
}

pub fn default_fg() -> (c: Rgb)
    ensures
        c == spec_default_fg(),
{
    Rgb { r: 204, g: 204, b: 204 }
}

pub fn default_bg() -> (c: Rgb)
    ensures
        c == spec_default_bg(),
{
    Rgb { r: 0, g: 0, b: 0 }
}

impl Rgb {
    /// Packs the triple into the top three bytes of a `u32`, big-endian:
    /// `0xRRGGBB00`.
    pub open spec fn spec_to_u32(self) -> int {
        (self.r as u32) * 0x1000000 + (self.g as u32) * 0x10000 + (self.b as u32) * 0x100
    }

    pub fn to_u32(&self) -> (v: u32)
        ensures
            v == self.spec_to_u32(),
    {
        (self.r as u32) * 0x1000000 + (self.g as u32) * 0x10000 + (self.b as u32) * 0x100
    }

    /// Inverse of `to_u32`: reads the top three bytes of `v`.
    pub fn from_u32(v: u32) -> (c: Rgb)
        ensures
            c.r == v / 0x1000000,
            c.g == (v / 0x10000) % 0x100,
            c.b == (v / 0x100) % 0x100,
    {
        Rgb { r: (v / 0x1000000) as u8, g: ((v / 0x10000) % 0x100) as u8, b: ((v / 0x100) % 0x100) as u8 }
    }
}

/// The fixed 8-color ANSI table, normal intensity.
pub open spec fn spec_ansi_normal(i: int) -> Rgb {
    if i == 0 {
        Rgb { r: 0, g: 0, b: 0 }
    } else if i == 1 {
        Rgb { r: 205, g: 0, b: 0 }
    } else if i == 2 {
        Rgb { r: 0, g: 205, b: 0 }
    } else if i == 3 {
        Rgb { r: 205, g: 205, b: 0 }
    } else if i == 4 {
        Rgb { r: 0, g: 0, b: 238 }
    } else if i == 5 {
        Rgb { r: 205, g: 0, b: 205 }
    } else if i == 6 {
        Rgb { r: 0, g: 205, b: 205 }
    } else {
        Rgb { r: 229, g: 229, b: 229 }
    }
}

/// The fixed 8-color ANSI table, bright intensity.
pub open spec fn spec_ansi_bright(i: int) -> Rgb {
    if i == 0 {
        Rgb { r: 127, g: 127, b: 127 }
    } else if i == 1 {
        Rgb { r: 255, g: 0, b: 0 }
    } else if i == 2 {
        Rgb { r: 0, g: 255, b: 0 }
    } else if i == 3 {
        Rgb { r: 255, g: 255, b: 0 }
    } else if i == 4 {
        Rgb { r: 92, g: 92, b: 255 }
    } else if i == 5 {
        Rgb { r: 255, g: 0, b: 255 }
    } else if i == 6 {
        Rgb { r: 0, g: 255, b: 255 }
    } else {
        Rgb { r: 255, g: 255, b: 255 }
    }
}

/// Indexed ANSI color lookup; the index is reduced modulo 8 and `bright`
/// selects the bright variant of the table.
pub open spec fn spec_ansi_color(color: u16, bright: bool) -> Rgb {
    if bright {
        spec_ansi_bright((color % 8) as int)
    } else {
        spec_ansi_normal((color % 8) as int)
    }
}

pub fn ansi_color_to_rgb(color: u16, bright: bool) -> (c: Rgb)
    ensures
        c == spec_ansi_color(color, bright),
{
    let i = color % 8;
    if bright {
        if i == 0 {
            Rgb { r: 127, g: 127, b: 127 }
        } else if i == 1 {
            Rgb { r: 255, g: 0, b: 0 }
        } else if i == 2 {
            Rgb { r: 0, g: 255, b: 0 }
        } else if i == 3 {
            Rgb { r: 255, g: 255, b: 0 }
        } else if i == 4 {
            Rgb { r: 92, g: 92, b: 255 }
        } else if i == 5 {
            Rgb { r: 255, g: 0, b: 255 }
        } else if i == 6 {
            Rgb { r: 0, g: 255, b: 255 }
        } else {
            Rgb { r: 255, g: 255, b: 255 }
        }
    } else {
        if i == 0 {
            Rgb { r: 0, g: 0, b: 0 }
        } else if i == 1 {
            Rgb { r: 205, g: 0, b: 0 }
        } else if i == 2 {
            Rgb { r: 0, g: 205, b: 0 }
        } else if i == 3 {
            Rgb { r: 205, g: 205, b: 0 }
        } else if i == 4 {
            Rgb { r: 0, g: 0, b: 238 }
        } else if i == 5 {
            Rgb { r: 205, g: 0, b: 205 }
        } else if i == 6 {
            Rgb { r: 0, g: 205, b: 205 }
        } else {
            Rgb { r: 229, g: 229, b: 229 }
        }
    }
}

/// One level of the 6x6x6 color cube: {0, 95, 135, 175, 215, 255}.
pub open spec fn spec_cube_level(n: int) -> u8 {
    if n == 0 {
        0
    } else if n == 1 {
        95
    } else if n == 2 {
        135
    } else if n == 3 {
        175
    } else if n == 4 {
        215
    } else {
        255
    }
}

fn cube_level(n: u16) -> (v: u8)
    requires
        n < 6,
    ensures
        v == spec_cube_level(n as int),
{
    if n == 0 {
        0
    } else if n == 1 {
        95
    } else if n == 2 {
        135
    } else if n == 3 {
        175
    } else if n == 4 {
        215
    } else {
        255
    }
}

/// Resolution of a 256-color index: 0..15 via the ANSI tables (bright for
/// 8..15), 16..231 via the 6x6x6 cube, 232..255 via the grayscale ramp
/// `8 + 10 * (n - 232)`; anything larger falls back to the default
/// foreground.
pub open spec fn spec_color_from_256(index: u16) -> Rgb {
    if index <= 7 {
        spec_ansi_color(index, false)
    } else if index <= 15 {
        spec_ansi_color((index - 8) as u16, true)
    } else if index <= 231 {
        let c = index - 16;
        Rgb {
            r: spec_cube_level(c as int / 36),
            g: spec_cube_level((c as int % 36) / 6),
            b: spec_cube_level(c as int % 6),
        }
    } else if index <= 255 {
        let v = (8 + 10 * (index - 232)) as u8;
        Rgb { r: v, g: v, b: v }
    } else {
        spec_default_fg()
    }
}

pub fn color_from_256(index: u16) -> (c: Rgb)
    ensures
        c == spec_color_from_256(index),
{
    if index <= 7 {
        ansi_color_to_rgb(index, false)
    } else if index <= 15 {
        ansi_color_to_rgb(index - 8, true)
    } else if index <= 231 {
        let c = index - 16;
        let r = cube_level(c / 36);
        let g = cube_level((c % 36) / 6);
        let b = cube_level(c % 6);
        Rgb { r, g, b }
    } else if index <= 255 {
        let v = (8 + 10 * (index - 232)) as u8;
        Rgb { r: v, g: v, b: v }
    } else {
        default_fg()
    }
}

} // verus!
