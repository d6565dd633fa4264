//! A single character cell of the terminal grid.

use vstd::prelude::*;

use crate::color::{default_bg, default_fg, spec_default_bg, spec_default_fg, Rgb};

verus! {

/// A character plus its resolved colors and style bits.  Every grid
/// position always holds a valid `Cell`; there is no "unset" sentinel.
#[derive(Clone, Copy, Debug, PartialEq, Eq, Structural)]
pub struct Cell {
    pub ch: char,
    pub fg: Rgb,
    pub bg: Rgb,
    pub bold: bool,
    pub italic: bool,
    pub underline: bool,
}

/// Default cell: a space with fg `(204,204,204)`, bg `(0,0,0)`, styles off.
pub open spec fn spec_default_cell() -> Cell {
    Cell {
        ch: ' ',
        fg: spec_default_fg(),
        bg: spec_default_bg(),
        bold: false,
        italic: false,
        underline: false,
    }
}

pub fn default_cell() -> (c: Cell)
    ensures
        c == spec_default_cell(),
{
    Cell { ch: ' ', fg: default_fg(), bg: default_bg(), bold: false, italic: false, underline: false }
}

} // verus!
