//! The terminal emulator: a byte-stream state machine that applies
//! printable characters, C0 controls, CSI sequences and SGR attributes to a
//! character grid.
//!
//! The whole emulator is specified by the pure transition function
//! [`st_step`]: feeding bytes is the left fold of `st_step` over the input.
//! Escape sequences that the emulator does not interpret (OSC, DCS,
//! SOS/PM/APC strings, other ESC finals) are consumed and discarded.

use vstd::prelude::*;
use vstd::string::StringSliceAdditionalSpecFns;

use crate::cell::{default_cell, spec_default_cell, Cell};
use crate::color::{
    ansi_color_to_rgb, color_from_256, default_bg, default_fg, spec_ansi_color,
    spec_color_from_256, spec_default_bg, spec_default_fg, Rgb,
};
use crate::grid::{spec_blank_grid, spec_blank_row, Frame};

verus! {

/// Relies on `char::from_u32`, documented to return `Some` exactly for
/// Unicode scalar values (not a surrogate, at most 0x10FFFF), preserving
/// the numeric value.
pub assume_specification[ char::from_u32 ](v: u32) -> (r: Option<char>)
    ensures
        r.is_some() <==> (v < 0xD800 || (0xE000 <= v && v <= 0x10FFFF)),
        r.is_some() ==> r.unwrap() as u32 == v,
;

/// A cursor position.
#[derive(Clone, Copy, Debug, PartialEq, Eq, Structural)]
pub struct Cursor {
    pub row: usize,
    pub col: usize,
}

impl Cursor {
    pub fn new() -> (c: Cursor)
        ensures
            c.row == 0 && c.col == 0,
    {
        Cursor { row: 0, col: 0 }
    }
}

/// States of the escape-sequence parser.
#[derive(Clone, Copy, Debug, PartialEq, Eq, Structural)]
pub enum VtState {
    Ground,
    Escape,
    EscapeIntermediate,
    CsiEntry,
    CsiParam,
    CsiIntermediate,
    CsiIgnore,
    OscString,
    DcsString,
    SosPmApcString,
    Utf8,
}

/// The mathematical state of an emulator: grid contents, cursor, saved
/// cursor, current SGR attributes, parser state, CSI parameters, and the
/// pending UTF-8 accumulator.
#[verifier::ext_equal]
pub struct TermView {
    pub width: nat,
    pub height: nat,
    pub grid: Seq<Seq<Cell>>,
    pub row: nat,
    pub col: nat,
    pub saved: Option<(nat, nat)>,
    pub fg: Rgb,
    pub bg: Rgb,
    pub bold: bool,
    pub italic: bool,
    pub underline: bool,
    pub st: VtState,
    pub params: Seq<Seq<u16>>,
    pub acc: nat,
    pub rem: nat,
}

/// Well-formedness of an emulator state.
pub open spec fn wf(s: TermView) -> bool {
    &&& s.width >= 1
    &&& s.height >= 1
    &&& s.grid.len() == s.height
    &&& forall|r: int| 0 <= r < s.grid.len() ==> (#[trigger] s.grid[r]).len() == s.width
    &&& s.row < s.height
    &&& s.col < s.width
    &&& match s.saved {
        Some(p) => p.0 < s.height && p.1 < s.width,
        None => true,
    }
    &&& forall|i: int| 0 <= i < s.params.len() ==> (#[trigger] s.params[i]).len() >= 1
    &&& s.rem <= 3
    &&& (s.rem == 3 ==> s.acc < 8)
    &&& (s.rem == 2 ==> s.acc < 512)
    &&& (s.rem == 1 ==> s.acc < 0x8000)
    &&& (s.rem == 0 ==> s.acc == 0)
    &&& ((s.st == VtState::Utf8) <==> s.rem > 0)
}

/// Scrolling: drop the top row, append a blank row.
pub open spec fn spec_scroll(g: Seq<Seq<Cell>>, width: nat) -> Seq<Seq<Cell>> {
    g.subrange(1, g.len() as int).push(spec_blank_row(width))
}

/// PRINT: write a cell at the cursor with the current SGR attributes, then
/// advance one column, wrapping to the next row and scrolling when the
/// cursor runs past the last column of the last row.
pub open spec fn st_print(s: TermView, c: char) -> TermView {
    let cell = Cell { ch: c, fg: s.fg, bg: s.bg, bold: s.bold, italic: s.italic, underline: s.underline };
    let g = s.grid.update(s.row as int, s.grid[s.row as int].update(s.col as int, cell));
    if s.col + 1 >= s.width {
        if s.row + 1 >= s.height {
            TermView { grid: spec_scroll(g, s.width), row: (s.height - 1) as nat, col: 0, ..s }
        } else {
            TermView { grid: g, row: (s.row + 1) as nat, col: 0, ..s }
        }
    } else {
        TermView { grid: g, col: (s.col + 1) as nat, ..s }
    }
}

/// EXECUTE: C0 control bytes.  LF moves down (scrolling at the bottom), CR
/// returns to column 0, HT advances to the next 8-column tab stop capped at
/// the last column, BS moves one column left; everything else is ignored.
pub open spec fn st_execute(s: TermView, b: u8) -> TermView {
    if b == 0x0A {
        if s.row + 1 >= s.height {
            TermView { grid: spec_scroll(s.grid, s.width), row: (s.height - 1) as nat, ..s }
        } else {
            TermView { row: (s.row + 1) as nat, ..s }
        }
    } else if b == 0x0D {
        TermView { col: 0, ..s }
    } else if b == 0x09 {
        let t = (s.col / 8 + 1) * 8;
        let c2 = if t <= s.width - 1 { t } else { (s.width - 1) as nat };
        TermView { col: c2, ..s }
    } else if b == 0x08 {
        if s.col > 0 {
            TermView { col: (s.col - 1) as nat, ..s }
        } else {
            s
        }
    } else {
        s
    }
}

/// One plain SGR code applied to the attribute fields.  Unknown codes are
/// skipped without affecting prior state.
pub open spec fn sgr_one(s: TermView, v: u16) -> TermView {
    if v == 0 {
        TermView {
            fg: spec_default_fg(),
            bg: spec_default_bg(),
            bold: false,
            italic: false,
            underline: false,
            ..s
        }
    } else if v == 1 {
        TermView { bold: true, ..s }
    } else if v == 3 {
        TermView { italic: true, ..s }
    } else if v == 4 {
        TermView { underline: true, ..s }
    } else if v == 22 {
        TermView { bold: false, ..s }
    } else if v == 23 {
        TermView { italic: false, ..s }
    } else if v == 24 {
        TermView { underline: false, ..s }
    } else if 30 <= v && v <= 37 {
        TermView { fg: spec_ansi_color((v - 30) as u16, s.bold), ..s }
    } else if v == 39 {
        TermView { fg: spec_default_fg(), ..s }
    } else if 40 <= v && v <= 47 {
        TermView { bg: spec_ansi_color((v - 40) as u16, false), ..s }
    } else if v == 49 {
        TermView { bg: spec_default_bg(), ..s }
    } else if 90 <= v && v <= 97 {
        TermView { fg: spec_ansi_color((v - 90) as u16, true), ..s }
    } else if 100 <= v && v <= 107 {
        TermView { bg: spec_ansi_color((v - 100) as u16, true), ..s }
    } else {
        s
    }
}

/// Scan of a flattened SGR parameter list.  `38`/`48` consume a
/// `5;N` (256-color) or `2;R;G;B` (direct color) extension when enough
/// values follow, and are otherwise skipped on their own.
pub open spec fn sgr_apply(s: TermView, vals: Seq<u16>) -> TermView
    decreases vals.len(),
{
    if vals.len() == 0 {
        s
    } else {
        let v = vals[0];
        if v == 38 || v == 48 {
            if vals.len() >= 3 && vals[1] == 5 {
                let c = spec_color_from_256(vals[2]);
                let s2 = if v == 38 {
                    TermView { fg: c, ..s }
                } else {
                    TermView { bg: c, ..s }
                };
                sgr_apply(s2, vals.skip(3))
            } else if vals.len() >= 5 && vals[1] == 2 {
                let c = Rgb {
                    r: (vals[2] % 256) as u8,
                    g: (vals[3] % 256) as u8,
                    b: (vals[4] % 256) as u8,
                };
                let s2 = if v == 38 {
                    TermView { fg: c, ..s }
                } else {
                    TermView { bg: c, ..s }
                };
                sgr_apply(s2, vals.skip(5))
            } else {
                sgr_apply(s, vals.skip(1))
            }
        } else {
            sgr_apply(sgr_one(s, v), vals.skip(1))
        }
    }
}

/// SGR dispatch: an empty parameter list is a full reset; otherwise the
/// flattened list is scanned left to right.
pub open spec fn st_sgr(s: TermView) -> TermView {
    let vals = s.params.flatten();
    if vals.len() == 0 {
        sgr_one(s, 0)
    } else {
        sgr_apply(s, vals)
    }
}

/// The first value of parameter group `i`, or `dflt` when absent.
pub open spec fn param_or(s: TermView, i: int, dflt: u16) -> u16 {
    if s.params.len() > i && s.params[i].len() > 0 {
        s.params[i][0]
    } else {
        dflt
    }
}

/// `v - 1` saturating at zero: CSI positions are 1-based.
pub open spec fn sub1(v: u16) -> nat {
    if v == 0 {
        0
    } else {
        (v - 1) as nat
    }
}

/// CUP: move to the (1-based) row and column given by the first two
/// parameters, clamped to the grid.
pub open spec fn st_cup(s: TermView) -> TermView {
    let pr = sub1(param_or(s, 0, 0));
    let pc = sub1(param_or(s, 1, 0));
    let r2 = if pr <= s.height - 1 { pr } else { (s.height - 1) as nat };
    let c2 = if pc <= s.width - 1 { pc } else { (s.width - 1) as nat };
    TermView { row: r2, col: c2, ..s }
}

/// ED: erase display.  Mode 0 clears from the cursor to the end of the
/// screen, mode 1 from the beginning through the cursor, mode 2 the whole
/// screen.
pub open spec fn st_erase_display(s: TermView) -> TermView {
    let mode = param_or(s, 0, 0);
    if mode == 0 {
        let g = Seq::new(
            s.grid.len(),
            |r: int|
                if r < s.row {
                    s.grid[r]
                } else if r == s.row {
                    Seq::new(s.grid[r].len(), |c: int| if c >= s.col { spec_default_cell() } else { s.grid[r][c] })
                } else {
                    Seq::new(s.grid[r].len(), |c: int| spec_default_cell())
                },
        );
        TermView { grid: g, ..s }
    } else if mode == 1 {
        let g = Seq::new(
            s.grid.len(),
            |r: int|
                if r < s.row {
                    Seq::new(s.grid[r].len(), |c: int| spec_default_cell())
                } else if r == s.row {
                    Seq::new(s.grid[r].len(), |c: int| if c <= s.col { spec_default_cell() } else { s.grid[r][c] })
                } else {
                    s.grid[r]
                },
        );
        TermView { grid: g, ..s }
    } else if mode == 2 {
        let g = Seq::new(s.grid.len(), |r: int| Seq::new(s.grid[r].len(), |c: int| spec_default_cell()));
        TermView { grid: g, ..s }
    } else {
        s
    }
}

/// EL: erase line.  Mode 0 clears from the cursor to the end of the row,
/// mode 1 from the beginning through the cursor, mode 2 the whole row.
pub open spec fn st_erase_line(s: TermView) -> TermView {
    let mode = param_or(s, 0, 0);
    let row = s.grid[s.row as int];
    if mode == 0 {
        let r2 = Seq::new(row.len(), |c: int| if c >= s.col { spec_default_cell() } else { row[c] });
        TermView { grid: s.grid.update(s.row as int, r2), ..s }
    } else if mode == 1 {
        let r2 = Seq::new(row.len(), |c: int| if c <= s.col { spec_default_cell() } else { row[c] });
        TermView { grid: s.grid.update(s.row as int, r2), ..s }
    } else if mode == 2 {
        let r2 = Seq::new(row.len(), |c: int| spec_default_cell());
        TermView { grid: s.grid.update(s.row as int, r2), ..s }
    } else {
        s
    }
}

/// Relative cursor motion for CUU/CUD/CUF/CUB, saturating at the edges.
pub open spec fn st_cursor_move(s: TermView, fin: u8) -> TermView {
    let n = param_or(s, 0, 1) as nat;
    if fin == 0x41 {
        let r2 = if n <= s.row { (s.row - n) as nat } else { 0 };
        TermView { row: r2, ..s }
    } else if fin == 0x42 {
        let r2 = if s.row + n <= s.height - 1 { s.row + n } else { (s.height - 1) as nat };
        TermView { row: r2, ..s }
    } else if fin == 0x43 {
        let c2 = if s.col + n <= s.width - 1 { s.col + n } else { (s.width - 1) as nat };
        TermView { col: c2, ..s }
    } else {
        let c2 = if n <= s.col { (s.col - n) as nat } else { 0 };
        TermView { col: c2, ..s }
    }
}

/// CSI dispatch on the final byte.  `m` is SGR, `H`/`f` is CUP, `J`/`K`
/// erase, `A`-`D` move the cursor, `s`/`u` save and restore it; any other
/// final byte is ignored.
pub open spec fn st_csi(s: TermView, fin: u8) -> TermView {
    if fin == 0x6D {  // m
        st_sgr(s)
    } else if fin == 0x48 || fin == 0x66 {  // H f
        st_cup(s)
    } else if fin == 0x4A {  // J
        st_erase_display(s)
    } else if fin == 0x4B {  // K
        st_erase_line(s)
    } else if fin == 0x41 || fin == 0x42 || fin == 0x43 || fin == 0x44 {  // A B C D
        st_cursor_move(s, fin)
    } else if fin == 0x73 {  // s
        TermView { saved: Some((s.row, s.col)), ..s }
    } else if fin == 0x75 {  // u
        match s.saved {
            Some(p) => TermView { row: p.0, col: p.1, ..s },
            None => s,
        }
    } else {
        s
    }
}

/// A digit appended to the current CSI parameter, saturating at 65535.
pub open spec fn params_digit(p: Seq<Seq<u16>>, d: u16) -> Seq<Seq<u16>> {
    let p1 = if p.len() == 0 {
        seq![seq![0u16]]
    } else {
        p
    };
    let gi = p1.len() - 1;
    let g = p1[gi];
    let li = g.len() - 1;
    let v = g[li];
    let nv = if v * 10 + d <= 65535 {
        (v * 10 + d) as u16
    } else {
        65535u16
    };
    p1.update(gi, g.update(li, nv))
}

/// `;` closes the current parameter group and opens a new one.
pub open spec fn params_semi(p: Seq<Seq<u16>>) -> Seq<Seq<u16>> {
    let p1 = if p.len() == 0 {
        seq![seq![0u16]]
    } else {
        p
    };
    p1.push(seq![0u16])
}

/// `:` appends a sub-parameter to the current group.
pub open spec fn params_colon(p: Seq<Seq<u16>>) -> Seq<Seq<u16>> {
    let p1 = if p.len() == 0 {
        seq![seq![0u16]]
    } else {
        p
    };
    let gi = p1.len() - 1;
    p1.update(gi, p1[gi].push(0u16))
}

/// A C0 byte other than ESC, CAN and SUB: executed in every parser state.
pub open spec fn is_c0_execute(b: u8) -> bool {
    b <= 0x17 || b == 0x19 || (0x1C <= b && b <= 0x1F)
}

/// The Unicode replacement character, printed for invalid UTF-8.
pub open spec fn replacement_char() -> char {
    '\u{FFFD}'
}

/// A byte fed in the ground state: C0 controls execute, ASCII prints,
/// UTF-8 leading bytes open a multi-byte sequence, stray continuation or
/// invalid bytes print the replacement character, DEL is ignored.
pub open spec fn st_ground(s: TermView, b: u8) -> TermView {
    if b == 0x1B {
        TermView { st: VtState::Escape, ..s }
    } else if b < 0x20 {
        st_execute(s, b)
    } else if b <= 0x7E {
        st_print(s, b as char)
    } else if b == 0x7F {
        s
    } else if 0xC2 <= b && b <= 0xDF {
        TermView { st: VtState::Utf8, acc: (b & 0x1F) as nat, rem: 1, ..s }
    } else if 0xE0 <= b && b <= 0xEF {
        TermView { st: VtState::Utf8, acc: (b & 0x0F) as nat, rem: 2, ..s }
    } else if 0xF0 <= b && b <= 0xF4 {
        TermView { st: VtState::Utf8, acc: (b & 0x07) as nat, rem: 3, ..s }
    } else {
        st_print(s, replacement_char())
    }
}

/// Whether a code point is a Unicode scalar value.
pub open spec fn is_scalar_value(v: nat) -> bool {
    v < 0xD800 || (0xE000 <= v && v <= 0x10FFFF)
}

/// A byte fed while a UTF-8 sequence is pending.  A continuation byte
/// extends the accumulator and, on completion, prints the decoded scalar
/// (or the replacement character for an invalid code point).  Any other
/// byte prints the replacement character and is then re-processed from the
/// ground state.
pub open spec fn st_utf8(s: TermView, b: u8) -> TermView {
    if 0x80 <= b && b <= 0xBF {
        let acc2 = s.acc * 64 + (b & 0x3F) as nat;
        if s.rem == 1 {
            let c = if is_scalar_value(acc2) {
                (acc2 as u32) as char
            } else {
                replacement_char()
            };
            st_print(TermView { st: VtState::Ground, acc: 0, rem: 0, ..s }, c)
        } else {
            TermView { acc: acc2, rem: (s.rem - 1) as nat, ..s }
        }
    } else {
        let s2 = st_print(TermView { st: VtState::Ground, acc: 0, rem: 0, ..s }, replacement_char());
        st_ground(s2, b)
    }
}

/// A byte fed in the escape state: `[` opens a CSI sequence with cleared
/// parameters, `]` an OSC string, `P` a DCS string, `X`/`^`/`_` a
/// SOS/PM/APC string; intermediates collect; other finals dispatch (as
/// no-ops) back to ground.
pub open spec fn st_escape(s: TermView, b: u8) -> TermView {
    if b == 0x1B {
        s
    } else if b == 0x18 || b == 0x1A {
        TermView { st: VtState::Ground, ..s }
    } else if is_c0_execute(b) {
        st_execute(s, b)
    } else if b == 0x5B {  // [
        TermView { st: VtState::CsiEntry, params: Seq::empty(), ..s }
    } else if b == 0x5D {  // ]
        TermView { st: VtState::OscString, ..s }
    } else if b == 0x50 {  // P
        TermView { st: VtState::DcsString, ..s }
    } else if b == 0x58 || b == 0x5E || b == 0x5F {  // X ^ _
        TermView { st: VtState::SosPmApcString, ..s }
    } else if 0x20 <= b && b <= 0x2F {
        TermView { st: VtState::EscapeIntermediate, ..s }
    } else {
        TermView { st: VtState::Ground, ..s }
    }
}

/// The byte-level transition function of the emulator.
pub open spec fn st_step(s: TermView, b: u8) -> TermView {
    match s.st {
        VtState::Ground => st_ground(s, b),
        VtState::Utf8 => st_utf8(s, b),
        VtState::Escape => st_escape(s, b),
        VtState::EscapeIntermediate => {
            if b == 0x1B {
                TermView { st: VtState::Escape, ..s }
            } else if b == 0x18 || b == 0x1A {
                TermView { st: VtState::Ground, ..s }
            } else if is_c0_execute(b) {
                st_execute(s, b)
            } else if 0x20 <= b && b <= 0x2F {
                s
            } else if b <= 0x7E {
                TermView { st: VtState::Ground, ..s }
            } else {
                TermView { st: VtState::Ground, ..s }
            }
        },
        VtState::CsiEntry | VtState::CsiParam => {
            if b == 0x1B {
                TermView { st: VtState::Escape, ..s }
            } else if b == 0x18 || b == 0x1A {
                TermView { st: VtState::Ground, ..s }
            } else if is_c0_execute(b) {
                st_execute(s, b)
            } else if 0x30 <= b && b <= 0x39 {
                TermView { st: VtState::CsiParam, params: params_digit(s.params, (b - 0x30) as u16), ..s }
            } else if b == 0x3B {
                TermView { st: VtState::CsiParam, params: params_semi(s.params), ..s }
            } else if b == 0x3A {
                TermView { st: VtState::CsiParam, params: params_colon(s.params), ..s }
            } else if 0x3C <= b && b <= 0x3F {
                if s.st == VtState::CsiEntry {
                    TermView { st: VtState::CsiParam, ..s }
                } else {
                    TermView { st: VtState::CsiIgnore, ..s }
                }
            } else if 0x20 <= b && b <= 0x2F {
                TermView { st: VtState::CsiIntermediate, ..s }
            } else if 0x40 <= b && b <= 0x7E {
                TermView { st: VtState::Ground, ..st_csi(s, b) }
            } else {
                TermView { st: VtState::Ground, ..s }
            }
        },
        VtState::CsiIntermediate => {
            if b == 0x1B {
                TermView { st: VtState::Escape, ..s }
            } else if b == 0x18 || b == 0x1A {
                TermView { st: VtState::Ground, ..s }
            } else if is_c0_execute(b) {
                st_execute(s, b)
            } else if 0x20 <= b && b <= 0x2F {
                s
            } else if 0x30 <= b && b <= 0x3F {
                TermView { st: VtState::CsiIgnore, ..s }
            } else if 0x40 <= b && b <= 0x7E {
                TermView { st: VtState::Ground, ..st_csi(s, b) }
            } else {
                TermView { st: VtState::Ground, ..s }
            }
        },
        VtState::CsiIgnore => {
            if b == 0x1B {
                TermView { st: VtState::Escape, ..s }
            } else if b == 0x18 || b == 0x1A {
                TermView { st: VtState::Ground, ..s }
            } else if is_c0_execute(b) {
                st_execute(s, b)
            } else if 0x40 <= b && b <= 0x7E {
                TermView { st: VtState::Ground, ..s }
            } else {
                s
            }
        },
        VtState::OscString => {
            if b == 0x1B {
                TermView { st: VtState::Escape, ..s }
            } else if b == 0x18 || b == 0x1A {
                TermView { st: VtState::Ground, ..s }
            } else if b == 0x07 {
                TermView { st: VtState::Ground, ..s }
            } else {
                s
            }
        },
        VtState::DcsString | VtState::SosPmApcString => {
            if b == 0x1B {
                TermView { st: VtState::Escape, ..s }
            } else if b == 0x18 || b == 0x1A {
                TermView { st: VtState::Ground, ..s }
            } else {
                s
            }
        },
    }
}

/// Feeding a byte sequence is the left fold of [`st_step`].
pub open spec fn st_feed(s: TermView, bytes: Seq<u8>) -> TermView
    decreases bytes.len(),
{
    if bytes.len() == 0 {
        s
    } else {
        st_feed(st_step(s, bytes[0]), bytes.skip(1))
    }
}

/// The initial emulator state: a blank grid, cursor at the origin, default
/// attributes, ground parser state.
pub open spec fn st_init(width: nat, height: nat) -> TermView {
    TermView {
        width,
        height,
        grid: spec_blank_grid(width, height),
        row: 0,
        col: 0,
        saved: None,
        fg: spec_default_fg(),
        bg: spec_default_bg(),
        bold: false,
        italic: false,
        underline: false,
        st: VtState::Ground,
        params: Seq::empty(),
        acc: 0,
        rem: 0,
    }
}

/// The terminal emulator.  Single-use: construct, feed bytes, snapshot.
pub struct Emulator {
    grid: Frame,
    cursor: Cursor,
    saved_cursor: Option<Cursor>,
    fg_color: Rgb,
    bg_color: Rgb,
    bold: bool,
    italic: bool,
    underline: bool,
    state: VtState,
    params: Vec<Vec<u16>>,
    utf8_acc: u32,
    utf8_rem: u8,
}

impl View for Emulator {
    type V = TermView;

    closed spec fn view(&self) -> TermView {
        TermView {
            width: self.grid.width as nat,
            height: self.grid.height as nat,
            grid: self.grid@,
            row: self.cursor.row as nat,
            col: self.cursor.col as nat,
            saved: match self.saved_cursor {
                Some(c) => Some((c.row as nat, c.col as nat)),
                None => None,
            },
            fg: self.fg_color,
            bg: self.bg_color,
            bold: self.bold,
            italic: self.italic,
            underline: self.underline,
            st: self.state,
            params: self.params.deep_view(),
            acc: self.utf8_acc as nat,
            rem: self.utf8_rem as nat,
        }
    }
}

impl Emulator {
    /// A fresh emulator for a `width x height` screen.
    pub fn new(width: usize, height: usize) -> (e: Emulator)
        requires
            width >= 1,
            height >= 1,
        ensures
            e@ =~~= st_init(width as nat, height as nat),
            wf(e@),
    {
        let e = Emulator {
            grid: Frame::new(width, height),
            cursor: Cursor::new(),
            saved_cursor: None,
            fg_color: default_fg(),
            bg_color: default_bg(),
            bold: false,
            italic: false,
            underline: false,
            state: VtState::Ground,
            params: Vec::new(),
            utf8_acc: 0,
            utf8_rem: 0,
        };
        proof {
            assert(e@ =~~= st_init(width as nat, height as nat));
        }
        e
    }

    /// PRINT action.
    fn put_char(&mut self, c: char)
        requires
            wf(old(self)@),
        ensures
            final(self)@ =~~= st_print(old(self)@, c),
            wf(final(self)@),
    {
        let cell = Cell {
            ch: c,
            fg: self.fg_color,
            bg: self.bg_color,
            bold: self.bold,
            italic: self.italic,
            underline: self.underline,
        };
        let r = self.cursor.row;
        let co = self.cursor.col;
        self.grid.set_cell(r, co, cell);
        self.cursor.col = co + 1;
        if self.cursor.col >= self.grid.width {
            self.cursor.col = 0;
            self.cursor.row = r + 1;
            if self.cursor.row >= self.grid.height {
                self.cursor.row = self.grid.height - 1;
                self.grid.scroll_up();
            }
        }
        proof {
            assert(self@ =~~= st_print(old(self)@, c));
        }
    }

    /// EXECUTE action for C0 control bytes.
    fn exec_ctrl(&mut self, b: u8)
        requires
            wf(old(self)@),
        ensures
            final(self)@ =~~= st_execute(old(self)@, b),
            wf(final(self)@),
    {
        if b == 0x0A {
            if self.cursor.row + 1 >= self.grid.height {
                self.cursor.row = self.grid.height - 1;
                self.grid.scroll_up();
            } else {
                self.cursor.row = self.cursor.row + 1;
            }
            proof {
                assert(self@ =~~= st_execute(old(self)@, b));
            }
        } else if b == 0x0D {
            self.cursor.col = 0;
        } else if b == 0x09 {
            let c = self.cursor.col;
            let w = self.grid.width;
            let m = c / 8 + 1;
            if m <= (w - 1) / 8 {
                proof {
                    assert(m * 8 <= ((w - 1) / 8) * 8) by (nonlinear_arith)
                        requires
                            m <= (w - 1) / 8,
                    ;
                    assert(((w - 1) / 8) * 8 <= w - 1);
                }
                self.cursor.col = m * 8;
            } else {
                proof {
                    assert((c / 8 + 1) * 8 > w - 1) by (nonlinear_arith)
                        requires
                            c / 8 + 1 > (w - 1) / 8,
                            w >= 1,
                    ;
                }
                self.cursor.col = w - 1;
            }
            proof {
                assert(self@ =~~= st_execute(old(self)@, b));
            }
        } else if b == 0x08 {
            if self.cursor.col > 0 {
                self.cursor.col = self.cursor.col - 1;
            }
        }
        proof {
            assert(self@ =~~= st_execute(old(self)@, b));
        }
    }
}

impl Emulator {
    /// Ensures the parameter list has at least one group.
    fn params_ensure_group(&mut self)
        requires
            wf(old(self)@),
        ensures
            wf(final(self)@),
            final(self)@ =~~= (TermView {
                params: if old(self)@.params.len() == 0 {
                    seq![seq![0u16]]
                } else {
                    old(self)@.params
                },
                ..old(self)@
            }),
    {
        if self.params.len() == 0 {
            let mut g: Vec<u16> = Vec::new();
            g.push(0u16);
            self.params.push(g);
        }
        proof {
            assert(self@.params =~~= if old(self)@.params.len() == 0 {
                seq![seq![0u16]]
            } else {
                old(self)@.params
            });
        }
    }

    /// Appends a decimal digit to the current parameter value.
    fn param_digit(&mut self, d: u16)
        requires
            wf(old(self)@),
            d <= 9,
        ensures
            wf(final(self)@),
            final(self)@ =~~= (TermView {
                params: params_digit(old(self)@.params, d),
                ..old(self)@
            }),
    {
        self.params_ensure_group();
        let gi = self.params.len() - 1;
        let mut g = self.params.pop().unwrap();
        let li = g.len() - 1;
        let v = g[li];
        let x: u32 = v as u32 * 10 + d as u32;
        let nv: u16 = if x <= 65535 {
            x as u16
        } else {
            65535u16
        };
        g.set(li, nv);
        self.params.push(g);
        proof {
            assert(self@.params =~~= params_digit(old(self)@.params, d));
        }
    }

    /// Starts a new parameter group (`;`).
    fn param_semi(&mut self)
        requires
            wf(old(self)@),
        ensures
            wf(final(self)@),
            final(self)@ =~~= (TermView { params: params_semi(old(self)@.params), ..old(self)@ }),
    {
        self.params_ensure_group();
        let mut g: Vec<u16> = Vec::new();
        g.push(0u16);
        self.params.push(g);
        proof {
            assert(self@.params =~~= params_semi(old(self)@.params));
        }
    }

    /// Appends a sub-parameter to the current group (`:`).
    fn param_colon(&mut self)
        requires
            wf(old(self)@),
        ensures
            wf(final(self)@),
            final(self)@ =~~= (TermView { params: params_colon(old(self)@.params), ..old(self)@ }),
    {
        self.params_ensure_group();
        let mut g = self.params.pop().unwrap();
        g.push(0u16);
        self.params.push(g);
        proof {
            assert(self@.params =~~= params_colon(old(self)@.params));
        }
    }

    /// The first value of parameter group `i`, or `dflt` when absent.
    fn param_or(&self, i: usize, dflt: u16) -> (v: u16)
        ensures
            v == param_or(self@, i as int, dflt),
    {
        if i < self.params.len() {
            let g = &self.params[i];
            if g.len() > 0 {
                g[0]
            } else {
                dflt
            }
        } else {
            dflt
        }
    }
}

/// True when two states agree on everything but the SGR attribute fields.
pub open spec fn same_but_sgr(a: TermView, b: TermView) -> bool {
    TermView { fg: b.fg, bg: b.bg, bold: b.bold, italic: b.italic, underline: b.underline, ..a } =~~= b
}

impl Emulator {
    /// The CSI parameter groups flattened into one list.
    fn flatten_params(&self) -> (vals: Vec<u16>)
        ensures
            vals@ =~= self@.params.flatten(),
    {
        let mut vals: Vec<u16> = Vec::new();
        let n = self.params.len();
        for i in 0..n
            invariant
                n == self.params.len(),
                vals@ =~= self@.params.take(i as int).flatten(),
        {
            let g = &self.params[i];
            let m = g.len();
            for j in 0..m
                invariant
                    n == self.params.len(),
                    i < self.params.len(),
                    m == g.len(),
                    g == &self.params[i as int],
                    vals@ =~= self@.params.take(i as int).flatten() + g@.take(j as int),
            {
                vals.push(g[j]);
            }
            proof {
                assert(self@.params.take(i + 1) =~= self@.params.take(i as int).push(
                    self@.params[i as int],
                ));
                self@.params.take(i as int).lemma_flatten_push(self@.params[i as int]);
                assert(g@.take(m as int) =~= self@.params[i as int]);
            }
        }
        proof {
            assert(self@.params.take(n as int) =~= self@.params);
        }
        vals
    }

    /// One plain SGR code.
    fn sgr_single(&mut self, v: u16)
        requires
            wf(old(self)@),
        ensures
            wf(final(self)@),
            final(self)@ =~~= sgr_one(old(self)@, v),
    {
        if v == 0 {
            self.fg_color = default_fg();
            self.bg_color = default_bg();
            self.bold = false;
            self.italic = false;
            self.underline = false;
        } else if v == 1 {
            self.bold = true;
        } else if v == 3 {
            self.italic = true;
        } else if v == 4 {
            self.underline = true;
        } else if v == 22 {
            self.bold = false;
        } else if v == 23 {
            self.italic = false;
        } else if v == 24 {
            self.underline = false;
        } else if 30 <= v && v <= 37 {
            self.fg_color = ansi_color_to_rgb(v - 30, self.bold);
        } else if v == 39 {
            self.fg_color = default_fg();
        } else if 40 <= v && v <= 47 {
            self.bg_color = ansi_color_to_rgb(v - 40, false);
        } else if v == 49 {
            self.bg_color = default_bg();
        } else if 90 <= v && v <= 97 {
            self.fg_color = ansi_color_to_rgb(v - 90, true);
        } else if 100 <= v && v <= 107 {
            self.bg_color = ansi_color_to_rgb(v - 100, true);
        }
        proof {
            assert(self@ =~~= sgr_one(old(self)@, v));
        }
    }

    /// SGR dispatch over the flattened parameter list.
    fn apply_sgr(&mut self)
        requires
            wf(old(self)@),
        ensures
            wf(final(self)@),
            final(self)@ =~~= st_sgr(old(self)@),
    {
        let vals = self.flatten_params();
        if vals.len() == 0 {
            self.sgr_single(0);
            return ;
        }
        let n = vals.len();
        let ghost target = sgr_apply(old(self)@, vals@);
        proof {
            assert(vals@.skip(0) =~= vals@);
        }
        let mut i: usize = 0;
        while i < n
            invariant
                wf(self@),
                n == vals@.len(),
                i <= n,
                same_but_sgr(old(self)@, self@),
                sgr_apply(self@, vals@.skip(i as int)) =~~= target,
            decreases n - i,
        {
            let ghost pre = self@;
            let ghost i0 = i as int;
            let v = vals[i];
            if v == 38 || v == 48 {
                if n - i >= 3 && vals[i + 1] == 5 {
                    let c = color_from_256(vals[i + 2]);
                    if v == 38 {
                        self.fg_color = c;
                    } else {
                        self.bg_color = c;
                    }
                    i = i + 3;
                    proof {
                        assert(vals@.skip(i0).skip(3) =~= vals@.skip(i0 + 3));
                    }
                } else if n - i >= 5 && vals[i + 1] == 2 {
                    let c = Rgb {
                        r: (vals[i + 2] % 256) as u8,
                        g: (vals[i + 3] % 256) as u8,
                        b: (vals[i + 4] % 256) as u8,
                    };
                    if v == 38 {
                        self.fg_color = c;
                    } else {
                        self.bg_color = c;
                    }
                    i = i + 5;
                    proof {
                        assert(vals@.skip(i0).skip(5) =~= vals@.skip(i0 + 5));
                    }
                } else {
                    i = i + 1;
                    proof {
                        assert(vals@.skip(i0).skip(1) =~= vals@.skip(i0 + 1));
                    }
                }
            } else {
                self.sgr_single(v);
                i = i + 1;
                proof {
                    assert(vals@.skip(i0).skip(1) =~= vals@.skip(i0 + 1));
                    assert(self@ =~~= sgr_one(pre, v));
                }
            }
            proof {
                assert(sgr_apply(self@, vals@.skip(i as int)) =~~= target);
            }
        }
        proof {
            assert(vals@.skip(n as int) =~= Seq::<u16>::empty());
            assert(self@ =~~= target);
            assert(self@ =~~= st_sgr(old(self)@));
        }
    }
}

impl Emulator {
    /// ED mode 0: from the cursor to the end of the screen.
    fn erase_to_end(&mut self)
        requires
            wf(old(self)@),
            param_or(old(self)@, 0, 0) == 0,
        ensures
            wf(final(self)@),
            final(self)@ =~~= st_erase_display(old(self)@),
    {
        let row = self.cursor.row;
        let col = self.cursor.col;
        let h = self.grid.height;
        let w = self.grid.width;
        let mut nr: Vec<Cell> = Vec::new();
        for c in 0..w
            invariant
                wf(self@),
                self == old(self),
                w == self.grid.width,
                row == self.cursor.row,
                col == self.cursor.col,
                nr@.len() == c,
                forall|j: int| 0 <= j < c ==> nr@[j] == (if j >= col {
                    spec_default_cell()
                } else {
                    self@.grid[row as int][j]
                }),
        {
            if c >= col {
                nr.push(default_cell());
            } else {
                proof {
                    assert(self@.grid[row as int].len() == w);
                }
                let cell = *self.grid.get_cell(row, c).unwrap();
                nr.push(cell);
            }
        }
        self.grid.set_row(row, nr);
        let mut r = row + 1;
        while r < h
            invariant
                wf(old(self)@),
                wf(self@),
                h == self.grid.height,
                w == self.grid.width,
                row < h,
                col < w,
                row + 1 <= r <= h,
                self@.grid.len() == h,
                same_but_grid(old(self)@, self@),
                forall|k: int| 0 <= k < row ==> self@.grid[k] == old(self)@.grid[k],
                self@.grid[row as int] =~= Seq::new(
                    old(self)@.grid[row as int].len(),
                    |c: int| if c >= col {
                        spec_default_cell()
                    } else {
                        old(self)@.grid[row as int][c]
                    },
                ),
                forall|k: int| row < k < r ==> (#[trigger] self@.grid[k]) =~= spec_blank_row(
                    w as nat,
                ),
                forall|k: int| r <= k < h ==> self@.grid[k] == old(self)@.grid[k],
            decreases h - r,
        {
            let blank = crate::grid::blank_row_vec(w);
            self.grid.set_row(r, blank);
            r = r + 1;
        }
        proof {
            let s = old(self)@;
            assert(self@.grid =~~= Seq::new(
                s.grid.len(),
                |ri: int|
                    if ri < s.row {
                        s.grid[ri]
                    } else if ri == s.row {
                        Seq::new(
                            s.grid[ri].len(),
                            |c: int| if c >= s.col { spec_default_cell() } else { s.grid[ri][c] },
                        )
                    } else {
                        Seq::new(s.grid[ri].len(), |c: int| spec_default_cell())
                    },
            ));
            assert(self@ =~~= st_erase_display(s));
        }
    }

    /// ED mode 1: from the beginning of the screen through the cursor.
    fn erase_from_start(&mut self)
        requires
            wf(old(self)@),
            param_or(old(self)@, 0, 0) == 1,
        ensures
            wf(final(self)@),
            final(self)@ =~~= st_erase_display(old(self)@),
    {
        let row = self.cursor.row;
        let col = self.cursor.col;
        let w = self.grid.width;
        let mut r: usize = 0;
        while r < row
            invariant
                wf(old(self)@),
                wf(self@),
                w == self.grid.width,
                row == self.cursor.row,
                col == self.cursor.col,
                row < self@.grid.len(),
                r <= row,
                same_but_grid(old(self)@, self@),
                forall|k: int| 0 <= k < r ==> (#[trigger] self@.grid[k]) =~= spec_blank_row(
                    w as nat,
                ),
                forall|k: int| r <= k < self@.grid.len() ==> self@.grid[k] == old(self)@.grid[k],
            decreases row - r,
        {
            let blank = crate::grid::blank_row_vec(w);
            self.grid.set_row(r, blank);
            r = r + 1;
        }
        let mut nr: Vec<Cell> = Vec::new();
        for c in 0..w
            invariant
                wf(old(self)@),
                wf(self@),
                w == self.grid.width,
                row == self.cursor.row,
                col == self.cursor.col,
                row < self@.grid.len(),
                same_but_grid(old(self)@, self@),
                forall|k: int| 0 <= k < row ==> (#[trigger] self@.grid[k]) =~= spec_blank_row(
                    w as nat,
                ),
                forall|k: int| row <= k < self@.grid.len() ==> self@.grid[k] == old(
                    self,
                )@.grid[k],
                nr@.len() == c,
                forall|j: int| 0 <= j < c ==> nr@[j] == (if j <= col {
                    spec_default_cell()
                } else {
                    old(self)@.grid[row as int][j]
                }),
        {
            if c <= col {
                nr.push(default_cell());
            } else {
                proof {
                    assert(self@.grid[row as int].len() == w);
                }
                let cell = *self.grid.get_cell(row, c).unwrap();
                nr.push(cell);
            }
        }
        self.grid.set_row(row, nr);
        proof {
            let s = old(self)@;
            assert(self@.grid =~~= Seq::new(
                s.grid.len(),
                |ri: int|
                    if ri < s.row {
                        Seq::new(s.grid[ri].len(), |c: int| spec_default_cell())
                    } else if ri == s.row {
                        Seq::new(
                            s.grid[ri].len(),
                            |c: int| if c <= s.col { spec_default_cell() } else { s.grid[ri][c] },
                        )
                    } else {
                        s.grid[ri]
                    },
            ));
            assert(self@ =~~= st_erase_display(s));
        }
    }

    /// EL: erase within the cursor row.
    fn erase_line(&mut self, mode: u16)
        requires
            wf(old(self)@),
            mode == param_or(old(self)@, 0, 0),
        ensures
            wf(final(self)@),
            final(self)@ =~~= st_erase_line(old(self)@),
    {
        if mode > 2 {
            return ;
        }
        let row = self.cursor.row;
        let col = self.cursor.col;
        let w = self.grid.width;
        let mut nr: Vec<Cell> = Vec::new();
        for c in 0..w
            invariant
                wf(self@),
                self == old(self),
                mode <= 2,
                w == self.grid.width,
                row == self.cursor.row,
                col == self.cursor.col,
                row < self@.grid.len(),
                nr@.len() == c,
                forall|j: int| 0 <= j < c ==> nr@[j] == (if (mode == 0 && j >= col) || (mode == 1
                    && j <= col) || mode == 2 {
                    spec_default_cell()
                } else {
                    self@.grid[row as int][j]
                }),
        {
            let clear_it = if mode == 0 {
                c >= col
            } else if mode == 1 {
                c <= col
            } else {
                true
            };
            if clear_it {
                nr.push(default_cell());
            } else {
                proof {
                    assert(self@.grid[row as int].len() == w);
                }
                let cell = *self.grid.get_cell(row, c).unwrap();
                nr.push(cell);
            }
        }
        self.grid.set_row(row, nr);
        proof {
            assert(self@ =~~= st_erase_line(old(self)@));
        }
    }

    /// CSI dispatch preserves well-formedness.
    proof fn lemma_csi_wf(s: TermView, fin: u8)
        requires
            wf(s),
            s.rem == 0,
        ensures
            wf(TermView { st: VtState::Ground, ..st_csi(s, fin) }),
    {
        let t0 = st_csi(s, fin);
        if fin == 0x6D {
            Self::lemma_sgr_wf(s);
            assert(wf(TermView { st: VtState::Ground, ..t0 }));
        } else if fin == 0x48 || fin == 0x66 {
            assert(wf(TermView { st: VtState::Ground, ..t0 }));
        } else if fin == 0x41 || fin == 0x42 || fin == 0x43 || fin == 0x44 {
            assert(wf(TermView { st: VtState::Ground, ..t0 }));
        } else if fin == 0x73 || fin == 0x75 {
            assert(wf(TermView { st: VtState::Ground, ..t0 }));
        } else if fin == 0x4A {
            let t = st_erase_display(s);
            assert(t.grid.len() == s.grid.len());
            assert forall|r: int| 0 <= r < t.grid.len() implies (#[trigger] t.grid[r]).len()
                == s.width by {
                assert(s.grid[r].len() == s.width);
            }
        } else if fin == 0x4B {
            let t = st_erase_line(s);
            assert forall|r: int| 0 <= r < t.grid.len() implies (#[trigger] t.grid[r]).len()
                == s.width by {
                assert(s.grid[r].len() == s.width);
            }
        }
    }

    /// SGR application touches only the attribute fields.
    proof fn lemma_sgr_apply_same(s: TermView, vals: Seq<u16>)
        ensures
            same_but_sgr(s, sgr_apply(s, vals)),
        decreases vals.len(),
    {
        if vals.len() > 0 {
            let v = vals[0];
            if v == 38 || v == 48 {
                if vals.len() >= 3 && vals[1] == 5 {
                    let c = spec_color_from_256(vals[2]);
                    let s2 = if v == 38 {
                        TermView { fg: c, ..s }
                    } else {
                        TermView { bg: c, ..s }
                    };
                    Self::lemma_sgr_apply_same(s2, vals.skip(3));
                } else if vals.len() >= 5 && vals[1] == 2 {
                    let c = Rgb {
                        r: (vals[2] % 256) as u8,
                        g: (vals[3] % 256) as u8,
                        b: (vals[4] % 256) as u8,
                    };
                    let s2 = if v == 38 {
                        TermView { fg: c, ..s }
                    } else {
                        TermView { bg: c, ..s }
                    };
                    Self::lemma_sgr_apply_same(s2, vals.skip(5));
                } else {
                    Self::lemma_sgr_apply_same(s, vals.skip(1));
                }
            } else {
                Self::lemma_sgr_apply_same(sgr_one(s, v), vals.skip(1));
            }
        }
    }

    /// SGR dispatch preserves well-formedness.
    proof fn lemma_sgr_wf(s: TermView)
        requires
            wf(s),
        ensures
            wf(st_sgr(s)),
            same_but_sgr(s, st_sgr(s)),
    {
        let vals = s.params.flatten();
        if vals.len() != 0 {
            Self::lemma_sgr_apply_same(s, vals);
        }
    }

    /// CSI dispatch: applies the final byte and returns to ground.
    #[verifier::rlimit(80)]
    fn csi_dispatch(&mut self, fin: u8)
        requires
            wf(old(self)@),
            old(self)@.rem == 0,
        ensures
            wf(final(self)@),
            final(self)@ =~~= (TermView { st: VtState::Ground, ..st_csi(old(self)@, fin) }),
    {
        if fin == 0x6D {
            self.apply_sgr();
            proof {
                assert(self@ =~~= st_csi(old(self)@, fin));
            }
        } else if fin == 0x48 || fin == 0x66 {
            let p1 = self.param_or(0, 0);
            let p2 = self.param_or(1, 0);
            let pr = if p1 == 0 {
                0usize
            } else {
                (p1 - 1) as usize
            };
            let pc = if p2 == 0 {
                0usize
            } else {
                (p2 - 1) as usize
            };
            let h = self.grid.height;
            let w = self.grid.width;
            self.cursor.row = if pr <= h - 1 {
                pr
            } else {
                h - 1
            };
            self.cursor.col = if pc <= w - 1 {
                pc
            } else {
                w - 1
            };
            proof {
                assert(self@ =~~= st_csi(old(self)@, fin));
            }
        } else if fin == 0x4A {
            let mode = self.param_or(0, 0);
            if mode == 0 {
                self.erase_to_end();
            } else if mode == 1 {
                self.erase_from_start();
            } else if mode == 2 {
                self.grid.clear();
            }
            proof {
                assert(self@ =~~= st_csi(old(self)@, fin));
            }
        } else if fin == 0x4B {
            let mode = self.param_or(0, 0);
            self.erase_line(mode);
            proof {
                assert(self@ =~~= st_csi(old(self)@, fin));
            }
        } else if fin == 0x41 {
            let n = self.param_or(0, 1) as usize;
            self.cursor.row = if n <= self.cursor.row {
                self.cursor.row - n
            } else {
                0
            };
            proof {
                assert(self@ =~~= st_csi(old(self)@, fin));
            }
        } else if fin == 0x42 {
            let n = self.param_or(0, 1) as usize;
            let h = self.grid.height;
            let r = self.cursor.row;
            self.cursor.row = if n < h - r {
                r + n
            } else {
                h - 1
            };
            proof {
                assert(self@ =~~= st_csi(old(self)@, fin));
            }
        } else if fin == 0x43 {
            let n = self.param_or(0, 1) as usize;
            let w = self.grid.width;
            let c = self.cursor.col;
            self.cursor.col = if n < w - c {
                c + n
            } else {
                w - 1
            };
            proof {
                assert(self@ =~~= st_csi(old(self)@, fin));
            }
        } else if fin == 0x44 {
            let n = self.param_or(0, 1) as usize;
            self.cursor.col = if n <= self.cursor.col {
                self.cursor.col - n
            } else {
                0
            };
            proof {
                assert(self@ =~~= st_csi(old(self)@, fin));
            }
        } else if fin == 0x73 {
            self.saved_cursor = Some(Cursor { row: self.cursor.row, col: self.cursor.col });
            proof {
                assert(self@ =~~= st_csi(old(self)@, fin));
            }
        } else if fin == 0x75 {
            match &self.saved_cursor {
                Some(saved) => {
                    self.cursor.row = saved.row;
                    self.cursor.col = saved.col;
                },
                None => {},
            }
            proof {
                assert(self@ =~~= st_csi(old(self)@, fin));
            }
        }
        self.state = VtState::Ground;
        proof {
            Self::lemma_csi_wf(old(self)@, fin);
            assert(self@ =~~= (TermView { st: VtState::Ground, ..st_csi(old(self)@, fin) }));
        }
    }
}

/// True when two states agree on everything but the grid contents.
pub open spec fn same_but_grid(a: TermView, b: TermView) -> bool {
    TermView { grid: b.grid, ..a } =~~= b
}

impl Emulator {
    /// A byte fed in the ground state.
    fn ground_byte(&mut self, b: u8)
        requires
            wf(old(self)@),
            old(self)@.rem == 0,
        ensures
            wf(final(self)@),
            final(self)@ =~~= st_ground(old(self)@, b),
    {
        if b == 0x1B {
            self.state = VtState::Escape;
        } else if b < 0x20 {
            self.exec_ctrl(b);
        } else if b <= 0x7E {
            self.put_char(b as char);
        } else if b == 0x7F {
        } else if 0xC2 <= b && b <= 0xDF {
            self.state = VtState::Utf8;
            self.utf8_acc = (b & 0x1F) as u32;
            self.utf8_rem = 1;
        } else if 0xE0 <= b && b <= 0xEF {
            self.state = VtState::Utf8;
            self.utf8_acc = (b & 0x0F) as u32;
            self.utf8_rem = 2;
        } else if 0xF0 <= b && b <= 0xF4 {
            self.state = VtState::Utf8;
            self.utf8_acc = (b & 0x07) as u32;
            self.utf8_rem = 3;
        } else {
            self.put_char('\u{FFFD}');
        }
        proof {
            assert(b & 0x1F < 0x20) by (bit_vector);
            assert(b & 0x0F < 0x10) by (bit_vector);
            assert(b & 0x07 < 0x08) by (bit_vector);
            assert(self@ =~~= st_ground(old(self)@, b));
        }
    }

    /// A byte fed while a UTF-8 sequence is pending.
    fn utf8_byte(&mut self, b: u8)
        requires
            wf(old(self)@),
            old(self)@.st == VtState::Utf8,
        ensures
            wf(final(self)@),
            final(self)@ =~~= st_utf8(old(self)@, b),
    {
        if 0x80 <= b && b <= 0xBF {
            proof {
                assert(b & 0x3F < 0x40) by (bit_vector);
            }
            let acc2: u32 = self.utf8_acc * 64 + (b & 0x3F) as u32;
            if self.utf8_rem == 1 {
                self.utf8_acc = 0;
                self.utf8_rem = 0;
                self.state = VtState::Ground;
                let c = match char::from_u32(acc2) {
                    Some(c) => c,
                    None => '\u{FFFD}',
                };
                proof {
                    if is_scalar_value(acc2 as nat) {
                        vstd::utf8::char_u32_cast(c, acc2);
                    }
                }
                self.put_char(c);
            } else {
                self.utf8_acc = acc2;
                self.utf8_rem = self.utf8_rem - 1;
            }
            proof {
                assert(self@ =~~= st_utf8(old(self)@, b));
            }
        } else {
            self.utf8_acc = 0;
            self.utf8_rem = 0;
            self.state = VtState::Ground;
            self.put_char('\u{FFFD}');
            self.ground_byte(b);
            proof {
                assert(self@ =~~= st_utf8(old(self)@, b));
            }
        }
    }

    /// Feeds a single byte to the state machine.
    #[verifier::rlimit(80)]
    fn advance(&mut self, b: u8)
        requires
            wf(old(self)@),
        ensures
            wf(final(self)@),
            final(self)@ =~~= st_step(old(self)@, b),
    {
        match self.state {
            VtState::Ground => {
                self.ground_byte(b);
            },
            VtState::Utf8 => {
                self.utf8_byte(b);
            },
            VtState::Escape => {
                if b == 0x1B {
                } else if b == 0x18 || b == 0x1A {
                    self.state = VtState::Ground;
                } else if b <= 0x17 || b == 0x19 || (0x1C <= b && b <= 0x1F) {
                    self.exec_ctrl(b);
                } else if b == 0x5B {
                    self.state = VtState::CsiEntry;
                    self.params.clear();
                } else if b == 0x5D {
                    self.state = VtState::OscString;
                } else if b == 0x50 {
                    self.state = VtState::DcsString;
                } else if b == 0x58 || b == 0x5E || b == 0x5F {
                    self.state = VtState::SosPmApcString;
                } else if 0x20 <= b && b <= 0x2F {
                    self.state = VtState::EscapeIntermediate;
                } else {
                    self.state = VtState::Ground;
                }
                proof {
                    assert(self@ =~~= st_step(old(self)@, b));
                }
            },
            VtState::EscapeIntermediate => {
                if b == 0x1B {
                    self.state = VtState::Escape;
                } else if b == 0x18 || b == 0x1A {
                    self.state = VtState::Ground;
                } else if b <= 0x17 || b == 0x19 || (0x1C <= b && b <= 0x1F) {
                    self.exec_ctrl(b);
                } else if 0x20 <= b && b <= 0x2F {
                } else {
                    self.state = VtState::Ground;
                }
                proof {
                    assert(self@ =~~= st_step(old(self)@, b));
                }
            },
            VtState::CsiEntry | VtState::CsiParam => {
                if b == 0x1B {
                    self.state = VtState::Escape;
                } else if b == 0x18 || b == 0x1A {
                    self.state = VtState::Ground;
                } else if b <= 0x17 || b == 0x19 || (0x1C <= b && b <= 0x1F) {
                    self.exec_ctrl(b);
                } else if 0x30 <= b && b <= 0x39 {
                    self.param_digit((b - 0x30) as u16);
                    self.state = VtState::CsiParam;
                } else if b == 0x3B {
                    self.param_semi();
                    self.state = VtState::CsiParam;
                } else if b == 0x3A {
                    self.param_colon();
                    self.state = VtState::CsiParam;
                } else if 0x3C <= b && b <= 0x3F {
                    match self.state {
                        VtState::CsiEntry => {
                            self.state = VtState::CsiParam;
                        },
                        _ => {
                            self.state = VtState::CsiIgnore;
                        },
                    }
                } else if 0x20 <= b && b <= 0x2F {
                    self.state = VtState::CsiIntermediate;
                } else if 0x40 <= b && b <= 0x7E {
                    self.csi_dispatch(b);
                } else {
                    self.state = VtState::Ground;
                }
                proof {
                    assert(self@ =~~= st_step(old(self)@, b));
                }
            },
            VtState::CsiIntermediate => {
                if b == 0x1B {
                    self.state = VtState::Escape;
                } else if b == 0x18 || b == 0x1A {
                    self.state = VtState::Ground;
                } else if b <= 0x17 || b == 0x19 || (0x1C <= b && b <= 0x1F) {
                    self.exec_ctrl(b);
                } else if 0x20 <= b && b <= 0x2F {
                } else if 0x30 <= b && b <= 0x3F {
                    self.state = VtState::CsiIgnore;
                } else if 0x40 <= b && b <= 0x7E {
                    self.csi_dispatch(b);
                } else {
                    self.state = VtState::Ground;
                }
                proof {
                    assert(self@ =~~= st_step(old(self)@, b));
                }
            },
            VtState::CsiIgnore => {
                if b == 0x1B {
                    self.state = VtState::Escape;
                } else if b == 0x18 || b == 0x1A {
                    self.state = VtState::Ground;
                } else if b <= 0x17 || b == 0x19 || (0x1C <= b && b <= 0x1F) {
                    self.exec_ctrl(b);
                } else if 0x40 <= b && b <= 0x7E {
                    self.state = VtState::Ground;
                }
                proof {
                    assert(self@ =~~= st_step(old(self)@, b));
                }
            },
            VtState::OscString => {
                if b == 0x1B {
                    self.state = VtState::Escape;
                } else if b == 0x18 || b == 0x1A {
                    self.state = VtState::Ground;
                } else if b == 0x07 {
                    self.state = VtState::Ground;
                }
                proof {
                    assert(self@ =~~= st_step(old(self)@, b));
                }
            },
            VtState::DcsString | VtState::SosPmApcString => {
                if b == 0x1B {
                    self.state = VtState::Escape;
                } else if b == 0x18 || b == 0x1A {
                    self.state = VtState::Ground;
                }
                proof {
                    assert(self@ =~~= st_step(old(self)@, b));
                }
            },
        }
    }

    /// Feeds a byte slice: the left fold of the transition function.
    /// Afterwards the grid still has `height` rows of `width` cells and the
    /// cursor is strictly inside the grid, whatever the input was.
    pub fn process(&mut self, input: &[u8])
        requires
            wf(old(self)@),
        ensures
            wf(final(self)@),
            final(self)@ =~~= st_feed(old(self)@, input@),
    {
        let n = input.len();
        proof {
            assert(input@.skip(0) =~= input@);
        }
        for i in 0..n
            invariant
                wf(self@),
                n == input@.len(),
                st_feed(self@, input@.skip(i as int)) == st_feed(old(self)@, input@),
        {
            let ghost pre = self@;
            let ghost i0 = i as int;
            self.advance(input[i]);
            proof {
                assert(input@.skip(i0).skip(1) =~= input@.skip(i0 + 1));
                assert(st_feed(pre, input@.skip(i0)) == st_feed(st_step(pre, input@[i0]), input@.skip(i0 + 1)));
            }
        }
        proof {
            assert(input@.skip(n as int) =~= Seq::<u8>::empty());
        }
    }

    /// Feeds a string as its UTF-8 bytes.
    pub fn process_string(&mut self, data: &str)
        requires
            wf(old(self)@),
        ensures
            wf(final(self)@),
            final(self)@ =~~= st_feed(old(self)@, data.spec_bytes()),
    {
        self.process(data.as_bytes());
    }

    /// An independent snapshot of the current grid.
    pub fn get_frame(&self) -> (f: Frame)
        requires
            wf(self@),
        ensures
            f.wf(),
            f.width == self@.width,
            f.height == self@.height,
            f@ =~~= self@.grid,
    {
        self.grid.snapshot()
    }

    /// Current cursor row.
    pub fn cursor_row(&self) -> (r: usize)
        ensures
            r == self@.row,
    {
        self.cursor.row
    }

    /// Current cursor column.
    pub fn cursor_col(&self) -> (c: usize)
        ensures
            c == self@.col,
    {
        self.cursor.col
    }

    /// Current SGR foreground color.
    pub fn fg(&self) -> (c: Rgb)
        ensures
            c == self@.fg,
    {
        self.fg_color
    }

    /// Current SGR background color.
    pub fn bg(&self) -> (c: Rgb)
        ensures
            c == self@.bg,
    {
        self.bg_color
    }

    /// Current SGR style bits: (bold, italic, underline).
    pub fn styles(&self) -> (s: (bool, bool, bool))
        ensures
            s.0 == self@.bold,
            s.1 == self@.italic,
            s.2 == self@.underline,
    {
        (self.bold, self.italic, self.underline)
    }
}

/// Law: feeding bytes is invariant under chunking.  Feeding `a` and then
/// `b` leaves the emulator in exactly the state reached by feeding `a + b`
/// at once.
pub proof fn lemma_feed_chunks(s: TermView, a: Seq<u8>, b: Seq<u8>)
    ensures
        st_feed(st_feed(s, a), b) == st_feed(s, a + b),
    decreases a.len(),
{
    if a.len() == 0 {
        assert(a + b =~= b);
    } else {
        assert((a + b)[0] == a[0]);
        assert((a + b).skip(1) =~= a.skip(1) + b);
        lemma_feed_chunks(st_step(s, a[0]), a.skip(1), b);
    }
}

/// Unfolds a four-byte feed into four steps.
pub proof fn lemma_feed4(s: TermView, b0: u8, b1: u8, b2: u8, b3: u8)
    ensures
        st_feed(s, seq![b0, b1, b2, b3]) == st_step(
            st_step(st_step(st_step(s, b0), b1), b2),
            b3,
        ),
{
    let t1 = seq![b1, b2, b3];
    let t2 = seq![b2, b3];
    let t3 = seq![b3];
    assert(seq![b0, b1, b2, b3].skip(1) =~= t1);
    assert(t1.skip(1) =~= t2);
    assert(t2.skip(1) =~= t3);
    assert(t3.skip(1) =~= Seq::<u8>::empty());
    assert(st_feed(s, seq![b0, b1, b2, b3]) == st_feed(st_step(s, b0), t1));
    assert(st_feed(st_step(s, b0), t1) == st_feed(st_step(st_step(s, b0), b1), t2));
    assert(st_feed(st_step(st_step(s, b0), b1), t2) == st_feed(
        st_step(st_step(st_step(s, b0), b1), b2),
        t3,
    ));
    assert(st_feed(st_step(st_step(st_step(s, b0), b1), b2), t3) == st_feed(
        st_step(st_step(st_step(st_step(s, b0), b1), b2), b3),
        Seq::<u8>::empty(),
    ));
}

/// Unfolds a two-byte feed into two steps.
pub proof fn lemma_feed2(s: TermView, b0: u8, b1: u8)
    ensures
        st_feed(s, seq![b0, b1]) == st_step(st_step(s, b0), b1),
{
    let t1 = seq![b1];
    assert(seq![b0, b1].skip(1) =~= t1);
    assert(t1.skip(1) =~= Seq::<u8>::empty());
    assert(st_feed(s, seq![b0, b1]) == st_feed(st_step(s, b0), t1));
    assert(st_feed(st_step(s, b0), t1) == st_feed(st_step(st_step(s, b0), b1), Seq::<u8>::empty()));
}

/// Unfolds a one-byte feed into one step.
pub proof fn lemma_feed1(s: TermView, b0: u8)
    ensures
        st_feed(s, seq![b0]) == st_step(s, b0),
{
    assert(seq![b0].skip(1) =~= Seq::<u8>::empty());
    assert(st_feed(s, seq![b0]) == st_feed(st_step(s, b0), Seq::<u8>::empty()));
}

/// The byte sequence of `ESC [ 2 J` (erase the whole display).
pub open spec fn clear_screen_bytes() -> Seq<u8> {
    seq![0x1Bu8, 0x5Bu8, 0x32u8, 0x4Au8]
}

/// The byte sequence of `ESC [ 0 m` (SGR reset).
pub open spec fn sgr_reset_bytes() -> Seq<u8> {
    seq![0x1Bu8, 0x5Bu8, 0x30u8, 0x6Du8]
}

/// Law: feeding `ESC [ 2 J` into any well-formed emulator in the ground
/// state leaves the grid equal to a freshly constructed grid of the same
/// dimensions.
pub proof fn lemma_clear_screen(s: TermView)
    requires
        wf(s),
        s.st == VtState::Ground,
    ensures
        st_feed(s, clear_screen_bytes()).grid =~~= spec_blank_grid(s.width, s.height),
{
    let bs = clear_screen_bytes();
    let s1 = st_step(s, 0x1B);
    let s2 = st_step(s1, 0x5B);
    let s3 = st_step(s2, 0x32);
    let s4 = st_step(s3, 0x4A);
    assert(s1 =~~= TermView { st: VtState::Escape, ..s });
    assert(s2 =~~= TermView { st: VtState::CsiEntry, params: Seq::empty(), ..s1 });
    assert(params_digit(Seq::empty(), 2) =~~= seq![seq![2u16]]);
    assert(s3 =~~= TermView { st: VtState::CsiParam, params: seq![seq![2u16]], ..s2 });
    assert(param_or(s3, 0, 0) == 2);
    assert(bs =~= seq![0x1Bu8, 0x5Bu8, 0x32u8, 0x4Au8]);
    lemma_feed4(s, 0x1B, 0x5B, 0x32, 0x4A);
    assert(st_feed(s, bs) == s4);
    assert(s4.grid =~~= spec_blank_grid(s.width, s.height));
}

/// Law: after feeding `ESC [ 0 m` from the ground state the SGR attributes
/// equal the defaults, whatever the history was.
pub proof fn lemma_sgr_reset(s: TermView)
    requires
        s.st == VtState::Ground,
    ensures
        st_feed(s, sgr_reset_bytes()).fg == spec_default_fg(),
        st_feed(s, sgr_reset_bytes()).bg == spec_default_bg(),
        !st_feed(s, sgr_reset_bytes()).bold,
        !st_feed(s, sgr_reset_bytes()).italic,
        !st_feed(s, sgr_reset_bytes()).underline,
{
    let bs = sgr_reset_bytes();
    let s1 = st_step(s, 0x1B);
    let s2 = st_step(s1, 0x5B);
    let s3 = st_step(s2, 0x30);
    let s4 = st_step(s3, 0x6D);
    assert(s1 =~~= TermView { st: VtState::Escape, ..s });
    assert(s2 =~~= TermView { st: VtState::CsiEntry, params: Seq::empty(), ..s1 });
    assert(params_digit(Seq::empty(), 0) =~~= seq![seq![0u16]]);
    assert(s3 =~~= TermView { st: VtState::CsiParam, params: seq![seq![0u16]], ..s2 });
    assert(s3.params.flatten() =~= seq![0u16]) by {
        assert(s3.params =~= Seq::empty().push(seq![0u16]));
        Seq::<Seq<u16>>::empty().lemma_flatten_push(seq![0u16]);
        assert(Seq::<Seq<u16>>::empty().flatten() =~= Seq::<u16>::empty());
    }
    assert(seq![0u16].skip(1) =~= Seq::<u16>::empty());
    assert(sgr_apply(sgr_one(s3, 0), seq![0u16].skip(1)) == sgr_one(s3, 0));
    assert(bs =~= seq![0x1Bu8, 0x5Bu8, 0x30u8, 0x6Du8]);
    lemma_feed4(s, 0x1B, 0x5B, 0x30, 0x6D);
    assert(st_feed(s, bs) == s4);
}

/// True when two states agree on everything but the parser state and the
/// CSI parameters.
pub open spec fn same_but_params_st(a: TermView, b: TermView) -> bool {
    TermView { st: b.st, params: b.params, ..a } =~~= b
}

/// Digits, `:` and `;` fed inside a CSI sequence only touch the parameter
/// list; grid, cursor and attributes stay put.
proof fn lemma_param_bytes(t: TermView, ps: Seq<u8>)
    requires
        t.st == VtState::CsiEntry || t.st == VtState::CsiParam,
        forall|i: int| 0 <= i < ps.len() ==> 0x30 <= #[trigger] ps[i] <= 0x3B,
    ensures
        ({
            let r = st_feed(t, ps);
            &&& (r.st == VtState::CsiEntry || r.st == VtState::CsiParam)
            &&& same_but_params_st(t, r)
        }),
    decreases ps.len(),
{
    if ps.len() > 0 {
        let t1 = st_step(t, ps[0]);
        assert(t1.st == VtState::CsiParam && same_but_params_st(t, t1));
        lemma_param_bytes(t1, ps.skip(1));
        assert(same_but_params_st(t, st_feed(t, ps)));
    }
}

/// Law: any SGR sequence followed immediately by `ESC [ 0 m` leaves the
/// emulator in exactly the state reached by `ESC [ 0 m` alone: the grid is
/// untouched and the reset wins.  `ps` ranges over the parameter bytes
/// (digits, `:`, `;`) of the first sequence.
pub proof fn lemma_sgr_then_reset(s: TermView, ps: Seq<u8>)
    requires
        s.st == VtState::Ground,
        forall|i: int| 0 <= i < ps.len() ==> 0x30 <= #[trigger] ps[i] <= 0x3B,
    ensures
        st_feed(s, seq![0x1Bu8, 0x5Bu8] + ps + seq![0x6Du8] + sgr_reset_bytes()) == st_feed(
            s,
            sgr_reset_bytes(),
        ),
{
    let pre = seq![0x1Bu8, 0x5Bu8];
    let all = pre + ps + seq![0x6Du8] + sgr_reset_bytes();
    let s1 = st_step(s, 0x1B);
    let s2 = st_step(s1, 0x5B);
    assert(s1 =~~= TermView { st: VtState::Escape, ..s });
    assert(s2 =~~= TermView { st: VtState::CsiEntry, params: Seq::empty(), ..s1 });
    lemma_feed2(s, 0x1B, 0x5B);
    assert(st_feed(s, pre) == s2);
    lemma_param_bytes(s2, ps);
    let r = st_feed(s2, ps);
    lemma_feed_chunks(s, pre, ps);
    assert(pre + ps =~= (pre + ps));
    assert(st_feed(s, pre + ps) == r);
    // the `m` final: only the SGR attributes and the parser state change
    let d = st_step(r, 0x6D);
    assert(d =~~= TermView { st: VtState::Ground, ..st_sgr(r) });
    Emulator::lemma_sgr_apply_same_pub(r);
    lemma_feed_chunks(s, pre + ps, seq![0x6Du8]);
    lemma_feed1(r, 0x6D);
    assert(st_feed(s, pre + ps + seq![0x6Du8]) == d);
    // the reset sequence forces the SGR attributes from either start
    let lhs = st_feed(d, sgr_reset_bytes());
    let rhs = st_feed(s, sgr_reset_bytes());
    lemma_reset_from_ground(d);
    lemma_reset_from_ground(s);
    assert(TermView { st: d.st, params: d.params, fg: d.fg, bg: d.bg, bold: d.bold, italic: d.italic, underline: d.underline, ..s } =~~= d);
    assert(lhs =~~= rhs);
    lemma_feed_chunks(s, pre + ps + seq![0x6Du8], sgr_reset_bytes());
    assert(pre + ps + seq![0x6Du8] + sgr_reset_bytes() =~= all);
    assert(st_feed(s, all) == lhs);
}

/// Feeding `ESC [ 0 m` from the ground state yields exactly: default SGR
/// attributes, parameter list `[[0]]`, everything else untouched.
proof fn lemma_reset_from_ground(s: TermView)
    requires
        s.st == VtState::Ground,
    ensures
        st_feed(s, sgr_reset_bytes()) =~~= (TermView {
            fg: spec_default_fg(),
            bg: spec_default_bg(),
            bold: false,
            italic: false,
            underline: false,
            params: seq![seq![0u16]],
            ..s
        }),
{
    let bs = sgr_reset_bytes();
    let s1 = st_step(s, 0x1B);
    let s2 = st_step(s1, 0x5B);
    let s3 = st_step(s2, 0x30);
    let s4 = st_step(s3, 0x6D);
    assert(s1 =~~= TermView { st: VtState::Escape, ..s });
    assert(s2 =~~= TermView { st: VtState::CsiEntry, params: Seq::empty(), ..s1 });
    assert(params_digit(Seq::empty(), 0) =~~= seq![seq![0u16]]);
    assert(s3 =~~= TermView { st: VtState::CsiParam, params: seq![seq![0u16]], ..s2 });
    assert(s3.params.flatten() =~= seq![0u16]) by {
        assert(s3.params =~= Seq::empty().push(seq![0u16]));
        Seq::<Seq<u16>>::empty().lemma_flatten_push(seq![0u16]);
        assert(Seq::<Seq<u16>>::empty().flatten() =~= Seq::<u16>::empty());
    }
    assert(seq![0u16].skip(1) =~= Seq::<u16>::empty());
    assert(sgr_apply(sgr_one(s3, 0), seq![0u16].skip(1)) == sgr_one(s3, 0));
    assert(bs =~= seq![0x1Bu8, 0x5Bu8, 0x30u8, 0x6Du8]);
    lemma_feed4(s, 0x1B, 0x5B, 0x30, 0x6D);
    assert(st_feed(s, bs) == s4);
}

impl Emulator {
    /// Public face of `lemma_sgr_apply_same` for a whole SGR dispatch.
    proof fn lemma_sgr_apply_same_pub(s: TermView)
        ensures
            same_but_sgr(s, st_sgr(s)),
    {
        let vals = s.params.flatten();
        if vals.len() != 0 {
            Self::lemma_sgr_apply_same(s, vals);
        }
    }
}

/// Law: printing in the last column moves the cursor to the start of the
/// next row (the grid gains the cell at the old position).
pub proof fn lemma_print_wraps(s: TermView, b: u8)
    requires
        wf(s),
        s.st == VtState::Ground,
        0x20 <= b <= 0x7E,
        s.col == s.width - 1,
        s.row + 1 < s.height,
    ensures
        st_step(s, b).row == s.row + 1,
        st_step(s, b).col == 0,
{
}

/// Law: printing in the last column of the last row scrolls up once: the
/// top row is lost, every other row moves up, a blank row enters at the
/// bottom, and the cursor stays on the last row at column 0.
pub proof fn lemma_print_scrolls(s: TermView, b: u8)
    requires
        wf(s),
        s.st == VtState::Ground,
        0x20 <= b <= 0x7E,
        s.col == s.width - 1,
        s.row == s.height - 1,
    ensures
        st_step(s, b).row == s.height - 1,
        st_step(s, b).col == 0,
        forall|r: int| 1 <= r < s.height - 1 ==> st_step(s, b).grid[r - 1] == s.grid[r],
        st_step(s, b).grid[s.height - 1] =~= spec_blank_row(s.width),
{
    let cell = Cell { ch: b as char, fg: s.fg, bg: s.bg, bold: s.bold, italic: s.italic, underline: s.underline };
    let g2 = s.grid.update(s.row as int, s.grid[s.row as int].update(s.col as int, cell));
    assert(st_step(s, b).grid == spec_scroll(g2, s.width));
}


/// Law: no byte ever changes the screen dimensions.
#[verifier::rlimit(100)]
pub proof fn lemma_step_dims(s: TermView, b: u8)
    ensures
        st_step(s, b).width == s.width,
        st_step(s, b).height == s.height,
{
    Emulator::lemma_sgr_apply_same_pub(s);
}

/// Law: feeding any bytes leaves the screen dimensions unchanged.
pub proof fn lemma_feed_dims(s: TermView, bytes: Seq<u8>)
    ensures
        st_feed(s, bytes).width == s.width,
        st_feed(s, bytes).height == s.height,
    decreases bytes.len(),
{
    if bytes.len() > 0 {
        lemma_step_dims(s, bytes[0]);
        lemma_feed_dims(st_step(s, bytes[0]), bytes.skip(1));
    }
}

} // verus!
