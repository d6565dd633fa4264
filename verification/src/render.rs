//! The animation encoder: turns a list of frames with per-frame durations
//! into one self-contained SVG document whose frames are chained opacity
//! animations.
//!
//! The emitted bytes are pinned down exactly by [`SvgRenderer::spec_doc`].
//! All pixel lengths are carried in hundredths of a pixel (the glyph
//! advance is `font_size * 0.6`, the line height `font_size *
//! line_height`), durations in microseconds.

use vstd::prelude::*;
use vstd::string::StringSliceAdditionalSpecFns;

use crate::cell::Cell;
use crate::color::{spec_default_bg, Rgb};
use crate::grid::Frame;
use crate::numfmt::{
    push_centi, push_dec, push_hex_color, push_micros, push_utf8_char, spec_centi, spec_dec,
    spec_hex_color, spec_micros, spec_utf8_char,
};
use crate::theme::Theme;

verus! {

/// The UTF-8 bytes of a string literal.
pub open spec fn lit(s: &str) -> Seq<u8> {
    s.spec_bytes()
}

/// Whether a cell's background is painted: backgrounds equal to the theme
/// background or to plain black (the default) are suppressed.
pub open spec fn bg_paint(c: Cell, tbg: Rgb) -> bool {
    c.bg != tbg && c.bg != spec_default_bg()
}

/// The index of the last non-space character of a row, or -1.
pub open spec fn last_nonspace(row: Seq<Cell>) -> int
    decreases row.len(),
{
    if row.len() == 0 {
        -1
    } else if row.last().ch != ' ' {
        row.len() - 1
    } else {
        last_nonspace(row.drop_last())
    }
}

/// The end of the background run of color `col` starting at `j`.
pub open spec fn bg_run_end(row: Seq<Cell>, upto: int, j: int, col: Rgb, tbg: Rgb) -> int
    decreases upto - j,
{
    if j < upto && 0 <= j < row.len() && bg_paint(row[j], tbg) && row[j].bg == col {
        bg_run_end(row, upto, j + 1, col, tbg)
    } else {
        j
    }
}

/// One background rectangle covering columns `i..j`.
pub open spec fn spec_rect(i: int, j: int, col: Rgb, adv: nat, lc: nat) -> Seq<u8> {
    lit("<rect x=\"") + spec_centi((i * adv) as nat) + lit("\" y=\"0\" width=\"") + spec_centi(
        ((j - i) * adv) as nat,
    ) + lit("\" height=\"") + spec_centi(lc) + lit("\" fill=\"") + spec_hex_color(col) + lit(
        "\"/>",
    )
}

/// The background rectangles of a row: maximal runs of equal painted
/// background color among columns `i..upto`, left to right.
pub open spec fn spec_bg_row(row: Seq<Cell>, upto: int, i: int, tbg: Rgb, adv: nat, lc: nat) -> Seq<
    u8,
>
    decreases upto - i,
{
    if i < 0 || i >= upto || i >= row.len() {
        Seq::empty()
    } else if bg_paint(row[i], tbg) {
        let e = bg_run_end(row, upto, i + 1, row[i].bg, tbg);
        let j = if i < e && e <= upto { e } else { i + 1 };
        spec_rect(i, j, row[i].bg, adv, lc) + spec_bg_row(row, upto, j, tbg, adv, lc)
    } else {
        spec_bg_row(row, upto, i + 1, tbg, adv, lc)
    }
}

/// Whether two cells render with the same text style (fg + style bits).
pub open spec fn fg_key_eq(a: Cell, b: Cell) -> bool {
    a.fg == b.fg && a.bold == b.bold && a.italic == b.italic && a.underline == b.underline
}

/// The end of the styled text run keyed by `key` starting at `j`.
pub open spec fn fg_run_end(row: Seq<Cell>, upto: int, j: int, key: Cell) -> int
    decreases upto - j,
{
    if j < upto && 0 <= j < row.len() && fg_key_eq(row[j], key) {
        fg_run_end(row, upto, j + 1, key)
    } else {
        j
    }
}

/// A character within a text node: the XML metacharacters are escaped,
/// everything else is emitted as its UTF-8 bytes.
pub open spec fn spec_esc_char(c: char) -> Seq<u8> {
    if c == '&' {
        lit("&amp;")
    } else if c == '<' {
        lit("&lt;")
    } else if c == '>' {
        lit("&gt;")
    } else {
        spec_utf8_char(c)
    }
}

/// The text content of columns `i..j` of a row.
pub open spec fn spec_text_content(row: Seq<Cell>, i: int, j: int) -> Seq<u8>
    decreases j - i,
{
    if i < 0 || i >= j || i >= row.len() {
        Seq::empty()
    } else {
        spec_esc_char(row[i].ch) + spec_text_content(row, i + 1, j)
    }
}

/// One `<text>` element for the run at columns `i..j`, keyed by the cell
/// at `i`: positioned at its starting column, filled with the run's
/// foreground, with style attributes for the set style bits.
pub open spec fn spec_text_el(row: Seq<Cell>, i: int, j: int, adv: nat) -> Seq<u8> {
    let key = row[i];
    lit("<text x=\"") + spec_centi((i * adv) as nat) + lit("\" fill=\"") + spec_hex_color(key.fg)
        + lit("\"") + (if key.bold {
        lit(" font-weight=\"bold\"")
    } else {
        Seq::empty()
    }) + (if key.italic {
        lit(" font-style=\"italic\"")
    } else {
        Seq::empty()
    }) + (if key.underline {
        lit(" text-decoration=\"underline\"")
    } else {
        Seq::empty()
    }) + lit(">") + spec_text_content(row, i, j) + lit("</text>")
}

/// The styled text runs of a row: maximal runs of equal style among
/// columns `i..upto`, left to right, spaces kept verbatim inside runs.
pub open spec fn spec_fg_row(row: Seq<Cell>, upto: int, i: int, adv: nat) -> Seq<u8>
    decreases upto - i,
{
    if i < 0 || i >= upto || i >= row.len() {
        Seq::empty()
    } else {
        let e = fg_run_end(row, upto, i + 1, row[i]);
        let j = if i < e && e <= upto { e } else { i + 1 };
        spec_text_el(row, i, j, adv) + spec_fg_row(row, upto, j, adv)
    }
}

/// One row group: background rectangles, then text runs, translated to the
/// row's box; rows whose cells are all spaces are omitted entirely.
pub open spec fn spec_row_group(
    row: Seq<Cell>,
    r: int,
    tbg: Rgb,
    adv: nat,
    lc: nat,
    fs: nat,
) -> Seq<u8> {
    let l = last_nonspace(row);
    if l < 0 {
        Seq::empty()
    } else {
        lit("<g transform=\"translate(0, ") + spec_centi((r * lc) as nat) + lit(")\"><g>")
            + spec_bg_row(row, l + 1, 0, tbg, adv, lc) + lit("</g><g transform=\"translate(0, ")
            + spec_dec(fs) + lit(")\">") + spec_fg_row(row, l + 1, 0, adv) + lit("</g></g>")
    }
}

/// All row groups of a grid, from row `r` down.
pub open spec fn spec_rows(
    grid: Seq<Seq<Cell>>,
    r: int,
    tbg: Rgb,
    adv: nat,
    lc: nat,
    fs: nat,
) -> Seq<u8>
    decreases grid.len() - r,
{
    if r < 0 || r >= grid.len() {
        Seq::empty()
    } else {
        spec_row_group(grid[r], r, tbg, adv, lc, fs) + spec_rows(grid, r + 1, tbg, adv, lc, fs)
    }
}

/// The `begin` attribute of frame `i` of `n`: the first frame starts at 0s
/// (and, when looping, again at the last frame's end); every other frame
/// starts when its predecessor ends.
pub open spec fn spec_begin(i: int, n: int, loop_enable: bool) -> Seq<u8> {
    if i == 0 {
        if loop_enable {
            lit("0s;f") + spec_dec((n - 1) as nat) + lit(".end")
        } else {
            lit("0s")
        }
    } else {
        lit("f") + spec_dec((i - 1) as nat) + lit(".end")
    }
}

/// The per-frame duration: the given value floored at one microsecond, or
/// one microsecond when no duration is given for the frame.
pub open spec fn spec_dur(durs: Seq<u64>, i: int) -> nat {
    if 0 <= i < durs.len() {
        if durs[i] >= 1 {
            durs[i] as nat
        } else {
            1
        }
    } else {
        1
    }
}

/// The `<animate>` element of frame `i`: a discrete opacity hold for the
/// frame's duration, chained by `begin`.
pub open spec fn spec_anim(i: int, n: int, dur_us: nat, loop_enable: bool) -> Seq<u8> {
    lit("<animate id=\"f") + spec_dec(i as nat) + lit("\" attributeName=\"opacity\" begin=\"")
        + spec_begin(i, n, loop_enable) + lit("\" dur=\"") + spec_micros(dur_us) + lit(
        "s\" values=\"1;1\" keyTimes=\"0;1\" calcMode=\"discrete\"/>",
    )
}

/// One `<g class="frame">` child: the frame's rows plus its animation.
pub open spec fn spec_frame_group(
    grid: Seq<Seq<Cell>>,
    i: int,
    n: int,
    dur_us: nat,
    loop_enable: bool,
    tbg: Rgb,
    adv: nat,
    lc: nat,
    fs: nat,
) -> Seq<u8> {
    lit("<g class=\"frame\">") + spec_rows(grid, 0, tbg, adv, lc, fs) + spec_anim(
        i,
        n,
        dur_us,
        loop_enable,
    ) + lit("</g>")
}

/// The frame groups from index `i` on, in input order.
pub open spec fn spec_frames(
    grids: Seq<Seq<Seq<Cell>>>,
    durs: Seq<u64>,
    i: int,
    loop_enable: bool,
    tbg: Rgb,
    adv: nat,
    lc: nat,
    fs: nat,
) -> Seq<u8>
    decreases grids.len() - i,
{
    if i < 0 || i >= grids.len() {
        Seq::empty()
    } else {
        spec_frame_group(
            grids[i],
            i,
            grids.len() as int,
            spec_dur(durs, i),
            loop_enable,
            tbg,
            adv,
            lc,
            fs,
        ) + spec_frames(grids, durs, i + 1, loop_enable, tbg, adv, lc, fs)
    }
}

/// Appends the UTF-8 bytes of a string.
pub fn push_lit(out: &mut Vec<u8>, s: &str)
    ensures
        final(out)@ == old(out)@ + lit(s),
{
    let bs = s.as_bytes();
    let n = bs.len();
    for i in 0..n
        invariant
            n == bs@.len(),
            bs@ == s.spec_bytes(),
            out@ =~= old(out)@ + bs@.take(i as int),
    {
        out.push(bs[i]);
    }
    proof {
        assert(bs@.take(n as int) =~= bs@);
        assert(out@ =~= old(out)@ + lit(s));
    }
}

/// The window chrome: a 30px bar with three circles and a title.
pub open spec fn spec_window(wc: nat) -> Seq<u8> {
    lit("<g><rect width=\"") + spec_centi(wc) + lit(
        "\" height=\"30\" fill=\"#2d2d2d\" rx=\"5\" ry=\"5\"/><circle cx=\"20\" cy=\"15\" r=\"6\" fill=\"#ff5f57\"/><circle cx=\"40\" cy=\"15\" r=\"6\" fill=\"#ffbd2e\"/><circle cx=\"60\" cy=\"15\" r=\"6\" fill=\"#28ca42\"/><g transform=\"translate(",
    ) + spec_centi((wc / 2) as nat) + lit(", 20)\">Terminal</g></g>")
}

/// The whole SVG document over plain layout scalars: canvas and style
/// header, background rectangle, optional window chrome, and the frame
/// groups inside a translated group.
pub open spec fn sp_doc(
    cols: nat,
    rows: nat,
    fs: nat,
    lh_centi: nat,
    px: nat,
    py: nat,
    loop_enable: bool,
    window: bool,
    bg: Rgb,
    grids: Seq<Seq<Seq<Cell>>>,
    durs: Seq<u64>,
) -> Seq<u8> {
    let adv = fs * 60;
    let lc = fs * lh_centi;
    let wc = cols * adv + px * 200;
    let hc = rows * lc + py * 200 + if window {
        3000nat
    } else {
        0nat
    };
    let yoff = py * 100 + if window {
        3000nat
    } else {
        0nat
    };
    lit("<svg xmlns=\"http://www.w3.org/2000/svg\" width=\"") + spec_centi(wc) + lit(
        "\" height=\"",
    ) + spec_centi(hc) + lit("\" viewBox=\"0 0 ") + spec_dec(wc / 100) + lit(" ") + spec_dec(
        hc / 100,
    ) + lit("\">") + lit(
        "<defs><style>text { white-space: pre; font-family: monospace; font-size: ",
    ) + spec_dec(fs) + lit("px; } .frame { opacity: 0; }</style></defs>") + lit(
        "<rect width=\"100%\" height=\"100%\" fill=\"",
    ) + spec_hex_color(bg) + lit("\"/>") + (if window {
        spec_window(wc)
    } else {
        Seq::empty()
    }) + lit("<g transform=\"translate(") + spec_dec(px) + lit(", ") + spec_centi(yoff) + lit(
        ")\">",
    ) + spec_frames(grids, durs, 0, loop_enable, bg, adv, lc, fs) + lit("</g></svg>")
}

/// The SVG animation encoder and its layout options.
pub struct SvgRenderer {
    pub cols: usize,
    pub rows: usize,
    pub font_size: u8,
    pub line_height_centi: u32,
    pub theme: Theme,
    pub loop_enable: bool,
    pub cursor_visible: bool,
    pub window: bool,
    pub padding_x: u16,
    pub padding_y: u16,
}

impl SvgRenderer {
    /// Bounds under which all layout arithmetic fits comfortably in `u64`.
    pub open spec fn wf(&self) -> bool {
        &&& 1 <= self.cols <= 10000
        &&& 1 <= self.rows <= 10000
        &&& self.line_height_centi <= 10000
        &&& self.theme.wf()
    }

    /// The glyph advance in hundredths of a pixel: `font_size * 0.6`.
    pub open spec fn spec_adv(&self) -> nat {
        self.font_size as nat * 60
    }

    /// The line height in hundredths of a pixel:
    /// `font_size * line_height`.
    pub open spec fn spec_lc(&self) -> nat {
        self.font_size as nat * self.line_height_centi as nat
    }

    /// Canvas width in hundredths of a pixel.
    pub open spec fn spec_wc(&self) -> nat {
        self.cols as nat * self.spec_adv() + self.padding_x as nat * 200
    }

    /// Canvas height in hundredths of a pixel.
    pub open spec fn spec_hc(&self) -> nat {
        self.rows as nat * self.spec_lc() + self.padding_y as nat * 200 + if self.window {
            3000nat
        } else {
            0nat
        }
    }

    /// The whole document, byte for byte.
    pub open spec fn spec_doc(&self, grids: Seq<Seq<Seq<Cell>>>, durs: Seq<u64>) -> Seq<u8> {
        sp_doc(
            self.cols as nat,
            self.rows as nat,
            self.font_size as nat,
            self.line_height_centi as nat,
            self.padding_x as nat,
            self.padding_y as nat,
            self.loop_enable,
            self.window,
            self.theme.bg,
            grids,
            durs,
        )
    }

    /// A renderer with the default options: 14px font, 1.4 line height,
    /// the default theme, looping on, cursor on, no window chrome, 10px
    /// padding.
    pub fn new(cols: usize, rows: usize) -> (r: SvgRenderer)
        requires
            1 <= cols <= 10000,
            1 <= rows <= 10000,
        ensures
            r.wf(),
            r.cols == cols,
            r.rows == rows,
            r.font_size == 14,
            r.line_height_centi == 140,
            r.loop_enable,
            r.cursor_visible,
            !r.window,
            r.padding_x == 10,
            r.padding_y == 10,
    {
        SvgRenderer {
            cols,
            rows,
            font_size: 14,
            line_height_centi: 140,
            theme: Theme::default_theme(),
            loop_enable: true,
            cursor_visible: true,
            window: false,
            padding_x: 10,
            padding_y: 10,
        }
    }

    pub fn with_font_size(self, font_size: u8) -> (r: SvgRenderer)
        ensures
            r == (SvgRenderer { font_size, ..self }),
    {
        SvgRenderer { font_size, ..self }
    }

    /// Line height as a multiplier in hundredths (140 = 1.4x).
    pub fn with_line_height(self, line_height_centi: u32) -> (r: SvgRenderer)
        requires
            line_height_centi <= 10000,
        ensures
            r == (SvgRenderer { line_height_centi, ..self }),
    {
        SvgRenderer { line_height_centi, ..self }
    }

    pub fn with_theme(self, theme: Theme) -> (r: SvgRenderer)
        requires
            theme.wf(),
        ensures
            r == (SvgRenderer { theme, ..self }),
    {
        SvgRenderer { theme, ..self }
    }

    pub fn with_loop_enable(self, loop_enable: bool) -> (r: SvgRenderer)
        ensures
            r == (SvgRenderer { loop_enable, ..self }),
    {
        SvgRenderer { loop_enable, ..self }
    }

    pub fn with_cursor_visible(self, cursor_visible: bool) -> (r: SvgRenderer)
        ensures
            r == (SvgRenderer { cursor_visible, ..self }),
    {
        SvgRenderer { cursor_visible, ..self }
    }

    pub fn with_window(self, window: bool) -> (r: SvgRenderer)
        ensures
            r == (SvgRenderer { window, ..self }),
    {
        SvgRenderer { window, ..self }
    }

    pub fn with_padding(self, padding_x: u16, padding_y: u16) -> (r: SvgRenderer)
        ensures
            r == (SvgRenderer { padding_x, padding_y, ..self }),
    {
        SvgRenderer { padding_x, padding_y, ..self }
    }
}

/// `a * b` for small layout quantities, with the bound made explicit.
fn mul_layout(a: u64, b: u64) -> (r: u64)
    requires
        a <= 10000,
        b <= 4000000000,
    ensures
        r == a * b,
        r <= 40000000000000,
{
    proof {
        assert(a * b <= 10000 * 4000000000) by (nonlinear_arith)
            requires
                a <= 10000,
                b <= 4000000000,
        ;
    }
    a * b
}

/// True when the cell at `(r, j)` continues a background run of `col`.
fn bg_run_cont(f: &Frame, r: usize, j: usize, col: Rgb, tbg: Rgb) -> (b: bool)
    requires
        f.wf(),
        r < f.height,
        j < f.width,
    ensures
        b == (bg_paint(f@[r as int][j as int], tbg) && f@[r as int][j as int].bg == col),
{
    let c = *f.get_cell(r, j).unwrap();
    c.bg == col && !(c.bg == tbg) && !(c.bg == Rgb { r: 0, g: 0, b: 0 })
}

/// True when the cell at `(r, j)` continues a text run keyed by `key`.
fn fg_run_cont(f: &Frame, r: usize, j: usize, key: Cell) -> (b: bool)
    requires
        f.wf(),
        r < f.height,
        j < f.width,
    ensures
        b == fg_key_eq(f@[r as int][j as int], key),
{
    let c = *f.get_cell(r, j).unwrap();
    c.fg == key.fg && c.bold == key.bold && c.italic == key.italic && c.underline == key.underline
}

/// The background rectangles of row `r`, columns `0..upto`.
#[verifier::rlimit(100)]
fn push_bg_row(out: &mut Vec<u8>, f: &Frame, r: usize, upto: usize, tbg: Rgb, adv: u64, lc: u64)
    requires
        f.wf(),
        r < f.height,
        upto <= f.width,
        f.width <= 10000,
        adv <= 2000000,
        lc <= 4000000000,
    ensures
        final(out)@ == old(out)@ + spec_bg_row(
            f@[r as int],
            upto as int,
            0,
            tbg,
            adv as nat,
            lc as nat,
        ),
{
    let ghost row = f@[r as int];
    let mut i: usize = 0;
    while i < upto
        invariant
            f.wf(),
            r < f.height,
            upto <= f.width,
            f.width <= 10000,
            adv <= 2000000,
            lc <= 4000000000,
            row == f@[r as int],
            i <= upto,
            out@ + spec_bg_row(row, upto as int, i as int, tbg, adv as nat, lc as nat) == old(
                out,
            )@ + spec_bg_row(row, upto as int, 0, tbg, adv as nat, lc as nat),
        decreases upto - i,
    {
        let cell = *f.get_cell(r, i).unwrap();
        let ghost pre = out@;
        let ghost i0 = i as int;
        if !(cell.bg == tbg) && !(cell.bg == Rgb { r: 0, g: 0, b: 0 }) {
            let mut j = i + 1;
            while j < upto && bg_run_cont(f, r, j, cell.bg, tbg)
                invariant
                    f.wf(),
                    r < f.height,
                    upto <= f.width,
                    row == f@[r as int],
                    i0 + 1 <= j <= upto,
                    bg_run_end(row, upto as int, i0 + 1, cell.bg, tbg) == bg_run_end(
                        row,
                        upto as int,
                        j as int,
                        cell.bg,
                        tbg,
                    ),
                decreases upto - j,
            {
                j = j + 1;
            }
            proof {
                assert(bg_run_end(row, upto as int, j as int, cell.bg, tbg) == j as int);
                assert(bg_run_end(row, upto as int, i0 + 1, cell.bg, tbg) == j as int);
            }
            push_lit(out, "<rect x=\"");
            push_centi(out, mul_layout(i as u64, adv));
            push_lit(out, "\" y=\"0\" width=\"");
            push_centi(out, mul_layout((j - i) as u64, adv));
            push_lit(out, "\" height=\"");
            push_centi(out, lc);
            push_lit(out, "\" fill=\"");
            push_hex_color(out, cell.bg);
            push_lit(out, "\"/>");
            proof {
                assert(out@ =~= pre + spec_rect(i0, j as int, cell.bg, adv as nat, lc as nat));
                assert(spec_bg_row(row, upto as int, i0, tbg, adv as nat, lc as nat) == spec_rect(
                    i0,
                    j as int,
                    cell.bg,
                    adv as nat,
                    lc as nat,
                ) + spec_bg_row(row, upto as int, j as int, tbg, adv as nat, lc as nat));
            }
            i = j;
        } else {
            i = i + 1;
        }
        proof {
            assert(out@ + spec_bg_row(row, upto as int, i as int, tbg, adv as nat, lc as nat) =~= old(
                out,
            )@ + spec_bg_row(row, upto as int, 0, tbg, adv as nat, lc as nat));
        }
    }
    proof {
        assert(out@ + spec_bg_row(row, upto as int, upto as int, tbg, adv as nat, lc as nat) =~= out@);
        assert(out@ =~= old(out)@ + spec_bg_row(row, upto as int, 0, tbg, adv as nat, lc as nat));
    }
}

/// The escaped text content of columns `i..j` of row `r`.
fn push_text_content(out: &mut Vec<u8>, f: &Frame, r: usize, i: usize, j: usize)
    requires
        f.wf(),
        r < f.height,
        i <= j,
        j <= f.width,
    ensures
        final(out)@ == old(out)@ + spec_text_content(f@[r as int], i as int, j as int),
{
    let ghost row = f@[r as int];
    let mut k = i;
    while k < j
        invariant
            f.wf(),
            r < f.height,
            i <= k <= j,
            j <= f.width,
            row == f@[r as int],
            out@ + spec_text_content(row, k as int, j as int) == old(out)@ + spec_text_content(
                row,
                i as int,
                j as int,
            ),
        decreases j - k,
    {
        let ghost pre = out@;
        let c = f.get_cell(r, k).unwrap().ch;
        if c == '&' {
            push_lit(out, "&amp;");
        } else if c == '<' {
            push_lit(out, "&lt;");
        } else if c == '>' {
            push_lit(out, "&gt;");
        } else {
            push_utf8_char(out, c);
        }
        proof {
            assert(out@ =~= pre + spec_esc_char(row[k as int].ch));
        }
        k = k + 1;
        proof {
            assert(out@ + spec_text_content(row, k as int, j as int) =~= old(out)@
                + spec_text_content(row, i as int, j as int));
        }
    }
}

/// The styled text runs of row `r`, columns `0..upto`.
#[verifier::rlimit(100)]
fn push_fg_row(out: &mut Vec<u8>, f: &Frame, r: usize, upto: usize, adv: u64)
    requires
        f.wf(),
        r < f.height,
        upto <= f.width,
        f.width <= 10000,
        adv <= 2000000,
    ensures
        final(out)@ == old(out)@ + spec_fg_row(f@[r as int], upto as int, 0, adv as nat),
{
    let ghost row = f@[r as int];
    let mut i: usize = 0;
    while i < upto
        invariant
            f.wf(),
            r < f.height,
            upto <= f.width,
            f.width <= 10000,
            adv <= 2000000,
            row == f@[r as int],
            i <= upto,
            out@ + spec_fg_row(row, upto as int, i as int, adv as nat) == old(out)@ + spec_fg_row(
                row,
                upto as int,
                0,
                adv as nat,
            ),
        decreases upto - i,
    {
        let key = *f.get_cell(r, i).unwrap();
        let ghost pre = out@;
        let ghost i0 = i as int;
        let mut j = i + 1;
        while j < upto && fg_run_cont(f, r, j, key)
            invariant
                f.wf(),
                r < f.height,
                upto <= f.width,
                row == f@[r as int],
                i0 + 1 <= j <= upto,
                fg_run_end(row, upto as int, i0 + 1, key) == fg_run_end(
                    row,
                    upto as int,
                    j as int,
                    key,
                ),
            decreases upto - j,
        {
            j = j + 1;
        }
        proof {
            assert(fg_run_end(row, upto as int, j as int, key) == j as int);
            assert(fg_run_end(row, upto as int, i0 + 1, key) == j as int);
        }
        push_lit(out, "<text x=\"");
        push_centi(out, mul_layout(i as u64, adv));
        push_lit(out, "\" fill=\"");
        push_hex_color(out, key.fg);
        push_lit(out, "\"");
        if key.bold {
            push_lit(out, " font-weight=\"bold\"");
        }
        if key.italic {
            push_lit(out, " font-style=\"italic\"");
        }
        if key.underline {
            push_lit(out, " text-decoration=\"underline\"");
        }
        push_lit(out, ">");
        push_text_content(out, f, r, i, j);
        push_lit(out, "</text>");
        proof {
            assert(out@ =~= pre + spec_text_el(row, i0, j as int, adv as nat));
            assert(spec_fg_row(row, upto as int, i0, adv as nat) == spec_text_el(
                row,
                i0,
                j as int,
                adv as nat,
            ) + spec_fg_row(row, upto as int, j as int, adv as nat));
        }
        i = j;
        proof {
            assert(out@ + spec_fg_row(row, upto as int, i as int, adv as nat) =~= old(out)@
                + spec_fg_row(row, upto as int, 0, adv as nat));
        }
    }
    proof {
        assert(out@ =~= old(out)@ + spec_fg_row(row, upto as int, 0, adv as nat));
    }
}

/// One row group (or nothing for an all-space row).
fn push_row_group(
    out: &mut Vec<u8>,
    f: &Frame,
    r: usize,
    tbg: Rgb,
    adv: u64,
    lc: u64,
    fs: u8,
)
    requires
        f.wf(),
        r < f.height,
        f.width <= 10000,
        f.height <= 10000,
        adv <= 2000000,
        lc <= 4000000,
    ensures
        final(out)@ == old(out)@ + spec_row_group(
            f@[r as int],
            r as int,
            tbg,
            adv as nat,
            lc as nat,
            fs as nat,
        ),
{
    let ghost row = f@[r as int];
    // find the last non-space column
    let w = f.width;
    proof {
        assert(row.take(w as int) =~= row);
    }
    let mut sc: usize = w;
    while sc > 0 && f.get_cell(r, sc - 1).unwrap().ch == ' '
        invariant
            f.wf(),
            r < f.height,
            w == f.width,
            sc <= w,
            row == f@[r as int],
            last_nonspace(row) == last_nonspace(row.take(sc as int)),
        decreases sc,
    {
        proof {
            assert(row.take(sc as int).drop_last() =~= row.take(sc as int - 1));
            assert(row.take(sc as int).last() == row[sc as int - 1]);
        }
        sc = sc - 1;
    }
    proof {
        assert(row.take(w as int) =~= row);
        if sc > 0 {
            assert(row.take(sc as int).last() == row[sc as int - 1]);
            assert(last_nonspace(row) == sc as int - 1);
        } else {
            assert(row.take(0) =~= Seq::<Cell>::empty());
            assert(last_nonspace(row) == -1);
        }
    }
    if sc == 0 {
        return ;
    }
    let upto = sc;
    push_lit(out, "<g transform=\"translate(0, ");
    push_centi(out, mul_layout(r as u64, lc));
    push_lit(out, ")\"><g>");
    push_bg_row(out, f, r, upto, tbg, adv, lc);
    push_lit(out, "</g><g transform=\"translate(0, ");
    push_dec(out, fs as u64);
    push_lit(out, ")\">");
    push_fg_row(out, f, r, upto, adv);
    push_lit(out, "</g></g>");
    proof {
        assert(out@ =~= old(out)@ + spec_row_group(
            row,
            r as int,
            tbg,
            adv as nat,
            lc as nat,
            fs as nat,
        ));
    }
}

/// All row groups of a frame.
fn push_rows(out: &mut Vec<u8>, f: &Frame, tbg: Rgb, adv: u64, lc: u64, fs: u8)
    requires
        f.wf(),
        f.width <= 10000,
        f.height <= 10000,
        adv <= 2000000,
        lc <= 4000000,
    ensures
        final(out)@ == old(out)@ + spec_rows(f@, 0, tbg, adv as nat, lc as nat, fs as nat),
{
    let h = f.height;
    let mut r: usize = 0;
    while r < h
        invariant
            f.wf(),
            f.width <= 10000,
            f.height <= 10000,
            adv <= 2000000,
            lc <= 4000000,
            h == f.height,
            r <= h,
            out@ + spec_rows(f@, r as int, tbg, adv as nat, lc as nat, fs as nat) == old(out)@
                + spec_rows(f@, 0, tbg, adv as nat, lc as nat, fs as nat),
        decreases h - r,
    {
        push_row_group(out, f, r, tbg, adv, lc, fs);
        r = r + 1;
        proof {
            assert(out@ + spec_rows(f@, r as int, tbg, adv as nat, lc as nat, fs as nat) =~= old(
                out,
            )@ + spec_rows(f@, 0, tbg, adv as nat, lc as nat, fs as nat));
        }
    }
    proof {
        assert(out@ =~= old(out)@ + spec_rows(f@, 0, tbg, adv as nat, lc as nat, fs as nat));
    }
}

/// The `<animate>` element of frame `i` of `n`.
#[verifier::rlimit(100)]
fn push_anim(out: &mut Vec<u8>, i: usize, n: usize, dur_us: u64, loop_enable: bool)
    requires
        i < n,
    ensures
        final(out)@ == old(out)@ + spec_anim(
            i as int,
            n as int,
            spec_dur_one(dur_us),
            loop_enable,
        ),
{
    push_lit(out, "<animate id=\"f");
    push_dec(out, i as u64);
    push_lit(out, "\" attributeName=\"opacity\" begin=\"");
    if i == 0 {
        if loop_enable {
            push_lit(out, "0s;f");
            push_dec(out, (n - 1) as u64);
            push_lit(out, ".end");
        } else {
            push_lit(out, "0s");
        }
    } else {
        push_lit(out, "f");
        push_dec(out, (i - 1) as u64);
        push_lit(out, ".end");
    }
    push_lit(out, "\" dur=\"");
    let d = if dur_us >= 1 {
        dur_us
    } else {
        1
    };
    push_micros(out, d);
    push_lit(out, "s\" values=\"1;1\" keyTimes=\"0;1\" calcMode=\"discrete\"/>");
    proof {
        assert(out@ =~= old(out)@ + spec_anim(
            i as int,
            n as int,
            spec_dur_one(dur_us),
            loop_enable,
        ));
    }
}

/// A raw duration floored at one microsecond.
pub open spec fn spec_dur_one(d: u64) -> nat {
    if d >= 1 {
        d as nat
    } else {
        1
    }
}

impl SvgRenderer {
    /// Renders the frame list into a complete SVG document.  The per-frame
    /// durations are taken positionally from `durations`; a missing or zero
    /// duration is floored to one microsecond.
    #[verifier::rlimit(100)]
    pub fn render(&self, frames: &Vec<Frame>, durations: &Vec<u64>) -> (out: Vec<u8>)
        requires
            self.wf(),
            forall|i: int|
                0 <= i < frames@.len() ==> (#[trigger] frames@[i]).wf() && frames@[i].width
                    <= 10000 && frames@[i].height <= 10000,
        ensures
            out@ == self.spec_doc(
                Seq::new(frames@.len(), |i: int| frames@[i]@),
                durations@,
            ),
    {
        let ghost grids = Seq::new(frames@.len(), |i: int| frames@[i]@);
        let fs = self.font_size;
        let adv: u64 = fs as u64 * 60;
        proof {
            assert(fs as int * self.line_height_centi as int <= 255 * 10000) by (nonlinear_arith)
                requires
                    fs <= 255,
                    self.line_height_centi <= 10000,
            ;
        }
        let lc: u64 = fs as u64 * self.line_height_centi as u64;
        let wc: u64 = mul_layout(self.cols as u64, adv) + self.padding_x as u64 * 200;
        let hc: u64 = mul_layout(self.rows as u64, lc) + self.padding_y as u64 * 200 + if self.window {
            3000
        } else {
            0
        };
        let yoff: u64 = self.padding_y as u64 * 100 + if self.window {
            3000
        } else {
            0
        };
        let mut out: Vec<u8> = Vec::new();
        push_lit(&mut out, "<svg xmlns=\"http://www.w3.org/2000/svg\" width=\"");
        push_centi(&mut out, wc);
        push_lit(&mut out, "\" height=\"");
        push_centi(&mut out, hc);
        push_lit(&mut out, "\" viewBox=\"0 0 ");
        push_dec(&mut out, wc / 100);
        push_lit(&mut out, " ");
        push_dec(&mut out, hc / 100);
        push_lit(&mut out, "\">");
        push_lit(
            &mut out,
            "<defs><style>text { white-space: pre; font-family: monospace; font-size: ",
        );
        push_dec(&mut out, fs as u64);
        push_lit(&mut out, "px; } .frame { opacity: 0; }</style></defs>");
        push_lit(&mut out, "<rect width=\"100%\" height=\"100%\" fill=\"");
        push_hex_color(&mut out, self.theme.bg);
        push_lit(&mut out, "\"/>");
        if self.window {
            push_lit(&mut out, "<g><rect width=\"");
            push_centi(&mut out, wc);
            push_lit(
                &mut out,
                "\" height=\"30\" fill=\"#2d2d2d\" rx=\"5\" ry=\"5\"/><circle cx=\"20\" cy=\"15\" r=\"6\" fill=\"#ff5f57\"/><circle cx=\"40\" cy=\"15\" r=\"6\" fill=\"#ffbd2e\"/><circle cx=\"60\" cy=\"15\" r=\"6\" fill=\"#28ca42\"/><g transform=\"translate(",
            );
            push_centi(&mut out, wc / 2);
            push_lit(&mut out, ", 20)\">Terminal</g></g>");
            proof {
                assert(out@ =~= {
                    let pre = lit("<svg xmlns=\"http://www.w3.org/2000/svg\" width=\"")
                        + spec_centi(wc as nat) + lit("\" height=\"") + spec_centi(hc as nat) + lit(
                        "\" viewBox=\"0 0 ",
                    ) + spec_dec((wc / 100) as nat) + lit(" ") + spec_dec((hc / 100) as nat) + lit(
                        "\">",
                    ) + lit(
                        "<defs><style>text { white-space: pre; font-family: monospace; font-size: ",
                    ) + spec_dec(fs as nat) + lit("px; } .frame { opacity: 0; }</style></defs>")
                        + lit("<rect width=\"100%\" height=\"100%\" fill=\"") + spec_hex_color(
                        self.theme.bg,
                    ) + lit("\"/>");
                    pre + spec_window(wc as nat)
                });
            }
        }
        push_lit(&mut out, "<g transform=\"translate(");
        push_dec(&mut out, self.padding_x as u64);
        push_lit(&mut out, ", ");
        push_centi(&mut out, yoff);
        push_lit(&mut out, ")\">");
        let ghost header = out@;
        let n = frames.len();
        let mut i: usize = 0;
        while i < n
            invariant
                self.wf(),
                forall|k: int|
                    0 <= k < frames@.len() ==> (#[trigger] frames@[k]).wf() && frames@[k].width
                        <= 10000 && frames@[k].height <= 10000,
                n == frames@.len(),
                i <= n,
                grids == Seq::new(frames@.len(), |k: int| frames@[k]@),
                adv == fs as u64 * 60,
                lc == fs as u64 * self.line_height_centi as u64,
                lc <= 2550000,
                fs == self.font_size,
                out@ + spec_frames(
                    grids,
                    durations@,
                    i as int,
                    self.loop_enable,
                    self.theme.bg,
                    adv as nat,
                    lc as nat,
                    fs as nat,
                ) == header + spec_frames(
                    grids,
                    durations@,
                    0,
                    self.loop_enable,
                    self.theme.bg,
                    adv as nat,
                    lc as nat,
                    fs as nat,
                ),
            decreases n - i,
        {
            let ghost pre = out@;
            let f = &frames[i];
            let dur = if i < durations.len() {
                durations[i]
            } else {
                0
            };
            push_lit(&mut out, "<g class=\"frame\">");
            push_rows(&mut out, f, self.theme.bg, adv, lc, fs);
            push_anim(&mut out, i, n, dur, self.loop_enable);
            push_lit(&mut out, "</g>");
            proof {
                assert(spec_dur_one(dur) == spec_dur(durations@, i as int));
                assert(grids[i as int] == frames@[i as int]@);
                assert(out@ =~= pre + spec_frame_group(
                    grids[i as int],
                    i as int,
                    n as int,
                    spec_dur(durations@, i as int),
                    self.loop_enable,
                    self.theme.bg,
                    adv as nat,
                    lc as nat,
                    fs as nat,
                ));
            }
            i = i + 1;
            proof {
                assert(out@ + spec_frames(
                    grids,
                    durations@,
                    i as int,
                    self.loop_enable,
                    self.theme.bg,
                    adv as nat,
                    lc as nat,
                    fs as nat,
                ) =~= header + spec_frames(
                    grids,
                    durations@,
                    0,
                    self.loop_enable,
                    self.theme.bg,
                    adv as nat,
                    lc as nat,
                    fs as nat,
                ));
            }
        }
        push_lit(&mut out, "</g></svg>");
        proof {
            assert(spec_frames(
                grids,
                durations@,
                n as int,
                self.loop_enable,
                self.theme.bg,
                adv as nat,
                lc as nat,
                fs as nat,
            ) =~= Seq::<u8>::empty());
            assert(out@ =~= self.spec_doc(grids, durations@));
        }
        out
    }
}

/// The frame groups as a sequence, one element per input frame, in input
/// order.
pub open spec fn spec_frame_groups_seq(
    grids: Seq<Seq<Seq<Cell>>>,
    durs: Seq<u64>,
    loop_enable: bool,
    tbg: Rgb,
    adv: nat,
    lc: nat,
    fs: nat,
) -> Seq<Seq<u8>> {
    Seq::new(
        grids.len(),
        |i: int|
            spec_frame_group(
                grids[i],
                i,
                grids.len() as int,
                spec_dur(durs, i),
                loop_enable,
                tbg,
                adv,
                lc,
                fs,
            ),
    )
}

proof fn lemma_frames_flatten(
    grids: Seq<Seq<Seq<Cell>>>,
    durs: Seq<u64>,
    i: int,
    loop_enable: bool,
    tbg: Rgb,
    adv: nat,
    lc: nat,
    fs: nat,
)
    requires
        0 <= i <= grids.len(),
    ensures
        spec_frames(grids, durs, i, loop_enable, tbg, adv, lc, fs) == spec_frame_groups_seq(
            grids,
            durs,
            loop_enable,
            tbg,
            adv,
            lc,
            fs,
        ).skip(i).flatten(),
    decreases grids.len() - i,
{
    let groups = spec_frame_groups_seq(grids, durs, loop_enable, tbg, adv, lc, fs);
    if i == grids.len() {
        assert(groups.skip(i) =~= Seq::<Seq<u8>>::empty());
        assert(groups.skip(i).flatten() =~= Seq::<u8>::empty());
    } else {
        lemma_frames_flatten(grids, durs, i + 1, loop_enable, tbg, adv, lc, fs);
        assert(groups.skip(i).drop_first() =~= groups.skip(i + 1));
        assert(groups.skip(i).first() == groups[i]);
        assert(groups.skip(i).flatten() == groups[i] + groups.skip(i).drop_first().flatten());
    }
}

/// Law: the body of the frames region is exactly the concatenation of one
/// `<g class="frame">` group per input frame, in input order; in
/// particular the number of frame groups equals the number of frames.
pub proof fn lemma_frame_count(
    grids: Seq<Seq<Seq<Cell>>>,
    durs: Seq<u64>,
    loop_enable: bool,
    tbg: Rgb,
    adv: nat,
    lc: nat,
    fs: nat,
)
    ensures
        spec_frame_groups_seq(grids, durs, loop_enable, tbg, adv, lc, fs).len() == grids.len(),
        spec_frames(grids, durs, 0, loop_enable, tbg, adv, lc, fs) == spec_frame_groups_seq(
            grids,
            durs,
            loop_enable,
            tbg,
            adv,
            lc,
            fs,
        ).flatten(),
        forall|i: int|
            0 <= i < grids.len() ==> spec_frame_groups_seq(
                grids,
                durs,
                loop_enable,
                tbg,
                adv,
                lc,
                fs,
            )[i] == spec_frame_group(
                grids[i],
                i,
                grids.len() as int,
                spec_dur(durs, i),
                loop_enable,
                tbg,
                adv,
                lc,
                fs,
            ),
{
    let groups = spec_frame_groups_seq(grids, durs, loop_enable, tbg, adv, lc, fs);
    lemma_frames_flatten(grids, durs, 0, loop_enable, tbg, adv, lc, fs);
    assert(groups.skip(0) =~= groups);
}

} // verus!
