//! Color themes: a background, a foreground and a 16-color palette.

use vstd::prelude::*;
use vstd::string::StringSliceAdditionalSpecFns;

use crate::color::Rgb;

verus! {

/// A theme: document background, default foreground and the 16 ANSI
/// palette colors.  The encoder consumes only `bg`; per-cell colors come
/// from the emulator's fixed tables.
#[derive(Debug)]
pub struct Theme {
    pub bg: Rgb,
    pub fg: Rgb,
    pub palette: Vec<Rgb>,
}

impl Theme {
    /// Shape invariant: exactly 16 palette entries.
    pub open spec fn wf(&self) -> bool {
        self.palette@.len() == 16
    }

    /// The palette color for an ANSI index, or the foreground for any
    /// index past the palette.
    pub fn get_color(&self, index: u8) -> (c: Rgb)
        requires
            self.wf(),
        ensures
            c == if index < 16 {
                self.palette@[index as int]
            } else {
                self.fg
            },
    {
        if index < 16 {
            self.palette[index as usize]
        } else {
            self.fg
        }
    }

    /// The default theme (the asciinema palette): bg `#121314`,
    /// fg `#cccccc`, and the 16 standard colors.
    pub fn default_theme() -> (t: Theme)
        ensures
            t.wf(),
            t.bg == (Rgb { r: 0x12, g: 0x13, b: 0x14 }),
            t.fg == (Rgb { r: 0xcc, g: 0xcc, b: 0xcc }),
    {
        let mut palette: Vec<Rgb> = Vec::new();
        palette.push(Rgb { r: 0x00, g: 0x00, b: 0x00 });
        palette.push(Rgb { r: 0xdd, g: 0x3c, b: 0x69 });
        palette.push(Rgb { r: 0x4e, g: 0xbf, b: 0x22 });
        palette.push(Rgb { r: 0xdd, g: 0xaf, b: 0x3c });
        palette.push(Rgb { r: 0x26, g: 0xb0, b: 0xd7 });
        palette.push(Rgb { r: 0xb9, g: 0x54, b: 0xe1 });
        palette.push(Rgb { r: 0x54, g: 0xe1, b: 0xb9 });
        palette.push(Rgb { r: 0xd9, g: 0xd9, b: 0xd9 });
        palette.push(Rgb { r: 0x4d, g: 0x4d, b: 0x4d });
        palette.push(Rgb { r: 0xdd, g: 0x3c, b: 0x69 });
        palette.push(Rgb { r: 0x4e, g: 0xbf, b: 0x22 });
        palette.push(Rgb { r: 0xdd, g: 0xaf, b: 0x3c });
        palette.push(Rgb { r: 0x26, g: 0xb0, b: 0xd7 });
        palette.push(Rgb { r: 0xb9, g: 0x54, b: 0xe1 });
        palette.push(Rgb { r: 0x54, g: 0xe1, b: 0xb9 });
        palette.push(Rgb { r: 0xff, g: 0xff, b: 0xff });
        Theme { bg: Rgb { r: 0x12, g: 0x13, b: 0x14 }, fg: Rgb { r: 0xcc, g: 0xcc, b: 0xcc }, palette }
    }
}

/// The first comma at or after `i`, or the end.
pub open spec fn sp_comma(s: Seq<u8>, i: int) -> int
    decreases s.len() - i,
{
    if 0 <= i < s.len() && s[i] != 0x2C {
        sp_comma(s, i + 1)
    } else {
        i
    }
}

/// The comma-separated pieces of `s` from `i` on.
pub open spec fn sp_pieces(s: Seq<u8>, i: int) -> Seq<Seq<u8>>
    decreases s.len() - i,
{
    if i < 0 || i > s.len() {
        Seq::empty()
    } else {
        let e = sp_comma(s, i);
        let k = if i <= e && e <= s.len() {
            e
        } else {
            s.len() as int
        };
        if k >= s.len() {
            seq![s.subrange(i, s.len() as int)]
        } else {
            seq![s.subrange(i, k)] + sp_pieces(s, k + 1)
        }
    }
}

/// A single hex color piece: ASCII-trimmed, leading `#`s stripped, then
/// exactly six hex digits.
pub open spec fn sp_hex_color(piece: Seq<u8>) -> Option<Rgb> {
    let t = crate::filter::spec_trim(piece);
    let h = sp_after_hashes(t, 0);
    let d = t.skip(h);
    if d.len() != 6 {
        None
    } else if crate::json::sp_hex_val(d[0]) >= 16 || crate::json::sp_hex_val(d[1]) >= 16
        || crate::json::sp_hex_val(d[2]) >= 16 || crate::json::sp_hex_val(d[3]) >= 16
        || crate::json::sp_hex_val(d[4]) >= 16 || crate::json::sp_hex_val(d[5]) >= 16 {
        None
    } else {
        Some(
            Rgb {
                r: (crate::json::sp_hex_val(d[0]) * 16 + crate::json::sp_hex_val(d[1])) as u8,
                g: (crate::json::sp_hex_val(d[2]) * 16 + crate::json::sp_hex_val(d[3])) as u8,
                b: (crate::json::sp_hex_val(d[4]) * 16 + crate::json::sp_hex_val(d[5])) as u8,
            },
        )
    }
}

/// The first index at or after `i` that is not `#`.
pub open spec fn sp_after_hashes(s: Seq<u8>, i: int) -> int
    decreases s.len() - i,
{
    if 0 <= i < s.len() && s[i] == 0x23 {
        sp_after_hashes(s, i + 1)
    } else {
        i
    }
}

/// Errors of the theme parser: a color count other than 18, or a piece
/// that is not a six-digit hex color.
#[derive(Clone, Copy, Debug, PartialEq, Eq, Structural)]
pub enum ThemeError {
    WrongCount,
    BadColor,
}

impl ThemeError {
    /// A short description of the error.
    pub fn describe(&self) -> (m: &'static str)
        ensures
            m@ == match self {
                ThemeError::WrongCount => "theme must have exactly 18 colors (bg, fg, and 16 palette colors)"@,
                ThemeError::BadColor => "invalid hex color in theme"@,
            },
    {
        match self {
            ThemeError::WrongCount => "theme must have exactly 18 colors (bg, fg, and 16 palette colors)",
            ThemeError::BadColor => "invalid hex color in theme",
        }
    }
}

/// Parses one hex color piece.
pub fn parse_hex_color(piece: &[u8]) -> (r: Option<Rgb>)
    ensures
        r == sp_hex_color(piece@),
{
    let ghost t0 = crate::filter::spec_trim(piece@);
    let n = piece.len();
    let mut lo: usize = 0;
    while lo < n && (piece[lo] == 0x20 || (0x09 <= piece[lo] && piece[lo] <= 0x0D))
        invariant
            n == piece@.len(),
            lo <= n,
            crate::filter::first_nonws(piece@, 0) == crate::filter::first_nonws(piece@, lo as int),
        decreases n - lo,
    {
        lo = lo + 1;
    }
    proof {
        assert(crate::filter::first_nonws(piece@, 0) == lo as int);
    }
    let mut hi: usize = n;
    while hi > lo && (piece[hi - 1] == 0x20 || (0x09 <= piece[hi - 1] && piece[hi - 1] <= 0x0D))
        invariant
            n == piece@.len(),
            lo <= hi <= n,
            crate::filter::end_nonws(piece@, n as int) == crate::filter::end_nonws(
                piece@,
                hi as int,
            ),
        decreases hi,
    {
        hi = hi - 1;
    }
    proof {
        if hi > lo {
            assert(crate::filter::end_nonws(piece@, hi as int) == hi as int);
            assert(t0 =~= piece@.subrange(lo as int, hi as int));
        } else {
            crate::filter::lemma_end_nonws_le(piece@, hi as int);
            assert(t0 =~= Seq::<u8>::empty());
        }
    }
    if hi <= lo {
        proof {
            assert(sp_after_hashes(t0, 0) == 0);
            assert(t0.skip(0) =~= t0);
        }
        return None;
    }
    let mut h = lo;
    while h < hi && piece[h] == 0x23
        invariant
            n == piece@.len(),
            lo <= h <= hi <= n,
            t0 =~= piece@.subrange(lo as int, hi as int),
            sp_after_hashes(t0, 0) == sp_after_hashes(t0, h - lo),
        decreases hi - h,
    {
        h = h + 1;
    }
    proof {
        assert(sp_after_hashes(t0, h - lo) == h - lo);
        assert(t0.skip(h - lo) =~= piece@.subrange(h as int, hi as int));
    }
    if hi - h != 6 {
        return None;
    }
    let d0 = crate::json::hex_val(piece[h]);
    let d1 = crate::json::hex_val(piece[h + 1]);
    let d2 = crate::json::hex_val(piece[h + 2]);
    let d3 = crate::json::hex_val(piece[h + 3]);
    let d4 = crate::json::hex_val(piece[h + 4]);
    let d5 = crate::json::hex_val(piece[h + 5]);
    if d0 >= 16 || d1 >= 16 || d2 >= 16 || d3 >= 16 || d4 >= 16 || d5 >= 16 {
        return None;
    }
    Some(Rgb { r: d0 * 16 + d1, g: d2 * 16 + d3, b: d4 * 16 + d5 })
}

/// Splits on commas.
fn split_commas(s: &[u8]) -> (pieces: Vec<Vec<u8>>)
    ensures
        Seq::new(pieces@.len(), |i: int| pieces@[i]@) =~~= sp_pieces(s@, 0),
{
    let n = s.len();
    let mut pieces: Vec<Vec<u8>> = Vec::new();
    let mut i: usize = 0;
    let mut done = false;
    while !done
        invariant
            n == s@.len(),
            i <= n,
            !done ==> Seq::new(pieces@.len(), |q: int| pieces@[q]@) + sp_pieces(s@, i as int)
                =~~= sp_pieces(s@, 0),
            done ==> Seq::new(pieces@.len(), |q: int| pieces@[q]@) =~~= sp_pieces(s@, 0),
        decreases n - i + if done {
            0int
        } else {
            1int
        },
    {
        let ghost pre = Seq::new(pieces@.len(), |q: int| pieces@[q]@);
        let ghost i0 = i as int;
        if i > n {
            done = true;
        } else {
            let mut k = i;
            while k < n && s[k] != 0x2C
                invariant
                    n == s@.len(),
                    i <= k <= n,
                    sp_comma(s@, i as int) == sp_comma(s@, k as int),
                decreases n - k,
            {
                k = k + 1;
            }
            proof {
                assert(sp_comma(s@, k as int) == k as int);
            }
            let mut piece: Vec<u8> = Vec::new();
            let mut q = i;
            while q < k
                invariant
                    n == s@.len(),
                    i <= q <= k <= n,
                    piece@ =~= s@.subrange(i as int, q as int),
                decreases k - q,
            {
                piece.push(s[q]);
                proof {
                    assert(piece@ =~= s@.subrange(i as int, q as int + 1));
                }
                q = q + 1;
            }
            pieces.push(piece);
            proof {
                assert(Seq::new(pieces@.len(), |q2: int| pieces@[q2]@) =~~= pre + seq![
                    s@.subrange(i0, k as int),
                ]);
            }
            if k < n {
                i = k + 1;
                proof {
                    assert(Seq::new(pieces@.len(), |q2: int| pieces@[q2]@) + sp_pieces(
                        s@,
                        i as int,
                    ) =~~= sp_pieces(s@, 0));
                }
            } else {
                done = true;
                proof {
                    assert(Seq::new(pieces@.len(), |q2: int| pieces@[q2]@) =~~= sp_pieces(s@, 0));
                }
            }
        }
    }
    pieces
}

/// Whether every piece of an 18-piece list is a valid hex color.
pub open spec fn sp_all_colors_ok(pieces: Seq<Seq<u8>>) -> bool {
    forall|i: int| 0 <= i < pieces.len() ==> sp_hex_color(#[trigger] pieces[i]).is_some()
}

impl Theme {
    /// Parses a comma-separated list of exactly 18 hex colors:
    /// `bg,fg,c0..c15`.  Any other count or an invalid digit is an error.
    pub fn from_str(s: &str) -> (r: Result<Theme, ThemeError>)
        ensures
            ({
                let pieces = sp_pieces(s.spec_bytes(), 0);
                match r {
                    Ok(t) => {
                        &&& pieces.len() == 18
                        &&& sp_all_colors_ok(pieces)
                        &&& t.wf()
                        &&& Some(t.bg) == sp_hex_color(pieces[0])
                        &&& Some(t.fg) == sp_hex_color(pieces[1])
                        &&& forall|i: int|
                            0 <= i < 16 ==> Some(#[trigger] t.palette@[i]) == sp_hex_color(
                                pieces[i + 2],
                            )
                    },
                    Err(ThemeError::WrongCount) => pieces.len() != 18,
                    Err(ThemeError::BadColor) => pieces.len() == 18 && !sp_all_colors_ok(pieces),
                }
            }),
    {
        let pieces = split_commas(s.as_bytes());
        let ghost pv = sp_pieces(s.spec_bytes(), 0);
        if pieces.len() != 18 {
            return Err(ThemeError::WrongCount);
        }
        let bg = match parse_hex_color(pieces[0].as_slice()) {
            Some(c) => c,
            None => {
                proof {
                    assert(pieces@[0]@ == pv[0]);
                    assert(sp_hex_color(pv[0]).is_none());
                    assert(!sp_all_colors_ok(pv));
                }
                return Err(ThemeError::BadColor);
            },
        };
        let fg = match parse_hex_color(pieces[1].as_slice()) {
            Some(c) => c,
            None => {
                proof {
                    assert(pieces@[1]@ == pv[1]);
                    assert(sp_hex_color(pv[1]).is_none());
                    assert(!sp_all_colors_ok(pv));
                }
                return Err(ThemeError::BadColor);
            },
        };
        let mut palette: Vec<Rgb> = Vec::new();
        for i in 0..16usize
            invariant
                pieces@.len() == 18,
                pv == sp_pieces(s.spec_bytes(), 0),
                Seq::new(pieces@.len(), |q: int| pieces@[q]@) =~~= pv,
                pv.len() == 18,
                palette@.len() == i,
                forall|q: int|
                    0 <= q < i ==> Some(#[trigger] palette@[q]) == sp_hex_color(pv[q + 2]),
        {
            match parse_hex_color(pieces[i + 2].as_slice()) {
                Some(c) => {
                    palette.push(c);
                },
                None => {
                    proof {
                        assert(pieces@[i + 2]@ == pv[i + 2]);
                        assert(sp_hex_color(pv[i + 2]).is_none());
                        assert(!sp_all_colors_ok(pv));
                    }
                    return Err(ThemeError::BadColor);
                },
            }
        }
        proof {
            assert forall|q: int| 0 <= q < 18 implies sp_hex_color(#[trigger] pv[q]).is_some() by {
                if q == 0 {
                    assert(sp_hex_color(pv[0]) == Some(bg));
                } else if q == 1 {
                    assert(sp_hex_color(pv[1]) == Some(fg));
                } else {
                    assert(Some(palette@[q - 2]) == sp_hex_color(pv[q]));
                }
            }
        }
        Ok(Theme { bg, fg, palette })
    }
}

} // verus!
