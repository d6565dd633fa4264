//! A small JSON scanner for the asciicast format: strings with escapes,
//! numbers read as integer microseconds, and a validating skip for values
//! of unknown keys.  Each executable function is the exact image of its
//! spec twin.

use vstd::prelude::*;

verus! {

/// JSON whitespace.
pub open spec fn is_jws(b: u8) -> bool {
    b == 0x20 || b == 0x09 || b == 0x0A || b == 0x0D
}

/// The first non-whitespace position at or after `i`.
pub open spec fn sp_ws(s: Seq<u8>, i: int) -> int
    decreases s.len() - i,
{
    if 0 <= i < s.len() && is_jws(s[i]) {
        sp_ws(s, i + 1)
    } else {
        i
    }
}

/// Skips whitespace.
pub fn skip_ws(s: &[u8], i: usize) -> (r: usize)
    requires
        i <= s@.len(),
    ensures
        r == sp_ws(s@, i as int),
        i <= r <= s@.len(),
{
    let n = s.len();
    let mut j = i;
    while j < n && (s[j] == 0x20 || s[j] == 0x09 || s[j] == 0x0A || s[j] == 0x0D)
        invariant
            n == s@.len(),
            i <= j <= n,
            sp_ws(s@, i as int) == sp_ws(s@, j as int),
        decreases n - j,
    {
        j = j + 1;
    }
    j
}

/// A decimal digit.
pub open spec fn is_digit(b: u8) -> bool {
    0x30 <= b && b <= 0x39
}

/// The end of the digit run starting at `i`.
pub open spec fn sp_digits_end(s: Seq<u8>, i: int) -> int
    decreases s.len() - i,
{
    if 0 <= i < s.len() && is_digit(s[i]) {
        sp_digits_end(s, i + 1)
    } else {
        i
    }
}

/// The value of the digits `s[i..j]`.
pub open spec fn sp_digits_val(s: Seq<u8>, i: int, j: int) -> nat
    decreases j - i,
{
    if i >= j {
        0
    } else {
        sp_digits_val(s, i, j - 1) * 10 + (s[j - 1] - 0x30) as nat
    }
}

/// The value of a hex digit, or 16 for a non-hex byte.
pub open spec fn sp_hex_val(b: u8) -> nat {
    if 0x30 <= b && b <= 0x39 {
        (b - 0x30) as nat
    } else if 0x41 <= b && b <= 0x46 {
        (b - 0x41 + 10) as nat
    } else if 0x61 <= b && b <= 0x66 {
        (b - 0x61 + 10) as nat
    } else {
        16
    }
}

/// The UTF-8 bytes of a code point (assumed a scalar value).
pub open spec fn sp_utf8_cp(v: nat) -> Seq<u8> {
    if v < 0x80 {
        seq![v as u8]
    } else if v < 0x800 {
        seq![(0xC0 + v / 64) as u8, (0x80 + v % 64) as u8]
    } else if v < 0x10000 {
        seq![(0xE0 + v / 4096) as u8, (0x80 + (v / 64) % 64) as u8, (0x80 + v % 64) as u8]
    } else {
        seq![
            (0xF0 + v / 0x40000) as u8,
            (0x80 + (v / 4096) % 64) as u8,
            (0x80 + (v / 64) % 64) as u8,
            (0x80 + v % 64) as u8,
        ]
    }
}

/// The body of a JSON string from position `i` (after the opening quote):
/// the decoded bytes and the position after the closing quote.  Escapes
/// follow JSON; `\u` escapes decode surrogate pairs, and lone surrogates
/// decode to the replacement character.  Raw control bytes are rejected.
pub open spec fn sp_str_body(s: Seq<u8>, i: int) -> Option<(Seq<u8>, int)>
    decreases s.len() - i,
{
    if i < 0 || i >= s.len() {
        None
    } else if s[i] == 0x22 {
        Some((Seq::empty(), i + 1))
    } else if s[i] == 0x5C {
        if i + 1 >= s.len() {
            None
        } else {
            let e = s[i + 1];
            if e == 0x22 || e == 0x5C || e == 0x2F {
                match sp_str_body(s, i + 2) {
                    Some(r) => Some((seq![e] + r.0, r.1)),
                    None => None,
                }
            } else if e == 0x62 {
                match sp_str_body(s, i + 2) {
                    Some(r) => Some((seq![0x08u8] + r.0, r.1)),
                    None => None,
                }
            } else if e == 0x66 {
                match sp_str_body(s, i + 2) {
                    Some(r) => Some((seq![0x0Cu8] + r.0, r.1)),
                    None => None,
                }
            } else if e == 0x6E {
                match sp_str_body(s, i + 2) {
                    Some(r) => Some((seq![0x0Au8] + r.0, r.1)),
                    None => None,
                }
            } else if e == 0x72 {
                match sp_str_body(s, i + 2) {
                    Some(r) => Some((seq![0x0Du8] + r.0, r.1)),
                    None => None,
                }
            } else if e == 0x74 {
                match sp_str_body(s, i + 2) {
                    Some(r) => Some((seq![0x09u8] + r.0, r.1)),
                    None => None,
                }
            } else if e == 0x75 {
                if i + 6 > s.len() {
                    None
                } else {
                    let h0 = sp_hex_val(s[i + 2]);
                    let h1 = sp_hex_val(s[i + 3]);
                    let h2 = sp_hex_val(s[i + 4]);
                    let h3 = sp_hex_val(s[i + 5]);
                    if h0 >= 16 || h1 >= 16 || h2 >= 16 || h3 >= 16 {
                        None
                    } else {
                        let cp = h0 * 4096 + h1 * 256 + h2 * 16 + h3;
                        if 0xD800 <= cp && cp <= 0xDBFF {
                            // high surrogate: look for a paired low one
                            if i + 12 <= s.len() && s[i + 6] == 0x5C && s[i + 7] == 0x75 {
                                let l0 = sp_hex_val(s[i + 8]);
                                let l1 = sp_hex_val(s[i + 9]);
                                let l2 = sp_hex_val(s[i + 10]);
                                let l3 = sp_hex_val(s[i + 11]);
                                if l0 < 16 && l1 < 16 && l2 < 16 && l3 < 16 && 0xDC00 <= l0 * 4096
                                    + l1 * 256 + l2 * 16 + l3 && l0 * 4096 + l1 * 256 + l2 * 16
                                    + l3 <= 0xDFFF {
                                    let low = l0 * 4096 + l1 * 256 + l2 * 16 + l3;
                                    let comb = 0x10000 + (cp - 0xD800) * 0x400 + (low - 0xDC00);
                                    match sp_str_body(s, i + 12) {
                                        Some(r) => Some((sp_utf8_cp(comb as nat) + r.0, r.1)),
                                        None => None,
                                    }
                                } else {
                                    match sp_str_body(s, i + 6) {
                                        Some(r) => Some((sp_utf8_cp(0xFFFD) + r.0, r.1)),
                                        None => None,
                                    }
                                }
                            } else {
                                match sp_str_body(s, i + 6) {
                                    Some(r) => Some((sp_utf8_cp(0xFFFD) + r.0, r.1)),
                                    None => None,
                                }
                            }
                        } else if 0xDC00 <= cp && cp <= 0xDFFF {
                            match sp_str_body(s, i + 6) {
                                Some(r) => Some((sp_utf8_cp(0xFFFD) + r.0, r.1)),
                                None => None,
                            }
                        } else {
                            match sp_str_body(s, i + 6) {
                                Some(r) => Some((sp_utf8_cp(cp) + r.0, r.1)),
                                None => None,
                            }
                        }
                    }
                }
            } else {
                None
            }
        }
    } else if s[i] < 0x20 {
        None
    } else {
        match sp_str_body(s, i + 1) {
            Some(r) => Some((seq![s[i]] + r.0, r.1)),
            None => None,
        }
    }
}

/// A JSON string at `i` (pointing at the opening quote).
pub open spec fn sp_string(s: Seq<u8>, i: int) -> Option<(Seq<u8>, int)> {
    if 0 <= i < s.len() && s[i] == 0x22 {
        sp_str_body(s, i + 1)
    } else {
        None
    }
}

/// The UTF-8 bytes of a code point.
fn utf8_cp(v: u32) -> (out: Vec<u8>)
    requires
        v <= 0x10FFFF,
    ensures
        out@ == sp_utf8_cp(v as nat),
{
    let mut out: Vec<u8> = Vec::new();
    if v < 0x80 {
        out.push(v as u8);
    } else if v < 0x800 {
        out.push((0xC0 + v / 64) as u8);
        out.push((0x80 + v % 64) as u8);
    } else if v < 0x10000 {
        out.push((0xE0 + v / 4096) as u8);
        out.push((0x80 + (v / 64) % 64) as u8);
        out.push((0x80 + v % 64) as u8);
    } else {
        out.push((0xF0 + v / 0x40000) as u8);
        out.push((0x80 + (v / 4096) % 64) as u8);
        out.push((0x80 + (v / 64) % 64) as u8);
        out.push((0x80 + v % 64) as u8);
    }
    proof {
        assert(out@ =~= sp_utf8_cp(v as nat));
    }
    out
}

/// The value of a hex digit, or 16.
pub fn hex_val(b: u8) -> (v: u8)
    ensures
        v == sp_hex_val(b),
{
    if 0x30 <= b && b <= 0x39 {
        b - 0x30
    } else if 0x41 <= b && b <= 0x46 {
        b - 0x41 + 10
    } else if 0x61 <= b && b <= 0x66 {
        b - 0x61 + 10
    } else {
        16
    }
}

/// Parses a string body from `i` (after the opening quote).
pub fn str_body(s: &[u8], i: usize) -> (r: Option<(Vec<u8>, usize)>)
    requires
        i <= s@.len(),
    ensures
        match r {
            Some(p) => sp_str_body(s@, i as int) == Some((p.0@, p.1 as int)) && i < p.1 <= s@.len(),
            None => sp_str_body(s@, i as int).is_none(),
        },
    decreases s@.len() - i,
{
    let n = s.len();
    if i >= n {
        return None;
    }
    let b = s[i];
    if b == 0x22 {
        return Some((Vec::new(), i + 1));
    }
    if b == 0x5C {
        if i + 1 >= n {
            return None;
        }
        let e = s[i + 1];
        if e == 0x22 || e == 0x5C || e == 0x2F || e == 0x62 || e == 0x66 || e == 0x6E || e == 0x72
            || e == 0x74 {
            let decoded: u8 = if e == 0x62 {
                0x08
            } else if e == 0x66 {
                0x0C
            } else if e == 0x6E {
                0x0A
            } else if e == 0x72 {
                0x0D
            } else if e == 0x74 {
                0x09
            } else {
                e
            };
            match str_body(s, i + 2) {
                Some((mut rest, j)) => {
                    let mut head: Vec<u8> = Vec::new();
                    head.push(decoded);
                    head.append(&mut rest);
                    proof {
                        assert(head@ =~= seq![decoded] + sp_str_body(s@, i + 2).unwrap().0);
                    }
                    Some((head, j))
                },
                None => None,
            }
        } else if e == 0x75 {
            if n - i < 6 {
                return None;
            }
            let h0 = hex_val(s[i + 2]);
            let h1 = hex_val(s[i + 3]);
            let h2 = hex_val(s[i + 4]);
            let h3 = hex_val(s[i + 5]);
            if h0 >= 16 || h1 >= 16 || h2 >= 16 || h3 >= 16 {
                return None;
            }
            let cp: u32 = h0 as u32 * 4096 + h1 as u32 * 256 + h2 as u32 * 16 + h3 as u32;
            if 0xD800 <= cp && cp <= 0xDBFF {
                let mut paired = false;
                let mut low: u32 = 0;
                if n - i >= 12 && s[i + 6] == 0x5C && s[i + 7] == 0x75 {
                    let l0 = hex_val(s[i + 8]);
                    let l1 = hex_val(s[i + 9]);
                    let l2 = hex_val(s[i + 10]);
                    let l3 = hex_val(s[i + 11]);
                    if l0 < 16 && l1 < 16 && l2 < 16 && l3 < 16 {
                        let lv: u32 = l0 as u32 * 4096 + l1 as u32 * 256 + l2 as u32 * 16
                            + l3 as u32;
                        if 0xDC00 <= lv && lv <= 0xDFFF {
                            paired = true;
                            low = lv;
                        }
                    }
                }
                if paired {
                    let comb: u32 = 0x10000 + (cp - 0xD800) * 0x400 + (low - 0xDC00);
                    match str_body(s, i + 12) {
                        Some((mut rest, j)) => {
                            let mut head = utf8_cp(comb);
                            head.append(&mut rest);
                            proof {
                                assert(head@ =~= sp_utf8_cp(comb as nat) + sp_str_body(
                                    s@,
                                    i + 12,
                                ).unwrap().0);
                            }
                            Some((head, j))
                        },
                        None => None,
                    }
                } else {
                    match str_body(s, i + 6) {
                        Some((mut rest, j)) => {
                            let mut head = utf8_cp(0xFFFD);
                            head.append(&mut rest);
                            proof {
                                assert(head@ =~= sp_utf8_cp(0xFFFD) + sp_str_body(
                                    s@,
                                    i + 6,
                                ).unwrap().0);
                            }
                            Some((head, j))
                        },
                        None => None,
                    }
                }
            } else if 0xDC00 <= cp && cp <= 0xDFFF {
                match str_body(s, i + 6) {
                    Some((mut rest, j)) => {
                        let mut head = utf8_cp(0xFFFD);
                        head.append(&mut rest);
                        proof {
                            assert(head@ =~= sp_utf8_cp(0xFFFD) + sp_str_body(s@, i + 6).unwrap().0);
                        }
                        Some((head, j))
                    },
                    None => None,
                }
            } else {
                match str_body(s, i + 6) {
                    Some((mut rest, j)) => {
                        let mut head = utf8_cp(cp);
                        head.append(&mut rest);
                        proof {
                            assert(head@ =~= sp_utf8_cp(cp as nat) + sp_str_body(
                                s@,
                                i + 6,
                            ).unwrap().0);
                        }
                        Some((head, j))
                    },
                    None => None,
                }
            }
        } else {
            None
        }
    } else if b < 0x20 {
        None
    } else {
        match str_body(s, i + 1) {
            Some((mut rest, j)) => {
                let mut head: Vec<u8> = Vec::new();
                head.push(b);
                head.append(&mut rest);
                proof {
                    assert(head@ =~= seq![b] + sp_str_body(s@, i + 1).unwrap().0);
                }
                Some((head, j))
            },
            None => None,
        }
    }
}

/// Parses a JSON string at `i` (at the opening quote).
pub fn json_string(s: &[u8], i: usize) -> (r: Option<(Vec<u8>, usize)>)
    requires
        i <= s@.len(),
    ensures
        match r {
            Some(p) => sp_string(s@, i as int) == Some((p.0@, p.1 as int)) && i < p.1 <= s@.len(),
            None => sp_string(s@, i as int).is_none(),
        },
{
    if i < s.len() && s[i] == 0x22 {
        str_body(s, i + 1)
    } else {
        None
    }
}

/// Powers of ten.
pub open spec fn p10(k: nat) -> nat
    decreases k,
{
    if k == 0 {
        1
    } else {
        10 * p10((k - 1) as nat)
    }
}

/// The first six fraction digits of `s[i..j]` scaled to microseconds;
/// further digits are truncated.
pub open spec fn sp_frac6(s: Seq<u8>, i: int, j: int) -> nat {
    let t = if j > i + 6 {
        i + 6
    } else {
        j
    };
    sp_digits_val(s, i, t) * p10((6 - (t - i)) as nat)
}

/// A non-negative JSON number at `i`, as integer microseconds, and the
/// position after it.  At most twelve integer digits are accepted, the
/// fraction is truncated to microseconds, and exponent notation is
/// rejected.
pub open spec fn sp_unum(s: Seq<u8>, i: int) -> Option<(int, int)> {
    let e1 = sp_digits_end(s, i);
    if e1 == i || e1 - i > 12 {
        None
    } else {
        let ip = sp_digits_val(s, i, e1);
        if e1 < s.len() && s[e1] == 0x2E {
            let fe = sp_digits_end(s, e1 + 1);
            if fe == e1 + 1 {
                None
            } else if fe < s.len() && (s[fe] == 0x65 || s[fe] == 0x45) {
                None
            } else {
                Some(((ip * 1000000 + sp_frac6(s, e1 + 1, fe)) as int, fe))
            }
        } else if e1 < s.len() && (s[e1] == 0x65 || s[e1] == 0x45) {
            None
        } else {
            Some(((ip * 1000000) as int, e1))
        }
    }
}

/// A JSON number at `i`, as integer microseconds.
pub open spec fn sp_number(s: Seq<u8>, i: int) -> Option<(int, int)> {
    if 0 <= i < s.len() && s[i] == 0x2D {
        match sp_unum(s, i + 1) {
            Some(r) => Some((-r.0, r.1)),
            None => None,
        }
    } else {
        sp_unum(s, i)
    }
}

/// Finds the end of the digit run from `i`.
fn digits_end(s: &[u8], i: usize) -> (r: usize)
    requires
        i <= s@.len(),
    ensures
        r == sp_digits_end(s@, i as int),
        i <= r <= s@.len(),
        forall|k: int| i <= k < r ==> is_digit(s@[k]),
{
    let n = s.len();
    let mut j = i;
    while j < n && 0x30 <= s[j] && s[j] <= 0x39
        invariant
            n == s@.len(),
            i <= j <= n,
            sp_digits_end(s@, i as int) == sp_digits_end(s@, j as int),
            forall|k: int| i <= k < j ==> is_digit(s@[k]),
        decreases n - j,
    {
        j = j + 1;
    }
    j
}

/// The value of the digit run `s[i..j]`, at most twelve digits.
fn digits_val(s: &[u8], i: usize, j: usize) -> (v: u64)
    requires
        i <= j <= s@.len(),
        j - i <= 12,
        forall|k: int| i <= k < j ==> is_digit(s@[k]),
    ensures
        v == sp_digits_val(s@, i as int, j as int),
        v < 1000000000000,
        v < p10((j - i) as nat),
{
    let mut v: u64 = 0;
    let mut k = i;
    while k < j
        invariant
            i <= k <= j <= s@.len(),
            j - i <= 12,
            forall|q: int| i <= q < j ==> is_digit(s@[q]),
            v == sp_digits_val(s@, i as int, k as int),
            v < p10((k - i) as nat),
            p10((k - i) as nat) <= 1000000000000,
        decreases j - k,
    {
        proof {
            assert(p10((k - i + 1) as nat) == 10 * p10((k - i) as nat));
            lemma_p10_le(((k - i) + 1) as nat, 12);
        }
        v = v * 10 + (s[k] - 0x30) as u64;
        k = k + 1;
    }
    v
}

/// `p10` is monotone, and `p10(12)` is a trillion.
proof fn lemma_p10_le(k: nat, m: nat)
    requires
        k <= m,
        m == 12,
    ensures
        p10(k) <= 1000000000000,
    decreases m - k,
{
    if k < m {
        lemma_p10_le((k + 1) as nat, m);
    } else {
        reveal_with_fuel(p10, 13);
        assert(p10(12) == 1000000000000);
    }
}

/// Parses a non-negative number at `i`.
fn unum(s: &[u8], i: usize) -> (r: Option<(i64, usize)>)
    requires
        i <= s@.len(),
    ensures
        match r {
            Some(p) => sp_unum(s@, i as int) == Some((p.0 as int, p.1 as int)) && i < p.1
                <= s@.len() && 0 <= p.0 <= 1000000000000000000,
            None => sp_unum(s@, i as int).is_none(),
        },
{
    let n = s.len();
    let e1 = digits_end(s, i);
    if e1 == i || e1 - i > 12 {
        return None;
    }
    let ip = digits_val(s, i, e1);
    if e1 < n && s[e1] == 0x2E {
        let fe = digits_end(s, e1 + 1);
        if fe == e1 + 1 {
            return None;
        }
        if fe < n && (s[fe] == 0x65 || s[fe] == 0x45) {
            return None;
        }
        let t = if fe - (e1 + 1) > 6 {
            e1 + 1 + 6
        } else {
            fe
        };
        let fd = digits_val(s, e1 + 1, t);
        let scale: u64 = pow10_small(6 - (t - (e1 + 1)) as u8);
        proof {
            lemma_p10_add((t - (e1 + 1)) as nat, (6 - (t - (e1 + 1))) as nat);
            reveal_with_fuel(p10, 7);
            assert(p10(6) == 1000000);
            assert(fd * scale < 1000000) by (nonlinear_arith)
                requires
                    fd < p10((t - (e1 + 1)) as nat),
                    scale == p10((6 - (t - (e1 + 1))) as nat),
                    p10((t - (e1 + 1)) as nat) * p10((6 - (t - (e1 + 1))) as nat) == p10(6),
                    p10(6) == 1000000,
            ;
        }
        let frac: u64 = fd * scale;
        Some((ip as i64 * 1000000 + frac as i64, fe))
    } else if e1 < n && (s[e1] == 0x65 || s[e1] == 0x45) {
        None
    } else {
        Some((ip as i64 * 1000000, e1))
    }
}

/// `p10(a) * p10(b) == p10(a + b)`.
proof fn lemma_p10_add(a: nat, b: nat)
    ensures
        p10(a) * p10(b) == p10((a + b) as nat),
    decreases a,
{
    if a == 0 {
        assert(p10(0) == 1);
    } else {
        lemma_p10_add((a - 1) as nat, b);
        assert(p10(a) == 10 * p10((a - 1) as nat));
        assert((10 * p10((a - 1) as nat)) * p10(b) == 10 * (p10((a - 1) as nat) * p10(b)))
            by (nonlinear_arith);
    }
}

/// A small power of ten.
fn pow10_small(k: u8) -> (v: u64)
    requires
        k <= 6,
    ensures
        v == p10(k as nat),
{
    proof {
        reveal_with_fuel(p10, 7);
        assert(p10(0) == 1 && p10(1) == 10 && p10(2) == 100 && p10(3) == 1000 && p10(4) == 10000
            && p10(5) == 100000 && p10(6) == 1000000);
    }
    if k == 0 {
        1
    } else if k == 1 {
        10
    } else if k == 2 {
        100
    } else if k == 3 {
        1000
    } else if k == 4 {
        10000
    } else if k == 5 {
        100000
    } else {
        1000000
    }
}

/// Parses a JSON number at `i` into integer microseconds.
pub fn json_number(s: &[u8], i: usize) -> (r: Option<(i64, usize)>)
    requires
        i <= s@.len(),
    ensures
        match r {
            Some(p) => sp_number(s@, i as int) == Some((p.0 as int, p.1 as int)) && i < p.1
                <= s@.len() && -1000000000000000000 <= p.0 <= 1000000000000000000,
            None => sp_number(s@, i as int).is_none(),
        },
{
    if i < s.len() && s[i] == 0x2D {
        match unum(s, i + 1) {
            Some((v, j)) => Some((-v, j)),
            None => None,
        }
    } else {
        unum(s, i)
    }
}

/// The end of a string being skipped (no escape validation), from the
/// position after the opening quote.
pub open spec fn sp_str_skip(s: Seq<u8>, i: int) -> Option<int>
    decreases s.len() - i,
{
    if i < 0 || i >= s.len() {
        None
    } else if s[i] == 0x22 {
        Some(i + 1)
    } else if s[i] == 0x5C {
        if i + 2 <= s.len() {
            sp_str_skip(s, i + 2)
        } else {
            None
        }
    } else {
        sp_str_skip(s, i + 1)
    }
}

/// A byte that can occur inside a number token.
pub open spec fn is_numbyte(b: u8) -> bool {
    is_digit(b) || b == 0x2D || b == 0x2B || b == 0x2E || b == 0x65 || b == 0x45
}

/// The end of the number-shaped token starting at `i`.
pub open spec fn sp_num_skip(s: Seq<u8>, i: int) -> int
    decreases s.len() - i,
{
    if 0 <= i < s.len() && is_numbyte(s[i]) {
        sp_num_skip(s, i + 1)
    } else {
        i
    }
}

/// Skips one JSON value of any shape, loosely: strings are scanned over
/// escapes, numbers as token runs, arrays and objects recursively.
pub open spec fn sp_skip_value(s: Seq<u8>, i: int, fuel: nat) -> Option<int>
    decreases fuel,
{
    if fuel == 0 {
        None
    } else {
        let j = sp_ws(s, i);
        if j < 0 || j >= s.len() {
            None
        } else if s[j] == 0x22 {
            sp_str_skip(s, j + 1)
        } else if s[j] == 0x6E || s[j] == 0x74 {
            if j + 4 <= s.len() {
                Some(j + 4)
            } else {
                None
            }
        } else if s[j] == 0x66 {
            if j + 5 <= s.len() {
                Some(j + 5)
            } else {
                None
            }
        } else if is_numbyte(s[j]) {
            Some(sp_num_skip(s, j + 1))
        } else if s[j] == 0x5B {
            sp_skip_arr(s, j + 1, (fuel - 1) as nat)
        } else if s[j] == 0x7B {
            sp_skip_obj(s, j + 1, (fuel - 1) as nat)
        } else {
            None
        }
    }
}

/// Skips array items until the closing bracket.
pub open spec fn sp_skip_arr(s: Seq<u8>, i: int, fuel: nat) -> Option<int>
    decreases fuel,
{
    if fuel == 0 {
        None
    } else {
        let j = sp_ws(s, i);
        if j < 0 || j >= s.len() {
            None
        } else if s[j] == 0x5D {
            Some(j + 1)
        } else {
            match sp_skip_value(s, j, (fuel - 1) as nat) {
                None => None,
                Some(k) => {
                    let k2 = sp_ws(s, k);
                    if k2 < s.len() && s[k2] == 0x2C {
                        sp_skip_arr(s, k2 + 1, (fuel - 1) as nat)
                    } else if k2 < s.len() && s[k2] == 0x5D {
                        Some(k2 + 1)
                    } else {
                        None
                    }
                },
            }
        }
    }
}

/// Skips object members until the closing brace.
pub open spec fn sp_skip_obj(s: Seq<u8>, i: int, fuel: nat) -> Option<int>
    decreases fuel,
{
    if fuel == 0 {
        None
    } else {
        let j = sp_ws(s, i);
        if j < 0 || j >= s.len() {
            None
        } else if s[j] == 0x7D {
            Some(j + 1)
        } else if s[j] == 0x22 {
            match sp_str_skip(s, j + 1) {
                None => None,
                Some(k) => {
                    let k2 = sp_ws(s, k);
                    if k2 < s.len() && s[k2] == 0x3A {
                        match sp_skip_value(s, k2 + 1, (fuel - 1) as nat) {
                            None => None,
                            Some(m) => {
                                let m2 = sp_ws(s, m);
                                if m2 < s.len() && s[m2] == 0x2C {
                                    sp_skip_obj(s, m2 + 1, (fuel - 1) as nat)
                                } else if m2 < s.len() && s[m2] == 0x7D {
                                    Some(m2 + 1)
                                } else {
                                    None
                                }
                            },
                        }
                    } else {
                        None
                    }
                },
            }
        } else {
            None
        }
    }
}

/// Skips a string body without validating escapes.
pub fn str_skip(s: &[u8], i: usize) -> (r: Option<usize>)
    requires
        i <= s@.len(),
    ensures
        match r {
            Some(k) => sp_str_skip(s@, i as int) == Some(k as int) && i < k <= s@.len(),
            None => sp_str_skip(s@, i as int).is_none(),
        },
    decreases s@.len() - i,
{
    let n = s.len();
    if i >= n {
        None
    } else if s[i] == 0x22 {
        Some(i + 1)
    } else if s[i] == 0x5C {
        if n - i >= 2 {
            str_skip(s, i + 2)
        } else {
            None
        }
    } else {
        str_skip(s, i + 1)
    }
}

/// Skips the number-shaped token starting at `i`.
pub fn num_skip(s: &[u8], i: usize) -> (r: usize)
    requires
        i <= s@.len(),
    ensures
        r == sp_num_skip(s@, i as int),
        i <= r <= s@.len(),
{
    let n = s.len();
    let mut j = i;
    while j < n && (0x30 <= s[j] && s[j] <= 0x39 || s[j] == 0x2D || s[j] == 0x2B || s[j] == 0x2E
        || s[j] == 0x65 || s[j] == 0x45)
        invariant
            n == s@.len(),
            i <= j <= n,
            sp_num_skip(s@, i as int) == sp_num_skip(s@, j as int),
        decreases n - j,
    {
        j = j + 1;
    }
    j
}

/// Skips one JSON value.
pub fn skip_value(s: &[u8], i: usize, fuel: u64) -> (r: Option<usize>)
    requires
        i <= s@.len(),
    ensures
        match r {
            Some(k) => sp_skip_value(s@, i as int, fuel as nat) == Some(k as int) && k <= s@.len(),
            None => sp_skip_value(s@, i as int, fuel as nat).is_none(),
        },
    decreases fuel,
{
    if fuel == 0 {
        return None;
    }
    let n = s.len();
    let j = skip_ws(s, i);
    if j >= n {
        None
    } else if s[j] == 0x22 {
        str_skip(s, j + 1)
    } else if s[j] == 0x6E || s[j] == 0x74 {
        if n - j >= 4 {
            Some(j + 4)
        } else {
            None
        }
    } else if s[j] == 0x66 {
        if n - j >= 5 {
            Some(j + 5)
        } else {
            None
        }
    } else if 0x30 <= s[j] && s[j] <= 0x39 || s[j] == 0x2D || s[j] == 0x2B || s[j] == 0x2E || s[j]
        == 0x65 || s[j] == 0x45 {
        Some(num_skip(s, j + 1))
    } else if s[j] == 0x5B {
        skip_arr(s, j + 1, fuel - 1)
    } else if s[j] == 0x7B {
        skip_obj(s, j + 1, fuel - 1)
    } else {
        None
    }
}

/// Skips array items until the closing bracket.
fn skip_arr(s: &[u8], i: usize, fuel: u64) -> (r: Option<usize>)
    requires
        i <= s@.len(),
    ensures
        match r {
            Some(k) => sp_skip_arr(s@, i as int, fuel as nat) == Some(k as int) && k <= s@.len(),
            None => sp_skip_arr(s@, i as int, fuel as nat).is_none(),
        },
    decreases fuel,
{
    if fuel == 0 {
        return None;
    }
    let n = s.len();
    let j = skip_ws(s, i);
    if j >= n {
        None
    } else if s[j] == 0x5D {
        Some(j + 1)
    } else {
        match skip_value(s, j, fuel - 1) {
            None => None,
            Some(k) => {
                let k2 = skip_ws(s, k);
                if k2 < n && s[k2] == 0x2C {
                    skip_arr(s, k2 + 1, fuel - 1)
                } else if k2 < n && s[k2] == 0x5D {
                    Some(k2 + 1)
                } else {
                    None
                }
            },
        }
    }
}

/// Skips object members until the closing brace.
fn skip_obj(s: &[u8], i: usize, fuel: u64) -> (r: Option<usize>)
    requires
        i <= s@.len(),
    ensures
        match r {
            Some(k) => sp_skip_obj(s@, i as int, fuel as nat) == Some(k as int) && k <= s@.len(),
            None => sp_skip_obj(s@, i as int, fuel as nat).is_none(),
        },
    decreases fuel,
{
    if fuel == 0 {
        return None;
    }
    let n = s.len();
    let j = skip_ws(s, i);
    if j >= n {
        None
    } else if s[j] == 0x7D {
        Some(j + 1)
    } else if s[j] == 0x22 {
        match str_skip(s, j + 1) {
            None => None,
            Some(k) => {
                let k2 = skip_ws(s, k);
                if k2 < n && s[k2] == 0x3A {
                    match skip_value(s, k2 + 1, fuel - 1) {
                        None => None,
                        Some(m) => {
                            let m2 = skip_ws(s, m);
                            if m2 < n && s[m2] == 0x2C {
                                skip_obj(s, m2 + 1, fuel - 1)
                            } else if m2 < n && s[m2] == 0x7D {
                                Some(m2 + 1)
                            } else {
                                None
                            }
                        },
                    }
                } else {
                    None
                }
            },
        }
    } else {
        None
    }
}

} // verus!
