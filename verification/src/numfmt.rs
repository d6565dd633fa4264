//! Verified formatting of integers into ASCII byte sequences: plain
//! decimals, fixed-point hundredths, microsecond durations and hex colors.

use vstd::prelude::*;

use crate::color::Rgb;

verus! {

/// Decimal digits of `n`, most significant first.
pub open spec fn spec_dec(n: nat) -> Seq<u8>
    decreases n,
{
    if n < 10 {
        seq![(0x30 + n) as u8]
    } else {
        spec_dec(n / 10) + seq![(0x30 + n % 10) as u8]
    }
}

/// Appends the decimal digits of `n`.
pub fn push_dec(out: &mut Vec<u8>, n: u64)
    ensures
        final(out)@ == old(out)@ + spec_dec(n as nat),
    decreases n,
{
    if n < 10 {
        out.push(0x30 + n as u8);
        proof {
            assert(out@ =~= old(out)@ + spec_dec(n as nat));
        }
    } else {
        push_dec(out, n / 10);
        out.push(0x30 + (n % 10) as u8);
        proof {
            assert(out@ =~= old(out)@ + spec_dec(n as nat));
        }
    }
}

/// Exactly `k` decimal digits of `n`, zero-padded, most significant first.
pub open spec fn spec_dec_fixed(n: nat, k: nat) -> Seq<u8>
    decreases k,
{
    if k == 0 {
        Seq::empty()
    } else {
        spec_dec_fixed(n / 10, (k - 1) as nat) + seq![(0x30 + n % 10) as u8]
    }
}

/// Appends exactly `k` zero-padded decimal digits of `n`.
pub fn push_dec_fixed(out: &mut Vec<u8>, n: u64, k: u8)
    ensures
        final(out)@ == old(out)@ + spec_dec_fixed(n as nat, k as nat),
    decreases k,
{
    if k == 0 {
        proof {
            assert(out@ =~= old(out)@ + spec_dec_fixed(n as nat, 0));
        }
    } else {
        push_dec_fixed(out, n / 10, k - 1);
        out.push(0x30 + (n % 10) as u8);
        proof {
            assert(out@ =~= old(out)@ + spec_dec_fixed(n as nat, k as nat));
        }
    }
}

/// A value in hundredths rendered as a decimal with up to two fraction
/// digits, trailing zeros dropped: 1960 -> "19.6", 2100 -> "21",
/// 1234 -> "12.34".
pub open spec fn spec_centi(n: nat) -> Seq<u8> {
    let ip = n / 100;
    let fr = n % 100;
    if fr == 0 {
        spec_dec(ip)
    } else if fr % 10 == 0 {
        spec_dec(ip) + seq![0x2Eu8] + seq![(0x30 + fr / 10) as u8]
    } else {
        spec_dec(ip) + seq![0x2Eu8] + spec_dec_fixed(fr, 2)
    }
}

/// Appends a value in hundredths as a decimal.
pub fn push_centi(out: &mut Vec<u8>, n: u64)
    ensures
        final(out)@ == old(out)@ + spec_centi(n as nat),
{
    let ip = n / 100;
    let fr = n % 100;
    push_dec(out, ip);
    if fr == 0 {
    } else if fr % 10 == 0 {
        out.push(0x2E);
        out.push(0x30 + (fr / 10) as u8);
    } else {
        out.push(0x2E);
        push_dec_fixed(out, fr, 2);
    }
    proof {
        assert(out@ =~= old(out)@ + spec_centi(n as nat));
    }
}

/// A duration in microseconds rendered as seconds with six fraction
/// digits: 1500000 -> "1.500000".
pub open spec fn spec_micros(us: nat) -> Seq<u8> {
    spec_dec(us / 1000000) + seq![0x2Eu8] + spec_dec_fixed(us % 1000000, 6)
}

/// Appends a duration in microseconds as seconds with six decimals.
pub fn push_micros(out: &mut Vec<u8>, us: u64)
    ensures
        final(out)@ == old(out)@ + spec_micros(us as nat),
{
    push_dec(out, us / 1000000);
    out.push(0x2E);
    push_dec_fixed(out, us % 1000000, 6);
    proof {
        assert(out@ =~= old(out)@ + spec_micros(us as nat));
    }
}

/// One lowercase hex digit.
pub open spec fn spec_hex_digit(d: nat) -> u8 {
    if d < 10 {
        (0x30 + d) as u8
    } else {
        (0x57 + d) as u8
    }
}

/// A color as `#rrggbb`, lowercase.
pub open spec fn spec_hex_color(c: Rgb) -> Seq<u8> {
    seq![
        0x23u8,
        spec_hex_digit((c.r / 16) as nat),
        spec_hex_digit((c.r % 16) as nat),
        spec_hex_digit((c.g / 16) as nat),
        spec_hex_digit((c.g % 16) as nat),
        spec_hex_digit((c.b / 16) as nat),
        spec_hex_digit((c.b % 16) as nat),
    ]
}

fn hex_digit(d: u8) -> (b: u8)
    requires
        d < 16,
    ensures
        b == spec_hex_digit(d as nat),
{
    if d < 10 {
        0x30 + d
    } else {
        0x57 + d
    }
}

/// Appends `#rrggbb` for a color.
pub fn push_hex_color(out: &mut Vec<u8>, c: Rgb)
    ensures
        final(out)@ == old(out)@ + spec_hex_color(c),
{
    out.push(0x23);
    out.push(hex_digit(c.r / 16));
    out.push(hex_digit(c.r % 16));
    out.push(hex_digit(c.g / 16));
    out.push(hex_digit(c.g % 16));
    out.push(hex_digit(c.b / 16));
    out.push(hex_digit(c.b % 16));
    proof {
        assert(out@ =~= old(out)@ + spec_hex_color(c));
    }
}

/// The UTF-8 encoding of a character, by code point range.
pub open spec fn spec_utf8_char(c: char) -> Seq<u8> {
    let v = c as u32;
    if v < 0x80 {
        seq![v as u8]
    } else if v < 0x800 {
        seq![(0xC0 + v / 64) as u8, (0x80 + v % 64) as u8]
    } else if v < 0x10000 {
        seq![(0xE0 + v / 4096) as u8, (0x80 + (v / 64) % 64) as u8, (0x80 + v % 64) as u8]
    } else {
        seq![
            (0xF0 + v / 0x40000) as u8,
            (0x80 + (v / 4096) % 64) as u8,
            (0x80 + (v / 64) % 64) as u8,
            (0x80 + v % 64) as u8,
        ]
    }
}

/// Appends the UTF-8 bytes of `c`.
pub fn push_utf8_char(out: &mut Vec<u8>, c: char)
    ensures
        final(out)@ == old(out)@ + spec_utf8_char(c),
{
    let v = c as u32;
    proof {
        vstd::utf8::char_is_scalar(c);
    }
    if v < 0x80 {
        out.push(v as u8);
    } else if v < 0x800 {
        out.push((0xC0 + v / 64) as u8);
        out.push((0x80 + v % 64) as u8);
    } else if v < 0x10000 {
        out.push((0xE0 + v / 4096) as u8);
        out.push((0x80 + (v / 64) % 64) as u8);
        out.push((0x80 + v % 64) as u8);
    } else {
        out.push((0xF0 + v / 0x40000) as u8);
        out.push((0x80 + (v / 4096) % 64) as u8);
        out.push((0x80 + (v / 64) % 64) as u8);
        out.push((0x80 + v % 64) as u8);
    }
    proof {
        assert(out@ =~= old(out)@ + spec_utf8_char(c));
    }
}

} // verus!
