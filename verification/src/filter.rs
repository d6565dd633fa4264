//! The event pre-filter: stripping ANSI sequences from event text and
//! recognising system output lines (OSC title writes, session footers, the
//! zsh empty-prompt marker) that playback drops.

use vstd::prelude::*;
use vstd::string::StringSliceAdditionalSpecFns;

verus! {

/// ASCII whitespace, as trimmed from both ends of a line.
pub open spec fn is_ws(b: u8) -> bool {
    b == 0x20 || (0x09 <= b && b <= 0x0D)
}

/// The first index at or after `i` holding a non-whitespace byte.
pub open spec fn first_nonws(s: Seq<u8>, i: int) -> int
    decreases s.len() - i,
{
    if i < 0 || i >= s.len() {
        s.len() as int
    } else if is_ws(s[i]) {
        first_nonws(s, i + 1)
    } else {
        i
    }
}

/// The end (exclusive) of the last non-whitespace byte before `i`.
pub open spec fn end_nonws(s: Seq<u8>, i: int) -> int
    decreases i,
{
    if i <= 0 || i > s.len() {
        0
    } else if is_ws(s[i - 1]) {
        end_nonws(s, i - 1)
    } else {
        i
    }
}

/// A byte string with ASCII whitespace removed from both ends.
pub open spec fn spec_trim(s: Seq<u8>) -> Seq<u8> {
    let lo = first_nonws(s, 0);
    let hi = end_nonws(s, s.len() as int);
    if lo >= hi {
        Seq::empty()
    } else {
        s.subrange(lo, hi)
    }
}

/// The first index past the final byte (0x40..0x7E) of a CSI sequence
/// scanned from `j`, or the end of the input.
pub open spec fn csi_end(s: Seq<u8>, j: int) -> int
    decreases s.len() - j,
{
    if j < 0 || j >= s.len() {
        s.len() as int
    } else if 0x40 <= s[j] && s[j] <= 0x7E {
        j + 1
    } else {
        csi_end(s, j + 1)
    }
}

/// The first index past the terminator (BEL, or ESC `\`) of an OSC
/// sequence scanned from `j`, or the end of the input.
pub open spec fn osc_end(s: Seq<u8>, j: int) -> int
    decreases s.len() - j,
{
    if j < 0 || j >= s.len() {
        s.len() as int
    } else if s[j] == 0x07 {
        j + 1
    } else if s[j] == 0x1B && j + 1 < s.len() && s[j + 1] == 0x5C {
        j + 2
    } else {
        osc_end(s, j + 1)
    }
}

/// The visible bytes of a line from index `i` on: CSI and OSC sequences
/// are skipped whole, other escapes drop the ESC and its follower, and
/// control bytes vanish; everything from 0x20 up is kept.
pub open spec fn spec_strip_ansi(s: Seq<u8>, i: int) -> Seq<u8>
    decreases s.len() - i,
{
    if i < 0 || i >= s.len() {
        Seq::empty()
    } else {
        let b = s[i];
        if b == 0x1B {
            if i + 1 < s.len() {
                let b1 = s[i + 1];
                if b1 == 0x5B {
                    let e = csi_end(s, i + 2);
                    let j = if i + 2 <= e && e <= s.len() {
                        e
                    } else {
                        i + 2
                    };
                    spec_strip_ansi(s, j)
                } else if b1 == 0x5D {
                    let e = osc_end(s, i + 2);
                    let j = if i + 2 <= e && e <= s.len() {
                        e
                    } else {
                        i + 2
                    };
                    spec_strip_ansi(s, j)
                } else {
                    spec_strip_ansi(s, i + 2)
                }
            } else {
                Seq::empty()
            }
        } else if b < 0x20 {
            spec_strip_ansi(s, i + 1)
        } else {
            seq![b] + spec_strip_ansi(s, i + 1)
        }
    }
}

/// Strips ANSI escape sequences and control bytes from a line.
pub fn strip_ansi(s: &[u8]) -> (out: Vec<u8>)
    ensures
        out@ == spec_strip_ansi(s@, 0),
{
    let n = s.len();
    let mut out: Vec<u8> = Vec::new();
    let mut i: usize = 0;
    while i < n
        invariant
            n == s@.len(),
            i <= n,
            out@ + spec_strip_ansi(s@, i as int) == spec_strip_ansi(s@, 0),
        decreases n - i,
    {
        let ghost pre = out@;
        let b = s[i];
        if b == 0x1B {
            if i + 1 < n {
                let b1 = s[i + 1];
                if b1 == 0x5B {
                    let ghost start = i + 2;
                    let mut j = i + 2;
                    while j < n && !(0x40 <= s[j] && s[j] <= 0x7E)
                        invariant
                            n == s@.len(),
                            start <= j <= n,
                            csi_end(s@, start as int) == csi_end(s@, j as int),
                        decreases n - j,
                    {
                        j = j + 1;
                    }
                    if j < n {
                        j = j + 1;
                    }
                    proof {
                        assert(csi_end(s@, start as int) == j as int);
                    }
                    i = j;
                } else if b1 == 0x5D {
                    let ghost start = i + 2;
                    let mut j = i + 2;
                    let mut done = false;
                    while !done && j < n
                        invariant
                            n == s@.len(),
                            start <= j <= n,
                            !done ==> osc_end(s@, start as int) == osc_end(s@, j as int),
                            done ==> osc_end(s@, start as int) == j as int,
                        decreases n - j + if done {
                            0int
                        } else {
                            1int
                        },
                    {
                        if s[j] == 0x07 {
                            j = j + 1;
                            done = true;
                        } else if s[j] == 0x1B && j + 1 < n && s[j + 1] == 0x5C {
                            j = j + 2;
                            done = true;
                        } else {
                            j = j + 1;
                        }
                    }
                    proof {
                        assert(osc_end(s@, start as int) == j as int);
                    }
                    i = j;
                } else {
                    i = i + 2;
                }
            } else {
                i = i + 1;
                proof {
                    assert(spec_strip_ansi(s@, i as int - 1) =~= Seq::<u8>::empty());
                }
            }
        } else if b == 0x0D || b == 0x0A || b == 0x09 || b < 0x20 {
            i = i + 1;
        } else {
            out.push(b);
            i = i + 1;
        }
        proof {
            assert(out@ + spec_strip_ansi(s@, i as int) =~= spec_strip_ansi(s@, 0));
        }
    }
    proof {
        assert(out@ =~= spec_strip_ansi(s@, 0));
    }
    out
}

/// True when the bytes of `s`, ASCII-trimmed, equal the bytes of `t`.
pub fn trimmed_eq(s: &[u8], t: &str) -> (b: bool)
    ensures
        b == (spec_trim(s@) == lit_bytes(t)),
{
    let n = s.len();
    let mut lo: usize = 0;
    while lo < n && (s[lo] == 0x20 || (0x09 <= s[lo] && s[lo] <= 0x0D))
        invariant
            n == s@.len(),
            lo <= n,
            first_nonws(s@, 0) == first_nonws(s@, lo as int),
        decreases n - lo,
    {
        lo = lo + 1;
    }
    proof {
        assert(first_nonws(s@, 0) == lo as int);
    }
    let mut hi: usize = n;
    while hi > lo && (s[hi - 1] == 0x20 || (0x09 <= s[hi - 1] && s[hi - 1] <= 0x0D))
        invariant
            n == s@.len(),
            lo <= hi <= n,
            end_nonws(s@, n as int) == end_nonws(s@, hi as int),
        decreases hi,
    {
        hi = hi - 1;
    }
    proof {
        if hi > lo {
            assert(end_nonws(s@, hi as int) == hi as int);
        } else {
            lemma_end_nonws_le(s@, hi as int);
        }
    }
    let tb = t.as_bytes();
    let m = tb.len();
    if hi <= lo {
        proof {
            assert(spec_trim(s@) =~= Seq::<u8>::empty());
        }
        if m == 0 {
            proof {
                assert(lit_bytes(t) =~= Seq::<u8>::empty());
            }
            return true;
        }
        return false;
    }
    if hi - lo != m {
        return false;
    }
    for k in 0..m
        invariant
            n == s@.len(),
            m == tb@.len(),
            tb@ == t.spec_bytes(),
            lo + m == hi,
            hi <= n,
            spec_trim(s@) == s@.subrange(lo as int, hi as int),
            forall|q: int| 0 <= q < k ==> s@[lo + q] == tb@[q],
    {
        if s[lo + k] != tb[k] {
            proof {
                assert(spec_trim(s@)[k as int] == s@[lo + k]);
            }
            return false;
        }
    }
    proof {
        assert(spec_trim(s@) =~= lit_bytes(t));
    }
    true
}

/// The UTF-8 bytes of a string.
pub open spec fn lit_bytes(t: &str) -> Seq<u8> {
    t.spec_bytes()
}

/// The trimmed end never lies past its starting point.
pub proof fn lemma_end_nonws_le(s: Seq<u8>, i: int)
    ensures
        end_nonws(s, i) <= i || i < 0,
    decreases i,
{
    if 0 < i <= s.len() && is_ws(s[i - 1]) {
        lemma_end_nonws_le(s, i - 1);
    }
}

/// True when the line is system output that the pre-filter drops: any OSC
/// sequence at the start, the session footer lines, or (for zsh) a line
/// whose ANSI-stripped text is exactly `%`.
pub fn should_strip_system_output(s: &[u8], is_zsh: bool) -> (b: bool)
    ensures
        b == spec_should_strip(s@, is_zsh),
{
    if s.len() >= 2 && s[0] == 0x1B && s[1] == 0x5D {
        return true;
    }
    if trimmed_eq(s, "Saving session...") {
        return true;
    }
    if trimmed_eq(s, "completed.") {
        return true;
    }
    if is_zsh {
        let visible = strip_ansi(s);
        if trimmed_eq(visible.as_slice(), "%") {
            return true;
        }
    }
    false
}

/// What the pre-filter drops.
pub open spec fn spec_should_strip(s: Seq<u8>, is_zsh: bool) -> bool {
    ||| (s.len() >= 2 && s[0] == 0x1B && s[1] == 0x5D)
    ||| spec_trim(s) == lit_bytes("Saving session...")
    ||| spec_trim(s) == lit_bytes("completed.")
    ||| (is_zsh && spec_trim(spec_strip_ansi(s, 0)) == lit_bytes("%"))
}

} // verus!
