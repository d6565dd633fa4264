//! The driver: parses a cast, applies the pre-filter and the timing
//! model, and renders the SVG document.

use vstd::prelude::*;

use crate::cast::{sp_events_from, sp_first_nonempty, sp_header, sp_lines_from, HeaderV};

verus! {

/// True when `needle` occurs as a contiguous run inside `hay`.
pub open spec fn sp_contains(hay: Seq<u8>, needle: Seq<u8>) -> bool {
    exists|k: int|
        0 <= k && k + needle.len() <= hay.len() && #[trigger] hay.subrange(
            k,
            k + needle.len() as int,
        ) =~= needle
}

/// Substring search.
fn bytes_contains(hay: &[u8], needle: &[u8]) -> (b: bool)
    ensures
        b == sp_contains(hay@, needle@),
{
    let n = hay.len();
    let m = needle.len();
    if m > n {
        proof {
            assert(!sp_contains(hay@, needle@));
        }
        return false;
    }
    let mut k: usize = 0;
    while k <= n - m
        invariant
            n == hay@.len(),
            m == needle@.len(),
            m <= n,
            k <= n - m + 1,
            forall|q: int|
                0 <= q < k ==> #[trigger] hay@.subrange(q, q + needle@.len() as int) !~= needle@,
        decreases n - m - k + 1,
    {
        let mut ok = true;
        let mut j: usize = 0;
        while j < m && ok
            invariant
                n == hay@.len(),
                m == needle@.len(),
                k + m <= n,
                j <= m,
                ok ==> forall|q: int| 0 <= q < j ==> hay@[k + q] == needle@[q],
                !ok ==> hay@.subrange(k as int, k + m) !~= needle@,
            decreases m - j + if ok {
                1int
            } else {
                0int
            },
        {
            if hay[k + j] != needle[j] {
                ok = false;
                proof {
                    assert(hay@.subrange(k as int, k + m)[j as int] == hay@[k + j]);
                }
            } else {
                j = j + 1;
            }
        }
        if ok {
            proof {
                assert(hay@.subrange(k as int, k + m) =~= needle@);
            }
            return true;
        }
        k = k + 1;
    }
    proof {
        assert(!sp_contains(hay@, needle@));
    }
    false
}

/// Whether the recording shell is zsh: the header `env` has a `SHELL`
/// entry whose value contains `zsh`.
pub open spec fn sp_is_zsh(hv: HeaderV) -> bool {
    match hv.env {
        Some(pairs) => exists|i: int|
            0 <= i < pairs.len() && (#[trigger] pairs[i]).0 == crate::cast::kb("SHELL")
                && sp_contains(pairs[i].1, crate::cast::kb("zsh")),
        None => false,
    }
}

/// Detects a zsh session from the header environment.
pub fn is_zsh(header: &crate::cast::Header) -> (b: bool)
    ensures
        b == sp_is_zsh(header@),
{
    match &header.env {
        Some(pairs) => {
            let n = pairs.len();
            for i in 0..n
                invariant
                    n == pairs@.len(),
                    header.env matches Some(p) && p == pairs,
                    forall|q: int|
                        0 <= q < i ==> !((#[trigger] pairs@[q].0@) == crate::cast::kb("SHELL")
                            && sp_contains(pairs@[q].1@, crate::cast::kb("zsh"))),
            {
                let key_ok = crate::cast::slice_eq_str(pairs[i].0.as_slice(), "SHELL");
                if key_ok {
                    if bytes_contains(pairs[i].1.as_slice(), "zsh".as_bytes()) {
                        proof {
                            let pv = header@.env.unwrap();
                            assert(pv[i as int] == (pairs@[i as int].0@, pairs@[i as int].1@));
                        }
                        return true;
                    }
                }
            }
            proof {
                let pv = header@.env.unwrap();
                assert forall|q: int|
                    0 <= q < pv.len() implies !((#[trigger] pv[q]).0 == crate::cast::kb("SHELL")
                    && sp_contains(pv[q].1, crate::cast::kb("zsh"))) by {
                    assert(pv[q] == (pairs@[q].0@, pairs@[q].1@));
                }
            }
            false
        },
        None => false,
    }
}

/// The header of a cast input, when the first non-empty line parses.
pub open spec fn sp_cast_header(input: Seq<u8>) -> Option<HeaderV> {
    let lines = sp_lines_from(input, 0);
    let k = sp_first_nonempty(lines, 0);
    if k < lines.len() {
        sp_header(lines[k])
    } else {
        None
    }
}

/// The events of a cast input.
pub open spec fn sp_cast_events(input: Seq<u8>) -> Seq<crate::cast::EventV> {
    let lines = sp_lines_from(input, 0);
    sp_events_from(lines, sp_first_nonempty(lines, 0) + 1)
}

} // verus!
