//! The asciicast v2 reader: a JSON header line followed by
//! newline-delimited JSON event triples `[time, tag, data]`.  Malformed
//! event lines are skipped; a malformed header is fatal.

use vstd::prelude::*;
use vstd::string::StringSliceAdditionalSpecFns;

use crate::color::Rgb;
use crate::filter::spec_trim;
use crate::json::{
    is_jws, json_number, json_string, skip_value, skip_ws, sp_number, sp_skip_value, sp_string,
    sp_ws,
};
use crate::theme::Theme;

verus! {

/// The kind of an event: terminal output, user input, or a resize.
#[derive(Clone, Copy, Debug, PartialEq, Eq, Structural)]
pub enum EventType {
    Output,
    Input,
    Resize,
}

/// One event: a time in microseconds since the start, a kind, and the
/// payload bytes.
#[derive(Debug)]
pub struct Event {
    pub time_us: i64,
    pub event_type: EventType,
    pub data: Vec<u8>,
}

/// The mathematical image of an event.
#[verifier::ext_equal]
pub struct EventV {
    pub time_us: int,
    pub event_type: EventType,
    pub data: Seq<u8>,
}

impl View for Event {
    type V = EventV;

    open spec fn view(&self) -> EventV {
        EventV { time_us: self.time_us as int, event_type: self.event_type, data: self.data@ }
    }
}

/// The cast header.  Times are microseconds; `env` holds the raw key/value
/// pairs; `theme` is the embedded palette when present.
#[derive(Debug)]
pub struct Header {
    pub version: u32,
    pub width: u32,
    pub height: u32,
    pub timestamp_us: Option<i64>,
    pub duration_us: Option<i64>,
    pub idle_time_limit_us: Option<i64>,
    pub command: Option<Vec<u8>>,
    pub title: Option<Vec<u8>>,
    pub env: Option<Vec<(Vec<u8>, Vec<u8>)>>,
    pub theme: Option<Theme>,
}

/// The mathematical image of a header.
#[verifier::ext_equal]
pub struct HeaderV {
    pub version: int,
    pub width: int,
    pub height: int,
    pub timestamp_us: Option<int>,
    pub duration_us: Option<int>,
    pub idle_time_limit_us: Option<int>,
    pub command: Option<Seq<u8>>,
    pub title: Option<Seq<u8>>,
    pub env: Option<Seq<(Seq<u8>, Seq<u8>)>>,
    pub theme: Option<(Rgb, Rgb, Seq<Rgb>)>,
}

impl View for Header {
    type V = HeaderV;

    open spec fn view(&self) -> HeaderV {
        HeaderV {
            version: self.version as int,
            width: self.width as int,
            height: self.height as int,
            timestamp_us: match self.timestamp_us {
                Some(v) => Some(v as int),
                None => None,
            },
            duration_us: match self.duration_us {
                Some(v) => Some(v as int),
                None => None,
            },
            idle_time_limit_us: match self.idle_time_limit_us {
                Some(v) => Some(v as int),
                None => None,
            },
            command: match &self.command {
                Some(v) => Some(v@),
                None => None,
            },
            title: match &self.title {
                Some(v) => Some(v@),
                None => None,
            },
            env: match &self.env {
                Some(v) => Some(Seq::new(v@.len(), |i: int| (v@[i].0@, v@[i].1@))),
                None => None,
            },
            theme: match &self.theme {
                Some(t) => Some((t.bg, t.fg, t.palette@)),
                None => None,
            },
        }
    }
}

/// Errors of the cast reader: an input without any non-empty line, a
/// header line that is not a well-formed header object, and a header whose
/// version is not 2.
#[derive(Clone, Copy, Debug, PartialEq, Eq, Structural)]
pub enum CastError {
    Empty,
    Header,
    Version(u32),
    Dimensions,
}

impl CastError {
    /// A short description of the error.
    pub fn describe(&self) -> (m: &'static str)
        ensures
            m@ == match self {
                CastError::Empty => "empty cast file"@,
                CastError::Header => "failed to parse header JSON"@,
                CastError::Version(_) => "unsupported asciicast version: only version 2 is supported"@,
                CastError::Dimensions => "terminal dimensions out of supported range"@,
            },
    {
        match self {
            CastError::Empty => "empty cast file",
            CastError::Header => "failed to parse header JSON",
            CastError::Version(_) => "unsupported asciicast version: only version 2 is supported",
            CastError::Dimensions => "terminal dimensions out of supported range",
        }
    }
}

/// The first newline at or after `i`, or the end of the input.
pub open spec fn sp_nl(s: Seq<u8>, i: int) -> int
    decreases s.len() - i,
{
    if 0 <= i < s.len() && s[i] != 0x0A {
        sp_nl(s, i + 1)
    } else {
        i
    }
}

/// The lines of the input from `i` on, without their newlines.
pub open spec fn sp_lines_from(s: Seq<u8>, i: int) -> Seq<Seq<u8>>
    decreases s.len() - i,
{
    if i < 0 || i >= s.len() {
        Seq::empty()
    } else {
        let e = sp_nl(s, i);
        let k = if i <= e && e <= s.len() {
            e
        } else {
            s.len() as int
        };
        if k >= s.len() {
            seq![s.subrange(i, s.len() as int)]
        } else {
            seq![s.subrange(i, k)] + sp_lines_from(s, k + 1)
        }
    }
}

/// The tag-to-kind mapping: `"o"` is output, `"i"` input, `"r"` resize,
/// and any unknown tag is coerced to output.
pub open spec fn sp_event_type(tag: Seq<u8>) -> EventType {
    if tag =~= seq![0x69u8] {
        EventType::Input
    } else if tag =~= seq![0x72u8] {
        EventType::Resize
    } else {
        EventType::Output
    }
}

/// Splits the input into lines at `0x0A`.
pub fn split_lines(s: &[u8]) -> (lines: Vec<Vec<u8>>)
    ensures
        Seq::new(lines@.len(), |i: int| lines@[i]@) =~~= sp_lines_from(s@, 0),
{
    let n = s.len();
    let mut lines: Vec<Vec<u8>> = Vec::new();
    let mut i: usize = 0;
    while i < n
        invariant
            n == s@.len(),
            i <= n,
            Seq::new(lines@.len(), |q: int| lines@[q]@) + sp_lines_from(s@, i as int)
                =~~= sp_lines_from(s@, 0),
        decreases n - i,
    {
        let ghost pre = Seq::new(lines@.len(), |q: int| lines@[q]@);
        let ghost i0 = i as int;
        let mut k = i;
        while k < n && s[k] != 0x0A
            invariant
                n == s@.len(),
                i <= k <= n,
                sp_nl(s@, i as int) == sp_nl(s@, k as int),
            decreases n - k,
        {
            k = k + 1;
        }
        proof {
            assert(sp_nl(s@, k as int) == k as int);
        }
        let mut line: Vec<u8> = Vec::new();
        let mut q = i;
        while q < k
            invariant
                n == s@.len(),
                i <= q <= k <= n,
                line@ =~= s@.subrange(i as int, q as int),
            decreases k - q,
        {
            line.push(s[q]);
            proof {
                assert(line@ =~= s@.subrange(i as int, q as int + 1));
            }
            q = q + 1;
        }
        lines.push(line);
        i = if k < n {
            k + 1
        } else {
            n
        };
        proof {
            assert(Seq::new(lines@.len(), |q2: int| lines@[q2]@) =~~= pre + seq![
                s@.subrange(i0, k as int),
            ]);
            assert(Seq::new(lines@.len(), |q2: int| lines@[q2]@) + sp_lines_from(s@, i as int)
                =~~= sp_lines_from(s@, 0));
        }
    }
    proof {
        assert(Seq::new(lines@.len(), |q: int| lines@[q]@) =~~= sp_lines_from(s@, 0));
    }
    lines
}

/// The bytes of a string literal.
pub open spec fn kb(t: &str) -> Seq<u8> {
    t.spec_bytes()
}

/// True when `a` equals the bytes of `t`.
pub fn slice_eq_str(a: &[u8], t: &str) -> (b: bool)
    ensures
        b == (a@ == kb(t)),
{
    let tb = t.as_bytes();
    let n = a.len();
    if n != tb.len() {
        return false;
    }
    for i in 0..n
        invariant
            n == a@.len(),
            n == tb@.len(),
            tb@ == t.spec_bytes(),
            forall|q: int| 0 <= q < i ==> a@[q] == tb@[q],
    {
        if a[i] != tb[i] {
            return false;
        }
    }
    proof {
        assert(a@ =~= kb(t));
    }
    true
}

/// The elements of an event array past the third: skipped values until the
/// closing bracket.
pub open spec fn sp_event_rest(s: Seq<u8>, i: int, fuel: nat) -> Option<int>
    decreases fuel,
{
    if fuel == 0 {
        None
    } else {
        let j = sp_ws(s, i);
        if j < 0 || j >= s.len() {
            None
        } else if s[j] == 0x5D {
            Some(j + 1)
        } else if s[j] == 0x2C {
            match sp_skip_value(s, j + 1, (fuel - 1) as nat) {
                None => None,
                Some(k) => sp_event_rest(s, k, (fuel - 1) as nat),
            }
        } else {
            None
        }
    }
}

/// An event line: `[time, "tag", "data", ...]` with nothing but whitespace
/// after the closing bracket.  Yields the time in microseconds, the tag
/// and the payload bytes.
pub open spec fn sp_event(s: Seq<u8>) -> Option<(int, Seq<u8>, Seq<u8>)> {
    let i = sp_ws(s, 0);
    if 0 <= i < s.len() && s[i] == 0x5B {
        match sp_number(s, sp_ws(s, i + 1)) {
            None => None,
            Some((t, j)) => {
                let j2 = sp_ws(s, j);
                if j2 < s.len() && s[j2] == 0x2C {
                    match sp_string(s, sp_ws(s, j2 + 1)) {
                        None => None,
                        Some((tag, k)) => {
                            let k2 = sp_ws(s, k);
                            if k2 < s.len() && s[k2] == 0x2C {
                                match sp_string(s, sp_ws(s, k2 + 1)) {
                                    None => None,
                                    Some((data, m)) => {
                                        match sp_event_rest(s, m, s.len() as nat) {
                                            None => None,
                                            Some(e) => {
                                                if sp_ws(s, e) == s.len() {
                                                    Some((t, tag, data))
                                                } else {
                                                    None
                                                }
                                            },
                                        }
                                    },
                                }
                            } else {
                                None
                            }
                        },
                    }
                } else {
                    None
                }
            },
        }
    } else {
        None
    }
}

/// Consumes skipped trailing array elements.
fn event_rest(s: &[u8], i: usize, fuel: u64) -> (r: Option<usize>)
    requires
        i <= s@.len(),
    ensures
        match r {
            Some(k) => sp_event_rest(s@, i as int, fuel as nat) == Some(k as int) && k <= s@.len(),
            None => sp_event_rest(s@, i as int, fuel as nat).is_none(),
        },
    decreases fuel,
{
    if fuel == 0 {
        return None;
    }
    let n = s.len();
    let j = skip_ws(s, i);
    if j >= n {
        None
    } else if s[j] == 0x5D {
        Some(j + 1)
    } else if s[j] == 0x2C {
        match skip_value(s, j + 1, fuel - 1) {
            None => None,
            Some(k) => event_rest(s, k, fuel - 1),
        }
    } else {
        None
    }
}

/// Parses one event line.  Unknown tags are coerced to output.
pub fn parse_event(line: &[u8]) -> (r: Option<Event>)
    ensures
        match r {
            Some(ev) => {
                &&& sp_event(line@) matches Some(p)
                &&& ev@.time_us == p.0
                &&& ev@.event_type == sp_event_type(p.1)
                &&& ev@.data == p.2
                &&& -1000000000000000000 <= ev.time_us <= 1000000000000000000
            },
            None => sp_event(line@).is_none(),
        },
{
    let n = line.len();
    let i = skip_ws(line, 0);
    if !(i < n && line[i] == 0x5B) {
        return None;
    }
    let w1 = skip_ws(line, i + 1);
    let (t, j) = match json_number(line, w1) {
        Some(p) => p,
        None => {
            return None;
        },
    };
    let j2 = skip_ws(line, j);
    if !(j2 < n && line[j2] == 0x2C) {
        return None;
    }
    let w2 = skip_ws(line, j2 + 1);
    let (tag, k) = match json_string(line, w2) {
        Some(p) => p,
        None => {
            return None;
        },
    };
    let k2 = skip_ws(line, k);
    if !(k2 < n && line[k2] == 0x2C) {
        return None;
    }
    let w3 = skip_ws(line, k2 + 1);
    let (data, m) = match json_string(line, w3) {
        Some(p) => p,
        None => {
            return None;
        },
    };
    let e = match event_rest(line, m, n as u64) {
        Some(e) => e,
        None => {
            return None;
        },
    };
    if skip_ws(line, e) != n {
        return None;
    }
    let event_type = if tag.len() == 1 && tag[0] == 0x69 {
        EventType::Input
    } else if tag.len() == 1 && tag[0] == 0x72 {
        EventType::Resize
    } else {
        EventType::Output
    };
    proof {
        if tag@ =~= seq![0x69u8] {
            assert(tag@.len() == 1 && tag@[0] == 0x69);
        }
        if tag@ =~= seq![0x72u8] {
            assert(tag@.len() == 1 && tag@[0] == 0x72);
        }
        if tag@.len() == 1 && tag@[0] == 0x69 {
            assert(tag@ =~= seq![0x69u8]);
        }
        if tag@.len() == 1 && tag@[0] == 0x72 {
            assert(tag@ =~= seq![0x72u8]);
        }
    }
    Some(Event { time_us: t, event_type, data })
}

/// The color packed into the top three bytes of a `u32`: `0xRRGGBB__`.
pub open spec fn sp_rgb_of(v: int) -> Rgb {
    Rgb {
        r: (v / 0x1000000) as u8,
        g: ((v / 0x10000) % 0x100) as u8,
        b: ((v / 0x100) % 0x100) as u8,
    }
}

/// A number that is a whole `u32`: non-negative, integral, within range.
pub open spec fn sp_u32_num(s: Seq<u8>, i: int) -> Option<(int, int)> {
    match sp_number(s, i) {
        None => None,
        Some((us, e)) => {
            if us >= 0 && us % 1000000 == 0 && us / 1000000 <= 0xFFFFFFFF {
                Some((us / 1000000, e))
            } else {
                None
            }
        },
    }
}

/// `k` more palette entries: comma-separated `u32` colors, then `]`.
pub open spec fn sp_palette(s: Seq<u8>, i: int, k: nat) -> Option<(Seq<Rgb>, int)>
    decreases k,
{
    if k == 0 {
        let j = sp_ws(s, i);
        if j < s.len() && s[j] == 0x5D {
            Some((Seq::empty(), j + 1))
        } else {
            None
        }
    } else {
        match sp_u32_num(s, sp_ws(s, i)) {
            None => None,
            Some((v, e)) => {
                if k == 1 {
                    match sp_palette(s, e, 0) {
                        None => None,
                        Some((rest, f)) => Some((seq![sp_rgb_of(v)] + rest, f)),
                    }
                } else {
                    let e2 = sp_ws(s, e);
                    if e2 < s.len() && s[e2] == 0x2C {
                        match sp_palette(s, e2 + 1, (k - 1) as nat) {
                            None => None,
                            Some((rest, f)) => Some((seq![sp_rgb_of(v)] + rest, f)),
                        }
                    } else {
                        None
                    }
                }
            },
        }
    }
}

/// The members of an embedded theme object: `bg` and `fg` as packed `u32`
/// colors and `palette` as an array of exactly 16; unknown keys skipped.
pub open spec fn sp_theme_members(
    s: Seq<u8>,
    i: int,
    bg: Option<Rgb>,
    fg: Option<Rgb>,
    pal: Option<Seq<Rgb>>,
    fuel: nat,
) -> Option<((Rgb, Rgb, Seq<Rgb>), int)>
    decreases fuel,
{
    if fuel == 0 {
        None
    } else {
        let j = sp_ws(s, i);
        match sp_string(s, j) {
            None => None,
            Some((key, k)) => {
                let k2 = sp_ws(s, k);
                if !(k2 < s.len() && s[k2] == 0x3A) {
                    None
                } else {
                    let v = sp_ws(s, k2 + 1);
                    let step: Option<(Option<Rgb>, Option<Rgb>, Option<Seq<Rgb>>, int)> = if key
                        == kb("bg") {
                        match sp_u32_num(s, v) {
                            None => None,
                            Some((c, e)) => Some((Some(sp_rgb_of(c)), fg, pal, e)),
                        }
                    } else if key == kb("fg") {
                        match sp_u32_num(s, v) {
                            None => None,
                            Some((c, e)) => Some((bg, Some(sp_rgb_of(c)), pal, e)),
                        }
                    } else if key == kb("palette") {
                        if v < s.len() && s[v] == 0x5B {
                            match sp_palette(s, v + 1, 16) {
                                None => None,
                                Some((ps, e)) => Some((bg, fg, Some(ps), e)),
                            }
                        } else {
                            None
                        }
                    } else {
                        match sp_skip_value(s, v, s.len() as nat) {
                            None => None,
                            Some(e) => Some((bg, fg, pal, e)),
                        }
                    };
                    match step {
                        None => None,
                        Some((bg2, fg2, pal2, e)) => {
                            let e2 = sp_ws(s, e);
                            if e2 < s.len() && s[e2] == 0x2C {
                                sp_theme_members(s, e2 + 1, bg2, fg2, pal2, (fuel - 1) as nat)
                            } else if e2 < s.len() && s[e2] == 0x7D {
                                match (bg2, fg2, pal2) {
                                    (Some(b), Some(f), Some(p)) => Some(((b, f, p), e2 + 1)),
                                    _ => None,
                                }
                            } else {
                                None
                            }
                        },
                    }
                }
            },
        }
    }
}

/// An embedded theme object at `i` (at the opening brace).
pub open spec fn sp_theme_obj(s: Seq<u8>, i: int) -> Option<((Rgb, Rgb, Seq<Rgb>), int)> {
    if 0 <= i < s.len() && s[i] == 0x7B {
        sp_theme_members(s, i + 1, None, None, None, s.len() as nat)
    } else {
        None
    }
}

/// The members of an `env` object: string values only.
pub open spec fn sp_env_members(
    s: Seq<u8>,
    i: int,
    acc: Seq<(Seq<u8>, Seq<u8>)>,
    fuel: nat,
) -> Option<(Seq<(Seq<u8>, Seq<u8>)>, int)>
    decreases fuel,
{
    if fuel == 0 {
        None
    } else {
        let j = sp_ws(s, i);
        match sp_string(s, j) {
            None => None,
            Some((key, k)) => {
                let k2 = sp_ws(s, k);
                if !(k2 < s.len() && s[k2] == 0x3A) {
                    None
                } else {
                    match sp_string(s, sp_ws(s, k2 + 1)) {
                        None => None,
                        Some((val, e)) => {
                            let e2 = sp_ws(s, e);
                            if e2 < s.len() && s[e2] == 0x2C {
                                sp_env_members(s, e2 + 1, acc + seq![(key, val)], (fuel - 1) as nat)
                            } else if e2 < s.len() && s[e2] == 0x7D {
                                Some((acc + seq![(key, val)], e2 + 1))
                            } else {
                                None
                            }
                        },
                    }
                }
            },
        }
    }
}

/// An `env` object at `i` (at the opening brace).
pub open spec fn sp_env_obj(s: Seq<u8>, i: int) -> Option<(Seq<(Seq<u8>, Seq<u8>)>, int)> {
    if 0 <= i < s.len() && s[i] == 0x7B {
        let j = sp_ws(s, i + 1);
        if j < s.len() && s[j] == 0x7D {
            Some((Seq::empty(), j + 1))
        } else {
            sp_env_members(s, i + 1, Seq::empty(), s.len() as nat)
        }
    } else {
        None
    }
}

/// `null` at `i`.
pub open spec fn sp_null(s: Seq<u8>, i: int) -> bool {
    i + 4 <= s.len() && s[i] == 0x6E && s[i + 1] == 0x75 && s[i + 2] == 0x6C && s[i + 3] == 0x6C
}

/// The members of the header object, accumulated into `h`; `seen` tracks
/// the three required fields (version, width, height).
pub open spec fn sp_header_members(
    s: Seq<u8>,
    i: int,
    h: HeaderV,
    seen: (bool, bool, bool),
    fuel: nat,
) -> Option<(HeaderV, (bool, bool, bool), int)>
    decreases fuel,
{
    if fuel == 0 {
        None
    } else {
        let j = sp_ws(s, i);
        match sp_string(s, j) {
            None => None,
            Some((key, k)) => {
                let k2 = sp_ws(s, k);
                if !(k2 < s.len() && s[k2] == 0x3A) {
                    None
                } else {
                    let v = sp_ws(s, k2 + 1);
                    let step: Option<(HeaderV, (bool, bool, bool), int)> = if key == kb(
                        "version",
                    ) {
                        match sp_u32_num(s, v) {
                            None => None,
                            Some((x, e)) => Some(
                                (HeaderV { version: x, ..h }, (true, seen.1, seen.2), e),
                            ),
                        }
                    } else if key == kb("width") {
                        match sp_u32_num(s, v) {
                            None => None,
                            Some((x, e)) => Some(
                                (HeaderV { width: x, ..h }, (seen.0, true, seen.2), e),
                            ),
                        }
                    } else if key == kb("height") {
                        match sp_u32_num(s, v) {
                            None => None,
                            Some((x, e)) => Some(
                                (HeaderV { height: x, ..h }, (seen.0, seen.1, true), e),
                            ),
                        }
                    } else if key == kb("timestamp") {
                        if sp_null(s, v) {
                            Some((HeaderV { timestamp_us: None, ..h }, seen, v + 4))
                        } else {
                            match sp_number(s, v) {
                                None => None,
                                Some((x, e)) => Some((HeaderV { timestamp_us: Some(x), ..h }, seen, e)),
                            }
                        }
                    } else if key == kb("duration") {
                        if sp_null(s, v) {
                            Some((HeaderV { duration_us: None, ..h }, seen, v + 4))
                        } else {
                            match sp_number(s, v) {
                                None => None,
                                Some((x, e)) => Some((HeaderV { duration_us: Some(x), ..h }, seen, e)),
                            }
                        }
                    } else if key == kb("idle_time_limit") {
                        if sp_null(s, v) {
                            Some((HeaderV { idle_time_limit_us: None, ..h }, seen, v + 4))
                        } else {
                            match sp_number(s, v) {
                                None => None,
                                Some((x, e)) => Some(
                                    (HeaderV { idle_time_limit_us: Some(x), ..h }, seen, e),
                                ),
                            }
                        }
                    } else if key == kb("command") {
                        if sp_null(s, v) {
                            Some((HeaderV { command: None, ..h }, seen, v + 4))
                        } else {
                            match sp_string(s, v) {
                                None => None,
                                Some((x, e)) => Some((HeaderV { command: Some(x), ..h }, seen, e)),
                            }
                        }
                    } else if key == kb("title") {
                        if sp_null(s, v) {
                            Some((HeaderV { title: None, ..h }, seen, v + 4))
                        } else {
                            match sp_string(s, v) {
                                None => None,
                                Some((x, e)) => Some((HeaderV { title: Some(x), ..h }, seen, e)),
                            }
                        }
                    } else if key == kb("env") {
                        if sp_null(s, v) {
                            Some((HeaderV { env: None, ..h }, seen, v + 4))
                        } else {
                            match sp_env_obj(s, v) {
                                None => None,
                                Some((x, e)) => Some((HeaderV { env: Some(x), ..h }, seen, e)),
                            }
                        }
                    } else if key == kb("theme") {
                        if sp_null(s, v) {
                            Some((HeaderV { theme: None, ..h }, seen, v + 4))
                        } else {
                            match sp_theme_obj(s, v) {
                                None => None,
                                Some((x, e)) => Some((HeaderV { theme: Some(x), ..h }, seen, e)),
                            }
                        }
                    } else {
                        match sp_skip_value(s, v, s.len() as nat) {
                            None => None,
                            Some(e) => Some((h, seen, e)),
                        }
                    };
                    match step {
                        None => None,
                        Some((h2, seen2, e)) => {
                            let e2 = sp_ws(s, e);
                            if e2 < s.len() && s[e2] == 0x2C {
                                sp_header_members(s, e2 + 1, h2, seen2, (fuel - 1) as nat)
                            } else if e2 < s.len() && s[e2] == 0x7D {
                                Some((h2, seen2, e2 + 1))
                            } else {
                                None
                            }
                        },
                    }
                }
            },
        }
    }
}

/// The blank header accumulator.
pub open spec fn sp_header_init() -> HeaderV {
    HeaderV {
        version: 0,
        width: 0,
        height: 0,
        timestamp_us: None,
        duration_us: None,
        idle_time_limit_us: None,
        command: None,
        title: None,
        env: None,
        theme: None,
    }
}

/// A whole header line: a JSON object carrying at least `version`,
/// `width` and `height`, with nothing but whitespace after it.
pub open spec fn sp_header(s: Seq<u8>) -> Option<HeaderV> {
    let i = sp_ws(s, 0);
    if i < s.len() && s[i] == 0x7B {
        match sp_header_members(s, i + 1, sp_header_init(), (false, false, false), s.len() as nat) {
            None => None,
            Some((h, seen, e)) => {
                if seen.0 && seen.1 && seen.2 && sp_ws(s, e) == s.len() {
                    Some(h)
                } else {
                    None
                }
            },
        }
    } else {
        None
    }
}

/// Parses a whole `u32` number.
fn u32_num(s: &[u8], i: usize) -> (r: Option<(u32, usize)>)
    requires
        i <= s@.len(),
    ensures
        match r {
            Some(p) => sp_u32_num(s@, i as int) == Some((p.0 as int, p.1 as int)) && p.1 <= s@.len(),
            None => sp_u32_num(s@, i as int).is_none(),
        },
{
    match json_number(s, i) {
        None => None,
        Some((us, e)) => {
            if us >= 0 && us % 1000000 == 0 && us / 1000000 <= 0xFFFFFFFF {
                Some(((us / 1000000) as u32, e))
            } else {
                None
            }
        },
    }
}

/// Parses `k` more palette entries.
fn palette_items(s: &[u8], i: usize, k: u8) -> (r: Option<(Vec<Rgb>, usize)>)
    requires
        i <= s@.len(),
    ensures
        match r {
            Some(p) => sp_palette(s@, i as int, k as nat) == Some((p.0@, p.1 as int)) && p.1
                <= s@.len() && p.0@.len() == k as nat,
            None => sp_palette(s@, i as int, k as nat).is_none(),
        },
    decreases k,
{
    let n = s.len();
    if k == 0 {
        let j = skip_ws(s, i);
        if j < n && s[j] == 0x5D {
            Some((Vec::new(), j + 1))
        } else {
            None
        }
    } else {
        let w = skip_ws(s, i);
        match u32_num(s, w) {
            None => None,
            Some((v, e)) => {
                let c = Rgb::from_u32(v);
                proof {
                    assert(c == sp_rgb_of(v as int));
                }
                if k == 1 {
                    match palette_items(s, e, 0) {
                        None => None,
                        Some((mut rest, f)) => {
                            let mut head: Vec<Rgb> = Vec::new();
                            head.push(c);
                            head.append(&mut rest);
                            proof {
                                assert(head@ =~= seq![sp_rgb_of(v as int)] + sp_palette(
                                    s@,
                                    e as int,
                                    0,
                                ).unwrap().0);
                            }
                            Some((head, f))
                        },
                    }
                } else {
                    let e2 = skip_ws(s, e);
                    if e2 < n && s[e2] == 0x2C {
                        match palette_items(s, e2 + 1, k - 1) {
                            None => None,
                            Some((mut rest, f)) => {
                                let mut head: Vec<Rgb> = Vec::new();
                                head.push(c);
                                head.append(&mut rest);
                                proof {
                                    assert(head@ =~= seq![sp_rgb_of(v as int)] + sp_palette(
                                        s@,
                                        e2 + 1,
                                        (k - 1) as nat,
                                    ).unwrap().0);
                                }
                                Some((head, f))
                            },
                        }
                    } else {
                        None
                    }
                }
            },
        }
    }
}

/// Parses embedded theme members.
fn theme_members(
    s: &[u8],
    i: usize,
    bg: Option<Rgb>,
    fg: Option<Rgb>,
    pal: Option<Vec<Rgb>>,
    fuel: u64,
) -> (r: Option<(Theme, usize)>)
    requires
        i <= s@.len(),
        match pal {
            Some(p) => p@.len() == 16,
            None => true,
        },
    ensures
        ({
            let spal = match pal {
                Some(p) => Some(p@),
                None => None,
            };
            match r {
                Some(p) => sp_theme_members(s@, i as int, bg, fg, spal, fuel as nat) == Some(
                    ((p.0.bg, p.0.fg, p.0.palette@), p.1 as int),
                ) && p.1 <= s@.len() && p.0.wf(),
                None => sp_theme_members(s@, i as int, bg, fg, spal, fuel as nat).is_none(),
            }
        }),
    decreases fuel,
{
    if fuel == 0 {
        return None;
    }
    let n = s.len();
    let j = skip_ws(s, i);
    let (key, k) = match json_string(s, j) {
        Some(p) => p,
        None => {
            return None;
        },
    };
    let k2 = skip_ws(s, k);
    if !(k2 < n && s[k2] == 0x3A) {
        return None;
    }
    let v = skip_ws(s, k2 + 1);
    let mut bg2 = bg;
    let mut fg2 = fg;
    let mut pal2 = pal;
    let e: usize;
    if slice_eq_str(key.as_slice(), "bg") {
        match u32_num(s, v) {
            None => {
                return None;
            },
            Some((c, e1)) => {
                bg2 = Some(Rgb::from_u32(c));
                proof {
                    assert(bg2 == Some(sp_rgb_of(c as int)));
                }
                e = e1;
            },
        }
    } else if slice_eq_str(key.as_slice(), "fg") {
        match u32_num(s, v) {
            None => {
                return None;
            },
            Some((c, e1)) => {
                fg2 = Some(Rgb::from_u32(c));
                proof {
                    assert(fg2 == Some(sp_rgb_of(c as int)));
                }
                e = e1;
            },
        }
    } else if slice_eq_str(key.as_slice(), "palette") {
        if v < n && s[v] == 0x5B {
            match palette_items(s, v + 1, 16) {
                None => {
                    return None;
                },
                Some((ps, e1)) => {
                    pal2 = Some(ps);
                    e = e1;
                },
            }
        } else {
            return None;
        }
    } else {
        match skip_value(s, v, n as u64) {
            None => {
                return None;
            },
            Some(e1) => {
                e = e1;
            },
        }
    }
    let e2 = skip_ws(s, e);
    if e2 < n && s[e2] == 0x2C {
        theme_members(s, e2 + 1, bg2, fg2, pal2, fuel - 1)
    } else if e2 < n && s[e2] == 0x7D {
        match (bg2, fg2, pal2) {
            (Some(b), Some(f), Some(p)) => Some((Theme { bg: b, fg: f, palette: p }, e2 + 1)),
            _ => None,
        }
    } else {
        None
    }
}

/// Parses `env` members.
fn env_members(s: &[u8], i: usize, acc: Vec<(Vec<u8>, Vec<u8>)>, fuel: u64) -> (r: Option<
    (Vec<(Vec<u8>, Vec<u8>)>, usize),
>)
    requires
        i <= s@.len(),
    ensures
        ({
            let sacc = Seq::new(acc@.len(), |q: int| (acc@[q].0@, acc@[q].1@));
            match r {
                Some(p) => sp_env_members(s@, i as int, sacc, fuel as nat) == Some(
                    (Seq::new(p.0@.len(), |q: int| (p.0@[q].0@, p.0@[q].1@)), p.1 as int),
                ) && p.1 <= s@.len(),
                None => sp_env_members(s@, i as int, sacc, fuel as nat).is_none(),
            }
        }),
    decreases fuel,
{
    if fuel == 0 {
        return None;
    }
    let n = s.len();
    let j = skip_ws(s, i);
    let (key, k) = match json_string(s, j) {
        Some(p) => p,
        None => {
            return None;
        },
    };
    let k2 = skip_ws(s, k);
    if !(k2 < n && s[k2] == 0x3A) {
        return None;
    }
    let w = skip_ws(s, k2 + 1);
    let (val, e) = match json_string(s, w) {
        Some(p) => p,
        None => {
            return None;
        },
    };
    let e2 = skip_ws(s, e);
    let ghost sacc = Seq::new(acc@.len(), |q: int| (acc@[q].0@, acc@[q].1@));
    let ghost kv = (key@, val@);
    let mut acc2 = acc;
    acc2.push((key, val));
    proof {
        assert(Seq::new(acc2@.len(), |q: int| (acc2@[q].0@, acc2@[q].1@)) =~~= sacc + seq![kv]);
    }
    if e2 < n && s[e2] == 0x2C {
        env_members(s, e2 + 1, acc2, fuel - 1)
    } else if e2 < n && s[e2] == 0x7D {
        Some((acc2, e2 + 1))
    } else {
        None
    }
}

/// True when `null` stands at `i`.
fn null_at(s: &[u8], i: usize) -> (b: bool)
    requires
        i <= s@.len(),
    ensures
        b == sp_null(s@, i as int),
{
    s.len() - i >= 4 && s[i] == 0x6E && s[i + 1] == 0x75 && s[i + 2] == 0x6C && s[i + 3] == 0x6C
}

/// Parses header members into `h`.
#[verifier::rlimit(100)]
fn header_members(s: &[u8], i: usize, h: Header, seen: (bool, bool, bool), fuel: u64) -> (r:
    Option<(Header, (bool, bool, bool), usize)>)
    requires
        i <= s@.len(),
    ensures
        match r {
            Some(p) => sp_header_members(s@, i as int, h@, seen, fuel as nat) == Some(
                (p.0@, p.1, p.2 as int),
            ) && p.2 <= s@.len(),
            None => sp_header_members(s@, i as int, h@, seen, fuel as nat).is_none(),
        },
    decreases fuel,
{
    if fuel == 0 {
        return None;
    }
    let n = s.len();
    let j = skip_ws(s, i);
    let (key, k) = match json_string(s, j) {
        Some(p) => p,
        None => {
            return None;
        },
    };
    let k2 = skip_ws(s, k);
    if !(k2 < n && s[k2] == 0x3A) {
        return None;
    }
    let v = skip_ws(s, k2 + 1);
    let mut h2 = h;
    let mut seen2 = seen;
    let e: usize;
    if slice_eq_str(key.as_slice(), "version") {
        match u32_num(s, v) {
            None => {
                return None;
            },
            Some((x, e1)) => {
                h2.version = x;
                seen2 = (true, seen2.1, seen2.2);
                e = e1;
            },
        }
    } else if slice_eq_str(key.as_slice(), "width") {
        match u32_num(s, v) {
            None => {
                return None;
            },
            Some((x, e1)) => {
                h2.width = x;
                seen2 = (seen2.0, true, seen2.2);
                e = e1;
            },
        }
    } else if slice_eq_str(key.as_slice(), "height") {
        match u32_num(s, v) {
            None => {
                return None;
            },
            Some((x, e1)) => {
                h2.height = x;
                seen2 = (seen2.0, seen2.1, true);
                e = e1;
            },
        }
    } else if slice_eq_str(key.as_slice(), "timestamp") {
        if null_at(s, v) {
            h2.timestamp_us = None;
            e = v + 4;
        } else {
            match json_number(s, v) {
                None => {
                    return None;
                },
                Some((x, e1)) => {
                    h2.timestamp_us = Some(x);
                    e = e1;
                },
            }
        }
    } else if slice_eq_str(key.as_slice(), "duration") {
        if null_at(s, v) {
            h2.duration_us = None;
            e = v + 4;
        } else {
            match json_number(s, v) {
                None => {
                    return None;
                },
                Some((x, e1)) => {
                    h2.duration_us = Some(x);
                    e = e1;
                },
            }
        }
    } else if slice_eq_str(key.as_slice(), "idle_time_limit") {
        if null_at(s, v) {
            h2.idle_time_limit_us = None;
            e = v + 4;
        } else {
            match json_number(s, v) {
                None => {
                    return None;
                },
                Some((x, e1)) => {
                    h2.idle_time_limit_us = Some(x);
                    e = e1;
                },
            }
        }
    } else if slice_eq_str(key.as_slice(), "command") {
        if null_at(s, v) {
            h2.command = None;
            e = v + 4;
        } else {
            match json_string(s, v) {
                None => {
                    return None;
                },
                Some((x, e1)) => {
                    h2.command = Some(x);
                    e = e1;
                },
            }
        }
    } else if slice_eq_str(key.as_slice(), "title") {
        if null_at(s, v) {
            h2.title = None;
            e = v + 4;
        } else {
            match json_string(s, v) {
                None => {
                    return None;
                },
                Some((x, e1)) => {
                    h2.title = Some(x);
                    e = e1;
                },
            }
        }
    } else if slice_eq_str(key.as_slice(), "env") {
        if null_at(s, v) {
            h2.env = None;
            e = v + 4;
        } else {
            if v < n && s[v] == 0x7B {
                let j2 = skip_ws(s, v + 1);
                if j2 < n && s[j2] == 0x7D {
                    h2.env = Some(Vec::new());
                    e = j2 + 1;
                    proof {
                        assert(Seq::new(
                            Seq::<(Vec<u8>, Vec<u8>)>::empty().len(),
                            |q: int| (Seq::<(Vec<u8>, Vec<u8>)>::empty()[q].0@, Seq::<(
                                Vec<u8>,
                                Vec<u8>,
                            )>::empty()[q].1@),
                        ) =~~= Seq::<(Seq<u8>, Seq<u8>)>::empty());
                    }
                } else {
                    match env_members(s, v + 1, Vec::new(), n as u64) {
                        None => {
                            return None;
                        },
                        Some((x, e1)) => {
                            h2.env = Some(x);
                            e = e1;
                        },
                    }
                }
            } else {
                return None;
            }
        }
    } else if slice_eq_str(key.as_slice(), "theme") {
        if null_at(s, v) {
            h2.theme = None;
            e = v + 4;
        } else {
            if v < n && s[v] == 0x7B {
                match theme_members(s, v + 1, None, None, None, n as u64) {
                    None => {
                        return None;
                    },
                    Some((t, e1)) => {
                        h2.theme = Some(t);
                        e = e1;
                    },
                }
            } else {
                return None;
            }
        }
    } else {
        match skip_value(s, v, n as u64) {
            None => {
                return None;
            },
            Some(e1) => {
                e = e1;
            },
        }
    }
    let e2 = skip_ws(s, e);
    if e2 < n && s[e2] == 0x2C {
        header_members(s, e2 + 1, h2, seen2, fuel - 1)
    } else if e2 < n && s[e2] == 0x7D {
        Some((h2, seen2, e2 + 1))
    } else {
        None
    }
}

/// Parses a header line.
pub fn parse_header(line: &[u8]) -> (r: Option<Header>)
    ensures
        match r {
            Some(h) => sp_header(line@) == Some(h@),
            None => sp_header(line@).is_none(),
        },
{
    let n = line.len();
    let i = skip_ws(line, 0);
    if !(i < n && line[i] == 0x7B) {
        return None;
    }
    let init = Header {
        version: 0,
        width: 0,
        height: 0,
        timestamp_us: None,
        duration_us: None,
        idle_time_limit_us: None,
        command: None,
        title: None,
        env: None,
        theme: None,
    };
    proof {
        assert(init@ =~~= sp_header_init());
    }
    match header_members(line, i + 1, init, (false, false, false), n as u64) {
        None => None,
        Some((h, seen, e)) => {
            if seen.0 && seen.1 && seen.2 && skip_ws(line, e) == n {
                Some(h)
            } else {
                None
            }
        },
    }
}

/// The index of the first line with non-whitespace content, or the count.
pub open spec fn sp_first_nonempty(lines: Seq<Seq<u8>>, i: int) -> int
    decreases lines.len() - i,
{
    if i < 0 || i >= lines.len() {
        lines.len() as int
    } else if spec_trim(lines[i]).len() > 0 {
        i
    } else {
        sp_first_nonempty(lines, i + 1)
    }
}

/// The events of the lines from `i` on: blank lines are skipped silently,
/// malformed lines are skipped, well-formed lines yield one event each.
pub open spec fn sp_events_from(lines: Seq<Seq<u8>>, i: int) -> Seq<EventV>
    decreases lines.len() - i,
{
    if i < 0 || i >= lines.len() {
        Seq::empty()
    } else {
        let rest = sp_events_from(lines, i + 1);
        if spec_trim(lines[i]).len() == 0 {
            rest
        } else {
            match sp_event(lines[i]) {
                Some((t, tag, data)) => seq![
                    EventV { time_us: t, event_type: sp_event_type(tag), data },
                ] + rest,
                None => rest,
            }
        }
    }
}

/// True when the line has no non-whitespace content.
fn line_blank(line: &[u8]) -> (b: bool)
    ensures
        b == (spec_trim(line@).len() == 0),
{
    let r = crate::filter::trimmed_eq(line, "");
    proof {
        reveal_strlit("");
        assert(""@.len() == 0);
        assert(vstd::utf8::encode_utf8(""@) =~= Seq::<u8>::empty());
        assert(crate::filter::lit_bytes("").len() == 0);
        if spec_trim(line@).len() == 0 {
            assert(spec_trim(line@) =~= crate::filter::lit_bytes(""));
        }
    }
    r
}

/// Parses a whole cast: the first non-empty line is the header (version 2
/// required); the remaining lines are events, with blank and malformed
/// lines skipped.
#[verifier::rlimit(100)]
pub fn parse(input: &[u8]) -> (r: Result<(Header, Vec<Event>), CastError>)
    ensures
        ({
            let lines = sp_lines_from(input@, 0);
            let k = sp_first_nonempty(lines, 0);
            match r {
                Ok(p) => {
                    &&& k < lines.len()
                    &&& sp_header(lines[k]) matches Some(hv)
                    &&& hv.version == 2
                    &&& p.0@ == hv
                    &&& Seq::new(p.1@.len(), |q: int| p.1@[q]@) == sp_events_from(lines, k + 1)
                },
                Err(CastError::Empty) => k == lines.len(),
                Err(CastError::Header) => k < lines.len() && sp_header(lines[k]).is_none(),
                Err(CastError::Version(v)) => {
                    &&& k < lines.len()
                    &&& sp_header(lines[k]) matches Some(hv)
                    &&& hv.version == v
                    &&& v != 2
                },
                Err(CastError::Dimensions) => false,
            }
        }),
        match r {
            Ok(p) => forall|q: int|
                0 <= q < p.1@.len() ==> -1000000000000000000 <= (#[trigger] p.1@[q]).time_us
                    <= 1000000000000000000,
            Err(_) => true,
        },
{
    let lines = split_lines(input);
    let ghost lv = sp_lines_from(input@, 0);
    let n = lines.len();
    let mut k: usize = 0;
    while k < n && line_blank(lines[k].as_slice())
        invariant
            n == lines@.len(),
            k <= n,
            Seq::new(lines@.len(), |i: int| lines@[i]@) =~~= lv,
            sp_first_nonempty(lv, 0) == sp_first_nonempty(lv, k as int),
        decreases n - k,
    {
        k = k + 1;
    }
    proof {
        assert(sp_first_nonempty(lv, 0) == k as int);
    }
    if k >= n {
        return Err(CastError::Empty);
    }
    let header = match parse_header(lines[k].as_slice()) {
        Some(h) => h,
        None => {
            return Err(CastError::Header);
        },
    };
    if header.version != 2 {
        return Err(CastError::Version(header.version));
    }
    let mut events: Vec<Event> = Vec::new();
    let mut i = k + 1;
    while i < n
        invariant
            n == lines@.len(),
            k < n,
            k + 1 <= i <= n,
            Seq::new(lines@.len(), |q: int| lines@[q]@) =~~= lv,
            Seq::new(events@.len(), |q: int| events@[q]@) + sp_events_from(lv, i as int)
                =~~= sp_events_from(lv, k + 1),
            forall|q: int|
                0 <= q < events@.len() ==> -1000000000000000000 <= (#[trigger] events@[q]).time_us
                    <= 1000000000000000000,
        decreases n - i,
    {
        let ghost pre = Seq::new(events@.len(), |q: int| events@[q]@);
        if !line_blank(lines[i].as_slice()) {
            match parse_event(lines[i].as_slice()) {
                Some(ev) => {
                    let ghost evv = ev@;
                    events.push(ev);
                    proof {
                        assert(Seq::new(events@.len(), |q: int| events@[q]@) =~~= pre + seq![evv]);
                    }
                },
                None => {},
            }
        }
        i = i + 1;
        proof {
            assert(Seq::new(events@.len(), |q: int| events@[q]@) + sp_events_from(lv, i as int)
                =~~= sp_events_from(lv, k + 1));
        }
    }
    proof {
        assert(Seq::new(events@.len(), |q: int| events@[q]@) =~~= sp_events_from(lv, k + 1));
    }
    Ok((header, events))
}

/// A parsed cast: header plus events.
#[derive(Debug)]
pub struct Asciicast {
    pub header: Header,
    pub events: Vec<Event>,
}

impl Asciicast {
    /// Parses a whole cast into one value.
    pub fn parse(input: &[u8]) -> (r: Result<Asciicast, CastError>)
        ensures
            ({
                let lines = sp_lines_from(input@, 0);
                let k = sp_first_nonempty(lines, 0);
                match r {
                    Ok(c) => {
                        &&& k < lines.len()
                        &&& sp_header(lines[k]) matches Some(hv)
                        &&& hv.version == 2
                        &&& c.header@ == hv
                        &&& Seq::new(c.events@.len(), |q: int| c.events@[q]@) == sp_events_from(
                            lines,
                            k + 1,
                        )
                    },
                    Err(CastError::Empty) => k == lines.len(),
                    Err(CastError::Header) => k < lines.len() && sp_header(lines[k]).is_none(),
                    Err(CastError::Version(v)) => {
                        &&& k < lines.len()
                        &&& sp_header(lines[k]) matches Some(hv)
                        &&& hv.version == v
                        &&& v != 2
                    },
                    Err(CastError::Dimensions) => false,
                }
            }),
    {
        match parse(input) {
            Ok((header, events)) => Ok(Asciicast { header, events }),
            Err(e) => Err(e),
        }
    }
}

/// A cursor over event lines: yields the events of the remaining lines in
/// order, skipping blank and malformed lines.
pub struct EventIterator {
    pub lines: Vec<Vec<u8>>,
    pub pos: usize,
}

impl EventIterator {
    /// The lines still to be visited, as byte sequences.
    pub open spec fn lines_view(&self) -> Seq<Seq<u8>> {
        Seq::new(self.lines@.len(), |i: int| self.lines@[i]@)
    }

    /// An iterator over the lines past `start`.
    pub fn new(lines: Vec<Vec<u8>>, start: usize) -> (it: EventIterator)
        ensures
            it.lines == lines,
            it.pos == start,
    {
        EventIterator { lines, pos: start }
    }

    /// The next event, advancing past consumed lines.
    pub fn next_event(&mut self) -> (r: Option<Event>)
        requires
            old(self).pos <= old(self).lines@.len(),
        ensures
            final(self).lines == old(self).lines,
            final(self).pos <= final(self).lines@.len(),
            match r {
                Some(ev) => {
                    let evs = sp_events_from(old(self).lines_view(), old(self).pos as int);
                    &&& evs.len() > 0
                    &&& ev@ == evs[0]
                    &&& sp_events_from(final(self).lines_view(), final(self).pos as int) == evs.skip(
                        1,
                    )
                },
                None => {
                    &&& sp_events_from(old(self).lines_view(), old(self).pos as int)
                        == Seq::<EventV>::empty()
                    &&& final(self).pos == final(self).lines@.len()
                },
            },
    {
        let n = self.lines.len();
        while self.pos < n
            invariant
                n == self.lines@.len(),
                self.pos <= n,
                self.lines == old(self).lines,
                sp_events_from(self.lines_view(), self.pos as int) == sp_events_from(
                    old(self).lines_view(),
                    old(self).pos as int,
                ),
            decreases n - self.pos,
        {
            let p = self.pos;
            if !line_blank(self.lines[p].as_slice()) {
                match parse_event(self.lines[p].as_slice()) {
                    Some(ev) => {
                        self.pos = p + 1;
                        proof {
                            let evs = sp_events_from(self.lines_view(), p as int);
                            assert(evs[0] == ev@);
                            assert(sp_events_from(self.lines_view(), p + 1) =~~= evs.skip(1));
                        }
                        return Some(ev);
                    },
                    None => {},
                }
            }
            self.pos = p + 1;
        }
        None
    }
}

} // verus!
