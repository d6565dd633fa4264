//! The timeline builder: samples grid snapshots against the event stream
//! according to a timing model (variable per-event or fixed FPS), applying
//! speed, idle-compression and range clipping.  All times are integer
//! microseconds; the playback speed is a multiplier in thousandths.

use vstd::prelude::*;

use crate::cast::{Event, EventType, EventV};
use crate::cell::Cell;
use crate::filter::{should_strip_system_output, spec_should_strip};
use crate::grid::Frame;
use crate::term::{lemma_feed_dims, st_feed, st_init, wf, Emulator, TermView};

verus! {

/// The timing model: per-event durations, or resampling to a fixed rate.
#[derive(Clone, Copy, Debug, PartialEq, Eq, Structural)]
pub enum Timeline {
    Original,
    Fixed,
}

/// The timing options.  `speed_milli` is the playback speed in
/// thousandths (1000 = real time); `fps` drives Fixed mode and the
/// trailing frame; `at_us` selects static-frame mode.
#[derive(Clone, Copy, Debug)]
pub struct TimingConfig {
    pub speed_milli: u32,
    pub fps: u8,
    pub idle_limit_us: Option<i64>,
    pub from_us: Option<i64>,
    pub to_us: Option<i64>,
    pub at_us: Option<i64>,
    pub mode: Timeline,
    pub is_zsh: bool,
}

/// One animation step: a frame and how long it stays visible.
#[derive(Debug)]
pub struct Step {
    pub frame: Frame,
    pub dur_us: u64,
}

/// Durations are capped at this many microseconds (about 31,000 years), so
/// that the integer arithmetic never wraps.
pub open spec fn dur_cap() -> int {
    1000000000000000000
}

/// Whether the pre-filter keeps an event: it must lie inside the
/// `from..to` window, and output events must not be system output.
pub open spec fn sp_keep(e: EventV, from: Option<int>, to: Option<int>, is_zsh: bool) -> bool {
    &&& match from {
        Some(f) => e.time_us >= f,
        None => true,
    }
    &&& match to {
        Some(t) => e.time_us <= t,
        None => true,
    }
    &&& (e.event_type != EventType::Output || !spec_should_strip(e.data, is_zsh))
}

/// The kept events from index `i` on.
pub open spec fn sp_filtered(
    evs: Seq<EventV>,
    i: int,
    from: Option<int>,
    to: Option<int>,
    is_zsh: bool,
) -> Seq<EventV>
    decreases evs.len() - i,
{
    if i < 0 || i >= evs.len() {
        Seq::empty()
    } else if sp_keep(evs[i], from, to, is_zsh) {
        seq![evs[i]] + sp_filtered(evs, i + 1, from, to, is_zsh)
    } else {
        sp_filtered(evs, i + 1, from, to, is_zsh)
    }
}

/// The clamped inter-event duration: the (non-negative) gap divided by the
/// speed, bounded by the idle limit and by the overall cap.
pub open spec fn sp_delta(
    t: int,
    last: int,
    speed_milli: int,
    idle: Option<int>,
) -> int {
    let gap = if t - last > 0 {
        t - last
    } else {
        0
    };
    let d0 = gap * 1000 / speed_milli;
    let d1 = match idle {
        Some(l) => {
            let lc = if l > 0 {
                l
            } else {
                0
            };
            if d0 <= lc {
                d0
            } else {
                lc
            }
        },
        None => d0,
    };
    if d1 <= dur_cap() {
        d1
    } else {
        dur_cap()
    }
}

/// The state after applying one event: output data is fed to the
/// emulator, other events leave it unchanged.
pub open spec fn sp_apply(s: TermView, e: EventV) -> TermView {
    if e.event_type == EventType::Output {
        st_feed(s, e.data)
    } else {
        s
    }
}

/// The trailing step duration: one frame at the configured rate.
pub open spec fn sp_trailing(fps: int) -> int {
    1000000int / fps
}

/// Original mode from index `i`: one step per event holding the grid
/// before the event, then a trailing step.
pub open spec fn sp_original(
    s: TermView,
    evs: Seq<EventV>,
    i: int,
    last: int,
    speed_milli: int,
    idle: Option<int>,
    fps: int,
) -> Seq<(Seq<Seq<Cell>>, int)>
    decreases evs.len() - i,
{
    if i < 0 || i >= evs.len() {
        seq![(s.grid, sp_trailing(fps))]
    } else {
        let d = sp_delta(evs[i].time_us, last, speed_milli, idle);
        seq![(s.grid, d)] + sp_original(
            sp_apply(s, evs[i]),
            evs,
            i + 1,
            evs[i].time_us,
            speed_milli,
            idle,
            fps,
        )
    }
}

/// Fixed mode from index `i`: each inter-event gap becomes
/// `ceil(d * fps / 1s)` identical steps of one frame's duration, then one
/// trailing step.
pub open spec fn sp_fixed(
    s: TermView,
    evs: Seq<EventV>,
    i: int,
    last: int,
    speed_milli: int,
    idle: Option<int>,
    fps: int,
) -> Seq<(Seq<Seq<Cell>>, int)>
    decreases evs.len() - i,
{
    if i < 0 || i >= evs.len() {
        seq![(s.grid, sp_trailing(fps))]
    } else {
        let d = sp_delta(evs[i].time_us, last, speed_milli, idle);
        let count = (d * fps + 999999) / 1000000;
        Seq::new(count as nat, |q: int| (s.grid, sp_trailing(fps))) + sp_fixed(
            sp_apply(s, evs[i]),
            evs,
            i + 1,
            evs[i].time_us,
            speed_milli,
            idle,
            fps,
        )
    }
}

/// Static mode: the state after feeding every output event up to `at`.
pub open spec fn sp_static(s: TermView, evs: Seq<EventV>, i: int, at: int) -> TermView
    decreases evs.len() - i,
{
    if i < 0 || i >= evs.len() {
        s
    } else if evs[i].time_us <= at {
        sp_static(sp_apply(s, evs[i]), evs, i + 1, at)
    } else {
        sp_static(s, evs, i + 1, at)
    }
}

/// The sum of the step durations.
pub open spec fn sp_total(steps: Seq<(Seq<Seq<Cell>>, int)>) -> int
    decreases steps.len(),
{
    if steps.len() == 0 {
        0
    } else {
        steps[0].1 + sp_total(steps.skip(1))
    }
}

/// The sum of the clamped inter-event gaps from index `i`.
pub open spec fn sp_delta_sum(
    evs: Seq<EventV>,
    i: int,
    last: int,
    speed_milli: int,
    idle: Option<int>,
) -> int
    decreases evs.len() - i,
{
    if i < 0 || i >= evs.len() {
        0
    } else {
        sp_delta(evs[i].time_us, last, speed_milli, idle) + sp_delta_sum(
            evs,
            i + 1,
            evs[i].time_us,
            speed_milli,
            idle,
        )
    }
}

/// Law: in Original mode the durations add up to the clamped, speed-scaled
/// inter-event gaps plus the trailing frame.
pub proof fn lemma_original_total(
    s: TermView,
    evs: Seq<EventV>,
    i: int,
    last: int,
    speed_milli: int,
    idle: Option<int>,
    fps: int,
)
    ensures
        sp_total(sp_original(s, evs, i, last, speed_milli, idle, fps)) == sp_delta_sum(
            evs,
            i,
            last,
            speed_milli,
            idle,
        ) + sp_trailing(fps),
    decreases evs.len() - i,
{
    if i < 0 || i >= evs.len() {
        let steps = sp_original(s, evs, i, last, speed_milli, idle, fps);
        assert(steps == seq![(s.grid, sp_trailing(fps))]);
        assert(steps.skip(1) =~= Seq::<(Seq<Seq<Cell>>, int)>::empty());
        assert(sp_total(Seq::<(Seq<Seq<Cell>>, int)>::empty()) == 0);
        assert(steps[0].1 == sp_trailing(fps));
        assert(sp_total(steps) == sp_trailing(fps));
        assert(sp_delta_sum(evs, i, last, speed_milli, idle) == 0);
    } else {
        let d = sp_delta(evs[i].time_us, last, speed_milli, idle);
        let rest = sp_original(
            sp_apply(s, evs[i]),
            evs,
            i + 1,
            evs[i].time_us,
            speed_milli,
            idle,
            fps,
        );
        lemma_original_total(
            sp_apply(s, evs[i]),
            evs,
            i + 1,
            evs[i].time_us,
            speed_milli,
            idle,
            fps,
        );
        let full = seq![(s.grid, d)] + rest;
        assert(sp_original(s, evs, i, last, speed_milli, idle, fps) == full);
        assert(full.skip(1) =~= rest);
        assert(full[0] == (s.grid, d));
        assert(sp_total(full) == d + sp_total(rest));
    }
}

/// Law: a window with `from > to` keeps no event at all.
pub proof fn lemma_empty_window(
    evs: Seq<EventV>,
    i: int,
    from: int,
    to: int,
    is_zsh: bool,
)
    requires
        from > to,
    ensures
        sp_filtered(evs, i, Some(from), Some(to), is_zsh) == Seq::<EventV>::empty(),
    decreases evs.len() - i,
{
    if 0 <= i < evs.len() {
        lemma_empty_window(evs, i + 1, from, to, is_zsh);
    }
}

/// Law: a static-mode time preceding every event leaves the initial state
/// untouched, so the snapshot is the blank grid.
pub proof fn lemma_static_before_all(s: TermView, evs: Seq<EventV>, i: int, at: int)
    requires
        forall|k: int| 0 <= k < evs.len() ==> #[trigger] evs[k].time_us > at,
    ensures
        sp_static(s, evs, i, at) == s,
    decreases evs.len() - i,
{
    if 0 <= i < evs.len() {
        lemma_static_before_all(s, evs, i + 1, at);
    }
}

/// The mathematical image of a step list.
pub open spec fn steps_view(steps: Seq<Step>) -> Seq<(Seq<Seq<Cell>>, int)> {
    Seq::new(steps.len(), |i: int| (steps[i].frame@, steps[i].dur_us as int))
}

/// The mathematical image of an event list.
pub open spec fn events_view(events: Seq<Event>) -> Seq<EventV> {
    Seq::new(events.len(), |i: int| events[i]@)
}

/// An owned copy of a byte vector.
fn copy_bytes(v: &Vec<u8>) -> (out: Vec<u8>)
    ensures
        out@ == v@,
{
    let mut out: Vec<u8> = Vec::new();
    let n = v.len();
    for i in 0..n
        invariant
            n == v@.len(),
            out@ =~= v@.take(i as int),
    {
        out.push(v[i]);
        proof {
            assert(out@ =~= v@.take(i as int + 1));
        }
    }
    proof {
        assert(v@.take(n as int) =~= v@);
    }
    out
}

/// Spec view of an optional time.
pub open spec fn opt_view(o: Option<i64>) -> Option<int> {
    match o {
        Some(v) => Some(v as int),
        None => None,
    }
}

/// Applies the range window and the system-output pre-filter.
pub fn filter_events(events: &Vec<Event>, from_us: Option<i64>, to_us: Option<i64>, is_zsh: bool) -> (out: Vec<Event>)
    ensures
        events_view(out@) =~~= sp_filtered(
            events_view(events@),
            0,
            opt_view(from_us),
            opt_view(to_us),
            is_zsh,
        ),
        forall|i: int|
            0 <= i < out@.len() ==> -1000000000000000000 <= (#[trigger] out@[i]).time_us
                <= 1000000000000000000 || exists|k: int|
                0 <= k < events@.len() && out@[i]@ == #[trigger] events@[k]@,
{
    let ghost evs = events_view(events@);
    let ghost from = opt_view(from_us);
    let ghost to = opt_view(to_us);
    let n = events.len();
    let mut out: Vec<Event> = Vec::new();
    let mut i: usize = 0;
    while i < n
        invariant
            n == events@.len(),
            i <= n,
            evs == events_view(events@),
            from == opt_view(from_us),
            to == opt_view(to_us),
            events_view(out@) + sp_filtered(evs, i as int, from, to, is_zsh) =~~= sp_filtered(
                evs,
                0,
                from,
                to,
                is_zsh,
            ),
            forall|q: int|
                0 <= q < out@.len() ==> exists|k: int|
                    0 <= k < events@.len() && (#[trigger] out@[q])@ == events@[k]@,
        decreases n - i,
    {
        let ghost pre = events_view(out@);
        let e = &events[i];
        let mut keep = true;
        match from_us {
            Some(f) => {
                if e.time_us < f {
                    keep = false;
                }
            },
            None => {},
        }
        match to_us {
            Some(t) => {
                if e.time_us > t {
                    keep = false;
                }
            },
            None => {},
        }
        if keep {
            match e.event_type {
                EventType::Output => {
                    if should_strip_system_output(e.data.as_slice(), is_zsh) {
                        keep = false;
                    }
                },
                _ => {},
            }
        }
        if keep {
            let copied = Event {
                time_us: e.time_us,
                event_type: e.event_type,
                data: copy_bytes(&e.data),
            };
            proof {
                assert(copied@ =~~= evs[i as int]);
            }
            out.push(copied);
            proof {
                assert(events_view(out@) =~~= pre + seq![evs[i as int]]);
            }
        }
        i = i + 1;
        proof {
            assert(events_view(out@) + sp_filtered(evs, i as int, from, to, is_zsh)
                =~~= sp_filtered(evs, 0, from, to, is_zsh));
        }
    }
    proof {
        assert(events_view(out@) =~~= sp_filtered(evs, 0, from, to, is_zsh));
    }
    out
}

/// One inter-event duration in microseconds.
fn delta_us(t: i64, last: i64, speed_milli: u32, idle: Option<i64>) -> (d: u64)
    requires
        speed_milli >= 1,
        -4000000000000000000 <= t <= 4000000000000000000,
        -4000000000000000000 <= last <= 4000000000000000000,
    ensures
        d == sp_delta(t as int, last as int, speed_milli as int, opt_view(idle)),
        d <= 1000000000000000000,
{
    let gap: i64 = if t > last {
        t - last
    } else {
        0
    };
    let d0: u128 = gap as u128 * 1000 / speed_milli as u128;
    let d1: u128 = match idle {
        Some(l) => {
            let lc: u128 = if l > 0 {
                l as u128
            } else {
                0
            };
            if d0 <= lc {
                d0
            } else {
                lc
            }
        },
        None => d0,
    };
    if d1 <= 1000000000000000000 {
        d1 as u64
    } else {
        1000000000000000000
    }
}

/// Builds the animation steps for an already filtered event list.
pub fn build_timeline(events: &Vec<Event>, cols: usize, rows: usize, cfg: &TimingConfig) -> (steps:
    Vec<Step>)
    requires
        1 <= cols <= 10000,
        1 <= rows <= 10000,
        cfg.speed_milli >= 1,
        cfg.fps >= 1,
        forall|i: int|
            0 <= i < events@.len() ==> -1000000000000000000 <= (#[trigger] events@[i]).time_us
                <= 1000000000000000000,
        match cfg.from_us {
            Some(f) => -1000000000000000000 <= f <= 1000000000000000000,
            None => true,
        },
    ensures
        ({
            let evs = events_view(events@);
            let s0 = st_init(cols as nat, rows as nat);
            let last0 = match cfg.from_us {
                Some(f) => f as int,
                None => 0int,
            };
            match cfg.at_us {
                Some(at) => steps_view(steps@) =~~= seq![
                    (sp_static(s0, evs, 0, at as int).grid, sp_trailing(cfg.fps as int)),
                ],
                None => {
                    if cfg.mode == Timeline::Original {
                        steps_view(steps@) =~~= sp_original(
                            s0,
                            evs,
                            0,
                            last0,
                            cfg.speed_milli as int,
                            opt_view(cfg.idle_limit_us),
                            cfg.fps as int,
                        )
                    } else {
                        steps_view(steps@) =~~= sp_fixed(
                            s0,
                            evs,
                            0,
                            last0,
                            cfg.speed_milli as int,
                            opt_view(cfg.idle_limit_us),
                            cfg.fps as int,
                        )
                    }
                },
            }
        }),
        forall|i: int|
            0 <= i < steps@.len() ==> (#[trigger] steps@[i]).frame.wf() && steps@[i].frame.width
                == cols && steps@[i].frame.height == rows,
        steps@.len() >= 1,
{
    let ghost evs = events_view(events@);
    let ghost s0 = st_init(cols as nat, rows as nat);
    let mut em = Emulator::new(cols, rows);
    let mut steps: Vec<Step> = Vec::new();
    let trailing: u64 = 1000000 / cfg.fps as u64;
    let n = events.len();
    match cfg.at_us {
        Some(at) => {
            let mut i: usize = 0;
            while i < n
                invariant
                    n == events@.len(),
                    i <= n,
                    evs == events_view(events@),
                    wf(em@),
                    em@.width == cols as nat,
                    em@.height == rows as nat,
                    sp_static(em@, evs, i as int, at as int) == sp_static(s0, evs, 0, at as int),
                decreases n - i,
            {
                let e = &events[i];
                let ghost em_pre = em@;
                if e.time_us <= at {
                    match e.event_type {
                        EventType::Output => {
                            em.process(e.data.as_slice());
                        },
                        _ => {},
                    }
                }
                proof {
                    assert(evs[i as int].data == events@[i as int].data@);
                    lemma_feed_dims(em_pre, events@[i as int].data@);
                }
                i = i + 1;
            }
            let f = em.get_frame();
            steps.push(Step { frame: f, dur_us: trailing });
            proof {
                assert(steps_view(steps@) =~~= seq![
                    (sp_static(s0, evs, 0, at as int).grid, sp_trailing(cfg.fps as int)),
                ]);
            }
        },
        None => {
            let mut last: i64 = match cfg.from_us {
                Some(f) => f,
                None => 0,
            };
            let ghost last0 = last as int;
            let ghost sp = cfg.speed_milli as int;
            let ghost idle = opt_view(cfg.idle_limit_us);
            let ghost fpsg = cfg.fps as int;
            let is_fixed = match cfg.mode {
                Timeline::Fixed => true,
                Timeline::Original => false,
            };
            let mut i: usize = 0;
            while i < n
                invariant
                    n == events@.len(),
                    i <= n,
                    evs == events_view(events@),
                    forall|q: int|
                        0 <= q < events@.len() ==> -1000000000000000000
                            <= (#[trigger] events@[q]).time_us <= 1000000000000000000,
                    wf(em@),
                    em@.width == cols as nat,
                    em@.height == rows as nat,
                    cfg.speed_milli >= 1,
                    cfg.fps >= 1,
                    trailing == sp_trailing(fpsg),
                    sp == cfg.speed_milli as int,
                    idle == opt_view(cfg.idle_limit_us),
                    fpsg == cfg.fps as int,
                    is_fixed == (cfg.mode == Timeline::Fixed),
                    -1000000000000000000 <= last <= 1000000000000000000,
                    forall|q: int|
                        0 <= q < steps@.len() ==> (#[trigger] steps@[q]).frame.wf()
                            && steps@[q].frame.width == cols && steps@[q].frame.height == rows,
                    !is_fixed ==> steps_view(steps@) + sp_original(em@, evs, i as int, last as int, sp, idle, fpsg)
                        =~~= sp_original(s0, evs, 0, last0, sp, idle, fpsg),
                    is_fixed ==> steps_view(steps@) + sp_fixed(em@, evs, i as int, last as int, sp, idle, fpsg)
                        =~~= sp_fixed(s0, evs, 0, last0, sp, idle, fpsg),
                decreases n - i,
            {
                let ghost pre = steps_view(steps@);
                let ghost em_pre = em@;
                let e = &events[i];
                let d = delta_us(e.time_us, last, cfg.speed_milli, cfg.idle_limit_us);
                if !is_fixed {
                    let f = em.get_frame();
                    steps.push(Step { frame: f, dur_us: d });
                    proof {
                        assert(steps_view(steps@) =~~= pre + seq![(em_pre.grid, d as int)]);
                    }
                } else {
                    proof {
                        assert(d as int * cfg.fps as int <= 1000000000000000000 * 255)
                            by (nonlinear_arith)
                            requires
                                d <= 1000000000000000000,
                                cfg.fps <= 255,
                        ;
                    }
                    let count: u128 = (d as u128 * cfg.fps as u128 + 999999) / 1000000;
                    let ghost countg = count as int;
                    let mut c: u128 = 0;
                    while c < count
                        invariant
                            wf(em@),
                            em@ == em_pre,
                            em@.width == cols as nat,
                            em@.height == rows as nat,
                            c <= count,
                            countg == count as int,
                            trailing == sp_trailing(fpsg),
                            forall|q: int|
                                0 <= q < steps@.len() ==> (#[trigger] steps@[q]).frame.wf()
                                    && steps@[q].frame.width == cols
                                    && steps@[q].frame.height == rows,
                            steps_view(steps@) =~~= pre + Seq::new(
                                c as nat,
                                |q: int| (em_pre.grid, sp_trailing(fpsg)),
                            ),
                        decreases count - c,
                    {
                        let ghost prev = steps_view(steps@);
                        let f = em.get_frame();
                        steps.push(Step { frame: f, dur_us: trailing });
                        c = c + 1;
                        proof {
                            assert(steps_view(steps@) =~~= prev.push(
                                (em_pre.grid, sp_trailing(fpsg)),
                            ));
                            assert(Seq::new(c as nat, |q: int| (em_pre.grid, sp_trailing(fpsg)))
                                =~~= Seq::new(
                                (c - 1) as nat,
                                |q: int| (em_pre.grid, sp_trailing(fpsg)),
                            ).push((em_pre.grid, sp_trailing(fpsg))));
                            assert(steps_view(steps@) =~~= pre + Seq::new(
                                c as nat,
                                |q: int| (em_pre.grid, sp_trailing(fpsg)),
                            ));
                        }
                    }
                }
                let ghost em_mid = em@;
                match e.event_type {
                    EventType::Output => {
                        em.process(e.data.as_slice());
                    },
                    _ => {},
                }
                proof {
                    assert(evs[i as int].data == events@[i as int].data@);
                    lemma_feed_dims(em_mid, events@[i as int].data@);
                    assert(em@ == sp_apply(em_mid, evs[i as int]));
                }
                last = e.time_us;
                i = i + 1;
                proof {
                    if !is_fixed {
                        assert(steps_view(steps@) + sp_original(em@, evs, i as int, last as int, sp, idle, fpsg)
                            =~~= sp_original(s0, evs, 0, last0, sp, idle, fpsg));
                    } else {
                        assert(steps_view(steps@) + sp_fixed(em@, evs, i as int, last as int, sp, idle, fpsg)
                            =~~= sp_fixed(s0, evs, 0, last0, sp, idle, fpsg));
                    }
                }
            }
            let f = em.get_frame();
            steps.push(Step { frame: f, dur_us: trailing });
            proof {
                if !is_fixed {
                    assert(steps_view(steps@) =~~= sp_original(s0, evs, 0, last0, sp, idle, fpsg));
                } else {
                    assert(steps_view(steps@) =~~= sp_fixed(s0, evs, 0, last0, sp, idle, fpsg));
                }
            }
        },
    }
    steps
}

} // verus!
