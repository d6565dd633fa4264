//! End-to-end and component tests of the cast-to-SVG pipeline.

use asg::cast::{parse, CastError, EventType};
use asg::cell::default_cell;
use asg::color::Rgb;
use asg::config::Config;
use asg::grid::Frame;
use asg::render::SvgRenderer;
use asg::term::Emulator;
use asg::theme::{Theme, ThemeError};
use asg::timeline::{build_timeline, filter_events, Timeline, TimingConfig};

fn row_string(f: &Frame, r: usize) -> String {
    let mut s = String::new();
    for c in 0..f.width {
        s.push(f.get_cell(r, c).unwrap().ch);
    }
    s
}

fn tc(fps: u8) -> TimingConfig {
    TimingConfig {
        speed_milli: 1000,
        fps,
        idle_limit_us: None,
        from_us: None,
        to_us: None,
        at_us: None,
        mode: Timeline::Original,
        is_zsh: false,
    }
}

#[test]
fn cursor_stays_in_bounds() {
    let mut em = Emulator::new(4, 3);
    em.process(b"abcdefghij\x1b[10;20H\x1b[5A\x1b[9C\n\n\n\x08\t\r");
    assert!(em.cursor_row() < 3);
    assert!(em.cursor_col() < 4);
}

#[test]
fn grid_shape_is_stable() {
    let mut em = Emulator::new(5, 2);
    em.process(b"\x1b[2J\x1b[H12345678\x1b]0;t\x07\xff\xfe");
    let f = em.get_frame();
    assert_eq!(f.height, 2);
    assert_eq!(f.width, 5);
    for r in 0..2 {
        for c in 0..5 {
            assert!(f.get_cell(r, c).is_some());
        }
    }
}

#[test]
fn sgr_reset_restores_defaults() {
    let mut em = Emulator::new(10, 2);
    em.process(b"\x1b[1;3;4;31m\x1b[48;5;196m");
    em.process(b"\x1b[0m");
    assert_eq!(em.fg(), Rgb { r: 204, g: 204, b: 204 });
    assert_eq!(em.bg(), Rgb { r: 0, g: 0, b: 0 });
    assert_eq!(em.styles(), (false, false, false));
}

#[test]
fn sgr_then_reset_equals_reset_alone() {
    let mut a = Emulator::new(8, 2);
    a.process(b"\x1b[1;31;4m\x1b[0m");
    let mut b = Emulator::new(8, 2);
    b.process(b"\x1b[0m");
    assert_eq!(a.fg(), b.fg());
    assert_eq!(a.bg(), b.bg());
    assert_eq!(a.styles(), b.styles());
    assert_eq!(a.cursor_row(), b.cursor_row());
    assert_eq!(a.cursor_col(), b.cursor_col());
}

#[test]
fn clear_screen_yields_fresh_grid() {
    let mut em = Emulator::new(6, 3);
    em.process(b"hello\r\nworld\x1b[31mzzz");
    em.process(b"\x1b[2J");
    let f = em.get_frame();
    let fresh = Frame::new(6, 3);
    for r in 0..3 {
        for c in 0..6 {
            assert_eq!(f.get_cell(r, c).unwrap(), fresh.get_cell(r, c).unwrap());
        }
    }
}

#[test]
fn chunked_feeding_matches_single_feed() {
    let bytes: &[u8] = b"ab\x1b[1;33mcd\xf0\x9f\x98\x80e\x1b[2;2Hf";
    let mut a = Emulator::new(5, 3);
    a.process(bytes);
    for cut in 0..bytes.len() {
        let mut b = Emulator::new(5, 3);
        b.process(&bytes[..cut]);
        b.process(&bytes[cut..]);
        let fa = a.get_frame();
        let fb = b.get_frame();
        for r in 0..3 {
            assert_eq!(row_string(&fa, r), row_string(&fb, r));
        }
        assert_eq!(a.cursor_row(), b.cursor_row());
        assert_eq!(a.cursor_col(), b.cursor_col());
    }
}

#[test]
fn wrap_at_last_column() {
    let mut em = Emulator::new(3, 3);
    em.process(b"abc");
    assert_eq!(em.cursor_row(), 1);
    assert_eq!(em.cursor_col(), 0);
    assert_eq!(row_string(&em.get_frame(), 0), "abc");
}

#[test]
fn scroll_on_full_last_row() {
    let mut em = Emulator::new(3, 2);
    em.process(b"abc");
    // cursor now at the start of the last row
    em.process(b"def");
    // writing the last cell of the last row scrolled once
    let f = em.get_frame();
    assert_eq!(row_string(&f, 0), "def");
    assert_eq!(row_string(&f, 1), "   ");
    assert_eq!(em.cursor_row(), 1);
    assert_eq!(em.cursor_col(), 0);
}

#[test]
fn sgr_bold_then_color_uses_bright_variant() {
    // event [0.0, "o", "\u{1b}[1;31mX\u{1b}[0mY"] on a 10x2 grid
    let mut em = Emulator::new(10, 2);
    em.process(b"\x1b[1;31mX\x1b[0mY");
    let f = em.get_frame();
    let x = f.get_cell(0, 0).unwrap();
    assert_eq!(x.ch, 'X');
    assert_eq!(x.fg, Rgb { r: 255, g: 0, b: 0 });
    assert!(x.bold);
    let y = f.get_cell(0, 1).unwrap();
    assert_eq!(y.ch, 'Y');
    assert_eq!(y.fg, Rgb { r: 204, g: 204, b: 204 });
    assert!(!y.bold);
}

#[test]
fn color_table_values() {
    assert_eq!(asg::color::ansi_color_to_rgb(1, false), Rgb { r: 205, g: 0, b: 0 });
    assert_eq!(asg::color::ansi_color_to_rgb(1, true), Rgb { r: 255, g: 0, b: 0 });
    assert_eq!(asg::color::color_from_256(196), Rgb { r: 255, g: 0, b: 0 });
    assert_eq!(asg::color::color_from_256(232), Rgb { r: 8, g: 8, b: 8 });
    assert_eq!(asg::color::color_from_256(15), Rgb { r: 255, g: 255, b: 255 });
    let c = Rgb { r: 0x12, g: 0x34, b: 0x56 };
    assert_eq!(c.to_u32(), 0x12345600);
    assert_eq!(Rgb::from_u32(0x12345600), c);
}

#[test]
fn parse_plain_cast() {
    let input = b"{\"version\":2,\"width\":10,\"height\":2}\n[0.0,\"o\",\"hi\\n\"]\n[0.5,\"o\",\"world\"]\n";
    let (h, evs) = parse(input).unwrap();
    assert_eq!(h.version, 2);
    assert_eq!(h.width, 10);
    assert_eq!(h.height, 2);
    assert_eq!(evs.len(), 2);
    assert_eq!(evs[0].time_us, 0);
    assert_eq!(evs[1].time_us, 500000);
    assert_eq!(evs[0].event_type, EventType::Output);
    assert_eq!(evs[1].data, b"world".to_vec());
}

#[test]
fn parse_errors() {
    assert_eq!(parse(b"").unwrap_err(), CastError::Empty);
    assert_eq!(parse(b"\n  \n").unwrap_err(), CastError::Empty);
    assert_eq!(parse(b"not json\n").unwrap_err(), CastError::Header);
    assert_eq!(
        parse(b"{\"version\":1,\"width\":10,\"height\":2}\n").unwrap_err(),
        CastError::Version(1)
    );
}

#[test]
fn parse_skips_malformed_and_unknown_tags() {
    let input = b"{\"version\":2,\"width\":4,\"height\":2}\n[oops\n[0.1,\"x\",\"a\"]\n[0.2,\"i\",\"b\"]\n[0.3,\"r\",\"80x24\"]\n";
    let (_, evs) = parse(input).unwrap();
    assert_eq!(evs.len(), 3);
    assert_eq!(evs[0].event_type, EventType::Output);
    assert_eq!(evs[1].event_type, EventType::Input);
    assert_eq!(evs[2].event_type, EventType::Resize);
}

#[test]
fn plain_text_timeline() {
    let input = b"{\"version\":2,\"width\":10,\"height\":2}\n[0.0,\"o\",\"hi\\n\"]\n[0.5,\"o\",\"world\"]\n";
    let (h, evs) = parse(input).unwrap();
    let kept = filter_events(&evs, None, None, false);
    let mut cfg = tc(10);
    cfg.fps = 10;
    let steps = build_timeline(&kept, h.width as usize, h.height as usize, &cfg);
    assert_eq!(steps.len(), 3);
    let last = &steps[2].frame;
    assert_eq!(row_string(last, 0), "hi        ");
    assert_eq!(row_string(last, 1), "  world   ");
    let total: u64 = steps.iter().map(|s| s.dur_us).sum();
    assert_eq!(total, 500000 + 100000);
}

#[test]
fn osc_strip_filter() {
    let input = b"{\"version\":2,\"width\":10,\"height\":2}\n[0.0,\"o\",\"\\u001b]0;title\\u0007\"]\n[0.1,\"o\",\"a\"]\n";
    let (h, evs) = parse(input).unwrap();
    assert_eq!(evs.len(), 2);
    let kept = filter_events(&evs, None, None, false);
    assert_eq!(kept.len(), 1);
    let steps = build_timeline(&kept, h.width as usize, h.height as usize, &tc(10));
    let last = &steps[steps.len() - 1].frame;
    assert_eq!(last.get_cell(0, 0).unwrap().ch, 'a');
}

#[test]
fn fixed_fps_resampling() {
    let input = b"{\"version\":2,\"width\":10,\"height\":2}\n[0.25,\"o\",\"x\"]\n";
    let (h, evs) = parse(input).unwrap();
    let kept = filter_events(&evs, None, None, false);
    let mut cfg = tc(10);
    cfg.mode = Timeline::Fixed;
    let steps = build_timeline(&kept, h.width as usize, h.height as usize, &cfg);
    // ceil(0.25 * 10) = 3 blank snapshots, then the trailing frame
    assert_eq!(steps.len(), 4);
    for i in 0..3 {
        assert_eq!(steps[i].dur_us, 100000);
        assert_eq!(row_string(&steps[i].frame, 0), "          ");
    }
    assert_eq!(row_string(&steps[3].frame, 0), "x         ");
    let total: u64 = steps.iter().map(|s| s.dur_us).sum();
    assert!(total >= 400000);
}

#[test]
fn empty_window_yields_single_trailing_frame() {
    let input = b"{\"version\":2,\"width\":4,\"height\":2}\n[1.0,\"o\",\"abc\"]\n";
    let (h, evs) = parse(input).unwrap();
    // from > to keeps no event at all
    let kept = filter_events(&evs, Some(5_000_000), Some(2_000_000), false);
    assert_eq!(kept.len(), 0);
    let steps = build_timeline(&kept, h.width as usize, h.height as usize, &tc(10));
    assert_eq!(steps.len(), 1);
    assert_eq!(row_string(&steps[0].frame, 0), "    ");
}

#[test]
fn static_mode_before_all_events_is_blank() {
    let input = b"{\"version\":2,\"width\":4,\"height\":2}\n[1.0,\"o\",\"abc\"]\n";
    let (h, evs) = parse(input).unwrap();
    let kept = filter_events(&evs, None, None, false);
    let mut cfg = tc(10);
    cfg.at_us = Some(500_000);
    let steps = build_timeline(&kept, h.width as usize, h.height as usize, &cfg);
    assert_eq!(steps.len(), 1);
    assert_eq!(row_string(&steps[0].frame, 0), "    ");
    assert_eq!(row_string(&steps[0].frame, 1), "    ");
}

#[test]
fn looping_animation_chain() {
    let mut em = Emulator::new(4, 2);
    let f0 = em.get_frame();
    em.process(b"hi");
    let f1 = em.get_frame();
    let svg = SvgRenderer::new(4, 2)
        .with_loop_enable(true)
        .render(&vec![f0, f1], &vec![100000u64, 100000u64]);
    let text = String::from_utf8(svg).unwrap();
    assert!(text.contains("<animate id=\"f0\" attributeName=\"opacity\" begin=\"0s;f1.end\""));
    assert!(text.contains("<animate id=\"f1\" attributeName=\"opacity\" begin=\"f0.end\""));
}

#[test]
fn no_loop_first_frame_starts_at_zero() {
    let em = Emulator::new(4, 2);
    let f0 = em.get_frame();
    let svg = SvgRenderer::new(4, 2)
        .with_loop_enable(false)
        .render(&vec![f0], &vec![100000u64]);
    let text = String::from_utf8(svg).unwrap();
    assert!(text.contains("begin=\"0s\""));
    assert!(!text.contains(".end"));
}

#[test]
fn frame_group_count_matches_frames() {
    let mut em = Emulator::new(4, 2);
    em.process(b"a");
    let f = em.get_frame();
    let frames = vec![f.snapshot(), f.snapshot(), f.snapshot()];
    let svg = SvgRenderer::new(4, 2).render(&frames, &vec![1, 2, 3]);
    let text = String::from_utf8(svg).unwrap();
    assert_eq!(text.matches("<g class=\"frame\">").count(), 3);
    // durations floored at one microsecond, printed with six decimals
    assert!(text.contains("dur=\"0.000001s\""));
    assert!(text.contains("dur=\"0.000003s\""));
}

#[test]
fn renderer_layout_and_styles() {
    let mut em = Emulator::new(10, 2);
    em.process(b"\x1b[1;31mX\x1b[0m\x1b[44m Y");
    let f = em.get_frame();
    let svg = SvgRenderer::new(10, 2).render(&vec![f], &vec![100000]);
    let text = String::from_utf8(svg).unwrap();
    // canvas: 10 * 8.4 + 20 = 104; 2 * 19.6 + 20 = 59.2
    assert!(text.starts_with("<svg xmlns=\"http://www.w3.org/2000/svg\" width=\"104\" height=\"59.2\" viewBox=\"0 0 104 59\">"));
    assert!(text.contains("font-size: 14px;"));
    assert!(text.contains("fill=\"#121314\""));
    assert!(text.contains("font-weight=\"bold\""));
    assert!(text.contains("fill=\"#ff0000\""));
    // the blue background run starting at column 1 (x = 8.4)
    assert!(text.contains("<rect x=\"8.4\" y=\"0\" width=\"16.8\" height=\"19.6\" fill=\"#0000ee\"/>"));
}

#[test]
fn theme_parsing() {
    let t = Theme::from_str(
        "121314,cccccc,000000,dd3c69,4ebf22,ddaf3c,26b0d7,b954e1,54e1b9,d9d9d9,4d4d4d,dd3c69,4ebf22,ddaf3c,26b0d7,b954e1,54e1b9,ffffff",
    )
    .unwrap();
    assert_eq!(t.bg, Rgb { r: 0x12, g: 0x13, b: 0x14 });
    assert_eq!(t.fg, Rgb { r: 0xcc, g: 0xcc, b: 0xcc });
    assert_eq!(t.palette[1], Rgb { r: 0xdd, g: 0x3c, b: 0x69 });
    assert_eq!(t.get_color(15), Rgb { r: 0xff, g: 0xff, b: 0xff });
    assert_eq!(t.get_color(200), t.fg);
    assert_eq!(Theme::from_str("121314,cccccc").unwrap_err(), ThemeError::WrongCount);
    assert_eq!(
        Theme::from_str("12131x,cccccc,000000,dd3c69,4ebf22,ddaf3c,26b0d7,b954e1,54e1b9,d9d9d9,4d4d4d,dd3c69,4ebf22,ddaf3c,26b0d7,b954e1,54e1b9,ffffff").unwrap_err(),
        ThemeError::BadColor
    );
    // leading hashes and surrounding spaces are tolerated
    let t2 = Theme::from_str(
        " #ff0000 ,#00ff00,000000,dd3c69,4ebf22,ddaf3c,26b0d7,b954e1,54e1b9,d9d9d9,4d4d4d,dd3c69,4ebf22,ddaf3c,26b0d7,b954e1,54e1b9,ffffff",
    )
    .unwrap();
    assert_eq!(t2.bg, Rgb { r: 255, g: 0, b: 0 });
}

#[test]
fn zsh_prompt_filter() {
    let input = b"{\"version\":2,\"width\":4,\"height\":2,\"env\":{\"SHELL\":\"/bin/zsh\"}}\n[0.0,\"o\",\"\\u001b[1m%\\u001b[0m  \\r\"]\n[0.1,\"o\",\"ok\"]\n";
    let (h, evs) = parse(input).unwrap();
    let zsh = asg::driver::is_zsh(&h);
    assert!(zsh);
    let kept = filter_events(&evs, None, None, zsh);
    assert_eq!(kept.len(), 1);
    assert_eq!(kept[0].data, b"ok".to_vec());
}

#[test]
fn strip_ansi_removes_sequences() {
    let out = asg::filter::strip_ansi(b"\x1b[1;31mred\x1b[0m \x1b]0;t\x07plain\x1bMx");
    assert_eq!(out, b"red plainx".to_vec());
}

#[test]
fn session_footers_are_stripped() {
    assert!(asg::filter::should_strip_system_output(b"  Saving session...  ", false));
    assert!(asg::filter::should_strip_system_output(b"completed.\r\n", false));
    assert!(asg::filter::should_strip_system_output(b"\x1b]0;title\x07", false));
    assert!(!asg::filter::should_strip_system_output(b"hello", false));
    assert!(asg::filter::should_strip_system_output(b"\x1b[1m%\x1b[0m \r", true));
    assert!(!asg::filter::should_strip_system_output(b"\x1b[1m%\x1b[0m \r", false));
}

#[test]
fn header_extras_are_read() {
    let input = b"{\"version\":2,\"width\":4,\"height\":2,\"timestamp\":1000,\"idle_time_limit\":2.5,\"title\":\"demo\",\"theme\":{\"bg\":1193046016,\"fg\":13421772800,\"palette\":[0,0,0,0,0,0,0,0,0,0,0,0,0,0,0,0]},\"extra\":{\"x\":[1,2,{}]}}\n";
    // fg above is out of u32 range, so the header is rejected
    assert_eq!(parse(input).unwrap_err(), CastError::Header);
    let ok = b"{\"version\":2,\"width\":4,\"height\":2,\"idle_time_limit\":2.5,\"theme\":{\"bg\":305419776,\"fg\":3435973632,\"palette\":[0,0,0,0,0,0,0,0,0,0,0,0,0,0,0,0]},\"extra\":[null,true,false,\"s\"]}\n";
    let (h, _) = parse(ok).unwrap();
    assert_eq!(h.idle_time_limit_us, Some(2_500_000));
    let theme = h.theme.unwrap();
    assert_eq!(theme.bg, Rgb { r: 0x12, g: 0x34, b: 0x56 });
    assert_eq!(theme.fg, Rgb { r: 0xcc, g: 0xcc, b: 0xcc });
}

#[test]
fn default_cell_and_cursor() {
    let c = default_cell();
    assert_eq!(c.ch, ' ');
    assert_eq!(c.fg, Rgb { r: 204, g: 204, b: 204 });
    assert_eq!(c.bg, Rgb { r: 0, g: 0, b: 0 });
    let cur = asg::term::Cursor::new();
    assert_eq!((cur.row, cur.col), (0, 0));
    let fi = asg::input::FileInput::new("a.cast".to_string());
    assert_eq!(fi.path, "a.cast");
    let ri = asg::input::RemoteInput::new("123".to_string(), None);
    assert_eq!(ri.server, "https://asciinema.org");
}

#[test]
fn event_iterator_walks_lines() {
    let lines: Vec<Vec<u8>> = vec![
        b"[0.0,\"o\",\"a\"]".to_vec(),
        b"".to_vec(),
        b"bad".to_vec(),
        b"[1.0,\"i\",\"b\"]".to_vec(),
    ];
    let mut it = asg::cast::EventIterator::new(lines, 0);
    let e1 = it.next_event().unwrap();
    assert_eq!(e1.data, b"a".to_vec());
    let e2 = it.next_event().unwrap();
    assert_eq!(e2.event_type, EventType::Input);
    assert!(it.next_event().is_none());
}

#[test]
fn config_padding_defaults() {
    let mut c = Config::default_config();
    assert_eq!(c.effective_padding_x(), 10);
    c.padding_x = Some(3);
    assert_eq!(c.effective_padding_x(), 3);
    assert_eq!(c.effective_padding_y(), 10);
}
