//! The configuration surface consumed by the core: timing and rendering
//! options.  Times are integer microseconds, the speed a multiplier in
//! thousandths, the line height a multiplier in hundredths.

use vstd::prelude::*;

use crate::timeline::Timeline;

verus! {

/// The options of one conversion.
#[derive(Clone, Copy, Debug)]
pub struct Config {
    pub speed_milli: u32,
    pub fps: u8,
    pub font_size: u8,
    pub line_height_centi: u32,
    pub cols: Option<u16>,
    pub rows: Option<u16>,
    pub idle_time_limit_us: Option<i64>,
    pub loop_enable: bool,
    pub at_us: Option<i64>,
    pub from_us: Option<i64>,
    pub to_us: Option<i64>,
    pub no_cursor: bool,
    pub window: bool,
    pub padding: u16,
    pub padding_x: Option<u16>,
    pub padding_y: Option<u16>,
    pub timeline: Timeline,
}

impl Config {
    /// The horizontal padding: the axis override, or the common padding.
    pub fn effective_padding_x(&self) -> (p: u16)
        ensures
            p == match self.padding_x {
                Some(v) => v,
                None => self.padding,
            },
    {
        match self.padding_x {
            Some(v) => v,
            None => self.padding,
        }
    }

    /// The vertical padding: the axis override, or the common padding.
    pub fn effective_padding_y(&self) -> (p: u16)
        ensures
            p == match self.padding_y {
                Some(v) => v,
                None => self.padding,
            },
    {
        match self.padding_y {
            Some(v) => v,
            None => self.padding,
        }
    }

    /// The defaults: real-time speed, 30 fps, 14px font, 1.4 line height,
    /// looping on, no window, 10px padding, per-event timing.
    pub fn default_config() -> (c: Config)
        ensures
            c.speed_milli == 1000,
            c.fps == 30,
            c.font_size == 14,
            c.line_height_centi == 140,
            c.cols.is_none() && c.rows.is_none(),
            c.idle_time_limit_us.is_none(),
            c.loop_enable,
            c.at_us.is_none() && c.from_us.is_none() && c.to_us.is_none(),
            !c.no_cursor,
            !c.window,
            c.padding == 10,
            c.padding_x.is_none() && c.padding_y.is_none(),
            c.timeline == Timeline::Original,
    {
        Config {
            speed_milli: 1000,
            fps: 30,
            font_size: 14,
            line_height_centi: 140,
            cols: None,
            rows: None,
            idle_time_limit_us: None,
            loop_enable: true,
            at_us: None,
            from_us: None,
            to_us: None,
            no_cursor: false,
            window: false,
            padding: 10,
            padding_x: None,
            padding_y: None,
            timeline: Timeline::Original,
        }
    }
}

} // verus!
