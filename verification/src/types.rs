//! Data model for schedules, per-device configuration, and the daemon
//! configuration.
//!
//! Brightness fractions are carried as thousandths in `0..=1000`; times of
//! day are seconds since local midnight; timestamps are epoch seconds; and
//! geographic coordinates are micro-degrees, so that every value the engine
//! computes with is a plain integer.

use vstd::prelude::*;

verus! {

/// Brightness fractions are measured in thousandths: 0 is one end of the
/// dimming range, `DIM_SCALE` the other.
pub const DIM_SCALE: u32 = 1000;

/// Seconds in one civil day; the period of the day-wrapping schedule.
pub const DAY_SECONDS: i64 = 86400;

/// Every epoch timestamp handed to the engine stays below this bound
/// (roughly the year 5138), which keeps all schedule arithmetic inside `i64`.
pub const EPOCH_BOUND: i64 = 100_000_000_000;

/// The per-day astronomical context for schedule resolution: the epoch
/// second of local midnight and the sunrise/sunset epoch seconds already
/// computed for that date.  Computing the pair once per evaluation pass is
/// what caches the astronomical calculation for the day.
#[derive(Clone, Copy, Debug, PartialEq, Eq, Structural)]
pub struct DayContext {
    /// Epoch second at which the reference date begins in local time.
    pub day_start: i64,
    /// Epoch second of sunrise on the reference date.
    pub sunrise: i64,
    /// Epoch second of sunset on the reference date.
    pub sunset: i64,
}

impl DayContext {
    /// All three timestamps are non-negative and bounded, so that offset
    /// and day-wrap arithmetic cannot overflow.
    pub open spec fn wf(self) -> bool {
        &&& 0 <= self.day_start <= EPOCH_BOUND
        &&& 0 <= self.sunrise <= EPOCH_BOUND
        &&& 0 <= self.sunset <= EPOCH_BOUND
    }
}

/// An abstract point in the day: an astronomical event, an offset from one,
/// or a fixed wall-clock time (seconds since local midnight).
#[derive(Clone, Copy, Debug, PartialEq, Eq, Structural)]
pub enum ScheduleTime {
    Sunrise,
    SunriseOffset(i16),
    Sunset,
    SunsetOffset(i16),
    Time(u32),
}

impl ScheduleTime {
    /// A fixed wall-clock time lies inside the day.
    pub open spec fn wf(self) -> bool {
        self matches ScheduleTime::Time(s) ==> s < DAY_SECONDS
    }

    /// The concrete epoch second this point denotes on the day described by
    /// `ctx`.
    pub open spec fn resolve_spec(self, ctx: DayContext) -> int {
        match self {
            ScheduleTime::Sunrise => ctx.sunrise as int,
            ScheduleTime::SunriseOffset(off) => ctx.sunrise + off,
            ScheduleTime::Sunset => ctx.sunset as int,
            ScheduleTime::SunsetOffset(off) => ctx.sunset + off,
            ScheduleTime::Time(s) => ctx.day_start + s,
        }
    }

    /// Resolve this schedule point to a concrete epoch second for the day
    /// described by `ctx`.
    pub fn to_timestamp(&self, ctx: &DayContext) -> (r: i64)
        requires
            ctx.wf(),
        ensures
            r == self.resolve_spec(*ctx),
    {
        match self {
            ScheduleTime::Sunrise => ctx.sunrise,
            ScheduleTime::SunriseOffset(off) => ctx.sunrise + (*off as i64),
            ScheduleTime::Sunset => ctx.sunset,
            ScheduleTime::SunsetOffset(off) => ctx.sunset + (*off as i64),
            ScheduleTime::Time(s) => ctx.day_start + (*s as i64),
        }
    }
}

/// The state change a schedule point requests: a brightness fraction in
/// thousandths, a preset id, a power state, or nothing.
///
/// Power points are carried through the data model, but no configuration
/// path populates them and evaluation never yields a power decision.
#[derive(Clone, Copy, Debug, PartialEq, Eq, Structural)]
pub enum WLEDChange {
    Brightness(u32),
    Preset(u16),
    Power(bool),
    NoChange,
}

/// One time/change pair of a named schedule.
#[derive(Clone, Copy, Debug, PartialEq, Eq, Structural)]
pub struct WLEDScheduleItem {
    pub time: ScheduleTime,
    pub change: WLEDChange,
}

impl WLEDScheduleItem {
    /// The time is a valid time of day and a brightness change stays within
    /// the fraction scale.
    pub open spec fn wf(self) -> bool {
        &&& self.time.wf()
        &&& self.change matches WLEDChange::Brightness(b) ==> b <= DIM_SCALE
    }
}

impl Default for WLEDScheduleItem {
    /// Midnight, with no change attached.
    fn default() -> (d: Self)
        ensures
            d == (WLEDScheduleItem { time: ScheduleTime::Time(0), change: WLEDChange::NoChange }),
    {
        WLEDScheduleItem { time: ScheduleTime::Time(0), change: WLEDChange::NoChange }
    }
}

/// A named schedule: an ordered list of schedule points.
pub type WLEDSchedule = Vec<WLEDScheduleItem>;

/// Every item of the schedule is well formed.
pub open spec fn schedule_wf(s: Seq<WLEDScheduleItem>) -> bool {
    forall|i: int| 0 <= i < s.len() ==> #[trigger] s[i].wf()
}

/// Which named schedule, if any, manages a device's brightness.
#[derive(Clone, Debug, PartialEq, Eq)]
pub enum LEDScheduleSpec {
    Default,
    ByName(String),
    Unmanaged,
}

/// Per-device brightness configuration: the schedule reference and the byte
/// range the dim fraction is scaled into.
#[derive(Clone, Debug, PartialEq, Eq)]
pub struct LEDBrightnessConfig {
    pub schedule: LEDScheduleSpec,
    pub min_bri: u8,
    pub max_bri: u8,
}

impl LEDBrightnessConfig {
    /// The brightness range is not inverted.
    pub open spec fn wf(self) -> bool {
        self.min_bri <= self.max_bri
    }
}

impl Default for LEDBrightnessConfig {
    /// Unmanaged, with a modest default byte range.
    fn default() -> (d: LEDBrightnessConfig)
        ensures
            d == (LEDBrightnessConfig {
                schedule: LEDScheduleSpec::Unmanaged,
                min_bri: 20,
                max_bri: 128,
            }),
    {
        LEDBrightnessConfig { schedule: LEDScheduleSpec::Unmanaged, min_bri: 20, max_bri: 128 }
    }
}

/// What to do when the configuration file changes on disk.
#[derive(Clone, Copy, Debug, PartialEq, Eq, Structural)]
pub enum CfgChangeAction {
    No,
    Exit,
    Reload,
}

impl Default for CfgChangeAction {
    fn default() -> (d: Self)
        ensures
            d == CfgChangeAction::No,
    {
        CfgChangeAction::No
    }
}

/// Audio-capture settings; only the resulting "is anything playing" flag is
/// consumed by the engine.  The threshold is whole decibels.
#[derive(Clone, Debug, PartialEq, Eq)]
pub struct AudioConfig {
    pub input_device: String,
    pub jack: bool,
    pub ledfx_threshold_db: Option<i32>,
}

/// The daily on/off window for the external dimmer integration.
#[derive(Clone, Copy, Debug, PartialEq, Eq, Structural)]
pub struct LedfxSchedule {
    pub from: ScheduleTime,
    pub until: ScheduleTime,
}

/// The daemon configuration.  Coordinates are micro-degrees; the cycle
/// interval is milliseconds; association lists stand in for the named maps
/// of the on-disk format, looked up by first match.
#[derive(Clone, Debug)]
pub struct Config {
    pub lat_micro: i64,
    pub lon_micro: i64,
    pub leds: Vec<(String, LEDBrightnessConfig)>,
    pub loglevel: usize,
    pub logfile: Option<String>,
    pub audio_config: Option<AudioConfig>,
    pub ledfx_url: Option<String>,
    pub ledfx_idle_cycles: Option<usize>,
    pub cycle_millis: u64,
    pub schedule: Vec<(String, WLEDSchedule)>,
    pub restart_on_cfg_change: CfgChangeAction,
    pub tray_icon: bool,
    pub bind_address: Option<String>,
    pub config_path: Option<String>,
    pub ledfx_schedule: Option<LedfxSchedule>,
}

impl Config {
    /// Every per-device range and every named schedule is well formed.
    pub open spec fn wf(self) -> bool {
        &&& forall|i: int| 0 <= i < self.leds@.len() ==> (#[trigger] self.leds@[i].1).wf()
        &&& forall|i: int|
            0 <= i < self.schedule@.len() ==> schedule_wf((#[trigger] self.schedule@[i].1)@)
    }
}

/// The built-in schedule shipped under the name "default": full brightness
/// fraction at sunrise, a fifth of it at sunset.
pub fn default_schedule() -> (r: Vec<(String, WLEDSchedule)>)
    ensures
        r@.len() == 1,
        r@[0].0@ == "default"@,
        r@[0].1@ == seq![
            WLEDScheduleItem { time: ScheduleTime::Sunrise, change: WLEDChange::Brightness(1000) },
            WLEDScheduleItem { time: ScheduleTime::Sunset, change: WLEDChange::Brightness(200) },
        ],
{
    let mut items: Vec<WLEDScheduleItem> = Vec::new();
    items.push(WLEDScheduleItem { time: ScheduleTime::Sunrise, change: WLEDChange::Brightness(1000) });
    items.push(WLEDScheduleItem { time: ScheduleTime::Sunset, change: WLEDChange::Brightness(200) });
    let mut r: Vec<(String, WLEDSchedule)> = Vec::new();
    r.push(("default".to_owned(), items));
    assert(r@[0].1@ =~= seq![
        WLEDScheduleItem { time: ScheduleTime::Sunrise, change: WLEDChange::Brightness(1000) },
        WLEDScheduleItem { time: ScheduleTime::Sunset, change: WLEDChange::Brightness(200) },
    ]);
    r
}

impl Default for Config {
    /// The zero configuration, except that the built-in "default" schedule
    /// is present.
    fn default() -> (c: Self)
        ensures
            c.lat_micro == 0,
            c.lon_micro == 0,
            c.leds@.len() == 0,
            c.loglevel == 0,
            c.logfile is None,
            c.audio_config is None,
            c.ledfx_url is None,
            c.ledfx_idle_cycles is None,
            c.cycle_millis == 0,
            c.schedule@.len() == 1,
            c.schedule@[0].0@ == "default"@,
            c.schedule@[0].1@ == seq![
                WLEDScheduleItem {
                    time: ScheduleTime::Sunrise,
                    change: WLEDChange::Brightness(1000),
                },
                WLEDScheduleItem {
                    time: ScheduleTime::Sunset,
                    change: WLEDChange::Brightness(200),
                },
            ],
            c.restart_on_cfg_change == CfgChangeAction::No,
            !c.tray_icon,
            c.bind_address is None,
            c.config_path is None,
            c.ledfx_schedule is None,
    {
        Config {
            lat_micro: 0,
            lon_micro: 0,
            leds: Vec::new(),
            loglevel: 0,
            logfile: Option::None,
            audio_config: Option::None,
            ledfx_url: Option::None,
            ledfx_idle_cycles: Option::None,
            cycle_millis: 0,
            schedule: default_schedule(),
            restart_on_cfg_change: CfgChangeAction::No,
            tray_icon: false,
            bind_address: Option::None,
            config_path: Option::None,
            ledfx_schedule: Option::None,
        }
    }
}

} // verus!
