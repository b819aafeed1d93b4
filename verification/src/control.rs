//! Per-tick decisions of the reconciliation loop: audio-quiet hysteresis,
//! the dimmer-integration pause policy and its daily on/off transition, the
//! config-reload policy, and the per-device directive that combines the
//! configuration lookup, schedule evaluation, and brightness scaling.

use vstd::prelude::*;

use crate::schedule::{
    calc_led_state_scheduled, dim_of, eval_invalid, preset_of, scale_brightness, scale_spec,
};
use crate::types::{
    CfgChangeAction, Config, DayContext, LEDBrightnessConfig, LEDScheduleSpec, ScheduleTime,
    WLEDSchedule, DIM_SCALE,
};

verus! {

// ------------------------------------------------------------------
// Association-list lookups of the configuration
// ------------------------------------------------------------------

/// The value bound to the first entry named `name`, if any.
pub open spec fn assoc_lookup<V>(s: Seq<(String, V)>, name: Seq<char>) -> Option<V>
    decreases s.len(),
{
    if s.len() == 0 {
        Option::None
    } else if s[0].0@ == name {
        Option::Some(s[0].1)
    } else {
        assoc_lookup(s.drop_first(), name)
    }
}

proof fn lemma_assoc_at<V>(s: Seq<(String, V)>, name: Seq<char>, k: int)
    requires
        0 <= k < s.len(),
        s[k].0@ == name,
        forall|j: int| 0 <= j < k ==> (#[trigger] s[j]).0@ != name,
    ensures
        assoc_lookup(s, name) == Option::Some(s[k].1),
    decreases s.len(),
{
    if k > 0 {
        lemma_assoc_at(s.drop_first(), name, k - 1);
    }
}

proof fn lemma_assoc_none<V>(s: Seq<(String, V)>, name: Seq<char>)
    requires
        forall|j: int| 0 <= j < s.len() ==> (#[trigger] s[j]).0@ != name,
    ensures
        assoc_lookup(s, name) is None,
    decreases s.len(),
{
    if s.len() > 0 {
        lemma_assoc_none(s.drop_first(), name);
    }
}

/// A found value is one of the list's entries.
pub proof fn lemma_assoc_props<V>(s: Seq<(String, V)>, name: Seq<char>)
    ensures
        match assoc_lookup(s, name) {
            Option::Some(v) => exists|i: int|
                0 <= i < s.len() && (#[trigger] s[i]).0@ == name && s[i].1 == v,
            Option::None => true,
        },
    decreases s.len(),
{
    if s.len() > 0 && s[0].0@ != name {
        lemma_assoc_props(s.drop_first(), name);
        let s1 = s.drop_first();
        match assoc_lookup(s1, name) {
            Option::Some(v) => {
                let i = choose|i: int|
                    0 <= i < s1.len() && (#[trigger] s1[i]).0@ == name && s1[i].1 == v;
                assert(s[i + 1].0@ == name && s[i + 1].1 == v);
            }
            Option::None => {}
        }
    }
}

/// Find the first entry named `name` in an association list.
fn assoc_find<'a, V>(s: &'a Vec<(String, V)>, name: &String) -> (r: Option<&'a V>)
    ensures
        match r {
            Option::Some(v) => assoc_lookup(s@, name@) == Option::Some(*v),
            Option::None => assoc_lookup(s@, name@) is None,
        },
{
    let mut k: usize = 0;
    while k < s.len()
        invariant
            0 <= k <= s@.len(),
            forall|j: int| 0 <= j < k ==> (#[trigger] s@[j]).0@ != name@,
        decreases s@.len() - k,
    {
        if s[k].0 == *name {
            proof {
                lemma_assoc_at(s@, name@, k as int);
            }
            return Option::Some(&s[k].1);
        }
        k += 1;
    }
    proof {
        lemma_assoc_none(s@, name@);
    }
    Option::None
}

/// The name a schedule reference resolves to: the built-in name for
/// `Default`, the given one for `ByName`, none for an unmanaged device.
pub open spec fn spec_ref_name(r: LEDScheduleSpec) -> Option<Seq<char>> {
    match r {
        LEDScheduleSpec::Default => Option::Some("default"@),
        LEDScheduleSpec::ByName(n) => Option::Some(n@),
        LEDScheduleSpec::Unmanaged => Option::None,
    }
}

/// Resolve a schedule reference to the name to look up.
pub fn schedule_ref_name(r: &LEDScheduleSpec) -> (n: Option<String>)
    ensures
        match n {
            Option::Some(s) => spec_ref_name(*r) == Option::Some(s@),
            Option::None => spec_ref_name(*r) is None,
        },
{
    match r {
        LEDScheduleSpec::Default => Option::Some("default".to_owned()),
        LEDScheduleSpec::ByName(n) => Option::Some(n.clone()),
        LEDScheduleSpec::Unmanaged => Option::None,
    }
}

// ------------------------------------------------------------------
// Per-device directive
// ------------------------------------------------------------------

/// A dim fraction forced into the fraction scale.
pub open spec fn clamp_dim(d: u32) -> u32 {
    if d > DIM_SCALE {
        DIM_SCALE
    } else {
        d
    }
}

/// What one tick decides for one device.
#[derive(Clone, Copy, Debug, PartialEq, Eq)]
pub enum DeviceDirective {
    /// The device has no brightness configuration; counted, nothing sent.
    NoConfig,
    /// The device is configured as unmanaged; nothing is sent.
    Unmanaged,
    /// The referenced named schedule does not exist: an error for this
    /// device alone, which is skipped for the cycle.
    UnknownSchedule,
    /// Push this state: the preset (when one is active and after the
    /// read-before-write guard), and always the scaled brightness byte.
    /// `schedule_invalid` reports a malformed schedule, whose safe default
    /// (dim fraction zero, no preset) is what the fields then carry.
    Apply { preset: Option<u16>, brightness: u8, schedule_invalid: bool },
}

/// The directive for device `name` at instant `now`: look up its
/// brightness configuration, resolve its schedule reference, evaluate the
/// schedule, and scale the (clamped) dim fraction into the device's byte
/// range.
pub open spec fn plan_device_spec(
    cfg: Config,
    name: Seq<char>,
    ctx: DayContext,
    now: i64,
) -> DeviceDirective {
    match assoc_lookup(cfg.leds@, name) {
        Option::None => DeviceDirective::NoConfig,
        Option::Some(bc) => match spec_ref_name(bc.schedule) {
            Option::None => DeviceDirective::Unmanaged,
            Option::Some(sname) => match assoc_lookup(cfg.schedule@, sname) {
                Option::None => DeviceDirective::UnknownSchedule,
                Option::Some(sched) => {
                    let invalid = eval_invalid(sched@, ctx);
                    let dim = if invalid {
                        0
                    } else {
                        clamp_dim(dim_of(sched@, ctx, now))
                    };
                    let preset = if invalid {
                        Option::None
                    } else {
                        preset_of(sched@, ctx, now)
                    };
                    DeviceDirective::Apply {
                        preset,
                        brightness: scale_spec(bc.min_bri, bc.max_bri, dim) as u8,
                        schedule_invalid: invalid,
                    }
                },
            },
        },
    }
}

/// Decide what to push to device `name` this tick.
pub fn plan_device(cfg: &Config, name: &String, now: i64, ctx: &DayContext) -> (d:
    DeviceDirective)
    requires
        ctx.wf(),
        cfg.wf(),
    ensures
        d == plan_device_spec(*cfg, name@, *ctx, now),
{
    let bc = match assoc_find(&cfg.leds, name) {
        Option::Some(bc) => bc,
        Option::None => {
            return DeviceDirective::NoConfig;
        }
    };
    proof {
        lemma_assoc_props(cfg.leds@, name@);
    }
    assert(bc.wf());
    let sname = match schedule_ref_name(&bc.schedule) {
        Option::Some(sname) => sname,
        Option::None => {
            return DeviceDirective::Unmanaged;
        }
    };
    let sched = match assoc_find(&cfg.schedule, &sname) {
        Option::Some(sched) => sched,
        Option::None => {
            return DeviceDirective::UnknownSchedule;
        }
    };
    let (dim, preset, schedule_invalid): (u32, Option<u16>, bool) = match calc_led_state_scheduled(
        now,
        ctx,
        sched,
    ) {
        Result::Ok(st) => {
            let d = if st.dim > DIM_SCALE {
                DIM_SCALE
            } else {
                st.dim
            };
            (d, st.preset, false)
        }
        Result::Err(_) => (0, Option::None, true),
    };
    let brightness = scale_brightness(bc.min_bri, bc.max_bri, dim);
    DeviceDirective::Apply { preset, brightness, schedule_invalid }
}

// ------------------------------------------------------------------
// Loop state: audio hysteresis, dimmer integration, reload policy
// ------------------------------------------------------------------

/// The quiet-cycle count after one tick: reset while audio plays, else
/// counted up and clamped to one past the idle threshold.
pub open spec fn quiet_cycles_spec(quiet: usize, playing: bool, idle_cycles: usize) -> int {
    if playing {
        0
    } else if quiet > idle_cycles {
        idle_cycles + 1
    } else {
        quiet + 1
    }
}

/// Update the count of consecutive quiet evaluation cycles from the shared
/// "is audio playing" flag.
pub fn update_quiet_cycles(quiet: usize, playing: bool, idle_cycles: usize) -> (q: usize)
    requires
        quiet <= idle_cycles + 1,
        idle_cycles < usize::MAX,
    ensures
        q == quiet_cycles_spec(quiet, playing, idle_cycles),
        q <= idle_cycles + 1,
{
    if playing {
        0
    } else {
        if quiet > idle_cycles {
            idle_cycles + 1
        } else {
            quiet + 1
        }
    }
}

/// Whether the dimmer integration must be paused: quiet long enough, or
/// disabled by the toggle or its daily schedule.
pub open spec fn should_pause_spec(quiet: usize, idle_cycles: usize, enabled: bool) -> bool {
    quiet >= idle_cycles || !enabled
}

/// Whether toggling the integration's pause state is needed at all: only
/// when its reported state differs from the wanted one.
pub fn playpause_needed(paused: bool, want_pause: bool) -> (toggle: bool)
    ensures
        toggle == (paused != want_pause),
{
    paused != want_pause
}

/// The next daily transition of the dimmer integration: whichever bound of
/// its on/off window comes first decides whether the window is ahead
/// (enable at `from`) or open (disable at `until`).
pub open spec fn next_transition_spec(cfg: Config, ctx: DayContext) -> Option<(ScheduleTime, bool)> {
    match cfg.ledfx_schedule {
        Option::None => Option::None,
        Option::Some(ls) => {
            if ls.from.resolve_spec(ctx) < ls.until.resolve_spec(ctx) {
                Option::Some((ls.from, true))
            } else {
                Option::Some((ls.until, false))
            }
        },
    }
}

impl Config {
    /// Compute the next enable/disable transition of the dimmer
    /// integration from its configured daily window.
    pub fn next_ledfx_transition(&self, ctx: &DayContext) -> (r: Option<(ScheduleTime, bool)>)
        requires
            ctx.wf(),
        ensures
            r == next_transition_spec(*self, *ctx),
    {
        match &self.ledfx_schedule {
            Option::None => Option::None,
            Option::Some(ls) => {
                let from_ts = ls.from.to_timestamp(ctx);
                let until_ts = ls.until.to_timestamp(ctx);
                if from_ts < until_ts {
                    Option::Some((ls.from, true))
                } else {
                    Option::Some((ls.until, false))
                }
            }
        }
    }
}

/// The process-lifetime state the reconciliation loop threads through its
/// ticks.
#[derive(Clone, Copy, Debug, PartialEq, Eq)]
pub struct ControlLoopState {
    /// Consecutive ticks without audio activity.
    pub quiet_cycles: usize,
    /// The dimmer integration's enable toggle (tray/UI and schedule).
    pub ledfx_enabled: bool,
    /// The next scheduled flip of `ledfx_enabled`, if one is configured.
    pub next_transition: Option<(ScheduleTime, bool)>,
    /// What to do at the next cycle boundary after a config-file change.
    pub pending_action: CfgChangeAction,
}

impl ControlLoopState {
    /// The state a fresh process starts from: nothing heard yet, the
    /// integration enabled, the first transition computed from the
    /// configuration.
    pub fn init(cfg: &Config, ctx: &DayContext) -> (s: ControlLoopState)
        requires
            ctx.wf(),
        ensures
            s.quiet_cycles == 0,
            s.ledfx_enabled,
            s.next_transition == next_transition_spec(*cfg, *ctx),
            s.pending_action == CfgChangeAction::No,
    {
        ControlLoopState {
            quiet_cycles: 0,
            ledfx_enabled: true,
            next_transition: cfg.next_ledfx_transition(ctx),
            pending_action: CfgChangeAction::No,
        }
    }

    /// Absorb this tick's "is audio playing" flag into the quiet-cycle
    /// count; nothing else moves.
    pub fn note_audio(&mut self, playing: bool, idle_cycles: usize)
        requires
            old(self).quiet_cycles <= idle_cycles + 1,
            idle_cycles < usize::MAX,
        ensures
            final(self).quiet_cycles == quiet_cycles_spec(
                old(self).quiet_cycles,
                playing,
                idle_cycles,
            ),
            final(self).quiet_cycles <= idle_cycles + 1,
            final(self).ledfx_enabled == old(self).ledfx_enabled,
            final(self).next_transition == old(self).next_transition,
            final(self).pending_action == old(self).pending_action,
    {
        self.quiet_cycles = update_quiet_cycles(self.quiet_cycles, playing, idle_cycles);
    }

    /// Fire the scheduled enable/disable transition once its time has
    /// passed: flip the toggle to the scheduled state and recompute the
    /// next transition; otherwise nothing moves.
    pub fn check_transition(&mut self, now: i64, cfg: &Config, ctx: &DayContext)
        requires
            ctx.wf(),
        ensures
            match old(self).next_transition {
                Option::Some((t, en)) => {
                    if t.resolve_spec(*ctx) < now {
                        &&& final(self).ledfx_enabled == en
                        &&& final(self).next_transition == next_transition_spec(*cfg, *ctx)
                    } else {
                        &&& final(self).ledfx_enabled == old(self).ledfx_enabled
                        &&& final(self).next_transition == old(self).next_transition
                    }
                },
                Option::None => {
                    &&& final(self).ledfx_enabled == old(self).ledfx_enabled
                    &&& final(self).next_transition == old(self).next_transition
                },
            },
            final(self).quiet_cycles == old(self).quiet_cycles,
            final(self).pending_action == old(self).pending_action,
    {
        match self.next_transition {
            Option::Some((t, en)) => {
                let ts = t.to_timestamp(ctx);
                if ts < now {
                    self.ledfx_enabled = en;
                    self.next_transition = cfg.next_ledfx_transition(ctx);
                }
            }
            Option::None => {}
        }
    }

    /// Whether the dimmer integration must be paused this tick.
    pub fn should_pause(&self, idle_cycles: usize) -> (p: bool)
        ensures
            p == should_pause_spec(self.quiet_cycles, idle_cycles, self.ledfx_enabled),
    {
        self.quiet_cycles >= idle_cycles || !self.ledfx_enabled
    }
}

// ------------------------------------------------------------------
// Config reload policy
// ------------------------------------------------------------------

/// Equality of optional strings by their characters.
pub open spec fn opt_string_eq(a: Option<String>, b: Option<String>) -> bool {
    match (a, b) {
        (Option::None, Option::None) => true,
        (Option::Some(x), Option::Some(y)) => x@ == y@,
        _ => false,
    }
}

/// After a reload, changes to the logging and tray-icon settings take no
/// effect without a restart; say whether that warning is owed.
pub fn reload_warning_needed(old_cfg: &Config, new_cfg: &Config) -> (w: bool)
    ensures
        w == (old_cfg.loglevel != new_cfg.loglevel || !opt_string_eq(
            old_cfg.logfile,
            new_cfg.logfile,
        ) || old_cfg.tray_icon != new_cfg.tray_icon),
{
    let logfile_same = match (&old_cfg.logfile, &new_cfg.logfile) {
        (Option::None, Option::None) => true,
        (Option::Some(x), Option::Some(y)) => *x == *y,
        _ => false,
    };
    old_cfg.loglevel != new_cfg.loglevel || !logfile_same || old_cfg.tray_icon
        != new_cfg.tray_icon
}

// ------------------------------------------------------------------
// Config file location
// ------------------------------------------------------------------

/// The configuration file a run uses: the path given on the command line,
/// or the default file under the user's home directory.
pub fn calc_actual_config_file(cfg_path: Option<String>, home_dir: &str) -> (r: String)
    ensures
        match cfg_path {
            Option::Some(p) => r@ == p@,
            Option::None => r@ == home_dir@ + "/.wled-doppler/config.ron"@,
        },
{
    match cfg_path {
        Option::Some(p) => p,
        Option::None => {
            let mut r = home_dir.to_owned();
            r.append("/.wled-doppler/config.ron");
            r
        }
    }
}

} // verus!
