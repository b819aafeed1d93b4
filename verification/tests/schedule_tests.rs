use chrono::Datelike;
use wled_doppler::schedule::{calc_dim_pc, calc_led_state_scheduled, scale_brightness, ScheduleError};
use wled_doppler::types::{DayContext, ScheduleTime, WLEDChange, WLEDSchedule, WLEDScheduleItem};

/// A day context for an arbitrary fixed day starting at epoch second 0,
/// with sunrise at 06:00 and sunset at 20:00.
fn fixed_ctx() -> DayContext {
    DayContext {
        day_start: 0,
        sunrise: 6 * 3600,
        sunset: 20 * 3600,
    }
}

/// The day context for today at the given coordinates, built from the
/// local calendar and the astronomical calculation.
fn today_ctx(lat: f64, lon: f64) -> DayContext {
    let now = chrono::Local::now();
    let date = now.date_naive();
    let day_start = date
        .and_hms_opt(0, 0, 0)
        .unwrap()
        .and_local_timezone(chrono::Local)
        .unwrap()
        .timestamp();
    #[allow(deprecated)]
    let (sunrise, sunset) =
        sunrise::sunrise_sunset(lat, lon, date.year(), date.month(), date.day());
    DayContext { day_start, sunrise, sunset }
}

fn bri_item(h: u32, m: u32, thousandths: u32) -> WLEDScheduleItem {
    WLEDScheduleItem {
        time: ScheduleTime::Time(h * 3600 + m * 60),
        change: WLEDChange::Brightness(thousandths),
    }
}

fn preset_item(h: u32, id: u16) -> WLEDScheduleItem {
    WLEDScheduleItem { time: ScheduleTime::Time(h * 3600), change: WLEDChange::Preset(id) }
}

/// The four-point example schedule: 07:00 -> 0.2, 08:00 -> 0.8,
/// 19:00 -> 0.8, 20:00 -> 0.2 (fractions in thousandths).
fn example_schedule() -> WLEDSchedule {
    vec![bri_item(7, 0, 200), bri_item(8, 0, 800), bri_item(19, 0, 800), bri_item(20, 0, 200)]
}

#[test]
fn test_scheduletime() {
    let ctx = today_ctx(49., -124.);
    let now = chrono::Local::now();

    let st = ScheduleTime::Sunrise;
    let st_ts = st.to_timestamp(&ctx);
    println!("Sunrise+0000 today is/was {:?}", st_ts);
    println!("That TS is {}", st_ts);
    assert_eq!(st_ts, ctx.sunrise);
    println!("My calculated NOW is {:?} and TS is {}", now, now.timestamp());

    let st = ScheduleTime::SunriseOffset(3600);
    let st_ts = st.to_timestamp(&ctx);
    println!("Sunrise+3600 today is/was {:?}", st_ts);
    assert_eq!(st_ts, ctx.sunrise + 3600);

    let st = ScheduleTime::SunriseOffset(-3600);
    let st_ts = st.to_timestamp(&ctx);
    println!("Sunrise-3600 today is/was {:?}", st_ts);
    assert_eq!(st_ts, ctx.sunrise - 3600);

    let st = ScheduleTime::Sunset;
    let st_ts = st.to_timestamp(&ctx);
    println!("---\nSunset+0000 today is/was {:?}", st_ts);
    println!("That offset would be SUNSET-NOW = {}", st_ts - now.timestamp());
    assert_eq!(st_ts, ctx.sunset);
    println!("---");

    let st = ScheduleTime::SunsetOffset(3600);
    let st_ts = st.to_timestamp(&ctx);
    println!("Sunset+3600 today is/was {:?}", st_ts);
    assert_eq!(st_ts, ctx.sunset + 3600);

    let st = ScheduleTime::SunsetOffset(-3600);
    let st_ts = st.to_timestamp(&ctx);
    println!("Sunset-3600 today is/was {:?}", st_ts);
    assert_eq!(st_ts, ctx.sunset - 3600);

    let st = ScheduleTime::Time(12 * 3600);
    let st_ts = st.to_timestamp(&ctx);
    println!("Naive noon today is/was {:?}", st_ts);
    assert_eq!(st_ts, ctx.day_start + 12 * 3600);

    let st = ScheduleTime::Time(21 * 3600 + 50 * 60);
    let st_ts = st.to_timestamp(&ctx);
    println!("Naive 21:50 today is/was {:?}", st_ts);
    assert_eq!(st_ts, ctx.day_start + 21 * 3600 + 50 * 60);
}

#[test]
fn test_calc_dimming_schedule() {
    println!("Test output via logging...");
    let ctx = today_ctx(49., -124.);
    let schedule = example_schedule();

    let now = chrono::Local::now().timestamp();
    let dim_pc = calc_led_state_scheduled(now, &ctx, &schedule);
    println!("DIM PC actual: {:?}", dim_pc);
    assert!(dim_pc.is_ok());

    let dim_pc = calc_led_state_scheduled(ctx.day_start + 19 * 3600 + 30 * 60, &ctx, &schedule)
        .unwrap();
    println!("DIM PC at 7:30PM: {:?}", dim_pc);
    assert_eq!(dim_pc.dim, 500);
    assert_eq!(dim_pc.preset, None);
    assert_eq!(dim_pc.power, None);

    let dim_pc = calc_led_state_scheduled(ctx.day_start + 7 * 3600 + 30 * 60, &ctx, &schedule)
        .unwrap();
    println!("DIM PC at 7:30AM: {:?}", dim_pc);
    assert_eq!(dim_pc.dim, 500);

    let dim_pc = calc_led_state_scheduled(ctx.day_start, &ctx, &schedule).unwrap();
    println!("DIM PC at midnight: {:?}", dim_pc);
    assert_eq!(dim_pc.dim, 200);
}

#[test]
fn test_calc_dimming() {
    let ctx = today_ctx(49., -124.);
    let now = chrono::Local::now().timestamp();
    let dim_pc = calc_dim_pc(now, ctx.sunrise, ctx.sunset, 1200);
    println!("DIM PC: {}", dim_pc);
    assert!(dim_pc <= 1000);

    let dim_pc = calc_dim_pc(ctx.sunset, ctx.sunrise, ctx.sunset, 1200);
    println!("DIM PC at sunset: {}", dim_pc);
    assert_eq!(dim_pc, 1000);
}

#[test]
fn test_bri_calc() {
    let high = 50u8;
    let low = 1u8;
    // Fully dimmed lands on one end of the byte range, undimmed on the
    // other; every result stays a valid byte (at most 255).
    let new_bri = scale_brightness(low, high, 1000);
    println!("New bri is {}", new_bri);
    assert_eq!(new_bri, high);
    let new_bri = scale_brightness(low, high, 0);
    println!("New bri is {}", new_bri);
    assert_eq!(new_bri, low);
    assert!(scale_brightness(0, 255, 1000) <= 255);
}

#[test]
fn interpolation_exact_midpoints() {
    // Strictly between 07:00 -> 200 and 08:00 -> 800 the value is the
    // linear mix, and it never overshoots the endpoints.
    let ctx = fixed_ctx();
    let schedule = example_schedule();
    let quarter = calc_led_state_scheduled(7 * 3600 + 15 * 60, &ctx, &schedule).unwrap();
    assert_eq!(quarter.dim, 350);
    assert!(200 <= quarter.dim && quarter.dim <= 800);
    // On the falling edge 19:00 -> 800 to 20:00 -> 200.
    let three_quarters = calc_led_state_scheduled(19 * 3600 + 45 * 60, &ctx, &schedule).unwrap();
    assert_eq!(three_quarters.dim, 350);
}

#[test]
fn day_wrap_is_continuous() {
    // First and last events carry one value: the whole wrapped stretch
    // between 20:00 and 07:00 next day evaluates to that value.
    let ctx = fixed_ctx();
    let schedule = vec![bri_item(7, 0, 300), bri_item(20, 0, 300)];
    let late = calc_led_state_scheduled(23 * 3600, &ctx, &schedule).unwrap();
    assert_eq!(late.dim, 300);
    let early = calc_led_state_scheduled(2 * 3600, &ctx, &schedule).unwrap();
    assert_eq!(early.dim, 300);
    let at_midnight = calc_led_state_scheduled(0, &ctx, &schedule).unwrap();
    assert_eq!(at_midnight.dim, 300);
}

#[test]
fn preset_step_function() {
    let ctx = fixed_ctx();
    let schedule = vec![
        bri_item(7, 0, 200),
        preset_item(8, 1),
        preset_item(20, 2),
    ];
    // Inside [08:00, 20:00) the first preset is active.
    let morning = calc_led_state_scheduled(10 * 3600, &ctx, &schedule).unwrap();
    assert_eq!(morning.preset, Some(1));
    // After 20:00 the second one.
    let night = calc_led_state_scheduled(21 * 3600, &ctx, &schedule).unwrap();
    assert_eq!(night.preset, Some(2));
    // Before 08:00 the wrapped copy of the last preset is active.
    let dawn = calc_led_state_scheduled(5 * 3600, &ctx, &schedule).unwrap();
    assert_eq!(dawn.preset, Some(2));
    // Exactly at an event instant the pair ending there still wins: the
    // preset flips just after the event time, not at it.
    let at_twenty = calc_led_state_scheduled(20 * 3600, &ctx, &schedule).unwrap();
    assert_eq!(at_twenty.preset, Some(1));
}

#[test]
fn invalid_schedules_yield_error() {
    let ctx = fixed_ctx();
    // No brightness point at all.
    let empty: WLEDSchedule = vec![];
    assert_eq!(
        calc_led_state_scheduled(1000, &ctx, &empty),
        Err(ScheduleError::InvalidSchedule)
    );
    // Preset points alone leave the brightness list empty.
    let preset_only = vec![preset_item(8, 1), preset_item(20, 2)];
    assert_eq!(
        calc_led_state_scheduled(1000, &ctx, &preset_only),
        Err(ScheduleError::InvalidSchedule)
    );
    // Exactly one preset point is invalid even beside valid brightness
    // points.
    let one_preset = vec![bri_item(7, 0, 200), bri_item(20, 0, 800), preset_item(12, 1)];
    assert_eq!(
        calc_led_state_scheduled(1000, &ctx, &one_preset),
        Err(ScheduleError::InvalidSchedule)
    );
    // A single brightness point is a valid constant schedule.
    let one_bri = vec![bri_item(12, 0, 400)];
    let st = calc_led_state_scheduled(1000, &ctx, &one_bri).unwrap();
    assert_eq!(st.dim, 400);
    assert_eq!(st.preset, None);
}

#[test]
fn unsorted_schedule_is_sorted_before_evaluation() {
    // The same events in a different list order evaluate identically.
    let ctx = fixed_ctx();
    let shuffled = vec![bri_item(19, 0, 800), bri_item(7, 0, 200), bri_item(20, 0, 200), bri_item(8, 0, 800)];
    let ordered = example_schedule();
    for now in [0i64, 7 * 3600 + 30 * 60, 12 * 3600, 19 * 3600 + 30 * 60, 23 * 3600] {
        assert_eq!(
            calc_led_state_scheduled(now, &ctx, &shuffled).unwrap().dim,
            calc_led_state_scheduled(now, &ctx, &ordered).unwrap().dim
        );
    }
}

#[test]
fn astronomical_points_resolve_through_context() {
    let ctx = fixed_ctx();
    let schedule = vec![
        WLEDScheduleItem { time: ScheduleTime::Sunrise, change: WLEDChange::Brightness(1000) },
        WLEDScheduleItem { time: ScheduleTime::Sunset, change: WLEDChange::Brightness(200) },
    ];
    // Halfway from sunrise (06:00) to sunset (20:00).
    let midday = calc_led_state_scheduled(13 * 3600, &ctx, &schedule).unwrap();
    assert_eq!(midday.dim, 600);
    // At sunrise exactly: the pair ending at sunrise wins, meeting its
    // right endpoint.
    let at_sunrise = calc_led_state_scheduled(ctx.sunrise, &ctx, &schedule).unwrap();
    assert_eq!(at_sunrise.dim, 1000);
}

#[test]
fn scale_round_trip_within_tolerance() {
    // Scaling into the full byte range and back moves the fraction by at
    // most two thousandths (within 1/255).
    for dim in [0u32, 1, 137, 200, 499, 500, 501, 800, 999, 1000] {
        let b = scale_brightness(0, 255, dim);
        let back = ((b as i64) * 1000 + 127) / 255;
        assert!((back - dim as i64).abs() <= 2, "dim {} -> byte {} -> {}", dim, b, back);
    }
    // A narrower configured range quantises more coarsely but stays exact
    // at the ends.
    assert_eq!(scale_brightness(20, 128, 0), 20);
    assert_eq!(scale_brightness(20, 128, 1000), 128);
    assert_eq!(scale_brightness(20, 128, 500), 74);
}

#[test]
fn twilight_ramp_of_calc_dim_pc() {
    let sunrise = 6 * 3600i64;
    let sunset = 20 * 3600i64;
    let transition = 1200i64;
    // Daytime: no dimming.
    assert_eq!(calc_dim_pc(12 * 3600, sunrise, sunset, transition), 0);
    // Night and early morning: fully dimmed.
    assert_eq!(calc_dim_pc(23 * 3600, sunrise, sunset, transition), 1000);
    assert_eq!(calc_dim_pc(0, sunrise, sunset, transition), 1000);
    assert_eq!(calc_dim_pc(sunrise, sunrise, sunset, transition), 1000);
    // Halfway down the evening ramp.
    assert_eq!(calc_dim_pc(sunset - 600, sunrise, sunset, transition), 500);
    // Halfway up the morning ramp.
    assert_eq!(calc_dim_pc(sunrise + 600, sunrise, sunset, transition), 500);
}
