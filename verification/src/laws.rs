//! The engine's guarantees that relate several functions, stated and proved
//! once for all inputs: continuity of the interpolated brightness across the
//! day-wrap boundary, absence of overshoot, the step behaviour of preset
//! selection, the rejection of brightness-free schedules, the idempotence of
//! re-registration, the read-before-write preset guard, and the round trip
//! of brightness scaling.

use vstd::arithmetic::div_mod::{
    lemma_div_multiples_vanish, lemma_div_of0, lemma_fundamental_div_mod, lemma_mod_bound,
};
use vstd::arithmetic::mul::{lemma_mul_is_commutative, lemma_mul_is_distributive_sub};
use vstd::prelude::*;

use crate::devices::preset_push_needed_spec;
use crate::schedule::{
    bracket_from, bri_events, eval_dim, eval_invalid, eval_preset, interp, lemma_bracket_props,
    lemma_offset_bounds, pad_events, scale_spec, times_within, unscale_spec, TIME_HI, TIME_LO,
};
use crate::types::{DayContext, WLEDChange, WLEDScheduleItem, DAY_SECONDS, DIM_SCALE};

verus! {

/// Event epochs are strictly increasing: each event has its own instant.
pub open spec fn strictly_sorted<V>(s: Seq<(i64, V)>) -> bool {
    forall|i: int, j: int| 0 <= i < j < s.len() ==> #[trigger] s[i].0 < #[trigger] s[j].0
}

/// In a strictly ordered event list, the pair at `i` is the first
/// bracketing pair of `now` provided `now` does not sit on `i`'s own epoch
/// while an earlier pair ends there.
proof fn lemma_first_bracket<V>(s: Seq<(i64, V)>, now: i64, i: int)
    requires
        strictly_sorted(s),
        0 <= i,
        i + 1 < s.len(),
        s[i].0 <= now <= s[i + 1].0,
        i == 0 || s[i].0 < now,
    ensures
        bracket_from(s, now, 0) == Option::Some(i),
{
    lemma_bracket_props(s, now, 0);
    match bracket_from(s, now, 0) {
        Option::Some(k) => {
            if k < i {
                assert(s[k + 1].0 <= s[i].0);
                assert(false);
            }
            if k > i {
                assert(!(s[i].0 <= now <= s[i + 1].0));
                assert(false);
            }
        }
        Option::None => {
            assert(!(s[i].0 <= now <= s[i + 1].0));
            assert(false);
        }
    }
}

/// Interpolation between two events carrying one and the same value is that
/// value, wherever `now` falls between them.
proof fn lemma_interp_const(t1: i64, v: u32, t2: i64, now: i64)
    requires
        t1 <= now <= t2,
    ensures
        interp(t1, v, t2, v, now) == v,
{
    if t2 > t1 {
        lemma_div_of0((t2 - t1) as int);
    }
}

/// At the right endpoint, interpolation meets the later event's value
/// exactly.
proof fn lemma_interp_right_endpoint(t1: i64, v1: u32, t2: i64, v2: u32)
    requires
        t1 < t2,
    ensures
        interp(t1, v1, t2, v2, t2) == v2,
{
    let span = (t2 - t1) as int;
    if v1 <= v2 {
        lemma_mul_is_commutative(span, (v2 - v1) as int);
        lemma_div_multiples_vanish((v2 - v1) as int, span);
    } else {
        lemma_mul_is_commutative(span, (v1 - v2) as int);
        lemma_div_multiples_vanish((v1 - v2) as int, span);
    }
}

/// For `now` between a bracketing pair, the interpolated value never
/// leaves the closed interval spanned by the two endpoint values: no
/// overshoot.
pub proof fn lemma_interpolation_bounded(evs: Seq<(i64, u32)>, now: i64, i: int)
    requires
        strictly_sorted(evs),
        0 <= i,
        i + 1 < evs.len(),
        evs[i].0 < now < evs[i + 1].0,
    ensures
        evs[i].1 <= evs[i + 1].1 ==> evs[i].1 <= eval_dim(evs, now) <= evs[i + 1].1,
        evs[i + 1].1 <= evs[i].1 ==> evs[i + 1].1 <= eval_dim(evs, now) <= evs[i].1,
{
    lemma_first_bracket(evs, now, i);
    let t1 = evs[i].0;
    let v1 = evs[i].1;
    let t2 = evs[i + 1].0;
    let v2 = evs[i + 1].1;
    if v1 <= v2 {
        lemma_offset_bounds((now - t1) as int, (v2 - v1) as int, (t2 - t1) as int);
    } else {
        lemma_offset_bounds((now - t1) as int, (v1 - v2) as int, (t2 - t1) as int);
    }
}

/// Day-wrap continuity: when a schedule's first and last brightness events
/// carry the same value, the padded evaluation is that constant value
/// through the whole wrapped stretch from the last event of one day to the
/// first event of the next — in particular, the value just before midnight
/// equals the value just after it.
pub proof fn lemma_day_wrap_continuity(evs: Seq<(i64, u32)>, now: i64)
    requires
        strictly_sorted(evs),
        evs.len() >= 2,
        times_within(evs, TIME_LO as int, TIME_HI as int),
        evs[0].1 == evs.last().1,
        evs.last().0 - evs[0].0 < DAY_SECONDS,
        (evs.last().0 - DAY_SECONDS <= now <= evs[0].0) || (evs.last().0 <= now <= evs[0].0
            + DAY_SECONDS),
    ensures
        eval_dim(pad_events(evs), now) == evs[0].1,
{
    let p = pad_events(evs);
    let n = evs.len() as int;
    assert(p.len() == n + 2);
    assert(p[0] == (((evs.last().0 - DAY_SECONDS) as i64), evs.last().1));
    assert(p[n + 1] == (((evs[0].0 + DAY_SECONDS) as i64), evs[0].1));
    assert(forall|k: int| 1 <= k <= n ==> p[k] == evs[k - 1]);
    assert(strictly_sorted(p)) by {
        assert forall|i: int, j: int| 0 <= i < j < p.len() implies #[trigger] p[i].0
            < #[trigger] p[j].0 by {
            if i == 0 && j <= n {
                assert(p[j].0 >= evs[0].0);
            }
            if 1 <= i && j == n + 1 {
                assert(p[i].0 <= evs.last().0);
            }
        }
    }
    if evs.last().0 - DAY_SECONDS <= now <= evs[0].0 {
        // The prepended pair brackets `now`, and it is the very first pair.
        lemma_first_bracket(p, now, 0);
        lemma_interp_const(p[0].0, evs[0].1, p[1].0, now);
    } else if evs.last().0 < now {
        // Strictly after the last event: the appended pair is the first
        // bracketing one, and both its values are the common value.
        lemma_first_bracket(p, now, n);
        lemma_interp_const(p[n].0, evs[0].1, p[n + 1].0, now);
    } else {
        // Exactly at the last event: the pair ending there wins, and the
        // interpolation meets its right endpoint exactly.
        assert(now == evs.last().0);
        assert(p[n - 1].0 < now);
        lemma_first_bracket(p, now, n - 1);
        lemma_interp_right_endpoint(p[n - 1].0, p[n - 1].1, p[n].0, p[n].1);
    }
}

/// Preset selection is a step function: strictly between two consecutive
/// preset events, the active preset is the earlier event's value, and it
/// does not change before the next event's instant is reached.
pub proof fn lemma_preset_step(evs: Seq<(i64, u16)>, now: i64, i: int)
    requires
        strictly_sorted(evs),
        evs.len() >= 2,
        0 <= i,
        i + 1 < evs.len(),
        evs[i].0 < now < evs[i + 1].0,
    ensures
        eval_preset(evs, now) == Option::Some(evs[i].1),
{
    lemma_first_bracket(evs, now, i);
}

/// A schedule without a single brightness point is invalid, whatever else
/// it contains: evaluation refuses it and the caller falls back to the
/// safe default of a zero dim fraction and no preset.
pub proof fn lemma_no_brightness_invalid(items: Seq<WLEDScheduleItem>, ctx: DayContext)
    requires
        forall|i: int| 0 <= i < items.len() ==> !((#[trigger] items[i]).change is Brightness),
    ensures
        eval_invalid(items, ctx),
        bri_events(items, ctx).len() == 0,
    decreases items.len(),
{
    if items.len() > 0 {
        let rest = items.drop_last();
        assert(forall|i: int|
            0 <= i < rest.len() ==> !((#[trigger] rest[i]).change is Brightness));
        lemma_no_brightness_invalid(rest, ctx);
        assert(!(items.last().change is Brightness));
    }
}

/// The read-before-write guard of preset application: a device whose
/// current preset already equals the target needs no push; any mismatch,
/// or an unknown current preset, needs exactly one.
pub proof fn lemma_preset_guard(current: Option<i32>, target: u16)
    ensures
        current == Option::Some(target as i32) ==> !preset_push_needed_spec(current, target),
        current != Option::Some(target as i32) ==> preset_push_needed_spec(current, target),
{
}

/// Scaling a dim fraction into `[min_bri, max_bri]` and back recovers the
/// fraction up to the quantisation of the byte range: the error, scaled by
/// the gap, stays within half a thousandth plus one byte step.
pub proof fn lemma_scale_round_trip(min_bri: u8, max_bri: u8, dim: u32)
    requires
        min_bri < max_bri,
        dim <= DIM_SCALE,
    ensures
        ({
            let b = scale_spec(min_bri, max_bri, dim);
            let back = unscale_spec(min_bri, max_bri, b as u8);
            let gap = max_bri - min_bri;
            &&& min_bri <= b <= max_bri
            &&& -(500 + gap) <= (back - dim) * gap <= 500 + gap
        }),
{
    let gap = (max_bri - min_bri) as int;
    let half = (DIM_SCALE as int) / 2;
    let x = gap * dim;
    let num1 = x + half;
    let c = num1 / (DIM_SCALE as int);
    vstd::arithmetic::mul::lemma_mul_nonnegative(gap, dim as int);
    lemma_fundamental_div_mod(num1, DIM_SCALE as int);
    lemma_mod_bound(num1, DIM_SCALE as int);
    let r1 = num1 % (DIM_SCALE as int);
    // b - min_bri == c, and c <= gap, so the byte stays in range.
    assert(x <= gap * (DIM_SCALE as int)) by {
        vstd::arithmetic::mul::lemma_mul_inequality(dim as int, DIM_SCALE as int, gap);
        lemma_mul_is_commutative(dim as int, gap);
        lemma_mul_is_commutative(DIM_SCALE as int, gap);
    }
    assert(c <= gap) by {
        vstd::arithmetic::div_mod::lemma_div_is_ordered(
            num1,
            gap * (DIM_SCALE as int) + half,
            DIM_SCALE as int,
        );
        vstd::arithmetic::div_mod::lemma_div_multiples_vanish_fancy(
            gap,
            half,
            DIM_SCALE as int,
        );
        lemma_mul_is_commutative(DIM_SCALE as int, gap);
    }
    assert(c >= 0) by {
        vstd::arithmetic::div_mod::lemma_div_pos_is_pos(num1, DIM_SCALE as int);
    }
    let b = scale_spec(min_bri, max_bri, dim);
    assert(b == min_bri + c);
    assert((b as u8) == b);
    let h2 = gap / 2;
    let num2 = c * (DIM_SCALE as int) + h2;
    let back = unscale_spec(min_bri, max_bri, b as u8);
    assert(back == num2 / gap);
    lemma_fundamental_div_mod(num2, gap);
    lemma_mod_bound(num2, gap);
    let r2 = num2 % gap;
    // gap * back == 1000 * c + h2 - r2 == x + half - r1 + h2 - r2.
    assert(c * (DIM_SCALE as int) == num1 - r1) by {
        lemma_mul_is_commutative(DIM_SCALE as int, c);
    }
    assert(gap * back == x + half - r1 + h2 - r2);
    assert((back - dim) * gap == gap * back - gap * dim) by {
        lemma_mul_is_distributive_sub(gap, back, dim as int);
        lemma_mul_is_commutative(gap, (back - dim) as int);
        lemma_mul_is_commutative(back - dim, gap);
    }
    assert((back - dim) * gap == half - r1 + h2 - r2);
    assert(0 <= h2 <= gap);
}

/// Over the full byte range, the round trip lands within two thousandths
/// of the original fraction — inside the ±1/255 tolerance of the byte
/// quantisation.
pub proof fn lemma_scale_round_trip_full_range(dim: u32)
    requires
        dim <= DIM_SCALE,
    ensures
        ({
            let back = unscale_spec(0, 255, scale_spec(0, 255, dim) as u8);
            &&& -2 <= back - dim <= 2
            &&& -1000 <= (back - dim) * 255 <= 1000
        }),
{
    lemma_scale_round_trip(0, 255, dim);
    let back = unscale_spec(0, 255, scale_spec(0, 255, dim) as u8);
    assert(-755 <= (back - dim) * 255 <= 755);
    assert(-2 <= back - dim <= 2) by {
        if back - dim >= 3 {
            assert((back - dim) * 255 >= 765);
        }
        if back - dim <= -3 {
            assert((back - dim) * 255 <= -765);
        }
    }
}

} // verus!
