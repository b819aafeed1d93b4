//! Day-circular schedule evaluation.
//!
//! A schedule is partitioned into independent event lists (brightness,
//! preset, power), each resolved to `(epoch, value)` pairs, sorted by epoch,
//! and padded with one synthetic copy of its last event a day earlier and of
//! its first event a day later, so that any time of day falls between two
//! bracketing events.  Brightness interpolates linearly between the
//! bracketing pair; presets follow a step function.

use vstd::arithmetic::div_mod::{
    lemma_div_by_multiple, lemma_div_is_ordered, lemma_div_multiples_vanish_fancy,
    lemma_div_pos_is_pos,
};
use vstd::arithmetic::mul::{
    lemma_mul_inequality, lemma_mul_is_commutative, lemma_mul_nonnegative, lemma_mul_upper_bound,
};
use vstd::prelude::*;

use crate::types::{
    DayContext, ScheduleTime, WLEDChange, WLEDSchedule, WLEDScheduleItem, DAY_SECONDS, DIM_SCALE,
    EPOCH_BOUND,
};

verus! {

/// Lower bound on every resolved event epoch (a schedule offset may reach
/// slightly before epoch zero).
pub const TIME_LO: i64 = -100_000;

/// Upper bound on every resolved event epoch.
pub const TIME_HI: i64 = 104_300_000_000;

// ------------------------------------------------------------------
// Ordering events by epoch
// ------------------------------------------------------------------

/// The events of `s` are ordered by epoch.
pub open spec fn sorted_by_time<V>(s: Seq<(i64, V)>) -> bool {
    forall|i: int, j: int| 0 <= i < j < s.len() ==> #[trigger] s[i].0 <= #[trigger] s[j].0
}

/// Every epoch in `s` lies in `[lo, hi]`.
pub open spec fn times_within<V>(s: Seq<(i64, V)>, lo: int, hi: int) -> bool {
    forall|i: int| 0 <= i < s.len() ==> lo <= (#[trigger] s[i]).0 <= hi
}

/// `e` placed after the leading events of `s` whose epoch does not exceed
/// `e`'s: the stable insertion step of sorting by epoch.
pub open spec fn insert_by_time<V>(e: (i64, V), s: Seq<(i64, V)>) -> Seq<(i64, V)>
    decreases s.len(),
{
    if s.len() == 0 {
        seq![e]
    } else if s[0].0 <= e.0 {
        seq![s[0]] + insert_by_time(e, s.drop_first())
    } else {
        seq![e] + s
    }
}

/// The events of `s` rearranged in epoch order, later list positions
/// breaking ties after earlier ones.
pub open spec fn sort_by_time<V>(s: Seq<(i64, V)>) -> Seq<(i64, V)>
    decreases s.len(),
{
    if s.len() == 0 {
        Seq::empty()
    } else {
        insert_by_time(s.last(), sort_by_time(s.drop_last()))
    }
}

proof fn lemma_insert_sorted<V>(e: (i64, V), s: Seq<(i64, V)>)
    requires
        sorted_by_time(s),
    ensures
        insert_by_time(e, s).len() == s.len() + 1,
        sorted_by_time(insert_by_time(e, s)),
    decreases s.len(),
{
    let r = insert_by_time(e, s);
    if s.len() == 0 {
    } else if s[0].0 <= e.0 {
        let s1 = s.drop_first();
        assert(sorted_by_time(s1)) by {
            assert forall|i: int, j: int| 0 <= i < j < s1.len() implies #[trigger] s1[i].0
                <= #[trigger] s1[j].0 by {
                assert(s[i + 1].0 <= s[j + 1].0);
            }
        }
        lemma_insert_sorted(e, s1);
        let r1 = insert_by_time(e, s1);
        // The head of r1 is either e itself or the old second element; both
        // are at least s[0].
        assert(s[0].0 <= r1[0].0) by {
            if s1.len() == 0 {
            } else if s1[0].0 <= e.0 {
                assert(r1[0] == s1[0]);
                assert(s[0].0 <= s[1].0);
            } else {
                assert(r1[0] == e);
            }
        }
        assert forall|i: int, j: int| 0 <= i < j < r.len() implies #[trigger] r[i].0
            <= #[trigger] r[j].0 by {
            if i == 0 {
                assert(r[j] == r1[j - 1]);
                if j - 1 > 0 {
                    assert(r1[0].0 <= r1[j - 1].0);
                }
            } else {
                assert(r[i] == r1[i - 1] && r[j] == r1[j - 1]);
            }
        }
    } else {
        assert forall|i: int, j: int| 0 <= i < j < r.len() implies #[trigger] r[i].0
            <= #[trigger] r[j].0 by {
            if i == 0 {
                assert(r[j] == s[j - 1]);
                if j - 1 > 0 {
                    assert(s[0].0 <= s[j - 1].0);
                }
            } else {
                assert(r[i] == s[i - 1] && r[j] == s[j - 1]);
            }
        }
    }
}

proof fn lemma_insert_within<V>(e: (i64, V), s: Seq<(i64, V)>, lo: int, hi: int)
    requires
        times_within(s, lo, hi),
        lo <= e.0 <= hi,
    ensures
        times_within(insert_by_time(e, s), lo, hi),
    decreases s.len(),
{
    let r = insert_by_time(e, s);
    if s.len() == 0 {
    } else if s[0].0 <= e.0 {
        let s1 = s.drop_first();
        assert(times_within(s1, lo, hi)) by {
            assert forall|i: int| 0 <= i < s1.len() implies lo <= (#[trigger] s1[i]).0 <= hi by {
                assert(lo <= s[i + 1].0 <= hi);
            }
        }
        lemma_insert_within(e, s1, lo, hi);
        let r1 = insert_by_time(e, s1);
        assert forall|i: int| 0 <= i < r.len() implies lo <= (#[trigger] r[i]).0 <= hi by {
            if i > 0 {
                assert(r[i] == r1[i - 1]);
            }
        }
    } else {
        assert forall|i: int| 0 <= i < r.len() implies lo <= (#[trigger] r[i]).0 <= hi by {
            if i > 0 {
                assert(r[i] == s[i - 1]);
            }
        }
    }
}

/// Sorting keeps the length, yields an epoch-ordered list, and keeps every
/// epoch inside any bound the input satisfied.
pub proof fn lemma_sort_props<V>(s: Seq<(i64, V)>, lo: int, hi: int)
    requires
        times_within(s, lo, hi),
    ensures
        sort_by_time(s).len() == s.len(),
        sorted_by_time(sort_by_time(s)),
        times_within(sort_by_time(s), lo, hi),
    decreases s.len(),
{
    if s.len() == 0 {
    } else {
        let s0 = s.drop_last();
        assert(times_within(s0, lo, hi)) by {
            assert forall|i: int| 0 <= i < s0.len() implies lo <= (#[trigger] s0[i]).0 <= hi by {
                assert(lo <= s[i].0 <= hi);
            }
        }
        lemma_sort_props(s0, lo, hi);
        assert(lo <= s.last().0 <= hi);
        lemma_insert_sorted(s.last(), sort_by_time(s0));
        lemma_insert_within(s.last(), sort_by_time(s0), lo, hi);
    }
}

/// `insert_by_time` drops `e` exactly at the first position whose epoch
/// exceeds `e`'s.
proof fn lemma_insert_at<V>(e: (i64, V), s: Seq<(i64, V)>, j: int)
    requires
        0 <= j <= s.len(),
        forall|k: int| 0 <= k < j ==> (#[trigger] s[k]).0 <= e.0,
        j < s.len() ==> s[j].0 > e.0,
    ensures
        insert_by_time(e, s) == s.subrange(0, j) + seq![e] + s.subrange(j, s.len() as int),
    decreases s.len(),
{
    if j == 0 {
        if s.len() == 0 {
            assert(insert_by_time(e, s) =~= s.subrange(0, 0) + seq![e] + s.subrange(0, 0));
        } else {
            assert(insert_by_time(e, s) =~= s.subrange(0, 0) + seq![e] + s.subrange(
                0,
                s.len() as int,
            ));
        }
    } else {
        let s1 = s.drop_first();
        assert(s[0].0 <= e.0);
        lemma_insert_at(e, s1, j - 1);
        assert(insert_by_time(e, s) =~= s.subrange(0, j) + seq![e] + s.subrange(
            j,
            s.len() as int,
        )) by {
            assert(insert_by_time(e, s) == seq![s[0]] + insert_by_time(e, s1));
            assert(insert_by_time(e, s1) == s1.subrange(0, j - 1) + seq![e] + s1.subrange(
                j - 1,
                s1.len() as int,
            ));
        }
    }
}

/// Insert one event into an epoch-ordered vector, keeping the order.
fn insert_event<V: Copy>(v: &mut Vec<(i64, V)>, e: (i64, V))
    requires
        sorted_by_time(old(v)@),
    ensures
        final(v)@ == insert_by_time(e, old(v)@),
{
    let ghost s = v@;
    let mut j: usize = 0;
    while j < v.len() && v[j].0 <= e.0
        invariant
            v@ == s,
            0 <= j <= v@.len(),
            forall|k: int| 0 <= k < j ==> (#[trigger] v@[k]).0 <= e.0,
        decreases v@.len() - j,
    {
        j += 1;
    }
    proof {
        lemma_insert_at(e, s, j as int);
    }
    v.insert(j, e);
    assert(v@ =~= s.subrange(0, j as int) + seq![e] + s.subrange(j as int, s.len() as int));
}

/// Sort an event list ascending by epoch (stably).
fn sort_events<V: Copy>(v: &Vec<(i64, V)>) -> (r: Vec<(i64, V)>)
    ensures
        r@ == sort_by_time(v@),
{
    let mut r: Vec<(i64, V)> = Vec::new();
    assert(r@ =~= sort_by_time(v@.subrange(0, 0)));
    for i in 0..v.len()
        invariant
            r@ == sort_by_time(v@.subrange(0, i as int)),
            sorted_by_time(r@),
    {
        let ghost pre = v@.subrange(0, i as int);
        insert_event(&mut r, v[i]);
        proof {
            let post = v@.subrange(0, i + 1 as int);
            assert(post.drop_last() =~= pre);
            assert(post.last() == v@[i as int]);
            lemma_insert_sorted(v@[i as int], sort_by_time(pre));
        }
    }
    assert(v@.subrange(0, v@.len() as int) =~= v@);
    r
}

// ------------------------------------------------------------------
// Day-wrap padding
// ------------------------------------------------------------------

/// A non-empty event list extended with a copy of its last event shifted
/// one day back and a copy of its first event shifted one day forward.
pub open spec fn pad_events<V>(s: Seq<(i64, V)>) -> Seq<(i64, V)> {
    if s.len() == 0 {
        s
    } else {
        seq![(((s.last().0 - DAY_SECONDS) as i64), s.last().1)] + s + seq![
            (((s[0].0 + DAY_SECONDS) as i64), s[0].1),
        ]
    }
}

/// Apply the day-wrap padding to an event vector.
fn make_padded<V: Copy>(v: &Vec<(i64, V)>) -> (r: Vec<(i64, V)>)
    requires
        times_within(v@, TIME_LO as int, TIME_HI as int),
    ensures
        r@ == pad_events(v@),
{
    let mut r: Vec<(i64, V)> = Vec::new();
    if v.len() == 0 {
        assert(r@ =~= pad_events(v@));
        return r;
    }
    let last = v[v.len() - 1];
    let first = v[0];
    r.push((last.0 - DAY_SECONDS, last.1));
    for i in 0..v.len()
        invariant
            v@.len() > 0,
            times_within(v@, TIME_LO as int, TIME_HI as int),
            r@ == seq![(((v@.last().0 - DAY_SECONDS) as i64), v@.last().1)] + v@.subrange(
                0,
                i as int,
            ),
    {
        r.push(v[i]);
        assert(r@ =~= seq![(((v@.last().0 - DAY_SECONDS) as i64), v@.last().1)] + v@.subrange(
            0,
            i + 1 as int,
        ));
    }
    r.push((first.0 + DAY_SECONDS, first.1));
    assert(v@.subrange(0, v@.len() as int) =~= v@);
    assert(r@ =~= pad_events(v@));
    r
}

// ------------------------------------------------------------------
// Bracketing and interpolation
// ------------------------------------------------------------------

/// The first index `i` at or after `k` such that
/// `s[i].0 <= now <= s[i+1].0`, if any.
pub open spec fn bracket_from<V>(s: Seq<(i64, V)>, now: i64, k: int) -> Option<int>
    decreases s.len() - k,
{
    if k + 1 >= s.len() {
        Option::None
    } else if s[k].0 <= now && now <= s[k + 1].0 {
        Option::Some(k)
    } else {
        bracket_from(s, now, k + 1)
    }
}

/// What a `Some`/`None` bracket answer means: the found pair brackets `now`
/// and no earlier pair does.
pub proof fn lemma_bracket_props<V>(s: Seq<(i64, V)>, now: i64, k: int)
    requires
        0 <= k,
    ensures
        match bracket_from(s, now, k) {
            Option::Some(i) => {
                &&& k <= i
                &&& i + 1 < s.len()
                &&& s[i].0 <= now <= s[i + 1].0
                &&& forall|j: int| k <= j < i ==> !((#[trigger] s[j]).0 <= now <= s[j + 1].0)
            },
            Option::None => forall|j: int|
                k <= j && j + 1 < s.len() ==> !((#[trigger] s[j]).0 <= now <= s[j + 1].0),
        },
    decreases s.len() - k,
{
    if k + 1 >= s.len() {
    } else if s[k].0 <= now && now <= s[k + 1].0 {
    } else {
        lemma_bracket_props(s, now, k + 1);
    }
}

/// Find the first bracketing pair of `now` in `v`.
fn find_bracket<V: Copy>(v: &Vec<(i64, V)>, now: i64) -> (r: Option<usize>)
    ensures
        match r {
            Option::Some(i) => bracket_from(v@, now, 0) == Option::Some(i as int),
            Option::None => bracket_from(v@, now, 0) is None,
        },
{
    if v.len() == 0 {
        return Option::None;
    }
    let mut i: usize = 0;
    while i < v.len() - 1
        invariant
            v@.len() > 0,
            0 <= i <= v@.len(),
            bracket_from(v@, now, 0) == bracket_from(v@, now, i as int),
        decreases v@.len() - i,
    {
        if v[i].0 <= now && now <= v[i + 1].0 {
            return Option::Some(i);
        }
        i += 1;
    }
    Option::None
}

/// Linear interpolation between the bracketing events, as the evaluation
/// algorithm computes it: the offset fraction is taken in integer
/// arithmetic, and a degenerate bracket (both events at one epoch) holds
/// the earlier event's value.
pub open spec fn interp(t1: i64, v1: u32, t2: i64, v2: u32, now: i64) -> u32 {
    if t2 <= t1 {
        v1
    } else if v1 <= v2 {
        (v1 + (now - t1) * (v2 - v1) / (t2 - t1)) as u32
    } else {
        (v1 - (now - t1) * (v1 - v2) / (t2 - t1)) as u32
    }
}

/// The interpolation offset `(now - t1) * dv / (t2 - t1)` lies between `0`
/// and `dv` whenever `t1 <= now <= t2 < …`.
pub(crate) proof fn lemma_offset_bounds(off: int, dv: int, span: int)
    requires
        0 <= off <= span,
        0 < span,
        0 <= dv,
    ensures
        0 <= off * dv / span <= dv,
        off * dv <= span * dv,
{
    lemma_mul_nonnegative(off, dv);
    lemma_div_pos_is_pos(off * dv, span);
    lemma_mul_inequality(off, span, dv);
    lemma_div_is_ordered(off * dv, span * dv, span);
    lemma_mul_is_commutative(span, dv);
    lemma_div_by_multiple(dv, span);
}

/// Compute the interpolated value between a bracketing pair.
fn interp_exec(t1: i64, v1: u32, t2: i64, v2: u32, now: i64) -> (r: u32)
    requires
        t1 <= now <= t2,
        t2 - t1 <= 4 * TIME_HI,
    ensures
        r == interp(t1, v1, t2, v2, now),
{
    if t2 <= t1 {
        v1
    } else {
        let span: i64 = t2 - t1;
        let off: i64 = now - t1;
        if v1 <= v2 {
            let dv: u32 = v2 - v1;
            proof {
                lemma_offset_bounds(off as int, dv as int, span as int);
                lemma_mul_upper_bound(off as int, i64::MAX as int, dv as int, u32::MAX as int);
            }
            let q: u128 = (off as u128) * (dv as u128) / (span as u128);
            v1 + (q as u32)
        } else {
            let dv: u32 = v1 - v2;
            proof {
                lemma_offset_bounds(off as int, dv as int, span as int);
                lemma_mul_upper_bound(off as int, i64::MAX as int, dv as int, u32::MAX as int);
            }
            let q: u128 = (off as u128) * (dv as u128) / (span as u128);
            v1 - (q as u32)
        }
    }
}

// ------------------------------------------------------------------
// Event extraction
// ------------------------------------------------------------------

/// The brightness events of a schedule, resolved against `ctx`, in list
/// order.
pub open spec fn bri_events(items: Seq<WLEDScheduleItem>, ctx: DayContext) -> Seq<(i64, u32)>
    decreases items.len(),
{
    if items.len() == 0 {
        Seq::empty()
    } else {
        let rest = bri_events(items.drop_last(), ctx);
        match items.last().change {
            WLEDChange::Brightness(b) => rest.push(
                (((items.last().time.resolve_spec(ctx)) as i64), b),
            ),
            _ => rest,
        }
    }
}

/// The preset events of a schedule, resolved against `ctx`, in list order.
pub open spec fn pre_events(items: Seq<WLEDScheduleItem>, ctx: DayContext) -> Seq<(i64, u16)>
    decreases items.len(),
{
    if items.len() == 0 {
        Seq::empty()
    } else {
        let rest = pre_events(items.drop_last(), ctx);
        match items.last().change {
            WLEDChange::Preset(p) => rest.push(
                (((items.last().time.resolve_spec(ctx)) as i64), p),
            ),
            _ => rest,
        }
    }
}

/// A resolved schedule point stays inside `[TIME_LO, TIME_HI]`.
proof fn lemma_resolve_bounds(t: ScheduleTime, ctx: DayContext)
    requires
        ctx.wf(),
    ensures
        TIME_LO <= t.resolve_spec(ctx) <= TIME_HI,
{
}

proof fn lemma_bri_events_within(items: Seq<WLEDScheduleItem>, ctx: DayContext)
    requires
        ctx.wf(),
    ensures
        times_within(bri_events(items, ctx), TIME_LO as int, TIME_HI as int),
    decreases items.len(),
{
    if items.len() > 0 {
        lemma_bri_events_within(items.drop_last(), ctx);
        lemma_resolve_bounds(items.last().time, ctx);
    }
}

proof fn lemma_pre_events_within(items: Seq<WLEDScheduleItem>, ctx: DayContext)
    requires
        ctx.wf(),
    ensures
        times_within(pre_events(items, ctx), TIME_LO as int, TIME_HI as int),
    decreases items.len(),
{
    if items.len() > 0 {
        lemma_pre_events_within(items.drop_last(), ctx);
        lemma_resolve_bounds(items.last().time, ctx);
    }
}

/// Padding moves no epoch further than one day outside the input's bounds.
proof fn lemma_pad_within<V>(s: Seq<(i64, V)>)
    requires
        times_within(s, TIME_LO as int, TIME_HI as int),
    ensures
        times_within(pad_events(s), TIME_LO - DAY_SECONDS, TIME_HI + DAY_SECONDS),
{
    let r = pad_events(s);
    if s.len() > 0 {
        assert forall|i: int|
            0 <= i < r.len() implies TIME_LO - DAY_SECONDS <= (#[trigger] r[i]).0 <= TIME_HI
            + DAY_SECONDS by {
            if 1 <= i < s.len() + 1 {
                assert(r[i] == s[i - 1]);
            }
        }
    }
}

fn collect_bri_events(items: &Vec<WLEDScheduleItem>, ctx: &DayContext) -> (r: Vec<(i64, u32)>)
    requires
        ctx.wf(),
    ensures
        r@ == bri_events(items@, *ctx),
{
    let mut r: Vec<(i64, u32)> = Vec::new();
    assert(r@ =~= bri_events(items@.subrange(0, 0), *ctx));
    for idx in 0..items.len()
        invariant
            ctx.wf(),
            r@ == bri_events(items@.subrange(0, idx as int), *ctx),
    {
        let item = items[idx];
        match item.change {
            WLEDChange::Brightness(b) => {
                let t = item.time.to_timestamp(ctx);
                r.push((t, b));
            }
            _ => {}
        }
        proof {
            let pre = items@.subrange(0, idx as int);
            let post = items@.subrange(0, idx + 1 as int);
            assert(post.drop_last() =~= pre);
            assert(post.last() == items@[idx as int]);
        }
    }
    assert(items@.subrange(0, items@.len() as int) =~= items@);
    r
}

fn collect_pre_events(items: &Vec<WLEDScheduleItem>, ctx: &DayContext) -> (r: Vec<(i64, u16)>)
    requires
        ctx.wf(),
    ensures
        r@ == pre_events(items@, *ctx),
{
    let mut r: Vec<(i64, u16)> = Vec::new();
    assert(r@ =~= pre_events(items@.subrange(0, 0), *ctx));
    for idx in 0..items.len()
        invariant
            ctx.wf(),
            r@ == pre_events(items@.subrange(0, idx as int), *ctx),
    {
        let item = items[idx];
        match item.change {
            WLEDChange::Preset(p) => {
                let t = item.time.to_timestamp(ctx);
                r.push((t, p));
            }
            _ => {}
        }
        proof {
            let pre = items@.subrange(0, idx as int);
            let post = items@.subrange(0, idx + 1 as int);
            assert(post.drop_last() =~= pre);
            assert(post.last() == items@[idx as int]);
        }
    }
    assert(items@.subrange(0, items@.len() as int) =~= items@);
    r
}

// ------------------------------------------------------------------
// Evaluation
// ------------------------------------------------------------------

/// How schedule handling can fail.
#[derive(Clone, Copy, Debug, PartialEq, Eq, Structural)]
pub enum ScheduleError {
    /// The event lists are malformed: no brightness event, or exactly one
    /// preset event.
    InvalidSchedule,
    /// A device refers to a named schedule that does not exist.
    UnknownScheduleReference,
}

/// The desired state computed for one device at one instant.
#[derive(Clone, Copy, Debug, PartialEq, Eq)]
pub struct LedState {
    /// Dim fraction in thousandths.
    pub dim: u32,
    /// The active preset, when the schedule manages presets.
    pub preset: Option<u16>,
    /// The active power state; never populated by any configuration path.
    pub power: Option<bool>,
}

/// The brightness value of the padded, sorted brightness events at `now`:
/// linear interpolation over the first bracketing pair, or zero when no
/// pair brackets `now`.
pub open spec fn eval_dim(evs: Seq<(i64, u32)>, now: i64) -> u32 {
    match bracket_from(evs, now, 0) {
        Option::Some(i) => interp(evs[i].0, evs[i].1, evs[i + 1].0, evs[i + 1].1, now),
        Option::None => 0,
    }
}

/// The preset of the padded, sorted preset events at `now`: the earlier
/// value of the first bracketing pair, as a step function.
pub open spec fn eval_preset(evs: Seq<(i64, u16)>, now: i64) -> Option<u16> {
    if evs.len() < 2 {
        Option::None
    } else {
        match bracket_from(evs, now, 0) {
            Option::Some(i) => Option::Some(evs[i].1),
            Option::None => Option::None,
        }
    }
}

/// A schedule is invalid when it has no brightness point, or exactly one
/// preset point (zero preset points means "no preset management"; one
/// leaves no well-defined active interval).
pub open spec fn eval_invalid(items: Seq<WLEDScheduleItem>, ctx: DayContext) -> bool {
    bri_events(items, ctx).len() == 0 || pre_events(items, ctx).len() == 1
}

/// The dim fraction a schedule yields at `now`: its brightness events,
/// sorted and day-wrap padded, interpolated at `now`.
pub open spec fn dim_of(items: Seq<WLEDScheduleItem>, ctx: DayContext, now: i64) -> u32 {
    eval_dim(pad_events(sort_by_time(bri_events(items, ctx))), now)
}

/// The active preset a schedule yields at `now`.
pub open spec fn preset_of(items: Seq<WLEDScheduleItem>, ctx: DayContext, now: i64) -> Option<
    u16,
> {
    eval_preset(pad_events(sort_by_time(pre_events(items, ctx))), now)
}

/// Evaluate a schedule at `now`: partition it into brightness and preset
/// events, resolve and sort each, apply the day-wrap padding, then
/// interpolate the brightness and step the preset.  A malformed schedule
/// yields `InvalidSchedule` instead; power decisions are never produced.
pub fn calc_led_state_scheduled(
    now: i64,
    ctx: &DayContext,
    schedule: &WLEDSchedule,
) -> (r: Result<LedState, ScheduleError>)
    requires
        ctx.wf(),
    ensures
        r is Err <==> eval_invalid(schedule@, *ctx),
        r matches Err(e) ==> e == ScheduleError::InvalidSchedule,
        r matches Ok(st) ==> {
            &&& st.dim == dim_of(schedule@, *ctx, now)
            &&& st.preset == preset_of(schedule@, *ctx, now)
            &&& st.power is None
        },
{
    let bri = collect_bri_events(schedule, ctx);
    let pre = collect_pre_events(schedule, ctx);
    if bri.len() == 0 || pre.len() == 1 {
        return Result::Err(ScheduleError::InvalidSchedule);
    }
    proof {
        lemma_bri_events_within(schedule@, *ctx);
        lemma_sort_props(bri@, TIME_LO as int, TIME_HI as int);
        lemma_pad_within(sort_by_time(bri@));
    }
    let bri_sorted = sort_events(&bri);
    let bri_padded = make_padded(&bri_sorted);
    let dim: u32 = match find_bracket(&bri_padded, now) {
        Option::Some(i) => {
            proof {
                lemma_bracket_props(bri_padded@, now, 0);
            }
            interp_exec(
                bri_padded[i].0,
                bri_padded[i].1,
                bri_padded[i + 1].0,
                bri_padded[i + 1].1,
                now,
            )
        }
        Option::None => 0,
    };
    let preset: Option<u16> = if pre.len() == 0 {
        proof {
            lemma_pre_events_within(schedule@, *ctx);
            lemma_sort_props(pre@, TIME_LO as int, TIME_HI as int);
        }
        Option::None
    } else {
        proof {
            lemma_pre_events_within(schedule@, *ctx);
            lemma_sort_props(pre@, TIME_LO as int, TIME_HI as int);
            lemma_pad_within(sort_by_time(pre@));
        }
        let pre_sorted = sort_events(&pre);
        let pre_padded = make_padded(&pre_sorted);
        match find_bracket(&pre_padded, now) {
            Option::Some(i) => {
                proof {
                    lemma_bracket_props(pre_padded@, now, 0);
                }
                Option::Some(pre_padded[i].1)
            }
            Option::None => Option::None,
        }
    };
    Result::Ok(LedState { dim, preset, power: Option::None })
}

// ------------------------------------------------------------------
// Scaling the dim fraction into a brightness byte
// ------------------------------------------------------------------

/// The brightness byte a dim fraction maps to inside `[min_bri, max_bri]`:
/// the fraction of the gap, rounded to the nearest byte.
pub open spec fn scale_spec(min_bri: u8, max_bri: u8, dim: u32) -> int {
    min_bri + ((max_bri - min_bri) * dim + (DIM_SCALE as int) / 2) / (DIM_SCALE as int)
}

/// The dim fraction a brightness byte maps back to, rounded to the nearest
/// thousandth.
pub open spec fn unscale_spec(min_bri: u8, max_bri: u8, b: u8) -> int {
    ((b - min_bri) * (DIM_SCALE as int) + (max_bri - min_bri) / 2) / (max_bri - min_bri)
}

/// Scale a dim fraction into the configured brightness byte range.
pub fn scale_brightness(min_bri: u8, max_bri: u8, dim: u32) -> (b: u8)
    requires
        min_bri <= max_bri,
        dim <= DIM_SCALE,
    ensures
        b as int == scale_spec(min_bri, max_bri, dim),
        min_bri <= b <= max_bri,
{
    let gap: u32 = (max_bri as u32) - (min_bri as u32);
    proof {
        lemma_mul_upper_bound(gap as int, 255, dim as int, DIM_SCALE as int);
        lemma_mul_inequality(dim as int, DIM_SCALE as int, gap as int);
        lemma_mul_is_commutative(dim as int, gap as int);
        lemma_mul_is_commutative(DIM_SCALE as int, gap as int);
        lemma_div_is_ordered(
            gap * dim + (DIM_SCALE as int) / 2,
            gap * (DIM_SCALE as int) + (DIM_SCALE as int) / 2,
            DIM_SCALE as int,
        );
        lemma_div_multiples_vanish_fancy(gap as int, (DIM_SCALE as int) / 2, DIM_SCALE as int);
        lemma_mul_nonnegative(gap as int, dim as int);
        lemma_div_pos_is_pos(gap * dim + (DIM_SCALE as int) / 2, DIM_SCALE as int);
    }
    let q: u32 = (gap * dim + DIM_SCALE / 2) / DIM_SCALE;
    min_bri + (q as u8)
}

// ------------------------------------------------------------------
// Sunrise/sunset twilight dimming
// ------------------------------------------------------------------

/// The dim fraction derived directly from sunrise and sunset with a linear
/// twilight ramp of `transition` seconds: no dimming in full daylight,
/// full dimming at night, and a linear ramp through each twilight.
pub open spec fn dim_pc_spec(now: i64, sunrise: i64, sunset: i64, transition: i64) -> int {
    if now > sunrise + transition && now <= sunset - transition {
        0
    } else if now > sunset - transition && now < sunset {
        (now - (sunset - transition)) * (DIM_SCALE as int) / (transition as int)
    } else if now >= sunset {
        DIM_SCALE as int
    } else if now <= sunrise {
        DIM_SCALE as int
    } else if now > sunrise && now < sunrise + transition {
        DIM_SCALE - (now - sunrise) * (DIM_SCALE as int) / (transition as int)
    } else {
        DIM_SCALE as int
    }
}

/// Calculate how much to dim (0 = no dimming, `DIM_SCALE` = fully dimmed)
/// from the time of day alone, with a linear ramp of `transition` seconds
/// around sunrise and sunset.
pub fn calc_dim_pc(now: i64, sunrise: i64, sunset: i64, transition: i64) -> (r: u32)
    requires
        0 < transition <= DAY_SECONDS,
        0 <= sunrise <= EPOCH_BOUND,
        0 <= sunset <= EPOCH_BOUND,
    ensures
        r as int == dim_pc_spec(now, sunrise, sunset, transition),
        r <= DIM_SCALE,
{
    if now > sunrise + transition && now <= sunset - transition {
        0
    } else if now > sunset - transition && now < sunset {
        let diff: i64 = now - (sunset - transition);
        proof {
            lemma_offset_bounds(diff as int, DIM_SCALE as int, transition as int);
        }
        let q: u64 = (diff as u64) * (DIM_SCALE as u64) / (transition as u64);
        q as u32
    } else if now >= sunset {
        DIM_SCALE
    } else if now <= sunrise {
        DIM_SCALE
    } else if now > sunrise && now < sunrise + transition {
        let diff: i64 = now - sunrise;
        proof {
            lemma_offset_bounds(diff as int, DIM_SCALE as int, transition as int);
        }
        let q: u64 = (diff as u64) * (DIM_SCALE as u64) / (transition as u64);
        DIM_SCALE - (q as u32)
    } else {
        DIM_SCALE
    }
}

} // verus!
