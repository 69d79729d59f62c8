//! The instants at which shadows are sampled: daylight only, at a fixed step.

use crate::calendar::{day_of, spec_day_of, spec_day_start, MICROS_PER_MINUTE};
use vstd::prelude::*;

verus! {

/// The daylight of one calendar day.
#[derive(Debug, Clone, Copy, PartialEq, Eq, Structural)]
pub enum DayLight {
    /// The sun rises and sets at these instants.
    Events { sunrise: i64, sunset: i64 },
    /// The sun does not set.
    PolarDay,
    /// The sun does not rise.
    PolarNight,
}

/// A calendar day and its daylight.
#[derive(Debug, Clone, Copy, PartialEq, Eq, Structural)]
pub struct SolarWindow {
    /// Day number.
    pub day: i64,
    pub light: DayLight,
}

/// Microseconds from the start of a day to its last sampled second, 23:59:59.
pub const LAST_SECOND: i64 = 86_399_000_000;

/// First instant at which the day may be sampled.
pub open spec fn window_first(w: SolarWindow, start: int) -> int {
    let opens = match w.light {
        DayLight::Events { sunrise, sunset } => sunrise as int,
        _ => spec_day_start(w.day as int),
    };
    if opens < start {
        start
    } else {
        opens
    }
}

/// Last instant at which the day may be sampled.
pub open spec fn window_last(w: SolarWindow, end: int) -> int {
    let closes = match w.light {
        DayLight::Events { sunrise, sunset } => sunset as int,
        _ => spec_day_start(w.day as int) + 86_399_000_000,
    };
    if closes > end {
        end
    } else {
        closes
    }
}

/// Number of samples `first`, `first + step`, ... that do not exceed `last`.
pub open spec fn run_length(first: int, last: int, step: int) -> nat {
    if first > last {
        0
    } else {
        ((last - first) / step + 1) as nat
    }
}

/// Sample number `k` of a run that starts at `first`.
pub open spec fn sample_at(first: int, step: int, k: int) -> int {
    first + k * step
}

/// The samples `first`, `first + step`, ... up to `last`.
pub open spec fn sample_run(first: int, last: int, step: int) -> Seq<i64> {
    Seq::new(run_length(first, last, step), |k: int| sample_at(first, step, k) as i64)
}

/// The samples of one day: none in polar night, from the later of sunrise
/// (midnight in polar day) and `start` to the earlier of sunset (23:59:59 in
/// polar day) and `end` otherwise.
pub open spec fn window_samples(w: SolarWindow, start: int, end: int, step: int) -> Seq<i64> {
    if w.light is PolarNight {
        Seq::empty()
    } else {
        sample_run(window_first(w, start), window_last(w, end), step)
    }
}

/// The samples of the first `upto` days, day after day.
pub open spec fn spec_timestamps(
    windows: Seq<SolarWindow>,
    start: int,
    end: int,
    step: int,
    upto: int,
) -> Seq<i64>
    decreases upto,
{
    if upto <= 0 {
        Seq::empty()
    } else {
        spec_timestamps(windows, start, end, step, upto - 1) + window_samples(
            windows[upto - 1],
            start,
            end,
            step,
        )
    }
}

/// The day's polar-day span fits the calendar.
pub open spec fn windows_in_calendar(windows: Seq<SolarWindow>) -> bool {
    forall|i: int|
        0 <= i < windows.len() ==> -95_000_000 <= (#[trigger] windows[i]).day <= 95_000_000
}

/// The step between samples, in microseconds.
pub open spec fn step_micros(interval_minutes: u32) -> int {
    interval_minutes * 60_000_000
}

/// Appends `first`, `first + step`, ... up to `last`.
fn push_run(out: &mut Vec<i64>, first: i64, last: i64, step: i64)
    requires
        step > 0,
    ensures
        final(out)@ == old(out)@ + sample_run(first as int, last as int, step as int),
{
    let ghost before = out@;
    let ghost run = sample_run(first as int, last as int, step as int);
    if first > last {
        assert(out@ =~= before + run);
        return ;
    }
    proof {
        lemma_run_members(first as int, last as int, step as int);
    }
    let mut t: i64 = first;
    let ghost mut k: int = 0;
    loop
        invariant_except_break
            step > 0,
            first <= last,
            run == sample_run(first as int, last as int, step as int),
            0 <= k < run.len(),
            t == sample_at(first as int, step as int, k),
            t <= last,
            out@ == before + run.subrange(0, k),
            forall|j: int|
                0 <= j < run.len() ==> #[trigger] sample_at(first as int, step as int, j) <= last,
            sample_at(first as int, step as int, run.len() as int) > last,
        ensures
            out@ == before + run,
        decreases run.len() - k,
    {
        out.push(t);
        assert(out@ =~= before + run.subrange(0, k + 1)) by {
            assert(run[k] == t);
        }
        assert(sample_at(first as int, step as int, k + 1) == t + step) by (nonlinear_arith)
            requires
                t == sample_at(first as int, step as int, k),
        ;
        if (last as i128) - (t as i128) < (step as i128) {
            assert(k + 1 == run.len());
            assert(run.subrange(0, k + 1) =~= run);
            break ;
        }
        assert(k + 1 < run.len());
        t = t + step;
        proof {
            k = k + 1;
        }
    }
}

proof fn lemma_run_members(first: int, last: int, step: int)
    requires
        first <= last,
        step > 0,
    ensures
        run_length(first, last, step) >= 1,
        forall|j: int|
            0 <= j < run_length(first, last, step) ==> #[trigger] sample_at(first, step, j) <= last,
        sample_at(first, step, run_length(first, last, step) as int) > last,
{
    let n = (last - first) / step;
    assert(n * step <= last - first < (n + 1) * step) by (nonlinear_arith)
        requires
            n == (last - first) / step,
            step > 0,
            last - first >= 0,
    ;
    assert(n >= 0) by (nonlinear_arith)
        requires
            n == (last - first) / step,
            step > 0,
            last - first >= 0,
    ;
    assert forall|j: int| 0 <= j < n + 1 implies #[trigger] sample_at(first, step, j) <= last by {
        assert(j * step <= n * step) by (nonlinear_arith)
            requires
                0 <= j <= n,
                step > 0,
        ;
    }
}

/// The sampling instants between `start` and `end`: day after day, from
/// sunrise (or `start`) in steps of `interval_minutes` while neither sunset
/// nor `end` is passed; a day without sunset is sampled from midnight to
/// 23:59:59, a day without sunrise not at all.
pub fn generate_timestamps(
    start: i64,
    end: i64,
    interval_minutes: u32,
    windows: &Vec<SolarWindow>,
) -> (out: Vec<i64>)
    requires
        interval_minutes > 0,
        windows_in_calendar(windows@),
    ensures
        out@ == spec_timestamps(
            windows@,
            start as int,
            end as int,
            step_micros(interval_minutes),
            windows.len() as int,
        ),
{
    let step: i64 = (interval_minutes as i64) * MICROS_PER_MINUTE;
    let mut out: Vec<i64> = Vec::new();
    let mut i: usize = 0;
    while i < windows.len()
        invariant
            windows_in_calendar(windows@),
            step == step_micros(interval_minutes),
            step > 0,
            i <= windows.len(),
            out@ == spec_timestamps(windows@, start as int, end as int, step as int, i as int),
        decreases windows.len() - i,
    {
        let w: SolarWindow = windows[i];
        match w.light {
            DayLight::Events { sunrise, sunset } => {
                let first: i64 = if sunrise < start {
                    start
                } else {
                    sunrise
                };
                let last: i64 = if sunset > end {
                    end
                } else {
                    sunset
                };
                push_run(&mut out, first, last, step);
            },
            DayLight::PolarDay => {
                let midnight: i64 = w.day * 86_400_000_000;
                let closes: i64 = midnight + LAST_SECOND;
                let first: i64 = if midnight < start {
                    start
                } else {
                    midnight
                };
                let last: i64 = if closes > end {
                    end
                } else {
                    closes
                };
                push_run(&mut out, first, last, step);
            },
            DayLight::PolarNight => {
                assert(out@ + Seq::<i64>::empty() =~= out@);
            },
        }
        i += 1;
    }
    out
}

/// The day numbers from that of `start` to that of `end`.
pub open spec fn spec_analysis_days(start: int, end: int) -> Seq<i64> {
    let first = spec_day_of(start);
    let last = spec_day_of(end);
    if first > last {
        Seq::empty()
    } else {
        Seq::new((last - first + 1) as nat, |i: int| (first + i) as i64)
    }
}

/// The calendar days that an analysis from `start` to `end` touches.
pub fn analysis_days(start: i64, end: i64) -> (days: Vec<i64>)
    ensures
        days@ == spec_analysis_days(start as int, end as int),
{
    let first: i64 = day_of(start);
    let last: i64 = day_of(end);
    let mut days: Vec<i64> = Vec::new();
    if first > last {
        assert(days@ =~= spec_analysis_days(start as int, end as int));
        return days;
    }
    let mut d: i64 = first;
    while d <= last
        invariant
            first == spec_day_of(start as int),
            last == spec_day_of(end as int),
            first <= d <= last + 1,
            last < 200_000_000,
            days.len() == d - first,
            forall|i: int| 0 <= i < days.len() ==> days[i] == first + i,
        decreases last + 1 - d,
    {
        days.push(d);
        d = d + 1;
    }
    assert(days@ =~= spec_analysis_days(start as int, end as int));
    days
}

/// First instant at which the day can be sampled at all.
pub open spec fn window_open(w: SolarWindow) -> int {
    match w.light {
        DayLight::Events { sunrise, sunset } => sunrise as int,
        _ => spec_day_start(w.day as int),
    }
}

/// Last instant at which the day can be sampled at all.
pub open spec fn window_close(w: SolarWindow) -> int {
    match w.light {
        DayLight::Events { sunrise, sunset } => sunset as int,
        _ => spec_day_start(w.day as int) + 86_399_000_000,
    }
}

/// Every day closes before the next one opens.
pub open spec fn windows_ordered(windows: Seq<SolarWindow>) -> bool {
    forall|i: int, j: int|
        0 <= i < j < windows.len() ==> window_close(#[trigger] windows[i]) < window_open(
            #[trigger] windows[j],
        )
}

proof fn lemma_run_increases(first: int, last: int, step: int)
    requires
        step > 0,
        i64::MIN <= first,
        last <= i64::MAX,
    ensures
        forall|a: int|
            0 <= a < sample_run(first, last, step).len() ==> first <= (#[trigger] sample_run(
                first,
                last,
                step,
            )[a]) <= last,
        forall|a: int, b: int|
            0 <= a < b < sample_run(first, last, step).len() ==> (#[trigger] sample_run(
                first,
                last,
                step,
            )[a]) < (#[trigger] sample_run(first, last, step)[b]),
{
    if first <= last {
        lemma_run_members(first, last, step);
        let run = sample_run(first, last, step);
        assert forall|a: int| 0 <= a < run.len() implies first <= (#[trigger] run[a]) <= last by {
            assert(sample_at(first, step, a) <= last);
            assert(a * step >= 0) by (nonlinear_arith)
                requires
                    a >= 0,
                    step > 0,
            ;
        }
        assert forall|a: int, b: int| 0 <= a < b < run.len() implies (#[trigger] run[a]) < (
        #[trigger] run[b]) by {
            assert(sample_at(first, step, a) <= last);
            assert(sample_at(first, step, b) <= last);
            assert(a * step >= 0 && a * step < b * step) by (nonlinear_arith)
                requires
                    0 <= a < b,
                    step > 0,
            ;
        }
    }
}

/// Where every day closes before the next one opens, the sampling instants
/// increase strictly and none lies before `start` or after `end`.
pub proof fn law_timestamps_increase(
    windows: Seq<SolarWindow>,
    start: i64,
    end: i64,
    step: int,
    upto: int,
)
    requires
        windows_ordered(windows),
        step > 0,
        0 <= upto <= windows.len(),
    ensures
        forall|a: int|
            0 <= a < spec_timestamps(windows, start as int, end as int, step, upto).len()
                ==> start <= (#[trigger] spec_timestamps(
                windows,
                start as int,
                end as int,
                step,
                upto,
            )[a]) <= end,
        forall|a: int, b: int|
            0 <= a < b < spec_timestamps(windows, start as int, end as int, step, upto).len() ==> (
            #[trigger] spec_timestamps(windows, start as int, end as int, step, upto)[a]) < (
            #[trigger] spec_timestamps(windows, start as int, end as int, step, upto)[b]),
        forall|a: int, j: int|
            0 <= a < spec_timestamps(windows, start as int, end as int, step, upto).len() && upto
                <= j < windows.len() ==> (#[trigger] spec_timestamps(
                windows,
                start as int,
                end as int,
                step,
                upto,
            )[a]) < window_open(#[trigger] windows[j]),
    decreases upto,
{
    if upto > 0 {
        law_timestamps_increase(windows, start, end, step, upto - 1);
        let earlier = spec_timestamps(windows, start as int, end as int, step, upto - 1);
        let w = windows[upto - 1];
        let today = window_samples(w, start as int, end as int, step);
        let all = spec_timestamps(windows, start as int, end as int, step, upto);
        assert(all == earlier + today);
        if !(w.light is PolarNight) {
            lemma_run_increases(window_first(w, start as int), window_last(w, end as int), step);
        }
        assert forall|a: int| 0 <= a < today.len() implies window_open(w) <= (#[trigger] today[a])
            <= window_close(w) && start <= today[a] <= end by {}
        assert forall|a: int| 0 <= a < earlier.len() implies (#[trigger] earlier[a]) < window_open(
            w,
        ) by {
            assert(earlier[a] < window_open(windows[upto - 1]));
        }
        assert forall|a: int| 0 <= a < all.len() implies start <= (#[trigger] all[a]) <= end by {
            if a < earlier.len() {
                assert(all[a] == earlier[a]);
            } else {
                assert(all[a] == today[a - earlier.len()]);
            }
        }
        assert forall|a: int, b: int| 0 <= a < b < all.len() implies (#[trigger] all[a]) < (
        #[trigger] all[b]) by {
            if b < earlier.len() {
                assert(all[a] == earlier[a] && all[b] == earlier[b]);
            } else if a < earlier.len() {
                assert(all[a] == earlier[a]);
                assert(all[b] == today[b - earlier.len()]);
            } else {
                assert(all[a] == today[a - earlier.len()]);
                assert(all[b] == today[b - earlier.len()]);
            }
        }
        assert forall|a: int, j: int| 0 <= a < all.len() && upto <= j < windows.len() implies (
        #[trigger] all[a]) < window_open(#[trigger] windows[j]) by {
            if a < earlier.len() {
                assert(all[a] == earlier[a]);
            } else {
                assert(all[a] == today[a - earlier.len()]);
                assert(window_close(windows[upto - 1]) < window_open(windows[j]));
            }
        }
    }
}

/// Instant `t` is sampled within the daylight of one of the first `upto` days.
pub open spec fn in_daylight(windows: Seq<SolarWindow>, t: int, upto: int) -> bool {
    exists|i: int|
        0 <= i < upto && !((#[trigger] windows[i]).light is PolarNight) && window_open(windows[i])
            <= t <= window_close(windows[i])
}

/// Every sampling instant lies within the daylight of one of the days: from
/// its sunrise to its sunset, or on the day itself where the sun does not set.
pub proof fn law_timestamps_in_daylight(
    windows: Seq<SolarWindow>,
    start: i64,
    end: i64,
    step: int,
    upto: int,
)
    requires
        step > 0,
        0 <= upto <= windows.len(),
    ensures
        forall|a: int|
            0 <= a < spec_timestamps(windows, start as int, end as int, step, upto).len()
                ==> in_daylight(
                windows,
                (#[trigger] spec_timestamps(windows, start as int, end as int, step, upto)[a])
                    as int,
                upto,
            ),
    decreases upto,
{
    if upto > 0 {
        law_timestamps_in_daylight(windows, start, end, step, upto - 1);
        let earlier = spec_timestamps(windows, start as int, end as int, step, upto - 1);
        let w = windows[upto - 1];
        let today = window_samples(w, start as int, end as int, step);
        let all = spec_timestamps(windows, start as int, end as int, step, upto);
        assert(all == earlier + today);
        if !(w.light is PolarNight) {
            lemma_run_increases(window_first(w, start as int), window_last(w, end as int), step);
        }
        assert forall|a: int| 0 <= a < all.len() implies in_daylight(
            windows,
            (#[trigger] all[a]) as int,
            upto,
        ) by {
            if a < earlier.len() {
                assert(all[a] == earlier[a]);
                assert(in_daylight(windows, earlier[a] as int, upto - 1));
                let i = choose|i: int|
                    0 <= i < upto - 1 && !((#[trigger] windows[i]).light is PolarNight)
                        && window_open(windows[i]) <= earlier[a] <= window_close(windows[i]);
                assert(0 <= i < upto && !(windows[i].light is PolarNight));
            } else {
                assert(all[a] == today[a - earlier.len()]);
                assert(window_open(w) <= today[a - earlier.len()] <= window_close(w));
                assert(!(windows[upto - 1].light is PolarNight));
            }
        }
    }
}

} // verus!
