//! Reduction of a shadow stack to per-cell summaries.
//!
//! The stack has one row per sampled instant and one column per cell of the
//! area of interest.  All sums are exact: shadow durations are in ticks of
//! 1/64 second, ratios are fractions of two integers.

use crate::calendar::{day_of, hour_of, spec_day_of, spec_hour_of, MICROS_PER_HOUR};
use crate::grid::{grid_dim, grid_get, Grid};
use crate::types::{DayPeriod, Fraction, SolarDay, HALF_SHADOW};
use std::collections::HashSet;
use vstd::prelude::*;

verus! {

broadcast use vstd::std_specs::hash::group_hash_axioms;

/// Every cell holds a shadow value, 0 to 64.
pub open spec fn is_shadow_grid(g: &Grid) -> bool {
    g.cells_within(0, 64)
}

/// Every cell is either fully lit or fully shadowed.
pub open spec fn is_binary_grid(g: &Grid) -> bool {
    forall|r: int, c: int|
        g.contains_cell(r, c) ==> #[trigger] g.at(r, c) == 0 || g.at(r, c) == 64
}

/// Sum of the shadow values of cell `k` over the first `upto` instants.
pub open spec fn shadow_sum(stack: &Grid, k: int, upto: int) -> int
    decreases upto,
{
    if upto <= 0 {
        0
    } else {
        shadow_sum(stack, k, upto - 1) + stack.at(upto - 1, k)
    }
}

/// Sum of the shadow values of cell `k` over those of the first `upto`
/// instants that fall in period `which`.
pub open spec fn period_sum(
    stack: &Grid,
    periods: Seq<DayPeriod>,
    which: DayPeriod,
    k: int,
    upto: int,
) -> int
    decreases upto,
{
    if upto <= 0 {
        0
    } else {
        period_sum(stack, periods, which, k, upto - 1) + if periods[upto - 1] == which {
            stack.at(upto - 1, k) as int
        } else {
            0
        }
    }
}

/// Number of consecutive shadowed samples of cell `k` that end with
/// instant `upto - 1`.
pub open spec fn shadow_run(stack: &Grid, k: int, upto: int) -> int
    decreases upto,
{
    if upto <= 0 {
        0
    } else if stack.at(upto - 1, k) > 32 {
        shadow_run(stack, k, upto - 1) + 1
    } else {
        0
    }
}

/// Longest run of consecutive shadowed samples of cell `k` among the first
/// `upto` instants.
pub open spec fn longest_run(stack: &Grid, k: int, upto: int) -> int
    decreases upto,
{
    if upto <= 0 {
        0
    } else if shadow_run(stack, k, upto) > longest_run(stack, k, upto - 1) {
        shadow_run(stack, k, upto)
    } else {
        longest_run(stack, k, upto - 1)
    }
}

/// The first entry for `day` at or after index `from`.
pub open spec fn find_solar_day(days: Seq<SolarDay>, day: int, from: int) -> Option<SolarDay>
    decreases days.len() - from,
{
    if from < 0 || from >= days.len() {
        None
    } else if days[from].day == day {
        Some(days[from])
    } else {
        find_solar_day(days, day, from + 1)
    }
}

/// The period of instant `t`: by solar noon plus or minus two hours where the
/// table knows the day, by the clock (before 10:00, before 14:00) where it
/// does not.
pub open spec fn spec_day_period(t: int, days: Seq<SolarDay>) -> DayPeriod {
    match find_solar_day(days, spec_day_of(t), 0) {
        Some(d) => if t < d.noon - 7_200_000_000 {
            DayPeriod::Morning
        } else if t <= d.noon + 7_200_000_000 {
            DayPeriod::Noon
        } else {
            DayPeriod::Afternoon
        },
        None => if spec_hour_of(t) < 10 {
            DayPeriod::Morning
        } else if spec_hour_of(t) < 14 {
            DayPeriod::Noon
        } else {
            DayPeriod::Afternoon
        },
    }
}

pub open spec fn spec_periods(timestamps: Seq<i64>, days: Seq<SolarDay>) -> Seq<DayPeriod> {
    Seq::new(timestamps.len(), |i: int| spec_day_period(timestamps[i] as int, days))
}

/// No earlier instant falls on the day of instant `i`.
pub open spec fn date_is_new(timestamps: Seq<i64>, i: int) -> bool {
    forall|j: int| 0 <= j < i ==> spec_day_of(#[trigger] timestamps[j] as int) != spec_day_of(timestamps[i] as int)
}

/// Seconds of daylight on `day` according to the table, 0 where it is silent.
pub open spec fn solar_seconds_on(days: Seq<SolarDay>, day: int) -> int {
    match find_solar_day(days, day, 0) {
        Some(d) => d.solar_seconds as int,
        None => 0,
    }
}

/// Daylight seconds summed over the distinct days of the first `upto` instants.
pub open spec fn available_solar_seconds(timestamps: Seq<i64>, days: Seq<SolarDay>, upto: int) -> int
    decreases upto,
{
    if upto <= 0 {
        0
    } else {
        available_solar_seconds(timestamps, days, upto - 1) + if date_is_new(timestamps, upto - 1) {
            solar_seconds_on(days, spec_day_of(timestamps[upto - 1] as int))
        } else {
            0
        }
    }
}

/// Number of distinct days among the first `upto` instants.
pub open spec fn analysis_day_count(timestamps: Seq<i64>, upto: int) -> int
    decreases upto,
{
    if upto <= 0 {
        0
    } else {
        analysis_day_count(timestamps, upto - 1) + if date_is_new(timestamps, upto - 1) {
            1int
        } else {
            0int
        }
    }
}

proof fn lemma_shadow_sum_bounds(stack: &Grid, k: int, upto: int)
    requires
        is_shadow_grid(stack),
        0 <= k < stack.cols(),
        0 <= upto <= stack.rows(),
    ensures
        0 <= shadow_sum(stack, k, upto) <= 64 * upto,
    decreases upto,
{
    if upto > 0 {
        lemma_shadow_sum_bounds(stack, k, upto - 1);
        assert(stack.contains_cell(upto - 1, k));
    }
}

proof fn lemma_run_bounds(stack: &Grid, k: int, upto: int)
    requires
        0 <= upto,
    ensures
        0 <= shadow_run(stack, k, upto) <= longest_run(stack, k, upto) <= upto,
    decreases upto,
{
    if upto > 0 {
        lemma_run_bounds(stack, k, upto - 1);
    }
}

/// The first entry of the table for `day`.
pub fn lookup_solar_day(days: &Vec<SolarDay>, day: i64) -> (out: Option<SolarDay>)
    ensures
        out == find_solar_day(days@, day as int, 0),
{
    let mut i: usize = 0;
    while i < days.len()
        invariant
            i <= days.len(),
            find_solar_day(days@, day as int, 0) == find_solar_day(days@, day as int, i as int),
        decreases days.len() - i,
    {
        if days[i].day == day {
            return Some(days[i]);
        }
        i += 1;
    }
    None
}

/// The period of the day in which instant `t` falls.
pub fn day_period(t: i64, days: &Vec<SolarDay>) -> (p: DayPeriod)
    ensures
        p == spec_day_period(t as int, days@),
{
    match lookup_solar_day(days, day_of(t)) {
        Some(d) => {
            let two_hours: i128 = 2 * (MICROS_PER_HOUR as i128);
            if (t as i128) < (d.noon as i128) - two_hours {
                DayPeriod::Morning
            } else if (t as i128) <= (d.noon as i128) + two_hours {
                DayPeriod::Noon
            } else {
                DayPeriod::Afternoon
            }
        },
        None => {
            let h: u32 = hour_of(t);
            if h < 10 {
                DayPeriod::Morning
            } else if h < 14 {
                DayPeriod::Noon
            } else {
                DayPeriod::Afternoon
            }
        },
    }
}

/// The period of every instant, in order.
pub fn classify_periods(timestamps: &Vec<i64>, days: &Vec<SolarDay>) -> (out: Vec<DayPeriod>)
    ensures
        out@ == spec_periods(timestamps@, days@),
{
    let mut out: Vec<DayPeriod> = Vec::new();
    let mut i: usize = 0;
    while i < timestamps.len()
        invariant
            i <= timestamps.len(),
            out.len() == i,
            forall|j: int| 0 <= j < i ==> out[j] == spec_day_period(timestamps[j] as int, days@),
        decreases timestamps.len() - i,
    {
        out.push(day_period(timestamps[i], days));
        i += 1;
    }
    assert(out@ =~= spec_periods(timestamps@, days@));
    out
}

/// Daylight seconds over the distinct days of the instants, and the number
/// of those days.
pub fn solar_totals(timestamps: &Vec<i64>, days: &Vec<SolarDay>) -> (out: (u128, usize))
    ensures
        out.0 == available_solar_seconds(timestamps@, days@, timestamps.len() as int),
        out.1 == analysis_day_count(timestamps@, timestamps.len() as int),
        out.0 <= timestamps.len() * 0x1_0000_0000,
        out.1 <= timestamps.len(),
{
    let mut seen: HashSet<i64> = HashSet::new();
    let mut seconds: u128 = 0;
    let mut count: usize = 0;
    let mut i: usize = 0;
    while i < timestamps.len()
        invariant
            i <= timestamps.len(),
            seconds == available_solar_seconds(timestamps@, days@, i as int),
            count == analysis_day_count(timestamps@, i as int),
            count <= i,
            seconds <= i * 0x1_0000_0000,
            forall|j: int| 0 <= j < i ==> seen@.contains(spec_day_of(#[trigger] timestamps[j] as int) as i64),
            forall|d: i64| #[trigger]
                seen@.contains(d) ==> exists|j: int|
                    0 <= j < i && spec_day_of(#[trigger] timestamps[j] as int) == d,
        decreases timestamps.len() - i,
    {
        let day: i64 = day_of(timestamps[i]);
        let ghost before = seen@;
        let fresh: bool = seen.insert(day);
        proof {
            if fresh {
                assert forall|j: int| 0 <= j < i implies spec_day_of(
                    #[trigger] timestamps@[j] as int,
                ) != spec_day_of(timestamps@[i as int] as int) by {
                    if spec_day_of(timestamps@[j] as int) == spec_day_of(
                        timestamps@[i as int] as int,
                    ) {
                        assert(before.contains(day));
                    }
                }
            }
        }
        if fresh {
            let found: u32 = match lookup_solar_day(days, day) {
                Some(d) => d.solar_seconds,
                None => 0,
            };
            seconds = seconds + (found as u128);
            count = count + 1;
        }
        i += 1;
    }
    (seconds, count)
}

/// What one sweep over the instants gathers for a single cell, in shadow
/// values and sample counts.
#[derive(Debug, Clone, Copy, PartialEq, Eq, Structural)]
pub struct CellSums {
    pub total: u128,
    pub morning: u128,
    pub noon: u128,
    pub afternoon: u128,
    pub longest_run: usize,
}

/// Sweeps the column of cell `k` once, from the first instant to the last.
pub fn sweep_cell(stack: &Grid, periods: &Vec<DayPeriod>, k: usize) -> (out: CellSums)
    requires
        is_shadow_grid(stack),
        periods.len() == stack.rows(),
        k < stack.cols(),
    ensures
        out.total == shadow_sum(stack, k as int, stack.rows() as int),
        out.morning == period_sum(
            stack,
            periods@,
            DayPeriod::Morning,
            k as int,
            stack.rows() as int,
        ),
        out.noon == period_sum(stack, periods@, DayPeriod::Noon, k as int, stack.rows() as int),
        out.afternoon == period_sum(
            stack,
            periods@,
            DayPeriod::Afternoon,
            k as int,
            stack.rows() as int,
        ),
        out.longest_run == longest_run(stack, k as int, stack.rows() as int),
        out.morning + out.noon + out.afternoon == out.total,
        out.total <= 64 * stack.rows(),
        out.longest_run <= stack.rows(),
{
    let n_times: usize = grid_dim(stack).0;
    let mut total: u128 = 0;
    let mut morning: u128 = 0;
    let mut noon: u128 = 0;
    let mut afternoon: u128 = 0;
    let mut run: usize = 0;
    let mut longest: usize = 0;
    let mut t: usize = 0;
    while t < n_times
        invariant
            is_shadow_grid(stack),
            n_times == stack.rows(),
            periods.len() == n_times,
            k < stack.cols(),
            t <= n_times,
            total == shadow_sum(stack, k as int, t as int),
            morning == period_sum(stack, periods@, DayPeriod::Morning, k as int, t as int),
            noon == period_sum(stack, periods@, DayPeriod::Noon, k as int, t as int),
            afternoon == period_sum(stack, periods@, DayPeriod::Afternoon, k as int, t as int),
            run == shadow_run(stack, k as int, t as int),
            longest == longest_run(stack, k as int, t as int),
            morning + noon + afternoon == total,
            total <= 64 * t,
            run <= longest <= t,
        decreases n_times - t,
    {
        let v: i64 = grid_get(stack, t, k);
        assert(stack.contains_cell(t as int, k as int) && stack.at(t as int, k as int) == v);
        let s: u128 = v as u128;
        total = total + s;
        match periods[t] {
            DayPeriod::Morning => {
                morning = morning + s;
            },
            DayPeriod::Noon => {
                noon = noon + s;
            },
            DayPeriod::Afternoon => {
                afternoon = afternoon + s;
            },
        }
        if v > HALF_SHADOW {
            run = run + 1;
        } else {
            run = 0;
        }
        if run > longest {
            longest = run;
        }
        t += 1;
    }
    CellSums { total, morning, noon, afternoon, longest_run: longest }
}

/// Per-cell summaries of a shadow stack.  Durations are in ticks.
#[derive(Debug, Clone, PartialEq, Eq)]
pub struct SummaryStats {
    /// Shadow duration of each cell over the whole analysis.
    pub total_shadow: Vec<u128>,
    /// Longest unbroken shadow of each cell.
    pub max_consecutive_shadow: Vec<u128>,
    /// Shadow duration of each cell earlier than two hours before solar noon.
    pub morning_shadow: Vec<u128>,
    /// Shadow duration of each cell within two hours of solar noon.
    pub noon_shadow: Vec<u128>,
    /// Shadow duration of each cell later than two hours after solar noon.
    pub afternoon_shadow: Vec<u128>,
    /// Duration covered by the samples: their number times the interval.
    pub measured: u128,
    /// Daylight over the distinct days of the analysis.
    pub total_available_solar: u128,
    /// Number of distinct days of the analysis.
    pub analysis_days: usize,
}

/// Ticks that one sample stands for.
pub open spec fn ticks_per_sample(interval_minutes: u32) -> int {
    interval_minutes * 60
}

impl SummaryStats {
    /// The entries of cell `k` are the sums of its column of `stack`, each
    /// sample standing for `step` ticks.
    pub open spec fn cell_summarized(
        &self,
        stack: &Grid,
        periods: Seq<DayPeriod>,
        step: int,
        k: int,
    ) -> bool {
        let n_times = stack.rows() as int;
        &&& self.total_shadow[k] == shadow_sum(stack, k, n_times) * step
        &&& self.morning_shadow[k] == period_sum(stack, periods, DayPeriod::Morning, k, n_times)
            * step
        &&& self.noon_shadow[k] == period_sum(stack, periods, DayPeriod::Noon, k, n_times) * step
        &&& self.afternoon_shadow[k] == period_sum(
            stack,
            periods,
            DayPeriod::Afternoon,
            k,
            n_times,
        ) * step
        &&& self.max_consecutive_shadow[k] == 64 * longest_run(stack, k, n_times) * step
        &&& self.morning_shadow[k] + self.noon_shadow[k] + self.afternoon_shadow[k]
            == self.total_shadow[k]
    }

    /// The summaries are those of `stack`, sampled at `timestamps` every
    /// `interval_minutes`, with `days` as the solar table.
    pub open spec fn summarizes(
        &self,
        stack: &Grid,
        timestamps: Seq<i64>,
        interval_minutes: u32,
        days: Seq<SolarDay>,
    ) -> bool {
        &&& self.total_shadow.len() == stack.cols()
        &&& self.max_consecutive_shadow.len() == stack.cols()
        &&& self.morning_shadow.len() == stack.cols()
        &&& self.noon_shadow.len() == stack.cols()
        &&& self.afternoon_shadow.len() == stack.cols()
        &&& self.measured == 64 * stack.rows() * ticks_per_sample(interval_minutes)
        &&& self.total_available_solar == 64 * available_solar_seconds(
            timestamps,
            days,
            timestamps.len() as int,
        )
        &&& self.analysis_days == analysis_day_count(timestamps, timestamps.len() as int)
        &&& forall|k: int|
            0 <= k < stack.cols() ==> #[trigger] self.cell_summarized(
                stack,
                spec_periods(timestamps, days),
                ticks_per_sample(interval_minutes),
                k,
            )
    }
}

impl SummaryStats {
    /// Share of the measured time that cell `k` spent in shadow.
    pub open spec fn spec_avg_shadow_fraction(&self, k: int) -> Fraction {
        if self.measured > 0 {
            Fraction { num: self.total_shadow[k], den: self.measured }
        } else {
            Fraction { num: 0, den: 1 }
        }
    }

    /// Share of the available daylight in which cell `k` was not shadowed,
    /// never below zero; zero where no daylight was available.
    pub open spec fn spec_solar_efficiency(&self, k: int) -> Fraction {
        if self.total_available_solar > 0 {
            Fraction {
                num: if self.total_shadow[k] < self.total_available_solar {
                    (self.total_available_solar - self.total_shadow[k]) as u128
                } else {
                    0
                },
                den: self.total_available_solar,
            }
        } else {
            Fraction { num: 0, den: 1 }
        }
    }

    /// Daylight per day of the analysis, in ticks.
    pub open spec fn spec_daily_solar(&self) -> Fraction {
        if self.analysis_days > 0 {
            Fraction { num: self.total_available_solar, den: self.analysis_days as u128 }
        } else {
            Fraction { num: 0, den: 1 }
        }
    }

    pub fn avg_shadow_fraction(&self, k: usize) -> (f: Option<Fraction>)
        ensures
            f == if k < self.total_shadow.len() {
                Some(self.spec_avg_shadow_fraction(k as int))
            } else {
                None
            },
            f matches Some(v) ==> v.wf(),
    {
        if k >= self.total_shadow.len() {
            None
        } else if self.measured > 0 {
            Some(Fraction { num: self.total_shadow[k], den: self.measured })
        } else {
            Some(Fraction { num: 0, den: 1 })
        }
    }

    pub fn solar_efficiency(&self, k: usize) -> (f: Option<Fraction>)
        ensures
            f == if k < self.total_shadow.len() {
                Some(self.spec_solar_efficiency(k as int))
            } else {
                None
            },
            f matches Some(v) ==> v.is_proper(),
    {
        if k >= self.total_shadow.len() {
            None
        } else if self.total_available_solar > 0 {
            let shadow: u128 = self.total_shadow[k];
            let lit: u128 = if shadow < self.total_available_solar {
                self.total_available_solar - shadow
            } else {
                0
            };
            Some(Fraction { num: lit, den: self.total_available_solar })
        } else {
            Some(Fraction { num: 0, den: 1 })
        }
    }

    pub fn daily_solar(&self) -> (f: Fraction)
        ensures
            f == self.spec_daily_solar(),
            f.wf(),
    {
        if self.analysis_days > 0 {
            Fraction { num: self.total_available_solar, den: self.analysis_days as u128 }
        } else {
            Fraction { num: 0, den: 1 }
        }
    }
}

/// Folds a shadow stack into its per-cell summaries.
pub fn calculate_summary_stats(
    stack: &Grid,
    timestamps: &Vec<i64>,
    interval_minutes: u32,
    days: &Vec<SolarDay>,
) -> (out: SummaryStats)
    requires
        is_shadow_grid(stack),
        stack.rows() == timestamps.len(),
    ensures
        out.summarizes(stack, timestamps@, interval_minutes, days@),
{
    let d = grid_dim(stack);
    let step: u128 = (interval_minutes as u128) * 60;
    let periods: Vec<DayPeriod> = classify_periods(timestamps, days);
    let solar = solar_totals(timestamps, days);
    let mut total_shadow: Vec<u128> = Vec::new();
    let mut max_consecutive_shadow: Vec<u128> = Vec::new();
    let mut morning_shadow: Vec<u128> = Vec::new();
    let mut noon_shadow: Vec<u128> = Vec::new();
    let mut afternoon_shadow: Vec<u128> = Vec::new();
    let mut k: usize = 0;
    while k < d.1
        invariant
            is_shadow_grid(stack),
            d.0 == stack.rows(),
            d.1 == stack.cols(),
            periods@ == spec_periods(timestamps@, days@),
            periods.len() == stack.rows(),
            step == ticks_per_sample(interval_minutes),
            k <= d.1,
            total_shadow.len() == k,
            max_consecutive_shadow.len() == k,
            morning_shadow.len() == k,
            noon_shadow.len() == k,
            afternoon_shadow.len() == k,
            forall|j: int|
                0 <= j < k ==> {
                    &&& #[trigger] total_shadow[j] == shadow_sum(stack, j, d.0 as int) * step
                    &&& morning_shadow[j] == period_sum(
                        stack,
                        periods@,
                        DayPeriod::Morning,
                        j,
                        d.0 as int,
                    ) * step
                    &&& noon_shadow[j] == period_sum(
                        stack,
                        periods@,
                        DayPeriod::Noon,
                        j,
                        d.0 as int,
                    ) * step
                    &&& afternoon_shadow[j] == period_sum(
                        stack,
                        periods@,
                        DayPeriod::Afternoon,
                        j,
                        d.0 as int,
                    ) * step
                    &&& max_consecutive_shadow[j] == 64 * longest_run(stack, j, d.0 as int) * step
                    &&& morning_shadow[j] + noon_shadow[j] + afternoon_shadow[j] == total_shadow[j]
                },
        decreases d.1 - k,
    {
        let sums: CellSums = sweep_cell(stack, &periods, k);
        let run: u128 = sums.longest_run as u128;
        proof {
            let bound: int = 64int * 0x1_0000_0000_0000_0000int;
            let sb: int = 0x1_0000_0000int * 60int;
            assert(sums.total * step <= bound * sb) by (nonlinear_arith)
                requires
                    0 <= sums.total <= bound,
                    0 <= step <= sb,
            ;
            assert(sums.morning * step <= sums.total * step && sums.noon * step <= sums.total
                * step && sums.afternoon * step <= sums.total * step) by (nonlinear_arith)
                requires
                    0 <= sums.morning <= sums.total,
                    0 <= sums.noon <= sums.total,
                    0 <= sums.afternoon <= sums.total,
                    0 <= step,
            ;
            assert(64 * run * step <= bound * sb) by (nonlinear_arith)
                requires
                    0 <= 64 * run <= bound,
                    0 <= step <= sb,
            ;
            assert(sums.morning * step + sums.noon * step + sums.afternoon * step == sums.total
                * step) by (nonlinear_arith)
                requires
                    sums.morning + sums.noon + sums.afternoon == sums.total,
            ;
        }
        total_shadow.push(sums.total * step);
        morning_shadow.push(sums.morning * step);
        noon_shadow.push(sums.noon * step);
        afternoon_shadow.push(sums.afternoon * step);
        max_consecutive_shadow.push(64 * run * step);
        k += 1;
    }
    proof {
        let bound: int = 64int * 0x1_0000_0000_0000_0000int;
        let sb: int = 0x1_0000_0000int * 60int;
        assert(64 * d.0 * step <= bound * sb) by (nonlinear_arith)
            requires
                0 <= 64 * d.0 <= bound,
                0 <= step <= sb,
        ;
    }
    let out = SummaryStats {
        total_shadow,
        max_consecutive_shadow,
        morning_shadow,
        noon_shadow,
        afternoon_shadow,
        measured: 64 * (d.0 as u128) * step,
        total_available_solar: 64 * solar.0,
        analysis_days: solar.1,
    };
    proof {
        assert forall|j: int| 0 <= j < stack.cols() implies #[trigger] out.cell_summarized(
            stack,
            spec_periods(timestamps@, days@),
            ticks_per_sample(interval_minutes),
            j,
        ) by {
            assert(total_shadow[j] == shadow_sum(stack, j, d.0 as int) * step);
        }
    }
    out
}

/// Sum over the first `upto` instants of the ticks that cell `k` spent in
/// shadow, each sample weighted by the `step` ticks it stands for.
pub open spec fn shadow_ticks(stack: &Grid, k: int, upto: int, step: int) -> int
    decreases upto,
{
    if upto <= 0 {
        0
    } else {
        shadow_ticks(stack, k, upto - 1, step) + stack.at(upto - 1, k) * step
    }
}

proof fn lemma_shadow_ticks(stack: &Grid, k: int, upto: int, step: int)
    ensures
        shadow_ticks(stack, k, upto, step) == shadow_sum(stack, k, upto) * step,
    decreases upto,
{
    if upto > 0 {
        lemma_shadow_ticks(stack, k, upto - 1, step);
        let a = shadow_sum(stack, k, upto - 1);
        let b = stack.at(upto - 1, k) as int;
        assert((a + b) * step == a * step + b * step) by (nonlinear_arith);
    }
}

proof fn lemma_binary_runs(stack: &Grid, k: int, upto: int)
    requires
        is_binary_grid(stack),
        0 <= k < stack.cols(),
        0 <= upto <= stack.rows(),
    ensures
        0 <= 64 * shadow_run(stack, k, upto) <= shadow_sum(stack, k, upto),
        64 * longest_run(stack, k, upto) <= shadow_sum(stack, k, upto),
    decreases upto,
{
    if upto > 0 {
        lemma_binary_runs(stack, k, upto - 1);
        assert(stack.contains_cell(upto - 1, k));
        assert(stack.at(upto - 1, k) == 0 || stack.at(upto - 1, k) == 64);
    }
}

/// The total shadow of a cell is the sum, over all instants, of its shadow
/// value times the duration of one sample.
pub proof fn law_total_is_sum_of_samples(
    stats: &SummaryStats,
    stack: &Grid,
    timestamps: Seq<i64>,
    interval_minutes: u32,
    days: Seq<SolarDay>,
    k: int,
)
    requires
        stats.summarizes(stack, timestamps, interval_minutes, days),
        0 <= k < stack.cols(),
    ensures
        stats.total_shadow[k] == shadow_ticks(
            stack,
            k,
            stack.rows() as int,
            ticks_per_sample(interval_minutes),
        ),
{
    let step = ticks_per_sample(interval_minutes);
    assert(stats.cell_summarized(stack, spec_periods(timestamps, days), step, k));
    lemma_shadow_ticks(stack, k, stack.rows() as int, step);
}

/// Morning, noon and afternoon shadow of a cell add up to its total shadow.
pub proof fn law_periods_partition_total(
    stats: &SummaryStats,
    stack: &Grid,
    timestamps: Seq<i64>,
    interval_minutes: u32,
    days: Seq<SolarDay>,
    k: int,
)
    requires
        stats.summarizes(stack, timestamps, interval_minutes, days),
        0 <= k < stack.cols(),
    ensures
        stats.morning_shadow[k] + stats.noon_shadow[k] + stats.afternoon_shadow[k]
            == stats.total_shadow[k],
{
    assert(stats.cell_summarized(
        stack,
        spec_periods(timestamps, days),
        ticks_per_sample(interval_minutes),
        k,
    ));
}

/// No cell is in shadow for longer than the samples cover: its total shadow,
/// and with it its longest unbroken shadow, stay within the measured time,
/// so the average shadow fraction lies between zero and one.
pub proof fn law_shadow_within_measured(
    stats: &SummaryStats,
    stack: &Grid,
    timestamps: Seq<i64>,
    interval_minutes: u32,
    days: Seq<SolarDay>,
    k: int,
)
    requires
        stats.summarizes(stack, timestamps, interval_minutes, days),
        is_shadow_grid(stack),
        0 <= k < stack.cols(),
    ensures
        stats.total_shadow[k] <= stats.measured,
        stats.max_consecutive_shadow[k] <= stats.measured,
        stats.spec_avg_shadow_fraction(k).is_proper(),
{
    let step = ticks_per_sample(interval_minutes);
    let n = stack.rows() as int;
    assert(stats.cell_summarized(stack, spec_periods(timestamps, days), step, k));
    lemma_shadow_sum_bounds(stack, k, n);
    lemma_run_bounds(stack, k, n);
    let sum = shadow_sum(stack, k, n);
    let run = longest_run(stack, k, n);
    assert(sum * step <= 64 * n * step) by (nonlinear_arith)
        requires
            sum <= 64 * n,
            step >= 0,
    ;
    assert(64 * run * step <= 64 * n * step) by (nonlinear_arith)
        requires
            run <= n,
            step >= 0,
    ;
}

/// Where every sample is either fully lit or fully shadowed, the longest
/// unbroken shadow of a cell is no longer than its total shadow.
pub proof fn law_consecutive_within_total(
    stats: &SummaryStats,
    stack: &Grid,
    timestamps: Seq<i64>,
    interval_minutes: u32,
    days: Seq<SolarDay>,
    k: int,
)
    requires
        stats.summarizes(stack, timestamps, interval_minutes, days),
        is_binary_grid(stack),
        0 <= k < stack.cols(),
    ensures
        stats.max_consecutive_shadow[k] <= stats.total_shadow[k],
{
    let step = ticks_per_sample(interval_minutes);
    let n = stack.rows() as int;
    assert(stats.cell_summarized(stack, spec_periods(timestamps, days), step, k));
    lemma_binary_runs(stack, k, n);
    let sum = shadow_sum(stack, k, n);
    let run = longest_run(stack, k, n);
    assert(64 * run * step <= sum * step) by (nonlinear_arith)
        requires
            64 * run <= sum,
            step >= 0,
    ;
}

/// Where the samples cover no more time than `daily_seconds` of daylight on
/// each day of the analysis, the longest unbroken shadow of a cell stays
/// within that much daylight too.
pub proof fn law_consecutive_within_daylight(
    stats: &SummaryStats,
    stack: &Grid,
    timestamps: Seq<i64>,
    interval_minutes: u32,
    days: Seq<SolarDay>,
    daily_seconds: int,
    k: int,
)
    requires
        stats.summarizes(stack, timestamps, interval_minutes, days),
        is_shadow_grid(stack),
        0 <= k < stack.cols(),
        stats.measured <= 64 * daily_seconds * stats.analysis_days,
    ensures
        stats.max_consecutive_shadow[k] <= 64 * daily_seconds * stats.analysis_days,
{
    law_shadow_within_measured(stats, stack, timestamps, interval_minutes, days, k);
}

/// The summaries are determined by the stack, the instants, the interval
/// and the solar table: summaries computed again from a stack that was
/// stored and read back are the summaries that were computed first.
pub proof fn law_summaries_are_determined(
    first: &SummaryStats,
    again: &SummaryStats,
    stack: &Grid,
    timestamps: Seq<i64>,
    interval_minutes: u32,
    days: Seq<SolarDay>,
)
    requires
        first.summarizes(stack, timestamps, interval_minutes, days),
        again.summarizes(stack, timestamps, interval_minutes, days),
    ensures
        first.total_shadow@ == again.total_shadow@,
        first.max_consecutive_shadow@ == again.max_consecutive_shadow@,
        first.morning_shadow@ == again.morning_shadow@,
        first.noon_shadow@ == again.noon_shadow@,
        first.afternoon_shadow@ == again.afternoon_shadow@,
        first.measured == again.measured,
        first.total_available_solar == again.total_available_solar,
        first.analysis_days == again.analysis_days,
        forall|k: int|
            0 <= k < stack.cols() ==> first.spec_avg_shadow_fraction(k)
                == again.spec_avg_shadow_fraction(k) && first.spec_solar_efficiency(k)
                == again.spec_solar_efficiency(k),
{
    let step = ticks_per_sample(interval_minutes);
    let periods = spec_periods(timestamps, days);
    assert forall|k: int| 0 <= k < stack.cols() implies first.total_shadow[k]
        == again.total_shadow[k] && first.max_consecutive_shadow[k]
        == again.max_consecutive_shadow[k] && first.morning_shadow[k] == again.morning_shadow[k]
        && first.noon_shadow[k] == again.noon_shadow[k] && first.afternoon_shadow[k]
        == again.afternoon_shadow[k] by {
        assert(first.cell_summarized(stack, periods, step, k));
        assert(again.cell_summarized(stack, periods, step, k));
    }
    assert(first.total_shadow@ =~= again.total_shadow@);
    assert(first.max_consecutive_shadow@ =~= again.max_consecutive_shadow@);
    assert(first.morning_shadow@ =~= again.morning_shadow@);
    assert(first.noon_shadow@ =~= again.noon_shadow@);
    assert(first.afternoon_shadow@ =~= again.afternoon_shadow@);
}

/// The solar efficiency of a cell lies between zero and one: it is the share
/// of the available daylight that the total shadow of the cell leaves, zero
/// where the shadow outlasts the daylight or no daylight is available.
pub proof fn law_efficiency_is_a_share(stats: &SummaryStats, k: int)
    ensures
        stats.spec_solar_efficiency(k).is_proper(),
        stats.total_available_solar > 0 && stats.total_shadow[k] <= stats.total_available_solar
            ==> stats.spec_solar_efficiency(k).num + stats.total_shadow[k]
            == stats.total_available_solar && stats.spec_solar_efficiency(k).den
            == stats.total_available_solar,
        stats.total_available_solar == 0 || stats.total_shadow[k] >= stats.total_available_solar
            ==> stats.spec_solar_efficiency(k).num == 0,
{
}

} // verus!
