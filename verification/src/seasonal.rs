//! Monthly and seasonal roll-ups of a shadow stack.
//!
//! A month is identified by its key, `12 * year + (month - 1)`, so that keys
//! order months chronologically.  Within a month every sample counts as one
//! unit: totals are numbers of shadowed samples, percentages are shares of the
//! month's samples in millionths (1 000 000 stands for 100 %).

use crate::calendar::{
    civil_date_of, civil_month, civil_year, instant_in_calendar, spec_day_of,
};
use crate::grid::{grid_dim, grid_get, Grid};
use crate::statistics::{analysis_day_count, solar_totals};
use crate::types::{ShadowError, SolarDay, HALF_SHADOW};
use vstd::prelude::*;

verus! {

/// The key of the month in which instant `t` falls.
pub open spec fn spec_month_key(t: int) -> int {
    civil_year(spec_day_of(t)) * 12 + civil_month(spec_day_of(t)) - 1
}

/// The month key of every instant, in order.
pub open spec fn spec_month_keys(timestamps: Seq<i64>) -> Seq<i64> {
    Seq::new(timestamps.len(), |i: int| spec_month_key(timestamps[i] as int) as i64)
}

pub open spec fn all_in_calendar(timestamps: Seq<i64>) -> bool {
    forall|i: int| 0 <= i < timestamps.len() ==> instant_in_calendar(#[trigger] timestamps[i] as int)
}

/// Calendar year of a month key.
pub open spec fn key_year(key: int) -> int {
    key / 12
}

/// Calendar month, 1 to 12, of a month key.
pub open spec fn key_month(key: int) -> int {
    key % 12 + 1
}

/// The month key of each instant; fails when an instant lies outside the
/// calendar.
pub fn month_keys(timestamps: &Vec<i64>) -> (out: Result<Vec<i64>, ShadowError>)
    ensures
        out.is_ok() <==> all_in_calendar(timestamps@),
        out matches Ok(keys) ==> keys@ == spec_month_keys(timestamps@) && forall|j: int|
            0 <= j < keys.len() ==> i32::MIN <= key_year(#[trigger] keys[j] as int) <= i32::MAX,
        out matches Err(e) ==> e is Config,
{
    let mut keys: Vec<i64> = Vec::new();
    let mut i: usize = 0;
    while i < timestamps.len()
        invariant
            i <= timestamps.len(),
            keys.len() == i,
            forall|j: int| 0 <= j < i ==> instant_in_calendar(#[trigger] timestamps[j] as int),
            forall|j: int| 0 <= j < i ==> #[trigger] keys[j] == spec_month_key(timestamps[j] as int),
            forall|j: int| 0 <= j < i ==> i32::MIN <= key_year(#[trigger] keys[j] as int) <= i32::MAX,
        decreases timestamps.len() - i,
    {
        match civil_date_of(timestamps[i]) {
            Some(d) => {
                let key: i64 = (d.year as i64) * 12 + (d.month as i64) - 1;
                keys.push(key);
            },
            None => {
                return Err(ShadowError::Config("timestamp outside the calendar".to_owned()));
            },
        }
        i += 1;
    }
    assert(keys@ =~= spec_month_keys(timestamps@));
    Ok(keys)
}

pub open spec fn strictly_increasing(s: Seq<i64>) -> bool {
    forall|i: int, j: int| 0 <= i < j < s.len() ==> s[i] < s[j]
}

/// The values that occur in `keys`, each once, in increasing order.
pub fn distinct_sorted(keys: &Vec<i64>) -> (out: Vec<i64>)
    ensures
        strictly_increasing(out@),
        forall|x: i64| out@.contains(x) <==> keys@.contains(x),
{
    let mut out: Vec<i64> = Vec::new();
    let mut i: usize = 0;
    while i < keys.len()
        invariant
            i <= keys.len(),
            strictly_increasing(out@),
            forall|j: int| 0 <= j < i ==> out@.contains(#[trigger] keys[j]),
            forall|x: i64|
                out@.contains(x) ==> exists|j: int| 0 <= j < i && #[trigger] keys[j] == x,
        decreases keys.len() - i,
    {
        let key: i64 = keys[i];
        let mut pos: usize = 0;
        while pos < out.len() && out[pos] < key
            invariant
                pos <= out.len(),
                forall|p: int| 0 <= p < pos ==> out[p] < key,
            decreases out.len() - pos,
        {
            pos += 1;
        }
        let ghost before = out@;
        if pos < out.len() && out[pos] == key {
            assert(out@.contains(key));
        } else {
            out.insert(pos, key);
            assert(out@[pos as int] == key);
            assert forall|a: int, b: int| 0 <= a < b < out@.len() implies out@[a] < out@[b] by {
                if a < pos && b > pos {
                    assert(out@[a] == before[a]);
                    assert(out@[b] == before[b - 1]);
                } else if a < pos && b == pos {
                } else if a == pos {
                    assert(out@[b] == before[b - 1]);
                } else if b < pos {
                    assert(out@[a] == before[a] && out@[b] == before[b]);
                } else {
                    assert(out@[a] == before[a - 1] && out@[b] == before[b - 1]);
                }
            }
            assert forall|j: int| 0 <= j < i implies out@.contains(#[trigger] keys[j]) by {
                let q = choose|q: int| 0 <= q < before.len() && before[q] == keys[j];
                if q < pos {
                    assert(out@[q] == keys[j]);
                } else {
                    assert(out@[q + 1] == keys[j]);
                }
            }
            assert forall|x: i64| out@.contains(x) implies exists|j: int|
                0 <= j < i + 1 && #[trigger] keys[j] == x by {
                let q = choose|q: int| 0 <= q < out@.len() && out@[q] == x;
                if q == pos {
                    assert(keys[i as int] == x);
                } else if q < pos {
                    assert(before[q] == x);
                    assert(before.contains(x));
                } else {
                    assert(before[q - 1] == x);
                    assert(before.contains(x));
                }
            }
        }
        i += 1;
    }
    assert forall|x: i64| out@.contains(x) <==> keys@.contains(x) by {
        if keys@.contains(x) {
            let j = choose|j: int| 0 <= j < keys@.len() && keys@[j] == x;
            assert(out@.contains(keys[j]));
        }
    }
    out
}

/// The positions among the first `upto` keys that hold `key`, in increasing order.
pub open spec fn key_indices(keys: Seq<i64>, key: i64, upto: int) -> Seq<usize>
    decreases upto,
{
    if upto <= 0 {
        Seq::empty()
    } else if keys[upto - 1] == key {
        key_indices(keys, key, upto - 1).push((upto - 1) as usize)
    } else {
        key_indices(keys, key, upto - 1)
    }
}

proof fn lemma_key_indices(keys: Seq<i64>, key: i64, upto: int)
    requires
        0 <= upto <= keys.len(),
        keys.len() <= usize::MAX,
    ensures
        key_indices(keys, key, upto).len() <= upto,
        forall|p: int|
            0 <= p < key_indices(keys, key, upto).len() ==> (#[trigger] key_indices(
                keys,
                key,
                upto,
            )[p]) < upto && keys[key_indices(keys, key, upto)[p] as int] == key,
    decreases upto,
{
    if upto > 0 {
        lemma_key_indices(keys, key, upto - 1);
    }
}

/// The positions of `keys` that hold `key`.
pub fn indices_with_key(keys: &Vec<i64>, key: i64) -> (out: Vec<usize>)
    ensures
        out@ == key_indices(keys@, key, keys.len() as int),
        forall|p: int| 0 <= p < out.len() ==> (#[trigger] out[p]) < keys.len() && keys[out[p] as int] == key,
{
    let mut out: Vec<usize> = Vec::new();
    let mut i: usize = 0;
    while i < keys.len()
        invariant
            i <= keys.len(),
            out@ == key_indices(keys@, key, i as int),
        decreases keys.len() - i,
    {
        if keys[i] == key {
            out.push(i);
        }
        i += 1;
    }
    proof {
        lemma_key_indices(keys@, key, keys.len() as int);
    }
    out
}

/// Among the first `upto` listed instants, the number at which cell `k` is shadowed.
pub open spec fn shaded_count(stack: &Grid, idx: Seq<usize>, k: int, upto: int) -> int
    decreases upto,
{
    if upto <= 0 {
        0
    } else {
        shaded_count(stack, idx, k, upto - 1) + if stack.at(idx[upto - 1] as int, k) > 32 {
            1int
        } else {
            0int
        }
    }
}

/// Number of consecutive listed instants, ending with the one at position
/// `upto - 1` of the list, at which cell `k` is shadowed.
pub open spec fn shaded_run(stack: &Grid, idx: Seq<usize>, k: int, upto: int) -> int
    decreases upto,
{
    if upto <= 0 {
        0
    } else if stack.at(idx[upto - 1] as int, k) > 32 {
        shaded_run(stack, idx, k, upto - 1) + 1
    } else {
        0
    }
}

/// Longest run of consecutive listed instants, among the first `upto`, at
/// which cell `k` is shadowed.
pub open spec fn shaded_longest(stack: &Grid, idx: Seq<usize>, k: int, upto: int) -> int
    decreases upto,
{
    if upto <= 0 {
        0
    } else if shaded_run(stack, idx, k, upto) > shaded_longest(stack, idx, k, upto - 1) {
        shaded_run(stack, idx, k, upto)
    } else {
        shaded_longest(stack, idx, k, upto - 1)
    }
}

/// The instants at the listed positions.
pub open spec fn gather(timestamps: Seq<i64>, idx: Seq<usize>) -> Seq<i64> {
    Seq::new(idx.len(), |p: int| timestamps[idx[p] as int])
}

/// `part` out of `whole` in millionths, rounded down; zero when `whole` is zero.
pub open spec fn spec_ppm(part: int, whole: int) -> int {
    if whole > 0 {
        1_000_000 * part / whole
    } else {
        0
    }
}

/// `part` out of `whole` in millionths, rounded down.
pub fn ppm(part: usize, whole: usize) -> (out: u32)
    requires
        part <= whole,
    ensures
        out == spec_ppm(part as int, whole as int),
        out <= 1_000_000,
{
    if whole == 0 {
        0
    } else {
        let scaled: u128 = 1_000_000 * (part as u128);
        let q: u128 = scaled / (whole as u128);
        assert(q <= 1_000_000) by (nonlinear_arith)
            requires
                q == (1_000_000 * part) / (whole as int),
                0 <= part <= whole,
                whole > 0,
        ;
        q as u32
    }
}

/// Shadow statistics of one calendar month.
#[derive(Debug, Clone, PartialEq, Eq)]
pub struct MonthlyShadowStats {
    /// 1 to 12.
    pub month: u32,
    pub year: i32,
    /// Number of the month's samples.
    pub sample_count: usize,
    /// Per cell, the number of samples at which it is shadowed.
    pub total_shadow_hours: Vec<usize>,
    /// Per cell, the share of samples at which it is shadowed, in millionths.
    pub avg_shadow_percentage: Vec<u32>,
    /// Per cell, the longest run of consecutive samples at which it is shadowed.
    pub max_consecutive_shadow: Vec<usize>,
    /// Per cell, the share of samples at which it is lit, in millionths.
    pub solar_efficiency_percentage: Vec<u32>,
    /// Number of distinct days among the month's samples.
    pub days_in_analysis: usize,
}

impl MonthlyShadowStats {
    /// The key of the entry's month.
    pub open spec fn key(&self) -> int {
        self.year * 12 + self.month - 1
    }

    pub open spec fn cell_described(&self, stack: &Grid, idx: Seq<usize>, k: int) -> bool {
        let n = idx.len() as int;
        let shaded = shaded_count(stack, idx, k, n);
        &&& self.total_shadow_hours[k] == shaded
        &&& self.avg_shadow_percentage[k] == spec_ppm(shaded, n)
        &&& self.max_consecutive_shadow[k] == shaded_longest(stack, idx, k, n)
        &&& self.solar_efficiency_percentage[k] == spec_ppm(n - shaded, n)
    }

    /// The entry holds the statistics of the instants whose month key, listed
    /// in `keys`, is `key`.
    pub open spec fn describes(
        &self,
        stack: &Grid,
        timestamps: Seq<i64>,
        keys: Seq<i64>,
        key: i64,
    ) -> bool {
        let idx = key_indices(keys, key, keys.len() as int);
        &&& self.year == key_year(key as int)
        &&& self.month == key_month(key as int)
        &&& self.sample_count == idx.len()
        &&& self.total_shadow_hours.len() == stack.cols()
        &&& self.avg_shadow_percentage.len() == stack.cols()
        &&& self.max_consecutive_shadow.len() == stack.cols()
        &&& self.solar_efficiency_percentage.len() == stack.cols()
        &&& self.days_in_analysis == analysis_day_count(
            gather(timestamps, idx),
            idx.len() as int,
        )
        &&& forall|k: int| 0 <= k < stack.cols() ==> #[trigger] self.cell_described(stack, idx, k)
    }
}

/// Counts, for cell `k`, the listed instants at which it is shadowed and the
/// longest run of such instants.
fn sweep_listed(stack: &Grid, idx: &Vec<usize>, k: usize) -> (out: (usize, usize))
    requires
        k < stack.cols(),
        forall|p: int| 0 <= p < idx.len() ==> (#[trigger] idx[p]) < stack.rows(),
    ensures
        out.0 == shaded_count(stack, idx@, k as int, idx.len() as int),
        out.1 == shaded_longest(stack, idx@, k as int, idx.len() as int),
        out.0 <= idx.len(),
{
    let mut count: usize = 0;
    let mut run: usize = 0;
    let mut longest: usize = 0;
    let mut p: usize = 0;
    while p < idx.len()
        invariant
            k < stack.cols(),
            forall|q: int| 0 <= q < idx.len() ==> (#[trigger] idx[q]) < stack.rows(),
            p <= idx.len(),
            count == shaded_count(stack, idx@, k as int, p as int),
            run == shaded_run(stack, idx@, k as int, p as int),
            longest == shaded_longest(stack, idx@, k as int, p as int),
            count <= p,
            run <= longest <= p,
        decreases idx.len() - p,
    {
        let v: i64 = grid_get(stack, idx[p], k);
        if v > HALF_SHADOW {
            count = count + 1;
            run = run + 1;
        } else {
            run = 0;
        }
        if run > longest {
            longest = run;
        }
        p += 1;
    }
    (count, longest)
}

/// The instants at the listed positions.
fn gather_instants(timestamps: &Vec<i64>, idx: &Vec<usize>) -> (out: Vec<i64>)
    requires
        forall|p: int| 0 <= p < idx.len() ==> (#[trigger] idx[p]) < timestamps.len(),
    ensures
        out@ == gather(timestamps@, idx@),
{
    let mut out: Vec<i64> = Vec::new();
    let mut p: usize = 0;
    while p < idx.len()
        invariant
            forall|q: int| 0 <= q < idx.len() ==> (#[trigger] idx[q]) < timestamps.len(),
            p <= idx.len(),
            out.len() == p,
            forall|q: int| 0 <= q < p ==> out[q] == timestamps[idx[q] as int],
        decreases idx.len() - p,
    {
        out.push(timestamps[idx[p]]);
        p += 1;
    }
    assert(out@ =~= gather(timestamps@, idx@));
    out
}

/// The statistics of the month with key `key`.
fn month_stats(stack: &Grid, timestamps: &Vec<i64>, keys: &Vec<i64>, key: i64) -> (out:
    MonthlyShadowStats)
    requires
        stack.rows() == timestamps.len(),
        keys.len() == timestamps.len(),
        i32::MIN <= key_year(key as int) <= i32::MAX,
    ensures
        out.describes(stack, timestamps@, keys@, key),
        out.key() == key,
{
    let n_cells: usize = grid_dim(stack).1;
    let idx: Vec<usize> = indices_with_key(keys, key);
    let n: usize = idx.len();
    let listed: Vec<i64> = gather_instants(timestamps, &idx);
    let no_days: Vec<SolarDay> = Vec::new();
    let days_in_analysis: usize = solar_totals(&listed, &no_days).1;
    let mut total_shadow_hours: Vec<usize> = Vec::new();
    let mut avg_shadow_percentage: Vec<u32> = Vec::new();
    let mut max_consecutive_shadow: Vec<usize> = Vec::new();
    let mut solar_efficiency_percentage: Vec<u32> = Vec::new();
    let mut k: usize = 0;
    while k < n_cells
        invariant
            n_cells == stack.cols(),
            n == idx.len(),
            forall|p: int| 0 <= p < idx.len() ==> (#[trigger] idx[p]) < stack.rows(),
            k <= n_cells,
            total_shadow_hours.len() == k,
            avg_shadow_percentage.len() == k,
            max_consecutive_shadow.len() == k,
            solar_efficiency_percentage.len() == k,
            forall|j: int|
                0 <= j < k ==> {
                    &&& #[trigger] total_shadow_hours[j] == shaded_count(stack, idx@, j, n as int)
                    &&& avg_shadow_percentage[j] == spec_ppm(
                        shaded_count(stack, idx@, j, n as int),
                        n as int,
                    )
                    &&& max_consecutive_shadow[j] == shaded_longest(stack, idx@, j, n as int)
                    &&& solar_efficiency_percentage[j] == spec_ppm(
                        n - shaded_count(stack, idx@, j, n as int),
                        n as int,
                    )
                },
        decreases n_cells - k,
    {
        let counted = sweep_listed(stack, &idx, k);
        total_shadow_hours.push(counted.0);
        avg_shadow_percentage.push(ppm(counted.0, n));
        max_consecutive_shadow.push(counted.1);
        solar_efficiency_percentage.push(ppm(n - counted.0, n));
        k += 1;
    }
    let year: i64 = match key.checked_div_euclid(12) {
        Some(y) => y,
        None => 0,
    };
    let month: i64 = match key.checked_rem_euclid(12) {
        Some(m) => m + 1,
        None => 1,
    };
    let out = MonthlyShadowStats {
        month: month as u32,
        year: year as i32,
        sample_count: n,
        total_shadow_hours,
        avg_shadow_percentage,
        max_consecutive_shadow,
        solar_efficiency_percentage,
        days_in_analysis,
    };
    proof {
        assert forall|j: int| 0 <= j < stack.cols() implies #[trigger] out.cell_described(
            stack,
            idx@,
            j,
        ) by {
            assert(total_shadow_hours[j] == shaded_count(stack, idx@, j, n as int));
        }
    }
    out
}

/// Some entry is for the month with key `key`.
pub open spec fn has_month(months: Seq<MonthlyShadowStats>, key: int) -> bool {
    exists|a: int| 0 <= a < months.len() && (#[trigger] months[a]).key() == key
}

/// The entries are the months of the instants, in chronological order, one
/// entry per month, each with that month's statistics.
pub open spec fn months_describe(
    months: Seq<MonthlyShadowStats>,
    stack: &Grid,
    timestamps: Seq<i64>,
) -> bool {
    let keys = spec_month_keys(timestamps);
    &&& forall|a: int, b: int|
        0 <= a < b < months.len() ==> (#[trigger] months[a]).key() < (#[trigger] months[b]).key()
    &&& forall|a: int|
        0 <= a < months.len() ==> keys.contains((#[trigger] months[a]).key() as i64)
            && months[a].describes(stack, timestamps, keys, months[a].key() as i64)
    &&& forall|i: int| 0 <= i < keys.len() ==> has_month(months, #[trigger] keys[i] as int)
}

/// Statistics of every calendar month that holds at least one instant.
pub fn calculate_monthly_stats(stack: &Grid, timestamps: &Vec<i64>) -> (out: Result<
    Vec<MonthlyShadowStats>,
    ShadowError,
>)
    requires
        stack.rows() == timestamps.len(),
    ensures
        out.is_ok() <==> all_in_calendar(timestamps@),
        out matches Ok(months) ==> months_describe(months@, stack, timestamps@),
        out matches Err(e) ==> e is Config,
{
    let keys: Vec<i64> = match month_keys(timestamps) {
        Ok(keys) => keys,
        Err(e) => {
            return Err(e);
        },
    };
    let distinct: Vec<i64> = distinct_sorted(&keys);
    let mut months: Vec<MonthlyShadowStats> = Vec::new();
    let mut a: usize = 0;
    while a < distinct.len()
        invariant
            stack.rows() == timestamps.len(),
            keys@ == spec_month_keys(timestamps@),
            keys.len() == timestamps.len(),
            forall|j: int|
                0 <= j < keys.len() ==> i32::MIN <= key_year(#[trigger] keys[j] as int) <= i32::MAX,
            strictly_increasing(distinct@),
            forall|x: i64| distinct@.contains(x) <==> keys@.contains(x),
            a <= distinct.len(),
            months.len() == a,
            forall|b: int|
                0 <= b < a ==> (#[trigger] months[b]).key() == distinct[b] && months[b].describes(
                    stack,
                    timestamps@,
                    keys@,
                    distinct[b],
                ),
        decreases distinct.len() - a,
    {
        let key: i64 = distinct[a];
        proof {
            assert(distinct@.contains(key));
            let j = choose|j: int| 0 <= j < keys@.len() && keys@[j] == key;
            assert(i32::MIN <= key_year(keys[j] as int) <= i32::MAX);
        }
        months.push(month_stats(stack, timestamps, &keys, key));
        a += 1;
    }
    proof {
        assert forall|b: int, c: int| 0 <= b < c < months.len() implies (#[trigger] months[b]).key()
            < (#[trigger] months[c]).key() by {
            assert(distinct[b] < distinct[c]);
        }
        assert forall|b: int| 0 <= b < months.len() implies keys@.contains(
            (#[trigger] months[b]).key() as i64,
        ) && months[b].describes(stack, timestamps@, keys@, months[b].key() as i64) by {
            assert(distinct@.contains(distinct[b]));
        }
        assert forall|i: int| 0 <= i < keys.len() implies has_month(
            months@,
            #[trigger] keys[i] as int,
        ) by {
            assert(keys@.contains(keys[i]));
            let q = choose|q: int| 0 <= q < distinct@.len() && distinct@[q] == keys[i];
            assert(months@[q].key() == keys[i]);
        }
    }
    Ok(months)
}

/// A meteorological season of the northern hemisphere.
#[derive(Debug, Clone, Copy, PartialEq, Eq, Structural)]
pub enum Season {
    Spring,
    Summer,
    Fall,
    Winter,
}

impl Season {
    /// Whether calendar month `month` belongs to the season.
    pub open spec fn holds(self, month: int) -> bool {
        match self {
            Season::Spring => 3 <= month <= 5,
            Season::Summer => 6 <= month <= 8,
            Season::Fall => 9 <= month <= 11,
            Season::Winter => month == 12 || month == 1 || month == 2,
        }
    }

    pub open spec fn spec_name(self) -> Seq<char> {
        match self {
            Season::Spring => "Spring"@,
            Season::Summer => "Summer"@,
            Season::Fall => "Fall"@,
            Season::Winter => "Winter"@,
        }
    }

    pub open spec fn spec_months(self) -> Seq<u32> {
        match self {
            Season::Spring => seq![3u32, 4u32, 5u32],
            Season::Summer => seq![6u32, 7u32, 8u32],
            Season::Fall => seq![9u32, 10u32, 11u32],
            Season::Winter => seq![12u32, 1u32, 2u32],
        }
    }

    pub fn contains_month(self, month: u32) -> (b: bool)
        ensures
            b == self.holds(month as int),
    {
        match self {
            Season::Spring => 3 <= month && month <= 5,
            Season::Summer => 6 <= month && month <= 8,
            Season::Fall => 9 <= month && month <= 11,
            Season::Winter => month == 12 || month == 1 || month == 2,
        }
    }

    pub fn name(self) -> (n: String)
        ensures
            n@ == self.spec_name(),
    {
        match self {
            Season::Spring => "Spring".to_owned(),
            Season::Summer => "Summer".to_owned(),
            Season::Fall => "Fall".to_owned(),
            Season::Winter => "Winter".to_owned(),
        }
    }

    pub fn months(self) -> (m: Vec<u32>)
        ensures
            m@ == self.spec_months(),
    {
        let m: Vec<u32> = match self {
            Season::Spring => vec![3, 4, 5],
            Season::Summer => vec![6, 7, 8],
            Season::Fall => vec![9, 10, 11],
            Season::Winter => vec![12, 1, 2],
        };
        assert(m@ =~= self.spec_months());
        m
    }
}

/// Number of entries of the season among the first `upto`.
pub open spec fn season_month_count(months: Seq<MonthlyShadowStats>, season: Season, upto: int) -> int
    decreases upto,
{
    if upto <= 0 {
        0
    } else {
        season_month_count(months, season, upto - 1) + if season.holds(months[upto - 1].month as int) {
            1int
        } else {
            0int
        }
    }
}

/// Days of analysis summed over the season's entries among the first `upto`.
pub open spec fn season_days(months: Seq<MonthlyShadowStats>, season: Season, upto: int) -> int
    decreases upto,
{
    if upto <= 0 {
        0
    } else {
        season_days(months, season, upto - 1) + if season.holds(months[upto - 1].month as int) {
            months[upto - 1].days_in_analysis as int
        } else {
            0
        }
    }
}

/// Shadowed samples of cell `k` summed over the season's entries among the first `upto`.
pub open spec fn season_total(months: Seq<MonthlyShadowStats>, season: Season, k: int, upto: int) -> int
    decreases upto,
{
    if upto <= 0 {
        0
    } else {
        season_total(months, season, k, upto - 1) + if season.holds(months[upto - 1].month as int) {
            months[upto - 1].total_shadow_hours[k] as int
        } else {
            0
        }
    }
}

/// Shadow shares of cell `k` summed over the season's entries among the first `upto`.
pub open spec fn season_shadow_share(
    months: Seq<MonthlyShadowStats>,
    season: Season,
    k: int,
    upto: int,
) -> int
    decreases upto,
{
    if upto <= 0 {
        0
    } else {
        season_shadow_share(months, season, k, upto - 1) + if season.holds(
            months[upto - 1].month as int,
        ) {
            months[upto - 1].avg_shadow_percentage[k] as int
        } else {
            0
        }
    }
}

/// Lit shares of cell `k` summed over the season's entries among the first `upto`.
pub open spec fn season_lit_share(
    months: Seq<MonthlyShadowStats>,
    season: Season,
    k: int,
    upto: int,
) -> int
    decreases upto,
{
    if upto <= 0 {
        0
    } else {
        season_lit_share(months, season, k, upto - 1) + if season.holds(
            months[upto - 1].month as int,
        ) {
            months[upto - 1].solar_efficiency_percentage[k] as int
        } else {
            0
        }
    }
}

/// Largest of the longest runs of cell `k` over the season's entries among the first `upto`.
pub open spec fn season_longest(months: Seq<MonthlyShadowStats>, season: Season, k: int, upto: int) -> int
    decreases upto,
{
    if upto <= 0 {
        0
    } else if season.holds(months[upto - 1].month as int) && months[upto
        - 1].max_consecutive_shadow[k] > season_longest(months, season, k, upto - 1) {
        months[upto - 1].max_consecutive_shadow[k] as int
    } else {
        season_longest(months, season, k, upto - 1)
    }
}

/// Every entry has one value per cell in each layer.
pub open spec fn months_have_cells(months: Seq<MonthlyShadowStats>, n_cells: int) -> bool {
    forall|a: int|
        0 <= a < months.len() ==> {
            &&& (#[trigger] months[a]).total_shadow_hours.len() == n_cells
            &&& months[a].avg_shadow_percentage.len() == n_cells
            &&& months[a].max_consecutive_shadow.len() == n_cells
            &&& months[a].solar_efficiency_percentage.len() == n_cells
        }
}

/// Shadow statistics of one season, gathered from its months.
#[derive(Debug, Clone, PartialEq, Eq)]
pub struct SeasonStats {
    pub season: Season,
    pub season_name: String,
    pub months: Vec<u32>,
    /// Per cell, the sum of the months' totals.
    pub total_shadow_hours: Vec<u128>,
    /// Per cell, the mean of the months' shadow shares, in millionths.
    pub avg_shadow_percentage: Vec<u32>,
    /// Per cell, the largest of the months' longest runs.
    pub max_consecutive_shadow: Vec<usize>,
    /// Per cell, the mean of the months' lit shares, in millionths.
    pub solar_efficiency_percentage: Vec<u32>,
    /// Sum of the months' days of analysis.
    pub total_days: u128,
}

impl SeasonStats {
    pub open spec fn cell_described(&self, months: Seq<MonthlyShadowStats>, k: int) -> bool {
        let n = months.len() as int;
        let count = season_month_count(months, self.season, n);
        &&& self.total_shadow_hours[k] == season_total(months, self.season, k, n)
        &&& self.avg_shadow_percentage[k] == season_shadow_share(months, self.season, k, n) / count
        &&& self.max_consecutive_shadow[k] == season_longest(months, self.season, k, n)
        &&& self.solar_efficiency_percentage[k] == season_lit_share(months, self.season, k, n)
            / count
    }

    /// The entry gathers the months of its season, of which there is at least one.
    pub open spec fn describes(&self, months: Seq<MonthlyShadowStats>, n_cells: int) -> bool {
        &&& season_month_count(months, self.season, months.len() as int) > 0
        &&& self.season_name@ == self.season.spec_name()
        &&& self.months@ == self.season.spec_months()
        &&& self.total_shadow_hours.len() == n_cells
        &&& self.avg_shadow_percentage.len() == n_cells
        &&& self.max_consecutive_shadow.len() == n_cells
        &&& self.solar_efficiency_percentage.len() == n_cells
        &&& self.total_days == season_days(months, self.season, months.len() as int)
        &&& forall|k: int| 0 <= k < n_cells ==> #[trigger] self.cell_described(months, k)
    }
}

/// Number of the season's months and the sum of their days of analysis.
fn count_season(months: &Vec<MonthlyShadowStats>, season: Season) -> (out: (usize, u128))
    ensures
        out.0 == season_month_count(months@, season, months.len() as int),
        out.1 == season_days(months@, season, months.len() as int),
{
    let mut count: usize = 0;
    let mut days: u128 = 0;
    let mut a: usize = 0;
    while a < months.len()
        invariant
            a <= months.len(),
            count == season_month_count(months@, season, a as int),
            days == season_days(months@, season, a as int),
            count <= a,
            days <= a * 0x1_0000_0000_0000_0000,
        decreases months.len() - a,
    {
        if season.contains_month(months[a].month) {
            count = count + 1;
            days = days + (months[a].days_in_analysis as u128);
        }
        a += 1;
    }
    (count, days)
}

/// The four sums of cell `k` over the season's months.
fn gather_season_cell(months: &Vec<MonthlyShadowStats>, season: Season, k: usize) -> (out: (
    u128,
    u128,
    usize,
    u128,
))
    requires
        exists|n_cells: int| k < n_cells && months_have_cells(months@, n_cells),
    ensures
        out.0 == season_total(months@, season, k as int, months.len() as int),
        out.1 == season_shadow_share(months@, season, k as int, months.len() as int),
        out.2 == season_longest(months@, season, k as int, months.len() as int),
        out.3 == season_lit_share(months@, season, k as int, months.len() as int),
        out.1 <= season_month_count(months@, season, months.len() as int) * 0xFFFF_FFFF,
        out.3 <= season_month_count(months@, season, months.len() as int) * 0xFFFF_FFFF,
{
    let mut total: u128 = 0;
    let mut shadow_share: u128 = 0;
    let mut lit_share: u128 = 0;
    let mut longest: usize = 0;
    let mut a: usize = 0;
    while a < months.len()
        invariant
            exists|n_cells: int| k < n_cells && months_have_cells(months@, n_cells),
            a <= months.len(),
            total == season_total(months@, season, k as int, a as int),
            shadow_share == season_shadow_share(months@, season, k as int, a as int),
            longest == season_longest(months@, season, k as int, a as int),
            lit_share == season_lit_share(months@, season, k as int, a as int),
            total <= a * 0x1_0000_0000_0000_0000,
            shadow_share <= season_month_count(months@, season, a as int) * 0xFFFF_FFFF,
            lit_share <= season_month_count(months@, season, a as int) * 0xFFFF_FFFF,
            season_month_count(months@, season, a as int) <= a,
        decreases months.len() - a,
    {
        let entry = &months[a];
        assert(entry.total_shadow_hours.len() > k && entry.avg_shadow_percentage.len() > k
            && entry.max_consecutive_shadow.len() > k && entry.solar_efficiency_percentage.len()
            > k) by {
            let n_cells = choose|n_cells: int| k < n_cells && months_have_cells(months@, n_cells);
            assert(months@[a as int].total_shadow_hours.len() == n_cells);
        }
        if season.contains_month(entry.month) {
            total = total + (entry.total_shadow_hours[k] as u128);
            shadow_share = shadow_share + (entry.avg_shadow_percentage[k] as u128);
            lit_share = lit_share + (entry.solar_efficiency_percentage[k] as u128);
            if entry.max_consecutive_shadow[k] > longest {
                longest = entry.max_consecutive_shadow[k];
            }
        }
        a += 1;
    }
    (total, shadow_share, longest, lit_share)
}

/// The statistics of `season`, or `None` when none of the months belongs to it.
pub fn season_stats(months: &Vec<MonthlyShadowStats>, season: Season, n_cells: usize) -> (out: Option<
    SeasonStats,
>)
    requires
        months_have_cells(months@, n_cells as int),
    ensures
        out.is_some() <==> season_month_count(months@, season, months.len() as int) > 0,
        out matches Some(s) ==> s.season == season && s.describes(months@, n_cells as int),
{
    let counted = count_season(months, season);
    let count: usize = counted.0;
    if count == 0 {
        return None;
    }
    let mut total_shadow_hours: Vec<u128> = Vec::new();
    let mut avg_shadow_percentage: Vec<u32> = Vec::new();
    let mut max_consecutive_shadow: Vec<usize> = Vec::new();
    let mut solar_efficiency_percentage: Vec<u32> = Vec::new();
    let mut k: usize = 0;
    while k < n_cells
        invariant
            months_have_cells(months@, n_cells as int),
            count == season_month_count(months@, season, months.len() as int),
            count > 0,
            k <= n_cells,
            total_shadow_hours.len() == k,
            avg_shadow_percentage.len() == k,
            max_consecutive_shadow.len() == k,
            solar_efficiency_percentage.len() == k,
            forall|j: int|
                0 <= j < k ==> {
                    &&& #[trigger] total_shadow_hours[j] == season_total(
                        months@,
                        season,
                        j,
                        months.len() as int,
                    )
                    &&& avg_shadow_percentage[j] == season_shadow_share(
                        months@,
                        season,
                        j,
                        months.len() as int,
                    ) / (count as int)
                    &&& max_consecutive_shadow[j] == season_longest(
                        months@,
                        season,
                        j,
                        months.len() as int,
                    )
                    &&& solar_efficiency_percentage[j] == season_lit_share(
                        months@,
                        season,
                        j,
                        months.len() as int,
                    ) / (count as int)
                },
        decreases n_cells - k,
    {
        let sums = gather_season_cell(months, season, k);
        let shadow_mean: u128 = sums.1 / (count as u128);
        let lit_mean: u128 = sums.3 / (count as u128);
        assert(shadow_mean <= 0xFFFF_FFFF && lit_mean <= 0xFFFF_FFFF) by (nonlinear_arith)
            requires
                shadow_mean == sums.1 / (count as u128),
                lit_mean == sums.3 / (count as u128),
                count > 0,
                0 <= sums.1 <= count * 0xFFFF_FFFF,
                0 <= sums.3 <= count * 0xFFFF_FFFF,
        ;
        total_shadow_hours.push(sums.0);
        avg_shadow_percentage.push(shadow_mean as u32);
        max_consecutive_shadow.push(sums.2);
        solar_efficiency_percentage.push(lit_mean as u32);
        assert(avg_shadow_percentage[k as int] == season_shadow_share(
            months@,
            season,
            k as int,
            months.len() as int,
        ) / (count as int));
        assert(solar_efficiency_percentage[k as int] == season_lit_share(
            months@,
            season,
            k as int,
            months.len() as int,
        ) / (count as int));
        k += 1;
    }
    let out = SeasonStats {
        season,
        season_name: season.name(),
        months: season.months(),
        total_shadow_hours,
        avg_shadow_percentage,
        max_consecutive_shadow,
        solar_efficiency_percentage,
        total_days: counted.1,
    };
    proof {
        assert forall|j: int| 0 <= j < n_cells implies #[trigger] out.cell_described(months@, j) by {
            assert(total_shadow_hours[j] == season_total(months@, season, j, months.len() as int));
        }
    }
    Some(out)
}

/// The seasons in the order in which they are reported.
pub open spec fn season_order() -> Seq<Season> {
    seq![Season::Spring, Season::Summer, Season::Fall, Season::Winter]
}

/// Those of the first `upto` seasons of the order that have at least one month.
pub open spec fn present_seasons(months: Seq<MonthlyShadowStats>, upto: int) -> Seq<Season>
    decreases upto,
{
    if upto <= 0 {
        Seq::empty()
    } else if season_month_count(months, season_order()[upto - 1], months.len() as int) > 0 {
        present_seasons(months, upto - 1).push(season_order()[upto - 1])
    } else {
        present_seasons(months, upto - 1)
    }
}

/// The entries are the seasons that have months, in order, each gathered
/// from its months.
pub open spec fn seasons_describe(
    seasons: Seq<SeasonStats>,
    months: Seq<MonthlyShadowStats>,
    n_cells: int,
) -> bool {
    &&& seasons.len() == present_seasons(months, 4).len()
    &&& forall|i: int|
        0 <= i < seasons.len() ==> (#[trigger] seasons[i]).season == present_seasons(months, 4)[i]
            && seasons[i].describes(months, n_cells)
}

/// One entry for each season that has at least one month.
pub fn seasonal_summaries(months: &Vec<MonthlyShadowStats>, n_cells: usize) -> (out: Vec<SeasonStats>)
    requires
        months_have_cells(months@, n_cells as int),
    ensures
        seasons_describe(out@, months@, n_cells as int),
{
    let order: Vec<Season> = vec![Season::Spring, Season::Summer, Season::Fall, Season::Winter];
    assert(order@ =~= season_order());
    let mut out: Vec<SeasonStats> = Vec::new();
    let mut i: usize = 0;
    while i < 4
        invariant
            months_have_cells(months@, n_cells as int),
            order@ == season_order(),
            i <= 4,
            out.len() == present_seasons(months@, i as int).len(),
            forall|j: int|
                0 <= j < out.len() ==> (#[trigger] out[j]).season == present_seasons(
                    months@,
                    i as int,
                )[j] && out[j].describes(months@, n_cells as int),
        decreases 4 - i,
    {
        match season_stats(months, order[i], n_cells) {
            Some(s) => {
                out.push(s);
            },
            None => {},
        }
        i += 1;
    }
    out
}

/// The span of an analysis.
#[derive(Debug, Clone, Copy, PartialEq, Eq, Structural)]
pub struct AnalysisPeriod {
    pub start: i64,
    pub end: i64,
}

/// The earliest and the latest of the instants; both zero when there are none.
pub open spec fn is_analysis_period(timestamps: Seq<i64>, period: AnalysisPeriod) -> bool {
    if timestamps.len() == 0 {
        period.start == 0 && period.end == 0
    } else {
        &&& timestamps.contains(period.start)
        &&& timestamps.contains(period.end)
        &&& forall|i: int|
            0 <= i < timestamps.len() ==> period.start <= #[trigger] timestamps[i] <= period.end
    }
}

pub fn analysis_period(timestamps: &Vec<i64>) -> (period: AnalysisPeriod)
    ensures
        is_analysis_period(timestamps@, period),
{
    if timestamps.len() == 0 {
        return AnalysisPeriod { start: 0, end: 0 };
    }
    let mut first: i64 = timestamps[0];
    let mut last: i64 = timestamps[0];
    let mut i: usize = 1;
    while i < timestamps.len()
        invariant
            1 <= i <= timestamps.len(),
            timestamps@.contains(first),
            timestamps@.contains(last),
            forall|j: int| 0 <= j < i ==> first <= #[trigger] timestamps[j] <= last,
        decreases timestamps.len() - i,
    {
        if timestamps[i] < first {
            first = timestamps[i];
        }
        if timestamps[i] > last {
            last = timestamps[i];
        }
        i += 1;
    }
    AnalysisPeriod { start: first, end: last }
}

/// Monthly statistics, their seasonal roll-up and the span of the analysis.
#[derive(Debug, Clone, PartialEq, Eq)]
pub struct SeasonalAnalysis {
    pub monthly_stats: Vec<MonthlyShadowStats>,
    pub seasonal_summaries: Vec<SeasonStats>,
    pub analysis_period: AnalysisPeriod,
}

/// Groups the instants by calendar month, computes each month's statistics
/// and rolls the months up into seasons.
pub fn calculate_seasonal_analysis(stack: &Grid, timestamps: &Vec<i64>) -> (out: Result<
    SeasonalAnalysis,
    ShadowError,
>)
    requires
        stack.rows() == timestamps.len(),
    ensures
        out.is_ok() <==> all_in_calendar(timestamps@),
        out matches Ok(a) ==> {
            &&& months_describe(a.monthly_stats@, stack, timestamps@)
            &&& seasons_describe(a.seasonal_summaries@, a.monthly_stats@, stack.cols() as int)
            &&& is_analysis_period(timestamps@, a.analysis_period)
        },
        out matches Err(e) ==> e is Config,
{
    let monthly_stats: Vec<MonthlyShadowStats> = match calculate_monthly_stats(stack, timestamps) {
        Ok(m) => m,
        Err(e) => {
            return Err(e);
        },
    };
    let n_cells: usize = grid_dim(stack).1;
    let seasonal_summaries: Vec<SeasonStats> = seasonal_summaries(&monthly_stats, n_cells);
    let period = analysis_period(timestamps);
    Ok(SeasonalAnalysis { monthly_stats, seasonal_summaries, analysis_period: period })
}

} // verus!
