//! The compute side of the weather gateway: deciding "rain" from raw
//! measurements, finding which days a cached forecast run is missing, and
//! assembling per-day reports from the archive and forecast responses. The
//! network calls themselves live outside the library; these functions take
//! and return plain values.

use vstd::prelude::*;

use crate::bet::Weather;
use crate::weather::Forecast;

verus! {

/// The chance of rain, in thousandths, above which a forecast counts as
/// rain: a small buffer in case the rain isn't perceptible.
pub const RAIN_THRESHOLD_PERMILLE: i64 = 50;

/// Precipitation, in hundredths of a millimetre, above which an observed
/// day counts as rain.
pub const RAIN_THRESHOLD_PRECIPITATION: i64 = 5;

/// Whether a forecast chance of rain (thousandths) counts as rain.
pub fn forecast_rain(chance: i64) -> (r: bool)
    ensures
        r == (chance > RAIN_THRESHOLD_PERMILLE),
{
    chance > RAIN_THRESHOLD_PERMILLE
}

/// Whether an observed precipitation sum (hundredths of a millimetre)
/// counts as rain.
pub fn observed_rain(precipitation: i64) -> (r: bool)
    ensures
        r == (precipitation > RAIN_THRESHOLD_PRECIPITATION),
{
    precipitation > RAIN_THRESHOLD_PRECIPITATION
}

/// Days strictly ascending: the shape both the cache and the provider hand
/// their per-day lists over in.
pub open spec fn days_ascending<T>(s: Seq<(i64, T)>) -> bool {
    forall|i: int, j: int| 0 <= i < j < s.len() ==> (#[trigger] s[i]).0 < (#[trigger] s[j]).0
}

/// Whether a per-day list holds day `d`.
pub open spec fn has_day<T>(s: Seq<(i64, T)>, d: i64) -> bool {
    exists|i: int| 0 <= i < s.len() && (#[trigger] s[i]).0 == d
}

/// The value a per-day list holds for day `d`.
pub open spec fn day_value<T>(s: Seq<(i64, T)>, d: i64) -> T {
    s[choose|i: int| 0 <= i < s.len() && (#[trigger] s[i]).0 == d].1
}

/// The first day at or after `start` that consecutive cached `days` do not
/// cover: cached days are consumed while they match `start`, `start + 1`,
/// and so on, and the scan stops at the first gap.
pub fn first_missing_day(start: i64, days: &Vec<i64>) -> (r: i64)
    requires
        days@.len() <= i64::MAX,
        days@.len() + start <= i64::MAX,
    ensures
        start <= r <= start + days@.len(),
        forall|k: int| 0 <= k < r - start ==> (#[trigger] days@[k]) == start + k,
        r - start < days@.len() ==> days@[r - start] != r,
{
    let n = days.len();
    let mut i: usize = 0;
    while i < n
        invariant
            n == days@.len(),
            i <= n,
            days@.len() <= i64::MAX,
            days@.len() + start <= i64::MAX,
            forall|k: int| 0 <= k < i ==> (#[trigger] days@[k]) == start + k,
        decreases n - i,
    {
        if days[i] != start + i as i64 {
            return start + i as i64;
        }
        i = i + 1;
    }
    start + n as i64
}

/// One report per day of `[start, end)`, observed weather first: a day the
/// archive covers uses the archive, a day only the forecast covers uses the
/// forecast, and a day neither covers gets no report — absence means "not
/// yet available", never an error.
pub fn fill_historical(
    start: i64,
    end: i64,
    archive: &Vec<(i64, Weather)>,
    forecast: &Vec<(i64, Weather)>,
) -> (r: Vec<(i64, Option<Weather>)>)
    requires
        start <= end,
        days_ascending(archive@),
        days_ascending(forecast@),
    ensures
        r@.len() == end - start,
        forall|k: int|
            0 <= k < r@.len() ==> (#[trigger] r@[k]) == (
                ((start + k) as i64),
                if has_day(archive@, (start + k) as i64) {
                    Some(day_value(archive@, (start + k) as i64))
                } else if has_day(forecast@, (start + k) as i64) {
                    Some(day_value(forecast@, (start + k) as i64))
                } else {
                    None::<Weather>
                },
            ),
{
    let mut r: Vec<(i64, Option<Weather>)> = Vec::new();
    let mut d = start;
    while d < end
        invariant
            start <= d <= end,
            days_ascending(archive@),
            days_ascending(forecast@),
            r@.len() == d - start,
            forall|k: int|
                0 <= k < r@.len() ==> (#[trigger] r@[k]) == (
                    ((start + k) as i64),
                    if has_day(archive@, (start + k) as i64) {
                        Some(day_value(archive@, (start + k) as i64))
                    } else if has_day(forecast@, (start + k) as i64) {
                        Some(day_value(forecast@, (start + k) as i64))
                    } else {
                        None::<Weather>
                    },
                ),
        decreases end - d,
    {
        let report = match lookup_day(archive, d) {
            Some(w) => Some(w),
            None => lookup_day(forecast, d),
        };
        r.push((d, report));
        d = d + 1;
    }
    r
}

/// Membership in a per-day list after appending one entry.
proof fn lemma_has_day_push<T>(s: Seq<(i64, T)>, x: (i64, T), d: i64)
    ensures
        has_day(s.push(x), d) == (has_day(s, d) || x.0 == d),
{
    if has_day(s, d) {
        let w = choose|i: int| 0 <= i < s.len() && (#[trigger] s[i]).0 == d;
        assert(s.push(x)[w].0 == d);
        assert(has_day(s.push(x), d));
    }
    if x.0 == d {
        assert(s.push(x)[s.len() as int].0 == d);
        assert(has_day(s.push(x), d));
    }
    if has_day(s.push(x), d) {
        let w = choose|i: int| 0 <= i < s.push(x).len() && (#[trigger] s.push(x)[i]).0 == d;
        if w < s.len() {
            assert(s[w].0 == d);
            assert(has_day(s, d));
        }
    }
}

/// In an ascending list, the entry at a position is the day's entry.
proof fn lemma_day_at<T>(s: Seq<(i64, T)>, i: int)
    requires
        days_ascending(s),
        0 <= i < s.len(),
    ensures
        has_day(s, s[i].0),
        day_value(s, s[i].0) == s[i].1,
{
    assert(has_day(s, s[i].0));
    let w = choose|k: int| 0 <= k < s.len() && (#[trigger] s[k]).0 == s[i].0;
    if w < i {
        assert(s[w].0 < s[i].0);
    } else if i < w {
        assert(s[i].0 < s[w].0);
    }
}

/// Merge the cached days of a forecast run with freshly fetched days, both
/// ascending: every day of either side appears exactly once, the cache wins
/// where both hold a day, and the result is ascending again.
#[verifier::rlimit(100)]
pub fn merge_forecasts(cached: &Vec<(i64, Forecast)>, fetched: &Vec<(i64, Forecast)>) -> (r: Vec<
    (i64, Forecast),
>)
    requires
        days_ascending(cached@),
        days_ascending(fetched@),
    ensures
        days_ascending(r@),
        forall|d: i64|
            #[trigger] has_day(r@, d) == (has_day(cached@, d) || has_day(fetched@, d)),
        forall|k: int|
            0 <= k < r@.len() ==> (#[trigger] r@[k]).1 == (if has_day(cached@, r@[k].0) {
                day_value(cached@, r@[k].0)
            } else {
                day_value(fetched@, r@[k].0)
            }),
{
    let nc = cached.len();
    let nf = fetched.len();
    let mut r: Vec<(i64, Forecast)> = Vec::new();
    let mut i: usize = 0;
    let mut j: usize = 0;
    while i < nc || j < nf
        invariant
            days_ascending(cached@),
            days_ascending(fetched@),
            nc == cached@.len(),
            nf == fetched@.len(),
            i <= nc,
            j <= nf,
            days_ascending(r@),
            i < nc && r@.len() > 0 ==> r@.last().0 < cached@[i as int].0,
            j < nf && r@.len() > 0 ==> r@.last().0 < fetched@[j as int].0,
            forall|d: i64|
                #[trigger] has_day(r@, d) == (has_day(cached@.take(i as int), d) || has_day(
                    fetched@.take(j as int),
                    d,
                )),
            forall|k: int|
                0 <= k < r@.len() ==> (#[trigger] r@[k]).1 == (if has_day(cached@, r@[k].0) {
                    day_value(cached@, r@[k].0)
                } else {
                    day_value(fetched@, r@[k].0)
                }),
        decreases nc - i + nf - j,
    {
        let ghost r_old = r@;
        let take_cached = if i < nc {
            if j < nf {
                cached[i].0 <= fetched[j].0
            } else {
                true
            }
        } else {
            false
        };
        if take_cached {
            let d = cached[i].0;
            let both = j < nf && fetched[j].0 == d;
            r.push((d, cached[i].1));
            proof {
                lemma_day_at(cached@, i as int);
                assert(cached@.take(i as int + 1) =~= cached@.take(i as int).push(cached@[
                i as int]));
                if both {
                    assert(fetched@.take(j as int + 1) =~= fetched@.take(j as int).push(fetched@[
                    j as int]));
                }
                assert forall|d2: i64| #[trigger] has_day(r@, d2) == (has_day(
                    cached@.take(i as int + 1),
                    d2,
                ) || has_day(
                    fetched@.take(if both { j as int + 1 } else { j as int }),
                    d2,
                )) by {
                    lemma_has_day_push(r_old, (d, cached@[i as int].1), d2);
                    lemma_has_day_push(cached@.take(i as int), cached@[i as int], d2);
                    if both {
                        lemma_has_day_push(fetched@.take(j as int), fetched@[j as int], d2);
                    }
                }
                assert forall|k: int| 0 <= k < r@.len() implies (#[trigger] r@[k]).1 == (if has_day(
                    cached@,
                    r@[k].0,
                ) {
                    day_value(cached@, r@[k].0)
                } else {
                    day_value(fetched@, r@[k].0)
                }) by {
                    if k < r@.len() - 1 {
                        assert(r@[k] == r_old[k]);
                    }
                }
            }
            i = i + 1;
            if both {
                j = j + 1;
            }
        } else {
            let d = fetched[j].0;
            r.push((d, fetched[j].1));
            proof {
                lemma_day_at(fetched@, j as int);
                assert(fetched@.take(j as int + 1) =~= fetched@.take(j as int).push(fetched@[
                j as int]));
                assert(!has_day(cached@, d)) by {
                    if has_day(cached@, d) {
                        let w = choose|k: int|
                            0 <= k < cached@.len() && (#[trigger] cached@[k]).0 == d;
                        if w < i {
                            assert(cached@.take(i as int)[w].0 == d);
                            assert(has_day(cached@.take(i as int), d));
                            assert(has_day(r_old, d));
                            let p = choose|k: int|
                                0 <= k < r_old.len() && (#[trigger] r_old[k]).0 == d;
                            if p < r_old.len() - 1 {
                                assert(r_old[p].0 < r_old.last().0);
                            }
                            assert(r_old.last().0 < d);
                        } else {
                            assert(i < nc);
                            if (i as int) < w {
                                assert(cached@[i as int].0 < cached@[w].0);
                            }
                            assert(d < cached@[i as int].0);
                        }
                    }
                }
                assert forall|d2: i64| #[trigger] has_day(r@, d2) == (has_day(
                    cached@.take(i as int),
                    d2,
                ) || has_day(fetched@.take(j as int + 1), d2)) by {
                    lemma_has_day_push(r_old, (d, fetched@[j as int].1), d2);
                    lemma_has_day_push(fetched@.take(j as int), fetched@[j as int], d2);
                }
                assert forall|k: int| 0 <= k < r@.len() implies (#[trigger] r@[k]).1 == (if has_day(
                    cached@,
                    r@[k].0,
                ) {
                    day_value(cached@, r@[k].0)
                } else {
                    day_value(fetched@, r@[k].0)
                }) by {
                    if k < r@.len() - 1 {
                        assert(r@[k] == r_old[k]);
                    }
                }
            }
            j = j + 1;
        }
    }
    proof {
        assert(cached@.take(nc as int) =~= cached@);
        assert(fetched@.take(nf as int) =~= fetched@);
    }
    r
}

/// The weather a per-day list holds for `d`, if any.
fn lookup_day(list: &Vec<(i64, Weather)>, d: i64) -> (r: Option<Weather>)
    requires
        days_ascending(list@),
    ensures
        r == (if has_day(list@, d) {
            Some(day_value(list@, d))
        } else {
            None::<Weather>
        }),
{
    let n = list.len();
    let mut i: usize = 0;
    while i < n
        invariant
            days_ascending(list@),
            n == list@.len(),
            i <= n,
            forall|j: int| 0 <= j < i ==> (#[trigger] list@[j]).0 != d,
        decreases n - i,
    {
        if list[i].0 == d {
            proof {
                assert(has_day(list@, d));
                let w = choose|k: int| 0 <= k < list@.len() && (#[trigger] list@[k]).0 == d;
                if w < i as int {
                    assert(list@[w].0 != d);
                } else if w > i as int {
                    assert(list@[i as int].0 < list@[w].0);
                }
            }
            return Some(list[i].1);
        }
        i = i + 1;
    }
    None
}

} // verus!
