use vstd::prelude::*;

use crate::text::opt_view;

verus! {

/// How old a symbol's cached daily data may get, in seconds, before it is
/// fetched again.
pub const CACHE_MAX_AGE_SECS: i64 = 3600;

/// How many calendar days the overview shows, ending today.
pub const WINDOW_DAYS: i32 = 7;

/// A point in time as chrono reports it for a UTC date-time: whole seconds
/// since the Unix epoch and the nanoseconds within that second (one billion
/// or more only inside a leap second).
#[derive(Clone, Copy)]
pub struct Instant {
    pub secs: i64,
    pub nanos: u32,
}

/// Bound on the seconds of the instants handled here; chrono represents
/// dates up to about year 262,000 on either side, well beyond it.
pub const MAX_INSTANT_SECS: i64 = 8_000_000_000_000;

/// An instant chrono can rebuild with `DateTime::from_timestamp`: within the
/// bound, and with a leap-second nanosecond count only in the last second of
/// a minute.
pub open spec fn representable(t: Instant) -> bool {
    &&& -MAX_INSTANT_SECS <= t.secs <= MAX_INSTANT_SECS
    &&& (t.nanos < 1_000_000_000 || (t.nanos < 2_000_000_000 && (t.secs as int) % 60 == 59))
}

/// Whether `t` lies where chrono can rebuild it (see [`representable`]).
pub fn is_representable(t: Instant) -> (r: bool)
    ensures
        r == representable(t),
{
    if t.secs < -MAX_INSTANT_SECS || t.secs > MAX_INSTANT_SECS {
        return false;
    }
    // Shifting by a multiple of 60 makes the seconds non-negative and keeps
    // their remainder by 60.
    let shifted = (t.secs + 8_000_000_000_040) as u64;
    proof {
        vstd::arithmetic::div_mod::lemma_mod_multiples_vanish(133_333_333_334, t.secs as int, 60);
        assert(60 * 133_333_333_334 == 8_000_000_000_040);
    }
    t.nanos < 1_000_000_000 || (t.nanos < 2_000_000_000 && shifted % 60 == 59)
}

/// The instant described by an RFC 3339 text, as chrono's
/// `DateTime::parse_from_rfc3339` reads it (converted to UTC); `None` when
/// chrono rejects the text.
pub uninterp spec fn rfc3339_instant(s: Seq<char>) -> Option<Instant>;

/// Trusted: calls `chrono::DateTime::parse_from_rfc3339` and, on success,
/// reads the UTC `timestamp()` and `timestamp_subsec_nanos()` of the result.
/// The grammar is chrono's and is only named here. Stated: a parsed instant
/// can be rebuilt by `from_timestamp` (chrono documents the round trip), and
/// RFC 3339 texts carry four-digit years, far inside the bound.
#[verifier::external_body]
fn parse_rfc3339(s: &str) -> (r: Option<Instant>)
    ensures
        r == rfc3339_instant(s@),
        r matches Some(t) ==> representable(t),
{
    match chrono::DateTime::parse_from_rfc3339(s) {
        Ok(t) => Some(Instant { secs: t.timestamp(), nanos: t.timestamp_subsec_nanos() }),
        Err(_) => None,
    }
}

/// The signed distance between two instants in nanoseconds, leap seconds
/// aside.
pub open spec fn nanos_between(later: Instant, earlier: Instant) -> int {
    (later.secs - earlier.secs) * 1_000_000_000 + later.nanos - earlier.nanos
}

/// Integer division rounding toward zero.
pub open spec fn div_toward_zero(a: int, b: int) -> int
    recommends
        b > 0,
{
    if a >= 0 {
        a / b
    } else {
        -((-a) / b)
    }
}

/// The whole seconds from `earlier` to `later`, as chrono's
/// `signed_duration_since(..).num_seconds()` computes them.
pub uninterp spec fn whole_seconds_between(later: Instant, earlier: Instant) -> i64;

/// Trusted: rebuilds both instants with `chrono::DateTime::<Utc>::from_timestamp`
/// (which succeeds on representable instants) and returns
/// `later.signed_duration_since(earlier).num_seconds()`. Stated, as chrono
/// documents it: outside leap seconds this is the exact difference in whole
/// seconds, rounded toward zero. Chrono's own treatment of leap seconds is
/// left to the name.
#[verifier::external_body]
fn whole_seconds_since(later: Instant, earlier: Instant) -> (r: i64)
    requires
        representable(later),
        representable(earlier),
    ensures
        r == whole_seconds_between(later, earlier),
        later.nanos < 1_000_000_000 && earlier.nanos < 1_000_000_000 ==> r == div_toward_zero(
            nanos_between(later, earlier),
            1_000_000_000,
        ),
{
    let a = chrono::DateTime::<chrono::Utc>::from_timestamp(later.secs, later.nanos).unwrap();
    let b = chrono::DateTime::<chrono::Utc>::from_timestamp(earlier.secs, earlier.nanos).unwrap();
    a.signed_duration_since(b).num_seconds()
}

/// The age in whole seconds of `earlier` at `later`: the exact difference
/// rounded toward zero when neither falls in a leap second, otherwise what
/// chrono reports.
pub open spec fn seconds_apart(later: Instant, earlier: Instant) -> int {
    if later.nanos < 1_000_000_000 && earlier.nanos < 1_000_000_000 {
        div_toward_zero(nanos_between(later, earlier), 1_000_000_000)
    } else {
        whole_seconds_between(later, earlier) as int
    }
}

/// Whether a symbol's cached data must be fetched again at `now`, given the
/// fetch time recorded with its newest row: when there is none, when it is
/// not RFC 3339, or when it is at least [`CACHE_MAX_AGE_SECS`] old.
pub open spec fn is_stale(last_fetched_at: Option<Seq<char>>, now: Instant) -> bool {
    match last_fetched_at {
        None => true,
        Some(s) => match rfc3339_instant(s) {
            None => true,
            Some(t) => seconds_apart(now, t) >= CACHE_MAX_AGE_SECS,
        },
    }
}

/// Decides whether to fetch a symbol's data again before reading it.
pub fn needs_refresh(last_fetched_at: &Option<String>, now: Instant) -> (r: bool)
    requires
        representable(now),
    ensures
        r == is_stale(opt_view(*last_fetched_at), now),
{
    match last_fetched_at {
        None => true,
        Some(s) => match parse_rfc3339(s.as_str()) {
            None => true,
            Some(t) => whole_seconds_since(now, t) >= CACHE_MAX_AGE_SECS,
        },
    }
}

/// Once a symbol needs fetching again, it keeps needing it as time goes on:
/// staleness at `now` carries over to any later `then` (for clock readings
/// and a recorded fetch time outside leap seconds).
pub proof fn stale_stays_stale(last_fetched_at: Option<Seq<char>>, now: Instant, then: Instant)
    requires
        now.nanos < 1_000_000_000,
        then.nanos < 1_000_000_000,
        nanos_between(then, now) >= 0,
        last_fetched_at matches Some(s) && rfc3339_instant(s) matches Some(t) ==> t.nanos
            < 1_000_000_000,
        is_stale(last_fetched_at, now),
    ensures
        is_stale(last_fetched_at, then),
{
    if let Some(s) = last_fetched_at {
        if let Some(t) = rfc3339_instant(s) {
            let a = nanos_between(now, t);
            let b = nanos_between(then, t);
            assert(b >= a);
            assert(a >= 3600 * 1_000_000_000) by {
                if a < 0 {
                    assert(div_toward_zero(a, 1_000_000_000) <= 0) by (nonlinear_arith)
                        requires
                            a < 0,
                    ;
                } else {
                    assert(a / 1_000_000_000 >= 3600);
                }
            }
            assert(b / 1_000_000_000 >= 3600);
        }
    }
}

/// A recorded fetch less than [`CACHE_MAX_AGE_SECS`] before `now` (outside
/// leap seconds) means no new fetch; a missing or unreadable record always
/// means one.
pub proof fn fresh_data_is_kept(last_fetched_at: Option<Seq<char>>, now: Instant)
    ensures
        last_fetched_at is None ==> is_stale(last_fetched_at, now),
        last_fetched_at matches Some(s) && rfc3339_instant(s) is None ==> is_stale(
            last_fetched_at,
            now,
        ),
        last_fetched_at matches Some(s) && rfc3339_instant(s) matches Some(t) && t.nanos
            < 1_000_000_000 && now.nanos < 1_000_000_000 && 0 <= nanos_between(now, t) < 3600
            * 1_000_000_000 ==> !is_stale(last_fetched_at, now),
{
    if let Some(s) = last_fetched_at {
        if let Some(t) = rfc3339_instant(s) {
            let a = nanos_between(now, t);
            if t.nanos < 1_000_000_000 && now.nanos < 1_000_000_000 && 0 <= a < 3600
                * 1_000_000_000 {
                assert(a / 1_000_000_000 < 3600);
            }
        }
    }
}

/// Outside leap seconds, data fetched at `t` must be fetched again at `now`
/// exactly when at least [`CACHE_MAX_AGE_SECS`] seconds have passed.
pub proof fn stale_exactly_after_max_age(s: Seq<char>, now: Instant)
    requires
        rfc3339_instant(s) is Some,
        rfc3339_instant(s)->0.nanos < 1_000_000_000,
        now.nanos < 1_000_000_000,
    ensures
        is_stale(Some(s), now) <==> nanos_between(now, rfc3339_instant(s)->0)
            >= CACHE_MAX_AGE_SECS * 1_000_000_000,
{
    let t = rfc3339_instant(s)->0;
    let a = nanos_between(now, t);
    if a >= 0 {
        if a >= 3600 * 1_000_000_000 {
            assert(a / 1_000_000_000 >= 3600);
        } else {
            assert(a / 1_000_000_000 < 3600);
        }
    } else {
        assert((-a) / 1_000_000_000 >= 0);
    }
}

/// The `YYYY-MM-DD` text of the day numbered `days` in the proleptic
/// Gregorian calendar (January 1 of year 1 is day 1), as chrono formats it;
/// `None` when chrono cannot represent that day.
pub uninterp spec fn ce_day_date(days: i32) -> Option<Seq<char>>;

/// Trusted: calls `chrono::NaiveDate::from_num_days_from_ce_opt(days)` and
/// formats the date with `%Y-%m-%d`. The calendar arithmetic is chrono's
/// and is only named here.
#[verifier::external_body]
fn date_of_ce_day(days: i32) -> (r: Option<String>)
    ensures
        opt_view(r) == ce_day_date(days),
{
    match chrono::NaiveDate::from_num_days_from_ce_opt(days) {
        Some(d) => Some(d.format("%Y-%m-%d").to_string()),
        None => None,
    }
}

/// Every day of the window ending on day `today` has a date text.
pub open spec fn window_known(today: i32) -> bool {
    forall|k: int|
        0 <= k < WINDOW_DAYS ==> #[trigger] ce_day_date((today - (WINDOW_DAYS - 1) + k) as i32)
            is Some
}

/// The dates shown by the overview: the [`WINDOW_DAYS`] calendar days ending
/// on day `today` (numbered from the common era), oldest first. `None` when
/// one of those days cannot be represented.
pub fn calendar_window(today: i32) -> (r: Option<Vec<String>>)
    requires
        today >= i32::MIN + WINDOW_DAYS,
    ensures
        r is Some <==> window_known(today),
        r matches Some(v) ==> v.len() == WINDOW_DAYS && forall|k: int|
            0 <= k < WINDOW_DAYS ==> ce_day_date((today - (WINDOW_DAYS - 1) + k) as i32) == Some(
                (#[trigger] v@[k])@,
            ),
{
    let mut out: Vec<String> = Vec::new();
    let mut k: i32 = 0;
    while k < WINDOW_DAYS
        invariant
            0 <= k <= WINDOW_DAYS,
            today >= i32::MIN + WINDOW_DAYS,
            out.len() == k,
            forall|m: int|
                0 <= m < k ==> ce_day_date((today - (WINDOW_DAYS - 1) + m) as i32) == Some(
                    (#[trigger] out@[m])@,
                ),
        decreases WINDOW_DAYS - k,
    {
        let day = today - (WINDOW_DAYS - 1) + k;
        match date_of_ce_day(day) {
            Some(d) => out.push(d),
            None => {
                proof {
                    assert(ce_day_date((today - (WINDOW_DAYS - 1) + k) as i32) is None);
                }
                return None;
            },
        }
        k = k + 1;
    }
    proof {
        assert forall|m: int| 0 <= m < WINDOW_DAYS implies #[trigger] ce_day_date(
            (today - (WINDOW_DAYS - 1) + m) as i32,
        ) is Some by {
            assert(ce_day_date((today - (WINDOW_DAYS - 1) + m) as i32) == Some(out@[m]@));
        }
    }
    Some(out)
}

} // verus!
