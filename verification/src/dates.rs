use vstd::prelude::*;

use crate::error::TodoError;
use crate::text;

verus! {

/// What chrono computes for a calendar-date string: the timestamp of that
/// date at 23:59:59 UTC when the string parses as `YYYY-MM-DD`, and nothing
/// otherwise. The result depends on the characters of the string alone.
pub uninterp spec fn eod_timestamp_of(s: Seq<char>) -> Option<i64>;

/// Relies on chrono's `Utc::now` and `DateTime::timestamp`: the current time
/// as whole seconds since the Unix epoch. `Utc::now` panics when the system
/// clock is set before the epoch, so a value that is returned is never
/// negative.
#[verifier::external_body]
pub(crate) fn now_timestamp() -> (r: i64)
    ensures
        r >= 0,
{
    chrono::Utc::now().timestamp()
}

/// Relies on chrono's `NaiveDate::parse_from_str` with the `%Y-%m-%d` format,
/// `NaiveDate::and_hms_opt` (always defined for 23:59:59) and
/// `DateTime::timestamp`: the end-of-day timestamp of the calendar date the
/// string denotes, or nothing when it does not parse.
#[verifier::external_body]
pub(crate) fn parse_calendar_end_of_day(s: &str) -> (r: Option<i64>)
    ensures
        r == eod_timestamp_of(s@),
{
    match chrono::NaiveDate::parse_from_str(s, "%Y-%m-%d") {
        Ok(d) => Some(d.and_hms_opt(23, 59, 59).unwrap().and_utc().timestamp()),
        Err(_) => None,
    }
}

/// The UTC calendar day a timestamp falls on, as days since the epoch
/// (negative before 1970). Two timestamps are on the same calendar day
/// exactly when these agree.
pub open spec fn spec_day_of(ts: i64) -> int {
    ts as int / 86400
}

/// The whole days from `from` to `to`, truncated toward zero.
pub open spec fn spec_days_between(from: int, to: int) -> int {
    if to - from >= 0 {
        (to - from) / 86400
    } else {
        -((from - to) / 86400)
    }
}

/// The UTC calendar day of `ts`, computed without overflow for any timestamp.
pub fn day_of(ts: i64) -> (r: i64)
    ensures
        r == spec_day_of(ts),
{
    if ts >= 0 {
        let d: u64 = (ts as u64) / 86400;
        d as i64
    } else {
        let m: u128 = (-(ts as i128)) as u128;
        let q: u128 = (m + 86399) / 86400;
        proof {
            assert(q * 86400 >= m && (q - 1) * 86400 < m) by (nonlinear_arith)
                requires
                    q == (m + 86399) / 86400,
                    m >= 1,
            ;
            assert(-(q as int) == ts as int / 86400) by (nonlinear_arith)
                requires
                    q * 86400 >= m,
                    (q - 1) * 86400 < m,
                    m == -(ts as int),
                    ts < 0,
            ;
        }
        -((q as i64))
    }
}

/// The whole days from `from` to `to`, truncated toward zero as chrono's
/// `TimeDelta::num_days` truncates.
pub fn days_between(from: i64, to: i64) -> (r: i64)
    ensures
        r == spec_days_between(from as int, to as int),
{
    let diff: i128 = (to as i128) - (from as i128);
    if diff >= 0 {
        let q: u128 = (diff as u128) / 86400;
        q as i64
    } else {
        let q: u128 = ((-diff) as u128) / 86400;
        -(q as i64)
    }
}

/// The relative form of the due-date grammar: a leading `+`, every trailing
/// repetition of the word `days` dropped, ASCII whitespace trimmed, and the
/// remainder read as a decimal integer of days.
pub open spec fn plus_days_spec(s: Seq<char>) -> Option<i64> {
    if s.len() > 0 && s[0] == '+' {
        text::parse_i64_spec(text::trim_spec(text::strip_days_spec(s.skip(1))))
    } else {
        None
    }
}

/// What a due-date string denotes at time `now`: `Some(v)` when the grammar
/// accepts it (`v` is the due date, or nothing for the empty string), `None`
/// when it is rejected. A relative date whose timestamp leaves the range of
/// `i64` is rejected.
pub open spec fn parse_due_result(s: Seq<char>, now: i64) -> Option<Option<i64>> {
    if s.len() == 0 {
        Some(None)
    } else {
        match plus_days_spec(s) {
            Some(n) => if i64::MIN <= now + n * 86400 <= i64::MAX {
                Some(Some((now + n * 86400) as i64))
            } else {
                None
            },
            None => match eod_timestamp_of(s) {
                Some(ts) => Some(Some(ts)),
                None => None,
            },
        }
    }
}

/// Parse due-date text against the grammar, the relative form anchored at
/// `now`. An empty string means "no due date"; text that matches no form of
/// the grammar is reported back inside the error.
pub fn parse_due_date(due: &str, now: i64) -> (r: Result<Option<i64>, TodoError>)
    ensures
        match parse_due_result(due@, now) {
            Some(v) => r == Ok::<Option<i64>, TodoError>(v),
            None => r matches Err(TodoError::InvalidDate(t)) && t@ == due@,
        },
{
    let n = due.unicode_len();
    if n == 0 {
        return Ok(None);
    }
    if due.get_char(0) == '+' {
        let rest = due.substring_char(1, n);
        proof {
            assert(rest@ =~= due@.skip(1));
        }
        let digits = text::trim(text::strip_days(rest));
        if let Some(days) = text::parse_i64(digits) {
            let ts: i128 = (now as i128) + (days as i128) * 86400;
            if (i64::MIN as i128) <= ts && ts <= (i64::MAX as i128) {
                return Ok(Some(ts as i64));
            } else {
                return Err(TodoError::InvalidDate(due.to_owned()));
            }
        }
    }
    match parse_calendar_end_of_day(due) {
        Some(ts) => Ok(Some(ts)),
        None => Err(TodoError::InvalidDate(due.to_owned())),
    }
}

} // verus!
