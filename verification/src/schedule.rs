//! The scheduling choices offered during event creation: one choice per
//! day for the week after today, and one choice per hour of the chosen
//! day. The calendar labels of the day choices come from the outside
//! calendar library; everything else is arithmetic on Unix timestamps.

use vstd::prelude::*;

use crate::text::{dec_digits, dec_string};

verus! {

/// Seconds in one day.
pub const DAY_SECS: i64 = 86400;

/// Seconds in one hour.
pub const HOUR_SECS: i64 = 3600;

/// The latest time the schedule helpers accept, comfortably past the
/// year five thousand.
pub const MAX_SCHEDULE_TS: i64 = 100_000_000_000;

/// How many day choices a date menu offers.
pub const DAY_CHOICES: usize = 7;

/// How many hour choices a time menu offers.
pub const HOUR_CHOICES: usize = 24;

/// The calendar label of the day holding this timestamp; a function of
/// the timestamp alone.
pub uninterp spec fn day_label_of(ts: i64) -> Seq<char>;

/// Relies on chrono's `DateTime::<Utc>::from_timestamp` and `format`
/// with a fixed pattern for the weekday, month, day and year of the UTC
/// day holding `ts`; the text depends on `ts` alone. The bound keeps the
/// timestamp inside the range `from_timestamp` accepts.
#[verifier::external_body]
fn day_label(ts: i64) -> (r: String)
    requires
        0 <= ts <= 2 * MAX_SCHEDULE_TS,
    ensures
        r@ == day_label_of(ts),
{
    let day = chrono::DateTime::<chrono::Utc>::from_timestamp(ts, 0).unwrap();
    day.format("%A %B %d, %Y").to_string()
}

/// Relies on `chrono::Utc::now` for the current time as seconds since
/// the Unix epoch. Nothing is promised of the value.
#[verifier::external_body]
fn now_timestamp() -> i64 {
    chrono::Utc::now().timestamp()
}

/// The UTC midnight starting the current day, clamped into the range
/// the schedule accepts.
pub fn current_day_start() -> (r: i64)
    ensures
        0 <= r <= MAX_SCHEDULE_TS,
        (r as int) % (DAY_SECS as int) == 0,
{
    let now = now_timestamp();
    let clamped: u64 = if now < 0 {
        0
    } else if now > MAX_SCHEDULE_TS {
        MAX_SCHEDULE_TS as u64
    } else {
        now as u64
    };
    let day0 = (clamped / 86400) * 86400;
    day0 as i64
}

/// One menu choice per day: the calendar label and the starting midnight
/// of each of the seven days after the day starting at `day0`.
pub fn date_choices(day0: i64) -> (r: Vec<(String, i64)>)
    requires
        0 <= day0 <= MAX_SCHEDULE_TS,
    ensures
        r@.len() == DAY_CHOICES,
        forall|k: int|
            0 <= k < DAY_CHOICES ==> (#[trigger] r@[k]).1 == day0 + (k + 1) * (DAY_SECS as int)
                && r@[k].0@ == day_label_of((day0 + (k + 1) * (DAY_SECS as int)) as i64),
{
    let mut out: Vec<(String, i64)> = Vec::new();
    let mut k: usize = 0;
    while k < DAY_CHOICES
        invariant
            0 <= day0 <= MAX_SCHEDULE_TS,
            k <= DAY_CHOICES,
            out@.len() == k,
            forall|j: int|
                0 <= j < k ==> (#[trigger] out@[j]).1 == day0 + (j + 1) * (DAY_SECS as int)
                    && out@[j].0@ == day_label_of((day0 + (j + 1) * (DAY_SECS as int)) as i64),
        decreases DAY_CHOICES - k,
    {
        let ts: i64 = day0 + ((k as i64) + 1) * DAY_SECS;
        let label = day_label(ts);
        out.push((label, ts));
        k += 1;
    }
    out
}

/// The label of an hour choice, the hour zero-padded to two digits.
pub open spec fn hour_label(h: int) -> Seq<char> {
    (if h < 10 {
        seq!['0'] + dec_digits(h)
    } else {
        dec_digits(h)
    }) + ":00"@
}

/// One menu choice per hour of a day, from "00:00" to "23:00"; the value
/// is the hour itself.
pub fn time_choices() -> (r: Vec<(String, u32)>)
    ensures
        r@.len() == HOUR_CHOICES,
        forall|h: int|
            0 <= h < HOUR_CHOICES ==> (#[trigger] r@[h]).1 == h && r@[h].0@ == hour_label(h),
{
    let mut out: Vec<(String, u32)> = Vec::new();
    let mut h: u32 = 0;
    while h < 24
        invariant
            h <= 24,
            out@.len() == h,
            forall|j: int| 0 <= j < h ==> (#[trigger] out@[j]).1 == j && out@[j].0@ == hour_label(j),
        decreases 24 - h,
    {
        let digits = dec_string(h as u128);
        let mut label: String;
        if h < 10 {
            label = String::from_str("0");
            proof {
                reveal_strlit("0");
                assert(label@ =~= seq!['0']);
            }
        } else {
            label = String::new();
        }
        label.append(digits.as_str());
        label.append(":00");
        proof {
            assert(label@ =~= hour_label(h as int));
        }
        out.push((label, h));
        h += 1;
    }
    out
}

/// The scheduled moment: the chosen day at the chosen hour.
pub fn scheduled_timestamp(day_start_ts: i64, hour: u32) -> (r: i64)
    requires
        0 <= day_start_ts <= 2 * MAX_SCHEDULE_TS,
        hour < 24,
    ensures
        r == day_start_ts + hour * (HOUR_SECS as int),
{
    day_start_ts + (hour as i64) * HOUR_SECS
}

} // verus!
