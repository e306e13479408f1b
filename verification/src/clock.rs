use vstd::prelude::*;

use chrono::{Datelike, Timelike};

use crate::cron::CronTime;

verus! {

/// `chrono::Utc::now().timestamp()`, seconds since the Unix epoch, as `u64`.
/// Nothing is stated of the value: it is read from the clock.
#[verifier::external_body]
pub(crate) fn utc_now_secs() -> u64 {
    chrono::Utc::now().timestamp() as u64
}

/// The fields of a local time lie in their ranges.
pub open spec fn time_in_range(t: CronTime) -> bool {
    t.minute < 60 && t.hour < 24 && 1 <= t.day <= 31 && 1 <= t.month <= 12 && t.weekday < 7
}

/// `chrono::Local::now()`: seconds since the epoch (as `u64`) and the local
/// minute, hour, day, month and day of week (counted from Sunday). Only the
/// ranges of the fields are stated: the values depend on the clock and on
/// the machine's time zone.
#[verifier::external_body]
pub(crate) fn local_now() -> (r: (u64, CronTime))
    ensures
        time_in_range(r.1),
{
    let now = chrono::Local::now();
    let t = CronTime {
        minute: now.minute(),
        hour: now.hour(),
        day: now.day(),
        month: now.month(),
        weekday: now.weekday().num_days_from_sunday(),
    };
    (now.timestamp() as u64, t)
}

/// `chrono::DateTime::from_timestamp(ts, 0)` taken to the local time zone
/// with `with_timezone(&Local)`; `None` where the timestamp is out of
/// chrono's range. Only the ranges of the fields are stated: the values
/// depend on the machine's time zone.
#[verifier::external_body]
pub(crate) fn local_time_of(ts: u64) -> (r: Option<CronTime>)
    ensures
        r matches Some(t) ==> time_in_range(t),
{
    match chrono::DateTime::from_timestamp(ts as i64, 0) {
        Some(utc) => {
            let l = utc.with_timezone(&chrono::Local);
            Some(CronTime {
                minute: l.minute(),
                hour: l.hour(),
                day: l.day(),
                month: l.month(),
                weekday: l.weekday().num_days_from_sunday(),
            })
        },
        None => None,
    }
}

} // verus!
