use chrono::Timelike;
use vstd::prelude::*;

verus! {

/// Whether a wall-clock time of day lies in the nightly maintenance window,
/// which runs from 23:50 (included) to 00:20 (excluded) across midnight.
pub open spec fn in_window(hour: int, minute: int) -> bool {
    (hour == 23 && minute >= 50) || (hour == 0 && minute < 20)
}

/// The hour and minute that clocks in the Asia/Shanghai time zone show at the
/// instant that lies `nanos` nanoseconds after the Unix epoch.
pub uninterp spec fn shanghai_clock(nanos: i64) -> (u32, u32);

/// Calls `chrono::DateTime::with_timezone` with `chrono_tz::Asia::Shanghai` on the
/// instant built by `DateTime::from_timestamp_nanos`, and reads `Timelike::hour`
/// and `Timelike::minute` off the result. Trusted: the pair is a function of the
/// instant alone, since the zone's rules are compiled into the time-zone crate
/// and every `i64` of nanoseconds is an instant that `chrono` can hold.
#[verifier::external_body]
fn local_clock(now_nanos: i64) -> (clock: (u32, u32))
    ensures
        clock == shanghai_clock(now_nanos),
{
    let local = chrono::DateTime::from_timestamp_nanos(now_nanos).with_timezone(
        &chrono_tz::Asia::Shanghai,
    );
    (local.hour(), local.minute())
}

/// Decides the policy on a local time of day.
pub fn window_contains(hour: u32, minute: u32) -> (inside: bool)
    ensures
        inside == in_window(hour as int, minute as int),
{
    (hour == 23 && minute >= 50) || (hour == 0 && minute < 20)
}

/// Decides whether fresh data should be distrusted at the given instant
/// (nanoseconds since the Unix epoch): true exactly when the local time in
/// Asia/Shanghai lies in the maintenance window.
pub fn is_in_maintenance_window(now_nanos: i64) -> (inside: bool)
    ensures
        inside == in_window(
            shanghai_clock(now_nanos).0 as int,
            shanghai_clock(now_nanos).1 as int,
        ),
{
    let clock = local_clock(now_nanos);
    window_contains(clock.0, clock.1)
}

/// The window is the half-open interval of the day's minutes from 23:50 to
/// 00:20: counted from midnight, a valid time of day is inside exactly when its
/// minute number is at least 1430 or below 20.
pub proof fn lemma_window_is_half_open_interval(hour: int, minute: int)
    requires
        0 <= hour <= 23,
        0 <= minute <= 59,
    ensures
        in_window(hour, minute) <==> (hour * 60 + minute >= 1430 || hour * 60 + minute < 20),
{
}

} // verus!
