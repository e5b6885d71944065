//! Instants, kept as nanoseconds since the Unix epoch, and their text forms.

use vstd::prelude::*;

verus! {

pub const NANOS_PER_SEC: i128 = 1_000_000_000;

/// The widest instant, in seconds from the epoch either way, that the
/// calendar can write (some 253 000 years).
pub const MAX_CALENDAR_SECS: i64 = 8_000_000_000_000;

/// Whether `nanos` is an instant that the calendar can write.
pub open spec fn in_calendar_range(nanos: i128) -> bool {
    -(MAX_CALENDAR_SECS as int) * NANOS_PER_SEC <= nanos <= (MAX_CALENDAR_SECS as int)
        * NANOS_PER_SEC
}

/// What `chrono` writes for the instant `secs` seconds and `nsecs`
/// nanoseconds after the epoch, in RFC 3339.
pub uninterp spec fn rfc3339_text(secs: int, nsecs: int) -> Seq<char>;

/// What `chrono` writes for the day of the instant `secs` seconds and
/// `nsecs` nanoseconds after the epoch, as `YYYY-MM-DD`.
pub uninterp spec fn ymd_text(secs: int, nsecs: int) -> Seq<char>;

/// `chrono::DateTime::<Utc>::from_timestamp`, written with `to_rfc3339`.
/// Claims: the text is a function of the instant alone, and an instant
/// within `MAX_CALENDAR_SECS` of the epoch with fewer than a second of
/// nanoseconds is always written (chrono refuses only instants more than
/// about 262 000 years away, or nanoseconds of two seconds or more).
#[verifier::external_body]
fn chrono_rfc3339(secs: i64, nsecs: u32) -> (r: Option<String>)
    ensures
        r matches Some(t) ==> t@ == rfc3339_text(secs as int, nsecs as int),
        -MAX_CALENDAR_SECS <= secs <= MAX_CALENDAR_SECS && nsecs < 1_000_000_000 ==> r is Some,
{
    match chrono::DateTime::from_timestamp(secs, nsecs) {
        Some(d) => Some(d.to_rfc3339()),
        None => None,
    }
}

/// `chrono::DateTime::<Utc>::from_timestamp`, written with the format
/// `%Y-%m-%d`. Claims as for `chrono_rfc3339`.
#[verifier::external_body]
fn chrono_ymd(secs: i64, nsecs: u32) -> (r: Option<String>)
    ensures
        r matches Some(t) ==> t@ == ymd_text(secs as int, nsecs as int),
        -MAX_CALENDAR_SECS <= secs <= MAX_CALENDAR_SECS && nsecs < 1_000_000_000 ==> r is Some,
{
    match chrono::DateTime::from_timestamp(secs, nsecs) {
        Some(d) => Some(d.format("%Y-%m-%d").to_string()),
        None => None,
    }
}

/// The whole seconds of `nanos`, rounded down.
pub open spec fn secs_of(nanos: i128) -> int {
    nanos as int / NANOS_PER_SEC as int
}

/// The nanoseconds of `nanos` past its whole second.
pub open spec fn subsec_of(nanos: i128) -> int {
    nanos as int % NANOS_PER_SEC as int
}

fn split_nanos(nanos: i128) -> (r: (i64, u32))
    requires
        in_calendar_range(nanos),
    ensures
        r.0 == secs_of(nanos),
        r.1 == subsec_of(nanos),
        -MAX_CALENDAR_SECS <= r.0 <= MAX_CALENDAR_SECS,
        r.1 < 1_000_000_000,
{
    let mut secs = nanos / NANOS_PER_SEC;
    let mut sub = nanos % NANOS_PER_SEC;
    if sub < 0 {
        secs = secs - 1;
        sub = sub + NANOS_PER_SEC;
    }
    assert(secs == nanos as int / NANOS_PER_SEC as int && sub == nanos as int % NANOS_PER_SEC
        as int) by (nonlinear_arith)
        requires
            secs * NANOS_PER_SEC + sub == nanos,
            0 <= sub < NANOS_PER_SEC,
    ;
    assert(-MAX_CALENDAR_SECS <= secs <= MAX_CALENDAR_SECS) by (nonlinear_arith)
        requires
            secs * NANOS_PER_SEC + sub == nanos,
            0 <= sub < NANOS_PER_SEC,
            in_calendar_range(nanos),
    ;
    (secs as i64, sub as u32)
}

/// The RFC 3339 text of the instant `nanos`.
pub fn rfc3339(nanos: i128) -> (r: String)
    requires
        in_calendar_range(nanos),
    ensures
        r@ == rfc3339_text(secs_of(nanos), subsec_of(nanos)),
{
    let (secs, sub) = split_nanos(nanos);
    match chrono_rfc3339(secs, sub) {
        Some(t) => t,
        None => {
            assert(false);
            String::new()
        },
    }
}

/// The `YYYY-MM-DD` day of the instant `nanos`.
pub fn calendar_day(nanos: i128) -> (r: String)
    requires
        in_calendar_range(nanos),
    ensures
        r@ == ymd_text(secs_of(nanos), subsec_of(nanos)),
{
    let (secs, sub) = split_nanos(nanos);
    match chrono_ymd(secs, sub) {
        Some(t) => t,
        None => {
            assert(false);
            String::new()
        },
    }
}

} // verus!
