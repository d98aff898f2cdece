use vstd::prelude::*;

use crate::model::Instant;
use chrono::Datelike;

verus! {

/// The zones in which every event start is displayed.
#[derive(Clone, Copy, Debug, PartialEq, Eq, Structural)]
pub enum Zone {
    Utc,
    UsEastern,
    UsPacific,
    Auckland,
}

/// The instant that a relaxed RFC 3339 timestamp with an explicit offset
/// denotes, as (seconds since the epoch, nanoseconds), if it is well formed.
pub uninterp spec fn rfc3339_instant(s: Seq<char>) -> Option<(i64, u32)>;

/// "Mon DD HH:MM" (24-hour clock) for the instant in the zone, with the
/// zone's daylight-saving rules applied; none when the instant lies outside
/// the representable calendar.
pub uninterp spec fn zone_stamp(zone: Zone, secs: i64, nanos: u32) -> Option<Seq<char>>;

/// The calendar month (1 to 12) in UTC of the instant, when representable.
pub uninterp spec fn utc_month(secs: i64, nanos: u32) -> Option<u32>;

/// The default text form of the instant in UTC ("YYYY-MM-DD HH:MM:SS UTC",
/// with a fraction where there is one), when representable.
pub uninterp spec fn utc_text(secs: i64, nanos: u32) -> Option<Seq<char>>;

/// Relies on chrono's `FromStr` for `DateTime<Utc>` (relaxed RFC 3339, the
/// offset applied) and on `timestamp` / `timestamp_subsec_nanos` of the result.
#[verifier::external_body]
pub(crate) fn parse_instant(s: &str) -> (r: Option<Instant>)
    ensures
        r is Some <==> rfc3339_instant(s@) is Some,
        r matches Some(i) ==> rfc3339_instant(s@) == Some((i.secs, i.nanos)),
{
    match s.parse::<chrono::DateTime<chrono::Utc>>() {
        Ok(dt) => Some(Instant { secs: dt.timestamp(), nanos: dt.timestamp_subsec_nanos() }),
        Err(_) => None,
    }
}

/// Relies on chrono's `DateTime::from_timestamp`, on chrono-tz's zone data
/// through `with_timezone`, and on `format("%b %d %H:%M")`.
#[verifier::external_body]
pub(crate) fn stamp_in_zone(at: Instant, zone: Zone) -> (r: Option<String>)
    ensures
        r is Some <==> zone_stamp(zone, at.secs, at.nanos) is Some,
        r matches Some(s) ==> zone_stamp(zone, at.secs, at.nanos) == Some(s@),
{
    let tz = match zone {
        Zone::Utc => chrono_tz::Tz::UTC,
        Zone::UsEastern => chrono_tz::Tz::US__Eastern,
        Zone::UsPacific => chrono_tz::Tz::US__Pacific,
        Zone::Auckland => chrono_tz::Tz::Pacific__Auckland,
    };
    chrono::DateTime::from_timestamp(at.secs, at.nanos)
        .map(|dt| dt.with_timezone(&tz).format("%b %d %H:%M").to_string())
}

/// Relies on chrono's `DateTime::from_timestamp` and `Datelike::month`,
/// which is documented to lie in 1 to 12.
#[verifier::external_body]
pub(crate) fn month_in_utc(at: Instant) -> (r: Option<u32>)
    ensures
        r == utc_month(at.secs, at.nanos),
        r matches Some(m) ==> 1 <= m <= 12,
{
    chrono::DateTime::from_timestamp(at.secs, at.nanos).map(|dt| dt.month())
}

/// Relies on chrono's `DateTime::from_timestamp` and its `Display` form.
#[verifier::external_body]
pub(crate) fn text_in_utc(at: Instant) -> (r: Option<String>)
    ensures
        r is Some <==> utc_text(at.secs, at.nanos) is Some,
        r matches Some(s) ==> utc_text(at.secs, at.nanos) == Some(s@),
{
    chrono::DateTime::from_timestamp(at.secs, at.nanos).map(|dt| dt.to_string())
}

} // verus!
