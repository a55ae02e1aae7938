//! Timestamps rendered as RFC 3339 text, through `chrono`.
use vstd::prelude::*;
use crate::text::{decimal, opt_view, padded_decimal, zeros};

verus! {

/// The proleptic Gregorian date `(year, month, day)` that lies `days` days after
/// 1 January 1970 (before it when negative).
pub open spec fn civil_from_days(days: int) -> (int, int, int) {
    let z = days + 719468;
    let era = z / 146097;
    let doe = z - era * 146097;
    let yoe = (doe - doe / 1460 + doe / 36524 - doe / 146096) / 365;
    let doy = doe - (365 * yoe + yoe / 4 - yoe / 100);
    let mp = (5 * doy + 2) / 153;
    let d = doy - (153 * mp + 2) / 5 + 1;
    let m = if mp < 10 { mp + 3 } else { mp - 9 };
    let y = yoe + era * 400 + if m <= 2 { 1int } else { 0int };
    (y, m, d)
}

/// A year as RFC 3339 writes it: four digits for years 0 to 9999, otherwise a sign and at
/// least four digits.
pub open spec fn year_text(y: int) -> Seq<char> {
    if 0 <= y <= 9999 {
        padded_decimal(y, 4)
    } else {
        let digits = decimal(if y < 0 { (-y) as nat } else { y as nat });
        (if y < 0 { seq!['-'] } else { seq!['+'] }) + zeros(4 - digits.len()) + digits
    }
}

/// The RFC 3339 rendering, with milliseconds and a `Z` offset, of the UTC instant
/// `millis` milliseconds past `secs` seconds after the Unix epoch, or `None` when its
/// year lies outside the years -262143 to 262142 that `chrono` represents.
pub open spec fn instant_rfc3339(secs: int, millis: int) -> Option<Seq<char>> {
    let sod = secs % 86400;
    let (y, m, d) = civil_from_days(secs / 86400);
    if -262143 <= y <= 262142 {
        Some(year_text(y) + "-"@ + padded_decimal(m, 2) + "-"@ + padded_decimal(d, 2) + "T"@
            + padded_decimal(sod / 3600, 2) + ":"@ + padded_decimal((sod % 3600) / 60, 2) + ":"@
            + padded_decimal(sod % 60, 2) + "."@ + padded_decimal(millis, 3) + "Z"@)
    } else {
        None
    }
}

/// The RFC 3339 rendering, with milliseconds and a `Z` offset, of the UTC instant
/// `secs` seconds after the Unix epoch, or `None` when its year is out of range.
pub open spec fn timestamp_rfc3339(secs: int) -> Option<Seq<char>> {
    instant_rfc3339(secs, 0)
}

/// Whether `t` is the millisecond RFC 3339 rendering of some instant.
pub open spec fn is_rfc3339_instant(t: Seq<char>) -> bool {
    exists|secs: int, millis: int| 0 <= millis < 1000 && #[trigger] instant_rfc3339(secs, millis) == Some(t)
}

/// `chrono::DateTime::from_timestamp(secs, 0)` rendered by
/// `to_rfc3339_opts(SecondsFormat::Millis, true)`: the date and time of `secs` in UTC as
/// `YYYY-MM-DDTHH:MM:SS.000Z`; `None` where `from_timestamp` finds the instant out of range.
#[verifier::external_body]
pub fn rfc3339_of_timestamp(secs: i64) -> (r: Option<String>)
    ensures
        opt_view(r) == timestamp_rfc3339(secs as int),
{
    match chrono::DateTime::from_timestamp(secs, 0) {
        Some(instant) => Some(instant.to_rfc3339_opts(chrono::SecondsFormat::Millis, true)),
        None => None,
    }
}

/// `chrono::Utc::now()` rendered by `to_rfc3339_opts(SecondsFormat::Millis, true)`: the
/// millisecond rendering of some instant. Which instant depends on the clock, so the
/// contract does not say.
#[verifier::external_body]
pub fn now_rfc3339() -> (r: String)
    ensures
        is_rfc3339_instant(r@),
{
    chrono::Utc::now().to_rfc3339_opts(chrono::SecondsFormat::Millis, true)
}

} // verus!
