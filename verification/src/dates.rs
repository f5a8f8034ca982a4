use vstd::prelude::*;

use crate::text::{digit_char, nat_decimal, push_str, string_from_chars, u64_decimal};

verus! {

/// The seconds since the epoch of an RFC 3339 date, as `chrono` reads it (none when the text
/// is not such a date).
pub uninterp spec fn rfc3339_seconds(s: Seq<char>) -> Option<i64>;

/// `chrono::DateTime::parse_from_rfc3339` followed by `timestamp`: the date's seconds since
/// the epoch, or none when the text is not an RFC 3339 date. Claimed: the result is
/// `rfc3339_seconds` of the text.
#[verifier::external_body]
pub(crate) fn parse_rfc3339_seconds(s: &str) -> (r: Option<i64>)
    ensures
        r == rfc3339_seconds(s@),
{
    chrono::DateTime::parse_from_rfc3339(s).ok().map(|d| d.timestamp())
}

/// The UTC day of a time in seconds as `chrono` writes it with `%B %d, %Y` (such as
/// `January 01, 2021`); empty when the time is out of `chrono`'s range.
pub uninterp spec fn utc_day_label(ts: i64) -> Seq<char>;

/// `chrono::DateTime::from_timestamp` followed by `format("%B %d, %Y")`: the UTC day of the
/// time, or the empty text when `chrono` cannot represent it. Claimed: the result is
/// `utc_day_label` of the time.
#[verifier::external_body]
pub fn format_day(ts: i64) -> (r: String)
    ensures
        r@ == utc_day_label(ts),
{
    chrono::DateTime::from_timestamp(ts, 0).map(|dt| dt.format("%B %d, %Y").to_string()).unwrap_or_default()
}

/// The time of day (UTC) of a time in seconds on a 12-hour clock: the hour (`12` for `0`),
/// `:`, the minutes on two digits, a space and `AM` or `PM`.
pub open spec fn clock_label(ts: i64) -> Seq<char> {
    let secs = ts as int % 86400;
    let hours = secs / 3600;
    let minutes = (secs % 3600) / 60;
    let display = if hours == 0 {
        12
    } else if hours > 12 {
        hours - 12
    } else {
        hours
    };
    let period = if hours >= 12 {
        "PM"@
    } else {
        "AM"@
    };
    nat_decimal(display as nat) + seq![':'] + seq![digit_char(minutes / 10), digit_char(minutes % 10)] + seq![' ']
        + period
}

pub fn format_clock(ts: i64) -> (r: String)
    ensures
        r@ == clock_label(ts),
{
    let secs: i64 = if ts >= 0 {
        ts % 86400
    } else {
        let a: i64 = -(ts + 1);
        86399 - a % 86400
    };
    proof {
        if ts < 0 {
            let a: int = -(ts + 1);
            let q = a / 86400;
            let r = a % 86400;
            vstd::arithmetic::div_mod::lemma_fundamental_div_mod(a, 86400);
            vstd::arithmetic::div_mod::lemma_fundamental_div_mod_converse(ts as int, 86400, -q - 1, 86399 - r);
        }
    }
    assert(secs == ts as int % 86400);
    let hours = secs / 3600;
    let minutes = (secs % 3600) / 60;
    let display: i64 = if hours == 0 {
        12
    } else if hours > 12 {
        hours - 12
    } else {
        hours
    };
    let mut out = u64_decimal(display as u64);
    out.push(':');
    out.push(((minutes / 10) as u8 + 48u8) as char);
    out.push(((minutes % 10) as u8 + 48u8) as char);
    out.push(' ');
    if hours >= 12 {
        push_str(&mut out, "PM");
    } else {
        push_str(&mut out, "AM");
    }
    proof {
        assert(0 <= minutes < 60);
        assert(digit_char((minutes / 10) as int) == ((minutes / 10) as u8 + 48u8) as char);
        assert(digit_char((minutes % 10) as int) == ((minutes % 10) as u8 + 48u8) as char);
        assert(out@ =~= clock_label(ts));
    }
    string_from_chars(&out)
}

} // verus!
