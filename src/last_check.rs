use vstd::prelude::*;

verus! {

/// The RFC 3339 text (UTC) that the `time` crate writes for a unix second.
pub uninterp spec fn time_rfc3339_of(secs: int) -> Seq<char>;

/// The RFC 3339 text (UTC) that the `chrono` crate writes for a unix second.
pub uninterp spec fn chrono_rfc3339_of(secs: int) -> Seq<char>;

/// The unix second that the `chrono` crate reads from an RFC 3339 text, if it
/// reads one.
pub uninterp spec fn chrono_rfc3339_seconds(s: Seq<char>) -> Option<i64>;

/// First unix second of the year 0.
pub const YEAR_0_START: i64 = -62167219200;

/// Last unix second of the year 9999.
pub const YEAR_9999_END: i64 = 253402300799;

/// Relies on time::OffsetDateTime::from_unix_timestamp, then its `format`
/// with `Rfc3339`: an instant of the years 0 to 9999 is written, any other
/// is refused (the format refuses other years).
#[verifier::external_body]
fn time_format_rfc3339(secs: i64) -> (r: Option<String>)
    ensures
        r is Some <==> YEAR_0_START <= secs <= YEAR_9999_END,
        r is Some ==> r->0@ == time_rfc3339_of(secs as int),
{
    time::OffsetDateTime::from_unix_timestamp(secs)
        .ok()
        .and_then(|t| t.format(&time::format_description::well_known::Rfc3339).ok())
}

/// Relies on chrono::DateTime::<Utc>::from_timestamp, then `to_rfc3339`:
/// an instant in chrono's range is written (its range holds the years 0 to
/// 9999).
#[verifier::external_body]
fn chrono_format_rfc3339(secs: i64) -> (r: Option<String>)
    ensures
        YEAR_0_START <= secs <= YEAR_9999_END ==> r is Some,
        r is Some ==> r->0@ == chrono_rfc3339_of(secs as int),
{
    chrono::DateTime::<chrono::Utc>::from_timestamp(secs, 0).map(|t| t.to_rfc3339())
}

/// Relies on chrono::DateTime::parse_from_rfc3339, then `timestamp`: the
/// unix second of the text, if it is RFC 3339.
#[verifier::external_body]
fn chrono_parse_rfc3339(s: &str) -> (r: Option<i64>)
    ensures
        r == chrono_rfc3339_seconds(s@),
{
    chrono::DateTime::parse_from_rfc3339(s).ok().map(|d| d.timestamp())
}

/// The value of the `since` parameter of a pull: none for a first pull, the
/// RFC 3339 text of the second otherwise, or an empty text for a second
/// that RFC 3339 cannot write.
pub fn since_query_value(since: Option<i64>) -> (r: Option<String>)
    ensures
        since is None ==> r is None,
        since is Some ==> r is Some,
        since is Some && YEAR_0_START <= since->0 <= YEAR_9999_END ==> r->0@ == time_rfc3339_of(
            since->0 as int,
        ),
        since is Some && !(YEAR_0_START <= since->0 <= YEAR_9999_END) ==> r->0@.len() == 0,
{
    match since {
        None => None,
        Some(secs) => match time_format_rfc3339(secs) {
            Some(text) => Some(text),
            None => Some(String::new()),
        },
    }
}

/// The text stored for the time of the last check.
pub fn last_check_text(secs: i64) -> (r: Option<String>)
    ensures
        YEAR_0_START <= secs <= YEAR_9999_END ==> r is Some,
        r is Some ==> r->0@ == chrono_rfc3339_of(secs as int),
{
    chrono_format_rfc3339(secs)
}

/// The time of the last check read from its stored text; the start of the
/// epoch when the text is not RFC 3339.
pub fn last_check_from_text(text: &str) -> (r: i64)
    ensures
        r == match chrono_rfc3339_seconds(text@) {
            Some(v) => v,
            None => 0,
        },
{
    match chrono_parse_rfc3339(text) {
        Some(v) => v,
        None => 0,
    }
}

} // verus!
