//! Points in time as sources write them, read by the date libraries.

use vstd::prelude::*;

verus! {

/// A moment: seconds since 1970, the nanoseconds beyond them, and the offset
/// from UTC that it was written with, in seconds.
#[derive(Clone, Copy, PartialEq, Eq, Structural, Debug)]
pub struct Moment {
    pub secs: i64,
    pub nanos: u32,
    pub offset: i32,
}

/// The moment that a text in RFC 3339 gives, or the text of the error.
pub uninterp spec fn rfc3339_moment(s: Seq<char>) -> Result<Moment, Seq<char>>;

/// A moment in RFC 3339, or the text of the error.
pub uninterp spec fn moment_text(m: Moment) -> Result<Seq<char>, Seq<char>>;

/// Whether a moment was read, and which.
pub open spec fn read_moment(r: Result<Moment, Seq<char>>) -> Option<Moment> {
    match r {
        Ok(m) => Some(m),
        Err(_) => None,
    }
}

/// Whether a name is one of the time zone database.
pub uninterp spec fn zone_known(zone: Seq<char>) -> bool;

/// The wall clock in a time zone at a moment given in RFC 3339, as
/// `%Y-%m-%dT%H:%M:%S`.
pub uninterp spec fn rfc3339_in_zone(s: Seq<char>, zone: Seq<char>) -> Option<Seq<char>>;

/// A date and a clock time without a zone, read in a `chrono` format, as
/// `%Y-%m-%dT%H:%M:%S`.
pub uninterp spec fn naive_date_time(s: Seq<char>, format: Seq<char>) -> Option<Seq<char>>;

/// `time::OffsetDateTime::parse` with `Rfc3339`, as `unix_timestamp`,
/// `nanosecond` and the whole seconds of `offset`. What it reads, and the text
/// of its error, depend on the text alone.
#[verifier::external_body]
pub(crate) fn parse_rfc3339(s: &str) -> (r: Result<Moment, String>)
    ensures
        match r {
            Ok(m) => rfc3339_moment(s@) == Ok::<Moment, Seq<char>>(m) && m.nanos < 1_000_000_000,
            Err(e) => rfc3339_moment(s@) == Err::<Moment, Seq<char>>(e@),
        },
{
    let t = time::OffsetDateTime::parse(s, &time::format_description::well_known::Rfc3339)
        .map_err(|e| e.to_string())?;
    Ok(Moment {
        secs: t.unix_timestamp(),
        nanos: t.nanosecond(),
        offset: t.offset().whole_seconds(),
    })
}

/// `time::OffsetDateTime::format` with `Rfc3339`, of the moment at its offset.
/// The text depends on the moment alone, and `time::OffsetDateTime::parse`
/// reads the moment back from it.
#[verifier::external_body]
pub(crate) fn format_rfc3339(m: Moment) -> (r: Result<String, String>)
    ensures
        match r {
            Ok(t) => {
                &&& moment_text(m) == Ok::<Seq<char>, Seq<char>>(t@)
                &&& rfc3339_moment(t@) == Ok::<Moment, Seq<char>>(m)
            },
            Err(e) => moment_text(m) == Err::<Seq<char>, Seq<char>>(e@),
        },
{
    let offset = time::UtcOffset::from_whole_seconds(m.offset).map_err(|e| e.to_string())?;
    time::OffsetDateTime::from_unix_timestamp(m.secs)
        .and_then(|t| t.replace_nanosecond(m.nanos))
        .map_err(|e| e.to_string())?
        .checked_to_offset(offset)
        .ok_or_else(String::new)?
        .format(&time::format_description::well_known::Rfc3339)
        .map_err(|e| e.to_string())
}

/// `chrono_tz::Tz` read from a name: whether the time zone database that the
/// crate carries has it.
#[verifier::external_body]
pub(crate) fn is_zone(zone: &str) -> (r: bool)
    ensures
        r == zone_known(zone@),
{
    zone.parse::<chrono_tz::Tz>().is_ok()
}

/// `chrono::DateTime::parse_from_rfc3339`, `with_timezone` and `format`: the
/// wall clock in a zone of the database; nothing where the zone is not in it
/// or the text is no moment.
#[verifier::external_body]
pub(crate) fn wall_clock(s: &str, zone: &str) -> (r: Option<String>)
    ensures
        crate::json::text_view(r) == rfc3339_in_zone(s@, zone@),
        !zone_known(zone@) ==> r is None,
{
    let moment = chrono::DateTime::parse_from_rfc3339(s).ok()?;
    let tz: chrono_tz::Tz = zone.parse().ok()?;
    Some(moment.with_timezone(&tz).format("%Y-%m-%dT%H:%M:%S").to_string())
}

/// `chrono::NaiveDateTime::parse_from_str` and `format` without fractions of a
/// second. What it reads depends on the text and the format alone.
#[verifier::external_body]
pub(crate) fn plain_date_time(s: &str, format: &str) -> (r: Option<String>)
    ensures
        crate::json::text_view(r) == naive_date_time(s@, format@),
{
    chrono::NaiveDateTime::parse_from_str(s, format)
        .ok()
        .map(|t| t.format("%Y-%m-%dT%H:%M:%S").to_string())
}

} // verus!
