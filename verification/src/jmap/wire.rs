//! Values as they stand in JMAP objects.

use crate::instant;
use crate::instant::Moment;
use crate::json::{Json, Val};
use crate::text;
use vstd::prelude::*;

verus! {

/// The id that a server gave an object.
#[derive(Debug)]
pub struct JmapId(pub String);

impl vstd::std_specs::convert::FromSpecImpl<String> for JmapId {
    open spec fn obeys_from_spec() -> bool {
        true
    }

    open spec fn from_spec(value: String) -> JmapId {
        JmapId(value)
    }
}

impl From<String> for JmapId {
    fn from(value: String) -> (r: JmapId) {
        JmapId(value)
    }
}

impl JmapId {
    /// An id with the given text.
    pub fn of(value: &str) -> (r: JmapId)
        ensures
            r.0@ == value@,
    {
        JmapId(value.to_owned())
    }

    /// The text of the id.
    pub fn as_str(&self) -> (r: &str)
        ensures
            r@ == self.0@,
    {
        self.0.as_str()
    }
}

/// A mail address with the name that goes with it.
#[derive(Debug)]
pub struct EmailAddress {
    pub name: Option<String>,
    pub email: String,
}

/// A text with its first space replaced by a `T`.
pub open spec fn with_separator(s: Seq<char>) -> Seq<char> {
    let i = text::first_index(s, ' ');
    if i < s.len() {
        s.update(i, 'T')
    } else {
        s
    }
}

/// The moment that a server's text names: RFC 3339, with a space for the `T`
/// and without a zone too.
pub open spec fn utc_date(raw: Seq<char>) -> Option<Moment> {
    let t = text::trimmed(raw);
    match instant::rfc3339_moment(t) {
        Ok(m) => Some(m),
        Err(_) => match instant::rfc3339_moment(with_separator(t)) {
            Ok(m) => Some(m),
            Err(_) => instant::read_moment(instant::rfc3339_moment(with_separator(t) + "Z"@)),
        },
    }
}

/// Puts a `T` in place of the first space.
pub fn separated(s: &str) -> (r: String)
    ensures
        r@ == with_separator(s@),
{
    let v: Vec<char> = text::chars_of(s);
    let i: usize = text::find_char(&v, ' ');
    if i == v.len() {
        return s.to_owned();
    }
    let mut r: String = text::string_of(&v, 0, i);
    r.push('T');
    let tail: String = text::string_of(&v, i + 1, v.len());
    r.append(tail.as_str());
    assert(r@ =~= with_separator(s@));
    r
}

/// Reads the moment that a server's text names.
pub fn parse_utc_date(raw: &str) -> (r: Option<Moment>)
    ensures
        r == utc_date(raw@),
{
    let trimmed: String = text::trim(raw);
    match instant::parse_rfc3339(trimmed.as_str()) {
        Ok(m) => {
            return Some(m);
        },
        Err(_) => {},
    }
    let sep: String = separated(trimmed.as_str());
    match instant::parse_rfc3339(sep.as_str()) {
        Ok(m) => {
            return Some(m);
        },
        Err(_) => {},
    }
    match instant::parse_rfc3339(text::joined(sep.as_str(), "Z").as_str()) {
        Ok(m) => Some(m),
        Err(_) => None,
    }
}

/// Reads a flag that is set where the server says nothing of it. There is
/// nothing to read in a value that is neither a flag nor null.
pub fn bool_or_true(v: &Json) -> (r: Option<bool>)
    ensures
        r == (match v@ {
            Val::Null => Some(true),
            Val::Bool(b) => Some(b),
            _ => None,
        }),
{
    match v {
        Json::Null => Some(true),
        Json::Bool(b) => Some(*b),
        _ => None,
    }
}

/// Reads a moment that a server may have left out or garbled: either way there
/// is none. There is nothing to read in a value that is neither a text nor
/// null.
pub fn lenient_utc_date(v: &Json) -> (r: Option<Option<Moment>>)
    ensures
        r == (match v@ {
            Val::Null => Some(None),
            Val::Text(t) => Some(utc_date(t)),
            _ => None,
        }),
{
    match v {
        Json::Null => Some(None),
        Json::Text(t) => Some(parse_utc_date(t.as_str())),
        _ => None,
    }
}

} // verus!
