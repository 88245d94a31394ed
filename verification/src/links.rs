//! URLs, as the `url` crate reads them.

use crate::error::Error;
use crate::json;
use crate::text;
use vstd::prelude::*;

verus! {

/// The parts of a URL.
#[derive(Debug)]
pub struct UrlParts {
    pub scheme: String,
    pub host: Option<String>,
    pub port: Option<u16>,
}

/// The parts of a URL, as texts.
pub struct PartsVal {
    pub scheme: Seq<char>,
    pub host: Option<Seq<char>>,
    pub port: Option<u16>,
}

impl View for UrlParts {
    type V = PartsVal;

    open spec fn view(&self) -> PartsVal {
        PartsVal { scheme: self.scheme@, host: json::text_view(self.host), port: self.port }
    }
}

/// The parts of a URL, or the text of the error.
pub uninterp spec fn url_parts(url: Seq<char>) -> Result<PartsVal, Seq<char>>;

/// The path of a URL, and the URL without its query and its fragment.
pub uninterp spec fn url_without_query(url: Seq<char>) -> Option<(Seq<char>, Seq<char>)>;

/// A URL with another path.
pub uninterp spec fn url_with_path(url: Seq<char>, path: Seq<char>) -> Option<Seq<char>>;

/// `url::Url::parse`: the scheme, the host and a port other than the scheme's
/// own, or the text of the error.
#[verifier::external_body]
pub(crate) fn read_url(url: &str) -> (r: Result<UrlParts, String>)
    ensures
        match r {
            Ok(p) => url_parts(url@) == Ok::<PartsVal, Seq<char>>(p@),
            Err(e) => url_parts(url@) == Err::<PartsVal, Seq<char>>(e@),
        },
{
    let u = url::Url::parse(url).map_err(|e| e.to_string())?;
    Ok(
        UrlParts {
            scheme: u.scheme().to_owned(),
            host: u.host_str().map(str::to_owned),
            port: u.port(),
        },
    )
}

/// `url::Url::set_query` and `set_fragment` with nothing: the path of the URL,
/// and the URL itself, without the two.
#[verifier::external_body]
pub(crate) fn strip_query(url: &str) -> (r: Option<(String, String)>)
    ensures
        match r {
            Some(p) => url_without_query(url@) == Some((p.0@, p.1@)),
            None => url_without_query(url@) is None,
        },
{
    let mut u = url::Url::parse(url).ok()?;
    u.set_query(None);
    u.set_fragment(None);
    Some((u.path().to_owned(), u.to_string()))
}

/// `url::Url::set_path`: the URL with another path.
#[verifier::external_body]
pub(crate) fn set_path(url: &str, path: &str) -> (r: Option<String>)
    ensures
        json::text_view(r) == url_with_path(url@, path@),
{
    let mut u = url::Url::parse(url).ok()?;
    u.set_path(path);
    Some(u.to_string())
}

/// A file path as a URL; nothing for a relative path.
pub uninterp spec fn file_url(path: Seq<char>) -> Option<Seq<char>>;

/// `url::Url::from_file_path`. The URL depends on the path alone.
#[verifier::external_body]
pub(crate) fn url_of_file(path: &str) -> (r: Option<String>)
    ensures
        json::text_view(r) == file_url(path@),
{
    url::Url::from_file_path(path).ok().map(|u| u.to_string())
}

/// The last component of a path that is a name.
pub uninterp spec fn file_name(path: Seq<char>) -> Option<Seq<char>>;

/// `std::path::Path::file_name`: the last component of the path, if that is a
/// name. It depends on the path alone.
#[verifier::external_body]
pub(crate) fn name_of_file(path: &str) -> (r: Option<String>)
    ensures
        json::text_view(r) == file_name(path@),
{
    std::path::Path::new(path).file_name().and_then(|n| n.to_str()).map(str::to_owned)
}

/// The URL of a file, or what is said of a path that has none.
pub fn file_url_for(path: &str, complaint: &str) -> (r: Result<String, Error>)
    ensures
        match r {
            Ok(u) => file_url(path@) == Some(u@),
            Err(e) => file_url(path@) is None && (e matches Error::Usage(m) && m@ == complaint@
                + text::debug_text(path@)),
        },
{
    match url_of_file(path) {
        Some(u) => Ok(u),
        None => Err(Error::Usage(text::joined(complaint, text::quoted(path).as_str()))),
    }
}

} // verus!
