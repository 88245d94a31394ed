//! What is taken from a Microsoft Graph mailbox, and which one.

use crate::error::Error;
use crate::text;
use vstd::prelude::*;

verus! {

/// Which mailbox of a user.
#[derive(Clone, Copy, PartialEq, Eq, Structural, Debug)]
pub enum MailboxKind {
    Primary,
    Archive,
}

impl MailboxKind {
    /// Reads the name of a mailbox kind.
    pub fn parse(value: &str) -> (r: Result<MailboxKind, Error>)
        ensures
            value@ == "primary"@ ==> r == Ok::<MailboxKind, Error>(MailboxKind::Primary),
            value@ == "archive"@ && value@ != "primary"@ ==> r == Ok::<MailboxKind, Error>(
                MailboxKind::Archive,
            ),
            value@ != "primary"@ && value@ != "archive"@ ==> (r matches Err(Error::Usage(m))
                && m@ == (if value@ == "public-folders"@ {
                "Microsoft Graph does not expose public folders. Run `vandelay import exchange-ews --mailbox-kind public-folders` instead."@
            } else {
                "--mailbox-kind must be primary | archive, got "@ + text::debug_text(value@)
            })),
    {
        if text::same(value, "primary") {
            Ok(MailboxKind::Primary)
        } else if text::same(value, "archive") {
            Ok(MailboxKind::Archive)
        } else if text::same(value, "public-folders") {
            Err(
                Error::Usage(
                    "Microsoft Graph does not expose public folders. Run `vandelay import exchange-ews --mailbox-kind public-folders` instead.".to_owned(),
                ),
            )
        } else {
            Err(
                Error::Usage(
                    text::joined(
                        "--mailbox-kind must be primary | archive, got ",
                        text::quoted(value).as_str(),
                    ),
                ),
            )
        }
    }

    /// The name of the kind.
    pub fn as_str(self) -> (r: &'static str)
        ensures
            r@ == (match self {
                MailboxKind::Primary => "primary"@,
                MailboxKind::Archive => "archive"@,
            }),
    {
        match self {
            MailboxKind::Primary => "primary",
            MailboxKind::Archive => "archive",
        }
    }
}

/// In which form the text of events is asked for.
#[derive(Clone, Copy, PartialEq, Eq, Structural, Debug)]
pub enum EventBodyFormat {
    Text,
    Html,
}

impl EventBodyFormat {
    /// Reads the name of a form.
    pub fn parse(value: &str) -> (r: Result<EventBodyFormat, Error>)
        ensures
            value@ == "text"@ ==> r == Ok::<EventBodyFormat, Error>(EventBodyFormat::Text),
            value@ == "html"@ && value@ != "text"@ ==> r == Ok::<EventBodyFormat, Error>(
                EventBodyFormat::Html,
            ),
            value@ != "text"@ && value@ != "html"@ ==> (r matches Err(Error::Usage(m)) && m@
                == "--event-body-format must be text | html, got "@ + text::debug_text(value@)),
    {
        if text::same(value, "text") {
            Ok(EventBodyFormat::Text)
        } else if text::same(value, "html") {
            Ok(EventBodyFormat::Html)
        } else {
            Err(
                Error::Usage(
                    text::joined(
                        "--event-body-format must be text | html, got ",
                        text::quoted(value).as_str(),
                    ),
                ),
            )
        }
    }

    /// The `Prefer` header that asks for the form.
    pub fn prefer_value(self) -> (r: &'static str)
        ensures
            r@ == (match self {
                EventBodyFormat::Text => "outlook.body-content-type=\"text\""@,
                EventBodyFormat::Html => "outlook.body-content-type=\"html\""@,
            }),
    {
        match self {
            EventBodyFormat::Text => "outlook.body-content-type=\"text\"",
            EventBodyFormat::Html => "outlook.body-content-type=\"html\"",
        }
    }
}

/// What is taken from a mailbox.
#[derive(Clone, Copy, PartialEq, Eq, Structural, Debug)]
pub struct Surfaces {
    pub mail: bool,
    pub calendar: bool,
    pub contacts: bool,
    pub files: bool,
}

/// The names in a list of surfaces: between commas, trimmed, in lower case.
pub open spec fn surface_names(list: Seq<char>) -> Seq<Seq<char>> {
    let parts = text::split_by(list, ',');
    Seq::new(parts.len(), |i: int| text::lowered(text::trimmed(parts[i])))
}

/// Whether a name is that of a surface, or empty.
pub open spec fn is_surface_name(name: Seq<char>) -> bool {
    name.len() == 0 || name == "mail"@ || name == "calendar"@ || name == "contacts"@ || name
        == "files"@
}

/// The surfaces after one more name.
pub open spec fn with_surface(s: Surfaces, name: Seq<char>) -> Surfaces {
    Surfaces {
        mail: s.mail || name == "mail"@,
        calendar: s.calendar || name == "calendar"@,
        contacts: s.contacts || name == "contacts"@,
        files: s.files || name == "files"@,
    }
}

/// The surfaces that names select.
pub open spec fn selected(names: Seq<Seq<char>>) -> Surfaces
    decreases names.len(),
{
    if names.len() == 0 {
        Surfaces { mail: false, calendar: false, contacts: false, files: false }
    } else {
        with_surface(selected(names.drop_last()), names.last())
    }
}

/// Whether surfaces are none.
pub open spec fn is_none_of(s: Surfaces) -> bool {
    !s.mail && !s.calendar && !s.contacts && !s.files
}

/// Where the first name stands that is no surface; the number of names if all
/// are.
pub open spec fn first_unknown(names: Seq<Seq<char>>) -> int
    decreases names.len(),
{
    if names.len() == 0 {
        0
    } else if first_unknown(names.drop_last()) < names.len() - 1 {
        first_unknown(names.drop_last())
    } else if is_surface_name(names.last()) {
        names.len() as int
    } else {
        names.len() - 1
    }
}

proof fn lemma_first_unknown(names: Seq<Seq<char>>, i: int)
    requires
        0 <= i < names.len(),
        first_unknown(names.take(i)) == i,
        !is_surface_name(names[i]),
    ensures
        first_unknown(names) == i,
    decreases names.len(),
{
    if i == names.len() - 1 {
        assert(names.drop_last() =~= names.take(i));
    } else {
        assert(names.drop_last().take(i) =~= names.take(i));
        lemma_first_unknown(names.drop_last(), i);
    }
}

impl Default for Surfaces {
    fn default() -> (r: Surfaces)
        ensures
            r.mail && r.calendar && r.contacts && r.files,
    {
        Surfaces::all()
    }
}

impl Surfaces {
    /// Everything.
    pub fn all() -> (r: Surfaces)
        ensures
            r.mail && r.calendar && r.contacts && r.files,
    {
        Surfaces { mail: true, calendar: true, contacts: true, files: true }
    }

    /// Nothing.
    pub fn none() -> (r: Surfaces)
        ensures
            is_none_of(r),
    {
        Surfaces { mail: false, calendar: false, contacts: false, files: false }
    }

    /// Reads a list of surfaces: names between commas, in whatever case and
    /// order. The first name that is none is refused, and so is an empty
    /// list.
    pub fn parse_list(list: &str) -> (r: Result<Surfaces, Error>)
        ensures
            ({
                let names = surface_names(list@);
                let i = first_unknown(names);
                if i < names.len() {
                    r matches Err(Error::Usage(m)) && m@ == "unknown surface: "@ + text::trimmed(
                        text::split_by(list@, ',')[i],
                    ) + " (valid: mail, calendar, contacts, files)"@
                } else if is_none_of(selected(names)) {
                    r matches Err(Error::Usage(m)) && m@
                        == "--objects given but resolved to an empty surface list"@
                } else {
                    r == Ok::<Surfaces, Error>(selected(names))
                }
            }),
    {
        let parts: Vec<String> = text::split(list, ',');
        let ghost names = surface_names(list@);
        let mut found: Surfaces = Surfaces::none();
        let mut i: usize = 0;
        proof {
            assert(text::texts(parts@).len() == parts@.len());
            assert(names.take(0) =~= Seq::empty());
        }
        while i < parts.len()
            invariant
                i <= parts@.len(),
                names == surface_names(list@),
                names.len() == parts@.len(),
                text::texts(parts@) == text::split_by(list@, ','),
                found == selected(names.take(i as int)),
                first_unknown(names.take(i as int)) == i,
            decreases parts@.len() - i,
        {
            let token: String = text::trim(parts[i].as_str());
            let name: String = text::to_lower(token.as_str());
            proof {
                assert(text::texts(parts@)[i as int] == parts@[i as int]@);
                assert(names[i as int] == name@);
                assert(names.take(i as int + 1).drop_last() =~= names.take(i as int));
                reveal_strlit("mail");
                reveal_strlit("calendar");
                reveal_strlit("contacts");
                reveal_strlit("files");
                assert("calendar"@[1] != "contacts"@[1]);
                assert("mail"@.len() == 4 && "files"@.len() == 5);
            }
            let chars: Vec<char> = text::chars_of(name.as_str());
            if chars.len() > 0 {
                if text::same(name.as_str(), "mail") {
                    found.mail = true;
                } else if text::same(name.as_str(), "calendar") {
                    found.calendar = true;
                } else if text::same(name.as_str(), "contacts") {
                    found.contacts = true;
                } else if text::same(name.as_str(), "files") {
                    found.files = true;
                } else {
                    proof {
                        lemma_first_unknown(names, i as int);
                    }
                    let mut m: String = text::joined("unknown surface: ", token.as_str());
                    m.append(" (valid: mail, calendar, contacts, files)");
                    return Err(Error::Usage(m));
                }
            }
            i = i + 1;
        }
        assert(names.take(i as int) =~= names);
        if !found.mail && !found.calendar && !found.contacts && !found.files {
            return Err(
                Error::Usage(
                    "--objects given but resolved to an empty surface list".to_owned(),
                ),
            );
        }
        Ok(found)
    }
}

/// A user of the directory.
#[derive(Debug)]
pub struct ResolvedPrincipal {
    pub id: String,
    pub user_principal_name: String,
}

/// The id under which a mailbox of a user is kept.
pub fn synthetic_account_id(directory_id: &str, kind: MailboxKind) -> (r: String)
    ensures
        r@ == (match kind {
            MailboxKind::Primary => directory_id@,
            MailboxKind::Archive => directory_id@ + "#archive"@,
        }),
{
    match kind {
        MailboxKind::Primary => directory_id.to_owned(),
        MailboxKind::Archive => text::joined(directory_id, "#archive"),
    }
}

} // verus!
