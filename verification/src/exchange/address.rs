//! SMTP addresses as Exchange hands them out: with display names, routing
//! prefixes and directory names among them.

use crate::text;
use vstd::prelude::*;

verus! {

pub const MAX_LOCAL_PART: usize = 64;

pub const MAX_DOMAIN: usize = 255;

pub const MAX_LABEL: usize = 63;

/// Whether the Public Suffix List has a rule for a domain's suffix.
pub uninterp spec fn known_suffix(domain: Seq<u8>) -> bool;

/// `psl::suffix` looks a domain up in the Public Suffix List that the crate
/// carries; `is_known` says whether a rule matched.
#[verifier::external_body]
fn suffix_is_known(domain: &[u8]) -> (r: bool)
    ensures
        r == known_suffix(domain@),
{
    psl::suffix(domain).is_some_and(|s| s.is_known())
}

/// The part between the last `<` and the last `>` where they enclose one.
pub open spec fn unbracketed(v: Seq<char>) -> Seq<char> {
    let open = text::last_index(v, '<');
    let close = text::last_index(v, '>');
    if 0 <= open < close {
        text::trimmed(v.subrange(open + 1, close))
    } else {
        v
    }
}

/// A text without a routing prefix, in whatever case, that something follows.
pub open spec fn unrouted(v: Seq<char>, prefix: Seq<char>) -> Seq<char> {
    if v.len() > prefix.len() && text::lowered(v.take(prefix.len() as int)) == prefix {
        text::trimmed(v.skip(prefix.len() as int))
    } else {
        v
    }
}

/// The bare address in a text: what is left of it without white space,
/// display name and routing prefixes, if anything is.
pub open spec fn normalised(raw: Seq<char>) -> Option<Seq<char>> {
    let v = unrouted(
        unrouted(unbracketed(text::trimmed(raw)), "mailto:"@),
        "smtp:"@,
    );
    if v.len() > 0 {
        Some(v)
    } else {
        None
    }
}

/// The symbols, besides letters and digits, that an atom may hold.
pub open spec fn is_atext_symbol(c: char) -> bool {
    "!#$%&'*+-/=?^_`{|}~"@.contains(c)
}

/// Whether a text can stand before the `@` of an address.
pub open spec fn is_local(s: Seq<char>) -> bool {
    &&& 0 < s.len() <= MAX_LOCAL_PART
    &&& s[0] != '.'
    &&& s.last() != '.'
    &&& forall|i: int| 0 < i < s.len() ==> !(s[i - 1] == '.' && #[trigger] s[i] == '.')
    &&& forall|i: int|
        0 <= i < s.len() ==> text::is_alnum(#[trigger] s[i]) || s[i] == '.' || is_atext_symbol(s[i])
}

/// Whether a text can be one label of a domain.
pub open spec fn is_label(s: Seq<char>) -> bool {
    &&& 0 < s.len() <= MAX_LABEL
    &&& s[0] != '-'
    &&& s.last() != '-'
    &&& forall|i: int|
        0 <= i < s.len() ==> text::is_alnum(#[trigger] s[i]) || s[i] == '-' || s[i] == '_'
}

/// Whether a text is a domain: labels between dots.
pub open spec fn is_domain_name(s: Seq<char>) -> bool {
    &&& 0 < s.len() <= MAX_DOMAIN
    &&& forall|i: int|
        0 <= i < text::split_by(s, '.').len() ==> is_label(#[trigger] text::split_by(s, '.')[i])
}

/// Whether a text is an address: a local part, one `@` and a domain.
pub open spec fn is_address(v: Seq<char>) -> bool {
    let at = text::first_index(v, '@');
    &&& vstd::utf8::is_ascii_chars(v)
    &&& !(v.len() > 0 && v[0] == '/')
    &&& 0 <= at < v.len()
    &&& !v.skip(at + 1).contains('@')
    &&& is_local(v.take(at))
    &&& is_domain_name(v.skip(at + 1))
}

/// The address in `raw`, if there is one.
pub open spec fn smtp_address(raw: Seq<char>) -> Option<Seq<char>> {
    match normalised(raw) {
        Some(v) => if is_address(v) {
            Some(v)
        } else {
            None
        },
        None => None,
    }
}

/// The address in `raw`, if there is one and its domain ends in a suffix that
/// the Public Suffix List knows.
pub open spec fn public_address(raw: Seq<char>) -> Option<Seq<char>> {
    match smtp_address(raw) {
        Some(v) => if known_suffix(
            vstd::utf8::encode_utf8(v.skip(text::first_index(v, '@') + 1)),
        ) {
            Some(v)
        } else {
            None
        },
        None => None,
    }
}

fn unbracket(value: &str) -> (r: String)
    ensures
        r@ == unbracketed(value@),
{
    let v: Vec<char> = text::chars_of(value);
    match (text::find_last_char(&v, '<'), text::find_last_char(&v, '>')) {
        (Some(open), Some(close)) => {
            if open < close {
                let inner: String = text::string_of(&v, open + 1, close);
                text::trim(inner.as_str())
            } else {
                value.to_owned()
            }
        },
        _ => value.to_owned(),
    }
}

fn unroute(value: &str, prefix: &str) -> (r: String)
    ensures
        r@ == unrouted(value@, prefix@),
{
    let v: Vec<char> = text::chars_of(value);
    let n: usize = prefix.unicode_len();
    if v.len() > n {
        let head: String = text::string_of(&v, 0, n);
        assert(head@ == v@.take(n as int));
        let low: String = text::to_lower(head.as_str());
        if text::same(low.as_str(), prefix) {
            let rest: String = text::string_of(&v, n, v.len());
            assert(rest@ == v@.skip(n as int));
            return text::trim(rest.as_str());
        }
    }
    value.to_owned()
}

fn normalise(raw: &str) -> (r: Option<String>)
    ensures
        crate::json::text_view(r) == normalised(raw@),
{
    let v0: String = text::trim(raw);
    let v1: String = unbracket(v0.as_str());
    let v2: String = unroute(v1.as_str(), "mailto:");
    let v3: String = unroute(v2.as_str(), "smtp:");
    if v3.as_str().is_empty() {
        None
    } else {
        Some(v3)
    }
}

fn atext_symbol(c: char) -> (r: bool)
    ensures
        r == is_atext_symbol(c),
{
    text::contains_char("!#$%&'*+-/=?^_`{|}~", c)
}

fn is_local_part(s: &Vec<char>) -> (r: bool)
    ensures
        r == is_local(s@),
{
    let n: usize = s.len();
    if n == 0 || n > MAX_LOCAL_PART || s[0] == '.' || s[n - 1] == '.' {
        return false;
    }
    let mut i: usize = 0;
    while i < n
        invariant
            n == s@.len(),
            i <= n,
            forall|k: int| 0 < k < i ==> !(s@[k - 1] == '.' && #[trigger] s@[k] == '.'),
            forall|k: int|
                0 <= k < i ==> text::is_alnum(#[trigger] s@[k]) || s@[k] == '.' || is_atext_symbol(
                    s@[k],
                ),
        decreases n - i,
    {
        if i > 0 && s[i - 1] == '.' && s[i] == '.' {
            assert(s@[i as int] == '.');
            return false;
        }
        if !(text::alnum(s[i]) || s[i] == '.' || atext_symbol(s[i])) {
            assert(!text::is_alnum(s@[i as int]));
            return false;
        }
        i = i + 1;
    }
    true
}

fn is_label_text(s: &Vec<char>) -> (r: bool)
    ensures
        r == is_label(s@),
{
    let n: usize = s.len();
    if n == 0 || n > MAX_LABEL || s[0] == '-' || s[n - 1] == '-' {
        return false;
    }
    let mut i: usize = 0;
    while i < n
        invariant
            n == s@.len(),
            i <= n,
            forall|k: int|
                0 <= k < i ==> text::is_alnum(#[trigger] s@[k]) || s@[k] == '-' || s@[k] == '_',
        decreases n - i,
    {
        if !(text::alnum(s[i]) || s[i] == '-' || s[i] == '_') {
            assert(!text::is_alnum(s@[i as int]));
            return false;
        }
        i = i + 1;
    }
    true
}

fn is_domain(s: &str) -> (r: bool)
    ensures
        r == is_domain_name(s@),
{
    let n: usize = s.unicode_len();
    if n == 0 || n > MAX_DOMAIN {
        return false;
    }
    let labels: Vec<String> = text::split(s, '.');
    let mut i: usize = 0;
    while i < labels.len()
        invariant
            text::texts(labels@) == text::split_by(s@, '.'),
            i <= labels@.len(),
            forall|k: int| 0 <= k < i ==> is_label(#[trigger] text::split_by(s@, '.')[k]),
        decreases labels@.len() - i,
    {
        let label: Vec<char> = text::chars_of(labels[i].as_str());
        assert(text::texts(labels@)[i as int] == labels@[i as int]@);
        if !is_label_text(&label) {
            assert(!is_label(text::split_by(s@, '.')[i as int]));
            return false;
        }
        i = i + 1;
    }
    assert(text::texts(labels@).len() == labels@.len());
    true
}

fn is_addr_spec(value: &str) -> (r: bool)
    ensures
        r == is_address(value@),
{
    let v: Vec<char> = text::chars_of(value);
    if !value.is_ascii() || (v.len() > 0 && v[0] == '/') {
        return false;
    }
    let at: usize = text::find_char(&v, '@');
    if at >= v.len() {
        return false;
    }
    let local: String = text::string_of(&v, 0, at);
    let domain: String = text::string_of(&v, at + 1, v.len());
    assert(local@ == v@.take(at as int));
    assert(domain@ == v@.skip(at + 1));
    let l: Vec<char> = text::chars_of(local.as_str());
    !text::contains_char(domain.as_str(), '@') && is_local_part(&l) && is_domain(domain.as_str())
}

/// The SMTP address in a text, without display name and routing prefix.
pub fn as_smtp_address(raw: &str) -> (r: Option<String>)
    ensures
        crate::json::text_view(r) == smtp_address(raw@),
{
    match normalise(raw) {
        Some(v) => if is_addr_spec(v.as_str()) {
            Some(v)
        } else {
            None
        },
        None => None,
    }
}

/// The SMTP address in a text, if its domain has a public suffix.
pub fn extract_smtp_address(raw: &str) -> (r: Option<String>)
    ensures
        crate::json::text_view(r) == public_address(raw@),
{
    match as_smtp_address(raw) {
        Some(v) => {
            let c: Vec<char> = text::chars_of(v.as_str());
            let at: usize = text::find_char(&c, '@');
            let domain: String = text::string_of(&c, at + 1, c.len());
            assert(domain@ == v@.skip(at + 1));
            if suffix_is_known(domain.as_str().as_bytes()) {
                Some(v)
            } else {
                None
            }
        },
        None => None,
    }
}

/// A public address is an address: the stricter reading accepts nothing that
/// the other refuses, and gives the same text.
pub proof fn public_addresses_are_addresses(raw: Seq<char>)
    ensures
        public_address(raw) is Some ==> public_address(raw) == smtp_address(raw),
{
}

/// Whether an address may hold a character.
pub open spec fn is_address_char(c: char) -> bool {
    text::is_alnum(c) || c == '.' || c == '@' || c == '_' || is_atext_symbol(c)
}

proof fn lemma_symbols(c: char)
    ensures
        is_atext_symbol('-'),
        is_address_char(c) ==> !text::is_white(c) && c != '<' && c != '>' && c != ':',
{
    reveal_strlit("!#$%&'*+-/=?^_`{|}~");
    let symbols = "!#$%&'*+-/=?^_`{|}~"@;
    assert(symbols[8] == '-');
    if is_atext_symbol(c) {
        let i = choose|i: int| 0 <= i < symbols.len() && symbols[i] == c;
        assert(symbols.len() == 19);
        assert(!text::is_white(symbols[i]) && symbols[i] != '<' && symbols[i] != '>' && symbols[i]
            != ':');
    }
}

proof fn lemma_domain_chars(s: Seq<char>)
    requires
        forall|i: int|
            0 <= i < text::split_by(s, '.').len() ==> is_label(#[trigger] text::split_by(s, '.')[i]),
    ensures
        forall|k: int| 0 <= k < s.len() ==> is_address_char(#[trigger] s[k]),
    decreases s.len(),
{
    let pieces = text::split_by(s, '.');
    let at = text::first_index(s, '.');
    lemma_symbols('-');
    text::lemma_first_index_bounds(s, '.');
    assert(is_label(pieces[0]));
    if at < s.len() {
        let rest = s.skip(at + 1);
        let others = text::split_by(rest, '.');
        assert(pieces[0] == s.take(at));
        assert forall|i: int| 0 <= i < others.len() implies is_label(#[trigger] others[i]) by {
            assert(others[i] == pieces[i + 1]);
        }
        lemma_domain_chars(rest);
        assert forall|k: int| 0 <= k < s.len() implies is_address_char(#[trigger] s[k]) by {
            if k < at {
                assert(s.take(at)[k] == s[k]);
            } else if k > at {
                assert(rest[k - at - 1] == s[k]);
            }
        }
    } else {
        assert(pieces[0] == s);
    }
}

proof fn lemma_address_chars(v: Seq<char>)
    requires
        is_address(v),
    ensures
        forall|k: int| 0 <= k < v.len() ==> is_address_char(#[trigger] v[k]),
{
    let at = text::first_index(v, '@');
    let domain = v.skip(at + 1);
    text::lemma_first_index_bounds(v, '@');
    lemma_domain_chars(domain);
    assert forall|k: int| 0 <= k < v.len() implies is_address_char(#[trigger] v[k]) by {
        if k < at {
            assert(v.take(at)[k] == v[k]);
        } else if k > at {
            assert(domain[k - at - 1] == v[k]);
        }
    }
}

proof fn lemma_no_last_index(v: Seq<char>, c: char)
    requires
        forall|k: int| 0 <= k < v.len() ==> #[trigger] v[k] != c,
    ensures
        text::last_index(v, c) == -1,
    decreases v.len(),
{
    if v.len() > 0 {
        assert(v[v.len() - 1] != c);
        lemma_no_last_index(v.drop_last(), c);
    }
}

proof fn lemma_last_index_bounds(v: Seq<char>, c: char)
    ensures
        -1 <= text::last_index(v, c) < v.len(),
    decreases v.len(),
{
    if v.len() > 0 && v.last() != c {
        lemma_last_index_bounds(v.drop_last(), c);
    }
}

proof fn lemma_unrouted(v: Seq<char>, prefix: Seq<char>)
    ensures
        text::is_part(unrouted(v, prefix), v),
        prefix.len() > 0 && prefix.last() == ':' && (forall|k: int|
            0 <= k < v.len() ==> #[trigger] v[k] != ':') ==> unrouted(v, prefix) == v,
{
    let n = prefix.len() as int;
    if v.len() > prefix.len() && text::lowered(v.take(n)) == prefix {
        let rest = v.skip(n);
        text::lemma_trimmed_is_part(rest);
        assert(rest =~= v.subrange(n, v.len() as int));
        text::lemma_part_of_part(text::trimmed(rest), rest, v);
        if n > 0 && prefix.last() == ':' {
            assert(text::lowered(v.take(n))[n - 1] == text::lower(v[n - 1]));
            assert(text::lower(v[n - 1]) == ':' ==> v[n - 1] == ':');
        }
    } else {
        assert(v =~= v.subrange(0, v.len() as int));
    }
}

/// What is read from a text is an address, it stands in the text as it is, and
/// reading it again gives itself.
pub proof fn addresses_read_as_themselves(raw: Seq<char>)
    ensures
        smtp_address(raw) matches Some(a) ==> is_address(a) && text::is_part(a, raw)
            && smtp_address(a) == Some(a),
{
    reveal_strlit("mailto:");
    reveal_strlit("smtp:");
    let v0 = text::trimmed(raw);
    let v1 = unbracketed(v0);
    let v2 = unrouted(v1, "mailto:"@);
    let v3 = unrouted(v2, "smtp:"@);
    text::lemma_trimmed_is_part(raw);
    let open = text::last_index(v0, '<');
    let close = text::last_index(v0, '>');
    lemma_last_index_bounds(v0, '<');
    lemma_last_index_bounds(v0, '>');
    if 0 <= open < close {
        let inner = v0.subrange(open + 1, close);
        text::lemma_trimmed_is_part(inner);
        assert(text::is_part(inner, v0));
        text::lemma_part_of_part(v1, inner, v0);
    } else {
        assert(v0 =~= v0.subrange(0, v0.len() as int));
        assert(text::is_part(v1, v0));
    }
    lemma_unrouted(v1, "mailto:"@);
    lemma_unrouted(v2, "smtp:"@);
    text::lemma_part_of_part(v1, v0, raw);
    text::lemma_part_of_part(v2, v1, raw);
    text::lemma_part_of_part(v3, v2, raw);
    if smtp_address(raw) is Some {
        let a = v3;
        lemma_address_chars(a);
        assert forall|k: int| 0 <= k < a.len() implies !text::is_white(#[trigger] a[k]) && a[k]
            != '<' && a[k] != '>' && a[k] != ':' by {
            lemma_symbols(a[k]);
        }
        assert(text::trimmed(a) == a);
        lemma_no_last_index(a, '<');
        lemma_no_last_index(a, '>');
        lemma_unrouted(a, "mailto:"@);
        lemma_unrouted(a, "smtp:"@);
    }
}

} // verus!
