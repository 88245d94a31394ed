//! Bytes as text: Base64, percent-encoding and damaged UTF-8.

use base64::Engine;
use vstd::prelude::*;

verus! {

/// Bytes in Base64 with padding.
pub uninterp spec fn base64_text(bytes: Seq<u8>) -> Seq<char>;

/// The bytes that a Base64 text with padding stands for.
pub uninterp spec fn base64_bytes(s: Seq<char>) -> Option<Seq<u8>>;

/// What is read from bytes that should be UTF-8, with replacement characters
/// for what is not.
pub uninterp spec fn lossy_text(bytes: Seq<u8>) -> Seq<char>;

/// Whether a character is of the Base64 alphabet, or its padding.
pub open spec fn is_base64_char(c: char) -> bool {
    crate::text::is_alnum(c) || c == '+' || c == '/' || c == '='
}

/// Optional bytes, seen through their view.
pub open spec fn bytes_view(b: Option<Vec<u8>>) -> Option<Seq<u8>> {
    match b {
        Some(v) => Some(v@),
        None => None,
    }
}

/// `base64::engine::general_purpose::STANDARD.encode`: the standard alphabet,
/// padded. Decoding gives the bytes back.
#[verifier::external_body]
pub(crate) fn encode_base64(bytes: &[u8]) -> (r: String)
    ensures
        r@ == base64_text(bytes@),
        base64_bytes(r@) == Some(bytes@),
        forall|i: int| 0 <= i < r@.len() ==> is_base64_char(#[trigger] r@[i]),
{
    base64::engine::general_purpose::STANDARD.encode(bytes)
}

/// `base64::engine::general_purpose::STANDARD.decode`: the bytes of a text in
/// the standard alphabet with padding, or nothing.
#[verifier::external_body]
pub(crate) fn decode_base64(s: &str) -> (r: Option<Vec<u8>>)
    ensures
        bytes_view(r) == base64_bytes(s@),
{
    base64::engine::general_purpose::STANDARD.decode(s).ok()
}

/// `String::from_utf8_lossy`: valid UTF-8 as it stands, with replacement
/// characters for the rest.
#[verifier::external_body]
pub(crate) fn read_lossy(bytes: &[u8]) -> (r: String)
    ensures
        r@ == lossy_text(bytes@),
        vstd::utf8::valid_utf8(bytes@) ==> r@ == vstd::utf8::decode_utf8(bytes@),
{
    String::from_utf8_lossy(bytes).into_owned()
}

/// The text of an error about bytes that are not UTF-8.
pub uninterp spec fn utf8_fault(bytes: Seq<u8>) -> Seq<char>;

/// `std::str::from_utf8`: the text that the bytes encode, or an error whose
/// text depends on the bytes alone.
#[verifier::external_body]
pub(crate) fn read_utf8(bytes: &[u8]) -> (r: Result<&str, String>)
    ensures
        match r {
            Ok(s) => vstd::utf8::valid_utf8(bytes@) && s@ == vstd::utf8::decode_utf8(bytes@),
            Err(e) => !vstd::utf8::valid_utf8(bytes@) && e@ == utf8_fault(bytes@),
        },
{
    std::str::from_utf8(bytes).map_err(|e| e.to_string())
}

/// The unreserved bytes of a URI.
pub open spec fn is_unreserved(b: u8) -> bool {
    ||| 48 <= b <= 57
    ||| 65 <= b <= 90
    ||| 97 <= b <= 122
    ||| b == 45
    ||| b == 95
    ||| b == 46
    ||| b == 126
}

/// The bytes that the media type of a data URI may hold as they stand.
pub open spec fn is_media_byte(b: u8) -> bool {
    ||| is_unreserved(b)
    ||| b == 33
    ||| b == 36
    ||| 38 <= b <= 43
    ||| b == 47
    ||| b == 58
    ||| b == 61
    ||| b == 64
}

/// Where percent-encoded bytes are to stand.
#[derive(Clone, Copy, PartialEq, Eq, Structural, Debug)]
pub enum Place {
    Segment,
    MediaType,
}

/// Whether a byte may stand in a place as it is.
pub open spec fn is_allowed(b: u8, place: Place) -> bool {
    match place {
        Place::Segment => is_unreserved(b),
        Place::MediaType => is_media_byte(b),
    }
}

/// A hexadecimal digit, in capitals.
pub open spec fn hex_capital(n: nat) -> char {
    if n < 10 {
        (48 + n) as char
    } else {
        (55 + n) as char
    }
}

/// One byte, percent-encoded unless it is allowed.
pub open spec fn escaped_byte(b: u8, place: Place) -> Seq<char> {
    if is_allowed(b, place) {
        seq![b as char]
    } else {
        seq!['%', hex_capital((b / 16) as nat), hex_capital((b % 16) as nat)]
    }
}

/// Bytes, percent-encoded where they are not allowed.
pub open spec fn escaped(bytes: Seq<u8>, place: Place) -> Seq<char>
    decreases bytes.len(),
{
    if bytes.len() == 0 {
        Seq::empty()
    } else {
        escaped(bytes.drop_last(), place) + escaped_byte(bytes.last(), place)
    }
}

/// A text, percent-encoded where its bytes are not allowed.
pub open spec fn escaped_text(s: Seq<char>, place: Place) -> Seq<char> {
    escaped(vstd::utf8::encode_utf8(s), place)
}

fn hex_of(n: u8) -> (c: char)
    requires
        n < 16,
    ensures
        c == hex_capital(n as nat),
{
    if n < 10 {
        (48 + n) as char
    } else {
        (55 + n) as char
    }
}

fn allowed(b: u8, place: Place) -> (r: bool)
    ensures
        r == is_allowed(b, place),
{
    let unreserved: bool = (b >= 48 && b <= 57) || (b >= 65 && b <= 90) || (b >= 97 && b <= 122)
        || b == 45 || b == 95 || b == 46 || b == 126;
    match place {
        Place::Segment => unreserved,
        Place::MediaType => unreserved || b == 33 || b == 36 || (b >= 38 && b <= 43) || b == 47
            || b == 58 || b == 61 || b == 64,
    }
}

/// Percent-encodes a text for its place.
pub fn escape(s: &str, place: Place) -> (r: String)
    ensures
        r@ == escaped_text(s@, place),
{
    let bytes: &[u8] = s.as_bytes();
    let mut out: String = String::new();
    let mut i: usize = 0;
    assert(out@ =~= escaped(bytes@.take(0), place));
    while i < bytes.len()
        invariant
            i <= bytes@.len(),
            out@ == escaped(bytes@.take(i as int), place),
        decreases bytes@.len() - i,
    {
        assert(bytes@.take(i as int + 1).drop_last() =~= bytes@.take(i as int));
        let b: u8 = bytes[i];
        let ghost so_far = out@;
        if allowed(b, place) {
            out.push(b as char);
            assert(out@ =~= so_far + escaped_byte(b, place));
        } else {
            out.push('%');
            out.push(hex_of(b / 16));
            out.push(hex_of(b % 16));
            assert(out@ =~= so_far + escaped_byte(b, place));
        }
        i = i + 1;
    }
    assert(bytes@.take(i as int) =~= bytes@);
    out
}

/// Whether a character is one of the allowed bytes, a percent sign or a
/// hexadecimal digit.
pub open spec fn is_escaped_char(c: char, place: Place) -> bool {
    c == '%' || (c as u32) < 128 && is_allowed(c as u8, place)
}

/// Percent-encoded text holds only bytes that are allowed in its place, and
/// percent signs.
pub proof fn escaped_text_is_allowed_in_its_place(bytes: Seq<u8>, place: Place, i: int)
    requires
        0 <= i < escaped(bytes, place).len(),
    ensures
        is_escaped_char(escaped(bytes, place)[i], place),
    decreases bytes.len(),
{
    let head = escaped(bytes.drop_last(), place);
    let tail = escaped_byte(bytes.last(), place);
    if i < head.len() {
        escaped_text_is_allowed_in_its_place(bytes.drop_last(), place, i);
        assert(escaped(bytes, place)[i] == head[i]);
    } else {
        assert(escaped(bytes, place)[i] == tail[i - head.len()]);
    }
}

/// The longest text whose UTF-8 takes at most `max` bytes, at the start of
/// another: how many characters it has.
pub open spec fn fitting(s: Seq<char>, max: nat) -> int
    decreases s.len(),
{
    if crate::text::byte_len(s) <= max {
        s.len() as int
    } else if s.len() == 0 {
        0
    } else {
        fitting(s.drop_last(), max)
    }
}

/// A text as an error shows it: whole, or cut after at most 512 bytes.
pub open spec fn shortened(s: Seq<char>) -> Seq<char> {
    if crate::text::byte_len(s) <= 512 {
        s
    } else {
        s.take(fitting(s, 512)) + "..."@
    }
}

/// Shows bytes in an error: as text, cut after at most 512 bytes and never
/// within a character.
pub fn truncate(body: &[u8]) -> (r: String)
    ensures
        r@ == shortened(lossy_text(body@)),
        vstd::utf8::valid_utf8(body@) ==> r@ == shortened(vstd::utf8::decode_utf8(body@)),
{
    let text: String = read_lossy(body);
    let v: Vec<char> = crate::text::chars_of(text.as_str());
    let mut n: usize = 0;
    let mut used: usize = 0;
    while n < v.len() && used + crate::text::bytes_of_char(v[n]) <= 512
        invariant
            n <= v@.len(),
            used == crate::text::byte_len(v@.take(n as int)),
            used <= 512,
        decreases v@.len() - n,
    {
        assert(v@.take(n as int + 1).drop_last() =~= v@.take(n as int));
        used = used + crate::text::bytes_of_char(v[n]);
        n = n + 1;
    }
    if n == v.len() {
        assert(v@.take(n as int) =~= v@);
        return text;
    }
    proof {
        assert(v@.take(n as int + 1).drop_last() =~= v@.take(n as int));
        crate::text::lemma_byte_len_grows(v@, n as int + 1);
        lemma_fitting(v@, 512, n as int);
    }
    let head: String = crate::text::string_of(&v, 0, n);
    assert(head@ =~= v@.take(n as int));
    crate::text::joined(head.as_str(), "...")
}

proof fn lemma_fitting(s: Seq<char>, max: nat, n: int)
    requires
        0 <= n < s.len(),
        crate::text::byte_len(s.take(n)) <= max,
        crate::text::byte_len(s.take(n + 1)) > max,
    ensures
        fitting(s, max) == n,
    decreases s.len(),
{
    reveal_with_fuel(fitting, 2);
    crate::text::lemma_byte_len_grows(s, n + 1);
    let d = s.drop_last();
    if n + 1 == s.len() {
        assert(d =~= s.take(n));
        assert(s.take(n + 1) =~= s);
    } else {
        assert(d.take(n) =~= s.take(n));
        assert(d.take(n + 1) =~= s.take(n + 1));
        lemma_fitting(d, max, n);
    }
}

proof fn lemma_fitting_bounds(s: Seq<char>, max: nat)
    ensures
        0 <= fitting(s, max) <= s.len(),
        crate::text::byte_len(s.take(fitting(s, max))) <= max,
    decreases s.len(),
{
    if crate::text::byte_len(s) <= max {
        assert(s.take(s.len() as int) =~= s);
    } else if s.len() > 0 {
        lemma_fitting_bounds(s.drop_last(), max);
        assert(s.drop_last().take(fitting(s, max)) =~= s.take(fitting(s, max)));
    }
}

/// What an error shows of a text is never longer than 512 bytes and three
/// dots.
pub proof fn shown_text_is_short(s: Seq<char>)
    ensures
        crate::text::byte_len(s) <= 512 ==> shortened(s) == s,
        crate::text::byte_len(s) > 512 ==> 0 <= fitting(s, 512) <= s.len()
            && crate::text::byte_len(s.take(fitting(s, 512))) <= 512,
{
    lemma_fitting_bounds(s, 512);
}

/// The number that a hexadecimal digit in capitals stands for.
pub open spec fn hex_number(c: char) -> int {
    if c <= '9' {
        c as int - '0' as int
    } else {
        c as int - 'A' as int + 10
    }
}

/// A byte that is escaped can be told from its two digits, and one that is
/// allowed in its place stands for itself.
pub proof fn escapes_tell_their_byte(b: u8, place: Place)
    ensures
        is_allowed(b, place) ==> escaped_byte(b, place) == seq![b as char],
        !is_allowed(b, place) ==> escaped_byte(b, place).len() == 3 && escaped_byte(b, place)[0]
            == '%' && 16 * hex_number(escaped_byte(b, place)[1]) + hex_number(
            escaped_byte(b, place)[2],
        ) == b,
{
}

/// Bytes are escaped one by one, in order.
pub proof fn bytes_are_escaped_one_by_one(a: Seq<u8>, b: Seq<u8>, place: Place)
    ensures
        escaped(a + b, place) == escaped(a, place) + escaped(b, place),
    decreases b.len(),
{
    if b.len() == 0 {
        assert(a + b =~= a);
        assert(escaped(b, place) =~= Seq::empty());
        assert(escaped(a, place) + escaped(b, place) =~= escaped(a, place));
    } else {
        assert((a + b).drop_last() =~= a + b.drop_last());
        assert((a + b).last() == b.last());
        bytes_are_escaped_one_by_one(a, b.drop_last(), place);
        assert(escaped(a, place) + escaped(b.drop_last(), place) + escaped_byte(b.last(), place)
            =~= escaped(a, place) + (escaped(b.drop_last(), place) + escaped_byte(
            b.last(),
            place,
        )));
    }
}

} // verus!
