//! Mailbox names in modified UTF-7.

use crate::imap::error::ImapError;
use crate::text;
use vstd::prelude::*;

verus! {

/// `char::from_u32`: the character with a code point, unless the number is a
/// surrogate or beyond the last code point.
pub assume_specification[ char::from_u32 ](n: u32) -> (r: Option<char>)
    ensures
        match r {
            Some(c) => c as u32 == n,
            None => 0xd800 <= n <= 0xdfff || n > 0x10ffff,
        },
;

/// The name of the inbox in capitals, any other name as it stands.
pub open spec fn canonical(name: Seq<char>) -> Seq<char> {
    if text::lowered(name) == text::lowered("INBOX"@) {
        "INBOX"@
    } else {
        name
    }
}

/// Writes the name of the inbox in capitals.
pub fn canonicalise_inbox(name: &str) -> (r: String)
    ensures
        r@ == canonical(name@),
{
    if text::same_ignoring_case(name, "INBOX") {
        "INBOX".to_owned()
    } else {
        name.to_owned()
    }
}

/// The canonical form of a name is its own canonical form.
pub proof fn canonical_names_stay(name: Seq<char>)
    ensures
        canonical(canonical(name)) == canonical(name),
{
}

/// The lowest `w` bits of a number, the highest of them first.
pub open spec fn bits_of(v: nat, w: nat) -> Seq<bool>
    decreases w,
{
    if w == 0 {
        Seq::empty()
    } else {
        bits_of(v / 2, (w - 1) as nat).push(v % 2 == 1)
    }
}

/// The number that bits denote, the highest of them first.
pub open spec fn value_of(b: Seq<bool>) -> nat
    decreases b.len(),
{
    if b.len() == 0 {
        0
    } else {
        2 * value_of(b.drop_last()) + (if b.last() {
            1nat
        } else {
            0nat
        })
    }
}

/// The 16-bit units of a character in UTF-16.
pub open spec fn units_of_char(c: char) -> Seq<u16> {
    let n = c as u32;
    if n < 0x10000 {
        seq![n as u16]
    } else {
        seq![
            (0xd800 + (n - 0x10000) / 0x400) as u16,
            (0xdc00 + (n - 0x10000) % 0x400) as u16,
        ]
    }
}

/// A text in UTF-16.
pub open spec fn units_of_text(s: Seq<char>) -> Seq<u16>
    decreases s.len(),
{
    if s.len() == 0 {
        Seq::empty()
    } else {
        units_of_text(s.drop_last()) + units_of_char(s.last())
    }
}

/// The text that a sequence of units is in UTF-16, unless it holds a surrogate
/// without its other half.
pub open spec fn text_of_units(u: Seq<u16>) -> Option<Seq<char>>
    decreases u.len(),
{
    if u.len() == 0 {
        Some(Seq::empty())
    } else if u[0] < 0xd800 || u[0] > 0xdfff {
        match text_of_units(u.skip(1)) {
            Some(t) => Some(seq![u[0] as char] + t),
            None => None,
        }
    } else if u[0] <= 0xdbff && u.len() > 1 && 0xdc00 <= u[1] <= 0xdfff {
        match text_of_units(u.skip(2)) {
            Some(t) => Some(
                seq![(0x10000 + (u[0] - 0xd800) * 0x400 + (u[1] - 0xdc00)) as char] + t,
            ),
            None => None,
        }
    } else {
        None
    }
}

/// The bits of units, one unit after the other.
pub open spec fn bits_of_units(u: Seq<u16>) -> Seq<bool>
    decreases u.len(),
{
    if u.len() == 0 {
        Seq::empty()
    } else {
        bits_of_units(u.drop_last()) + bits_of(u.last() as nat, 16)
    }
}

/// The units that bits make up; what is left over after the last whole unit is
/// dropped.
pub open spec fn units_of_bits(b: Seq<bool>) -> Seq<u16>
    decreases b.len(),
{
    if b.len() < 16 {
        Seq::empty()
    } else {
        seq![value_of(b.take(16)) as u16] + units_of_bits(b.skip(16))
    }
}

/// The character for six bits.
pub open spec fn sextet_char(n: nat) -> char {
    if n < 26 {
        (65 + n) as char
    } else if n < 52 {
        (97 + n - 26) as char
    } else if n < 62 {
        (48 + n - 52) as char
    } else if n == 62 {
        '+'
    } else {
        ','
    }
}

/// The six bits that a character stands for.
pub open spec fn sextet_value(c: char) -> Option<nat> {
    if 'A' <= c <= 'Z' {
        Some((c as u32 - 65) as nat)
    } else if 'a' <= c <= 'z' {
        Some((c as u32 - 97 + 26) as nat)
    } else if '0' <= c <= '9' {
        Some((c as u32 - 48 + 52) as nat)
    } else if c == '+' {
        Some(62)
    } else if c == ',' {
        Some(63)
    } else {
        None
    }
}

/// Zero bits.
pub open spec fn zeros(n: nat) -> Seq<bool> {
    Seq::new(n, |i: int| false)
}

/// Bits as characters of six bits each; the last group is filled with zeros.
pub open spec fn sextets(b: Seq<bool>) -> Seq<char>
    decreases b.len(),
{
    if b.len() == 0 {
        Seq::empty()
    } else if b.len() <= 6 {
        seq![sextet_char(value_of(b + zeros((6 - b.len()) as nat)))]
    } else {
        seq![sextet_char(value_of(b.take(6)))] + sextets(b.skip(6))
    }
}

/// The bits that characters stand for, as far as they are characters of the
/// alphabet.
pub open spec fn bits_of_sextets(s: Seq<char>) -> Seq<bool>
    decreases s.len(),
{
    if s.len() == 0 {
        Seq::empty()
    } else {
        bits_of_sextets(s.drop_last()) + bits_of(
            match sextet_value(s.last()) {
                Some(n) => n,
                None => 0,
            },
            6,
        )
    }
}

/// The first byte of a character in UTF-8.
pub open spec fn first_byte(c: char) -> nat {
    let n = c as u32;
    if n < 0x80 {
        n as nat
    } else if n < 0x800 {
        (0xc0 + n / 0x40) as nat
    } else if n < 0x10000 {
        (0xe0 + n / 0x1000) as nat
    } else {
        (0xf0 + n / 0x40000) as nat
    }
}

pub open spec fn hex_char(n: nat) -> char {
    if n < 10 {
        (48 + n) as char
    } else {
        (87 + n) as char
    }
}

/// What is said of a character that is not of the alphabet.
pub open spec fn invalid_byte(c: char) -> Seq<char> {
    "invalid modified UTF-7 byte 0x"@.push(hex_char(first_byte(c) / 16)).push(
        hex_char(first_byte(c) % 16),
    )
}

/// Where the first character stands that is not of the alphabet; the length
/// if there is none.
pub open spec fn first_foreign(s: Seq<char>) -> int
    decreases s.len(),
{
    if s.len() == 0 || sextet_value(s[0]) is None {
        0
    } else {
        1 + first_foreign(s.drop_first())
    }
}

/// What stands between `&` and `-`, or what is wrong with it.
pub open spec fn section_text(s: Seq<char>) -> Result<Seq<char>, Seq<char>> {
    let i = first_foreign(s);
    if i < s.len() {
        Err(invalid_byte(s[i]))
    } else {
        match text_of_units(units_of_bits(bits_of_sextets(s))) {
            Some(t) => Ok(t),
            None => Err("utf-16: invalid utf-16: lone surrogate found"@),
        }
    }
}

/// A text put before what follows, unless that is an error.
pub open spec fn before(head: Seq<char>, rest: Result<Seq<char>, Seq<char>>) -> Result<
    Seq<char>,
    Seq<char>,
> {
    match rest {
        Ok(t) => Ok(head + t),
        Err(e) => Err(e),
    }
}

/// The mailbox name that a text in modified UTF-7 stands for.
pub open spec fn decoded(s: Seq<char>) -> Result<Seq<char>, Seq<char>>
    decreases s.len(),
{
    if s.len() == 0 {
        Ok(Seq::empty())
    } else if s[0] != '&' {
        before(seq![s[0]], decoded(s.skip(1)))
    } else if s.len() > 1 && s[1] == '-' {
        before(seq!['&'], decoded(s.skip(2)))
    } else {
        let rest = s.skip(1);
        let e = text::first_index(rest, '-');
        if 0 <= e < rest.len() {
            match section_text(rest.take(e)) {
                Ok(t) => before(t, decoded(rest.skip(e + 1))),
                Err(m) => Err(m),
            }
        } else {
            Err("unterminated modified UTF-7 sequence"@)
        }
    }
}

/// Whether a character is written as it stands, or as `&-`.
pub open spec fn is_printable(c: char) -> bool {
    0x20 <= c as u32 <= 0x7e
}

/// How many characters at the start of a text are not printable ASCII.
pub open spec fn run_length(s: Seq<char>) -> int
    decreases s.len(),
{
    if s.len() == 0 || is_printable(s[0]) {
        0
    } else {
        1 + run_length(s.drop_first())
    }
}

/// A run of characters that are not printable ASCII, encoded.
pub open spec fn encoded_run(s: Seq<char>) -> Seq<char> {
    seq!['&'] + sextets(bits_of_units(units_of_text(s))) + seq!['-']
}

/// A mailbox name in modified UTF-7.
pub open spec fn encoded(s: Seq<char>) -> Seq<char>
    decreases s.len(),
{
    if s.len() == 0 {
        Seq::empty()
    } else if s[0] == '&' {
        seq!['&', '-'] + encoded(s.skip(1))
    } else if is_printable(s[0]) {
        seq![s[0]] + encoded(s.skip(1))
    } else {
        let k = run_length(s);
        if 0 < k <= s.len() {
            encoded_run(s.take(k)) + encoded(s.skip(k))
        } else {
            Seq::empty()
        }
    }
}

proof fn lemma_run_length(s: Seq<char>, k: int)
    requires
        0 <= k <= s.len(),
        forall|i: int| 0 <= i < k ==> !is_printable(#[trigger] s[i]),
        k < s.len() ==> is_printable(s[k]),
    ensures
        run_length(s) == k,
    decreases s.len(),
{
    if k > 0 {
        assert(!is_printable(s[0]));
        let d = s.drop_first();
        assert forall|i: int| 0 <= i < k - 1 implies !is_printable(#[trigger] d[i]) by {
            assert(d[i] == s[i + 1]);
        }
        lemma_run_length(d, k - 1);
    }
}

proof fn lemma_run_bounds(s: Seq<char>)
    ensures
        0 <= run_length(s) <= s.len(),
        forall|i: int| 0 <= i < run_length(s) ==> !is_printable(#[trigger] s[i]),
        run_length(s) < s.len() ==> is_printable(s[run_length(s)]),
    decreases s.len(),
{
    if s.len() > 0 && !is_printable(s[0]) {
        let d = s.drop_first();
        lemma_run_bounds(d);
        assert forall|i: int| 0 <= i < run_length(s) implies !is_printable(#[trigger] s[i]) by {
            if i > 0 {
                assert(d[i - 1] == s[i]);
            }
        }
        if run_length(s) < s.len() {
            assert(d[run_length(d)] == s[run_length(s)]);
        }
    }
}

proof fn lemma_bits_len(v: nat, w: nat)
    ensures
        bits_of(v, w).len() == w,
    decreases w,
{
    if w > 0 {
        lemma_bits_len(v / 2, (w - 1) as nat);
    }
}

/// Two to the power of a number.
pub open spec fn two_to(n: nat) -> nat
    decreases n,
{
    if n == 0 {
        1
    } else {
        2 * two_to((n - 1) as nat)
    }
}

proof fn lemma_bits_value(v: nat, w: nat)
    requires
        v < two_to(w),
    ensures
        value_of(bits_of(v, w)) == v,
    decreases w,
{
    if w > 0 {
        assert(v / 2 < two_to((w - 1) as nat));
        lemma_bits_value(v / 2, (w - 1) as nat);
        assert(bits_of(v, w).drop_last() =~= bits_of(v / 2, (w - 1) as nat));
    }
}

proof fn lemma_value_bound(b: Seq<bool>)
    ensures
        value_of(b) < two_to(b.len()),
    decreases b.len(),
{
    if b.len() > 0 {
        lemma_value_bound(b.drop_last());
    }
}

proof fn lemma_value_bits(b: Seq<bool>)
    ensures
        bits_of(value_of(b), b.len()) == b,
    decreases b.len(),
{
    if b.len() > 0 {
        lemma_value_bits(b.drop_last());
        assert(value_of(b) / 2 == value_of(b.drop_last()));
        assert(b.drop_last().push(b.last()) =~= b);
    } else {
        assert(b =~= Seq::<bool>::empty());
    }
}

proof fn lemma_two_to()
    ensures
        two_to(6) == 64,
        two_to(16) == 65536,
{
    reveal_with_fuel(two_to, 17);
}

fn push_bits(out: &mut Vec<bool>, v: u32, w: u32)
    ensures
        final(out)@ == old(out)@ + bits_of(v as nat, w as nat),
    decreases w,
{
    let ghost start = out@;
    if w == 0 {
        assert(start =~= start + Seq::<bool>::empty());
    } else {
        push_bits(out, v / 2, w - 1);
        out.push(v % 2 == 1);
        assert(out@ =~= start + bits_of(v as nat, w as nat));
    }
}

fn read_value(b: &Vec<bool>, from: usize, to: usize) -> (r: u32)
    requires
        from <= to <= b@.len(),
        to - from <= 16,
    ensures
        r == value_of(b@.subrange(from as int, to as int)),
        r < 65536,
{
    let mut n: u32 = 0;
    let mut i: usize = from;
    proof {
        lemma_two_to();
    }
    while i < to
        invariant
            from <= i <= to <= b@.len(),
            to - from <= 16,
            n == value_of(b@.subrange(from as int, i as int)),
            n < two_to((i - from) as nat),
            two_to((i - from) as nat) <= 65536,
        decreases to - i,
    {
        proof {
            let s = b@.subrange(from as int, i as int + 1);
            assert(s.drop_last() =~= b@.subrange(from as int, i as int));
            lemma_value_bound(s);
            lemma_two_to_grows((i - from + 1) as nat);
        }
        n = 2 * n + (if b[i] {
            1
        } else {
            0
        });
        i = i + 1;
    }
    n
}

proof fn lemma_two_to_grows(n: nat)
    requires
        n <= 16,
    ensures
        two_to(n) <= 65536,
    decreases 16 - n,
{
    lemma_two_to();
    if n < 16 {
        lemma_two_to_grows(n + 1);
    }
}

fn char_of_sextet(n: u32) -> (c: char)
    requires
        n < 64,
    ensures
        c == sextet_char(n as nat),
{
    if n < 26 {
        ((65 + n) as u8) as char
    } else if n < 52 {
        ((97 + n - 26) as u8) as char
    } else if n < 62 {
        ((48 + n - 52) as u8) as char
    } else if n == 62 {
        '+'
    } else {
        ','
    }
}

fn sextet_of_char(c: char) -> (r: Option<u32>)
    ensures
        match r {
            Some(n) => sextet_value(c) == Some(n as nat) && n < 64,
            None => sextet_value(c) is None,
        },
{
    if c >= 'A' && c <= 'Z' {
        Some(c as u32 - 65)
    } else if c >= 'a' && c <= 'z' {
        Some(c as u32 - 97 + 26)
    } else if c >= '0' && c <= '9' {
        Some(c as u32 - 48 + 52)
    } else if c == '+' {
        Some(62)
    } else if c == ',' {
        Some(63)
    } else {
        None
    }
}

/// Encodes bits as characters of six bits each.
fn encode_b64_modified(bits: &Vec<bool>, out: &mut String)
    ensures
        final(out)@ == old(out)@ + sextets(bits@),
{
    let ghost start = out@;
    let ghost all = sextets(bits@);
    let mut i: usize = 0;
    proof {
        lemma_two_to();
        assert(bits@.skip(0) =~= bits@);
        assert(start + all =~= start + all);
    }
    while bits.len() - i > 6
        invariant
            i <= bits@.len(),
            out@ + sextets(bits@.skip(i as int)) == start + all,
            two_to(6) == 64,
        decreases bits@.len() - i,
    {
        let ghost b = bits@.skip(i as int);
        let n: u32 = read_value(bits, i, i + 6);
        proof {
            assert(b.take(6) =~= bits@.subrange(i as int, i as int + 6));
            lemma_value_bound(b.take(6));
            assert(b.skip(6) =~= bits@.skip(i as int + 6));
        }
        let ghost so_far = out@;
        out.push(char_of_sextet(n));
        proof {
            assert(so_far + (seq![sextet_char(n as nat)] + sextets(b.skip(6))) =~= out@ + sextets(
                b.skip(6),
            ));
        }
        i = i + 6;
    }
    let ghost b = bits@.skip(i as int);
    let ghost so_far = out@;
    if i < bits.len() {
        let mut last: Vec<bool> = Vec::new();
        let mut k: usize = i;
        while k < bits.len()
            invariant
                i <= k <= bits@.len(),
                last@ == bits@.subrange(i as int, k as int),
            decreases bits@.len() - k,
        {
            last.push(bits[k]);
            k = k + 1;
            assert(last@ =~= bits@.subrange(i as int, k as int));
        }
        assert(last@ =~= b);
        while last.len() < 6
            invariant
                b.len() <= last@.len() <= 6,
                last@ == b + zeros((last@.len() - b.len()) as nat),
            decreases 6 - last@.len(),
        {
            let ghost had = last@;
            last.push(false);
            assert(last@ =~= b + zeros((last@.len() - b.len()) as nat));
        }
        let n: u32 = read_value(&last, 0, 6);
        proof {
            assert(last@.subrange(0, 6) =~= last@);
            lemma_value_bound(last@);
        }
        out.push(char_of_sextet(n));
        assert(out@ =~= so_far + sextets(b));
    } else {
        assert(so_far + sextets(b) =~= so_far);
    }
}

fn push_units(out: &mut Vec<bool>, c: char)
    ensures
        final(out)@ == old(out)@ + bits_of_units(units_of_char(c)),
{
    let ghost start = out@;
    let n: u32 = c as u32;
    if n < 0x10000 {
        push_bits(out, n, 16);
        proof {
            let u = units_of_char(c);
            assert(u.last() as nat == n as nat);
            assert(u.drop_last() =~= Seq::<u16>::empty());
            assert(bits_of_units(u.drop_last()) + bits_of(n as nat, 16) =~= bits_of(n as nat, 16));
        }
    } else {
        let high: u32 = 0xd800 + (n - 0x10000) / 0x400;
        let low: u32 = 0xdc00 + (n - 0x10000) % 0x400;
        push_bits(out, high, 16);
        push_bits(out, low, 16);
        proof {
            let u = units_of_char(c);
            assert(n <= 0x10ffff);
            assert(high <= 0xdbff && low <= 0xdfff);
            assert(u[0] as nat == high as nat && u[1] as nat == low as nat);
            assert(u.drop_last() =~= seq![high as u16]);
            assert(u.drop_last().drop_last() =~= Seq::<u16>::empty());
            assert(u.drop_last().last() == u[0]);
            assert(bits_of_units(u.drop_last()) == bits_of_units(u.drop_last().drop_last())
                + bits_of(high as nat, 16));
            assert(bits_of_units(u.drop_last()) =~= bits_of(high as nat, 16));
            assert(start + bits_of(high as nat, 16) + bits_of(low as nat, 16) =~= start + (bits_of(
                high as nat,
                16,
            ) + bits_of(low as nat, 16)));
            assert(bits_of_units(u) == bits_of_units(u.drop_last()) + bits_of(low as nat, 16));
        }
    }
}

proof fn lemma_bits_of_units_concat(a: Seq<u16>, b: Seq<u16>)
    ensures
        bits_of_units(a + b) == bits_of_units(a) + bits_of_units(b),
    decreases b.len(),
{
    if b.len() == 0 {
        assert(a + b =~= a);
        assert(bits_of_units(a) + bits_of_units(b) =~= bits_of_units(a));
    } else {
        assert((a + b).drop_last() =~= a + b.drop_last());
        lemma_bits_of_units_concat(a, b.drop_last());
        assert(bits_of_units(a) + bits_of_units(b.drop_last()) + bits_of(b.last() as nat, 16)
            =~= bits_of_units(a) + bits_of_units(b));
    }
}

/// Encodes a mailbox name in modified UTF-7.
pub fn encode_mailbox_name(input: &str) -> (r: String)
    ensures
        r@ == encoded(input@),
{
    let v: Vec<char> = text::chars_of(input);
    let mut out: String = String::new();
    let mut i: usize = 0;
    proof {
        assert(v@.skip(0) =~= v@);
        assert(out@ + encoded(v@) =~= encoded(v@));
    }
    while i < v.len()
        invariant
            i <= v@.len(),
            v@ == input@,
            out@ + encoded(v@.skip(i as int)) == encoded(input@),
        decreases v@.len() - i,
    {
        let ghost s = v@.skip(i as int);
        let ghost so_far = out@;
        let c: char = v[i];
        assert(s[0] == c);
        if c == '&' {
            out.push('&');
            out.push('-');
            proof {
                assert(s.skip(1) =~= v@.skip(i as int + 1));
                assert(so_far + (seq!['&', '-'] + encoded(s.skip(1))) =~= out@ + encoded(s.skip(1)));
            }
            i = i + 1;
        } else if c as u32 >= 0x20 && c as u32 <= 0x7e {
            out.push(c);
            proof {
                assert(s.skip(1) =~= v@.skip(i as int + 1));
                assert(so_far + (seq![c] + encoded(s.skip(1))) =~= out@ + encoded(s.skip(1)));
            }
            i = i + 1;
        } else {
            let mut bits: Vec<bool> = Vec::new();
            let mut k: usize = i;
            assert(units_of_text(s.take(0)) =~= Seq::<u16>::empty());
            assert(bits@ =~= bits_of_units(units_of_text(s.take(0))));
            while k < v.len() && !(v[k] as u32 >= 0x20 && v[k] as u32 <= 0x7e)
                invariant
                    i <= k <= v@.len(),
                    s == v@.skip(i as int),
                    bits@ == bits_of_units(units_of_text(s.take(k - i))),
                    forall|j: int| 0 <= j < k - i ==> !is_printable(#[trigger] s[j]),
                decreases v@.len() - k,
            {
                proof {
                    let t = s.take(k - i + 1);
                    assert(t.drop_last() =~= s.take(k - i));
                    assert(t.last() == v@[k as int]);
                    lemma_bits_of_units_concat(units_of_text(s.take(k - i)), units_of_char(v@[k as int]));
                    assert(s[k - i] == v@[k as int]);
                }
                push_units(&mut bits, v[k]);
                k = k + 1;
            }
            proof {
                if k - i < s.len() {
                    assert(s[k - i] == v@[k as int]);
                }
                lemma_run_length(s, k - i);
                assert(!is_printable(s[0]));
                assert(k > i);
            }
            out.push('&');
            encode_b64_modified(&bits, &mut out);
            out.push('-');
            proof {
                let run = encoded_run(s.take(k - i));
                assert(out@ =~= so_far + run);
                assert(s.skip(k - i) =~= v@.skip(k as int));
                assert(so_far + (run + encoded(s.skip(k - i))) =~= out@ + encoded(s.skip(k - i)));
            }
            i = k;
        }
    }
    proof {
        assert(v@.skip(i as int) =~= Seq::<char>::empty());
        assert(out@ + encoded(v@.skip(i as int)) =~= out@);
    }
    out
}

/// A mailbox name as a server of either kind takes it: as it stands where the
/// server takes UTF-8, else in modified UTF-7.
pub open spec fn encoded_for(s: Seq<char>, utf8_accept: bool) -> Seq<char> {
    if utf8_accept {
        s
    } else {
        encoded(s)
    }
}

/// Encodes a mailbox name for a server that takes UTF-8, or for one that does
/// not.
pub fn encode_mailbox_name_with(input: &str, utf8_accept: bool) -> (r: String)
    ensures
        r@ == encoded_for(input@, utf8_accept),
{
    if utf8_accept {
        input.to_owned()
    } else {
        encode_mailbox_name(input)
    }
}

/// The encoding of a name for the other kind of server, if it differs.
pub fn alternate_mailbox_name(input: &str, utf8_accept: bool) -> (r: Option<String>)
    ensures
        crate::json::text_view(r) == (if encoded(input@) == input@ {
            None
        } else {
            Some(encoded_for(input@, !utf8_accept))
        }),
{
    let primary: String = encode_mailbox_name_with(input, utf8_accept);
    let alternate: String = encode_mailbox_name_with(input, !utf8_accept);
    if text::same(alternate.as_str(), primary.as_str()) {
        None
    } else {
        Some(alternate)
    }
}

fn lead_byte(c: char) -> (r: u32)
    ensures
        r == first_byte(c),
        r < 256,
{
    let n: u32 = c as u32;
    if n < 0x80 {
        n
    } else if n < 0x800 {
        0xc0 + n / 0x40
    } else if n < 0x10000 {
        0xe0 + n / 0x1000
    } else {
        0xf0 + n / 0x40000
    }
}

fn hex_digit(n: u32) -> (c: char)
    requires
        n < 16,
    ensures
        c == hex_char(n as nat),
{
    if n < 10 {
        ((48 + n) as u8) as char
    } else {
        ((87 + n) as u8) as char
    }
}

fn invalid_byte_message(c: char) -> (r: String)
    ensures
        r@ == invalid_byte(c),
{
    let b: u32 = lead_byte(c);
    let mut m: String = "invalid modified UTF-7 byte 0x".to_owned();
    m.push(hex_digit(b / 16));
    m.push(hex_digit(b % 16));
    m
}

proof fn lemma_first_foreign(s: Seq<char>, i: int)
    requires
        0 <= i <= s.len(),
        forall|k: int| 0 <= k < i ==> sextet_value(#[trigger] s[k]) is Some,
        i < s.len() ==> sextet_value(s[i]) is None,
    ensures
        first_foreign(s) == i,
    decreases s.len(),
{
    if i > 0 {
        assert(sextet_value(s[0]) is Some);
        let d = s.drop_first();
        assert forall|k: int| 0 <= k < i - 1 implies sextet_value(#[trigger] d[k]) is Some by {
            assert(d[k] == s[k + 1]);
        }
        lemma_first_foreign(d, i - 1);
    }
}

/// The bits of an encoded section.
fn decode_b64_modified(v: &Vec<char>, from: usize, to: usize) -> (r: Result<Vec<bool>, ImapError>)
    requires
        from <= to <= v@.len(),
    ensures
        ({
            let s = v@.subrange(from as int, to as int);
            match r {
                Ok(b) => first_foreign(s) == s.len() && b@ == bits_of_sextets(s),
                Err(e) => first_foreign(s) < s.len() && (e matches ImapError::Parse(m) && m@
                    == invalid_byte(s[first_foreign(s)])),
            }
        }),
{
    let ghost s = v@.subrange(from as int, to as int);
    let mut bits: Vec<bool> = Vec::new();
    let mut i: usize = from;
    assert(bits@ =~= bits_of_sextets(s.take(0)));
    while i < to
        invariant
            from <= i <= to <= v@.len(),
            s == v@.subrange(from as int, to as int),
            bits@ == bits_of_sextets(s.take(i - from)),
            forall|k: int| 0 <= k < i - from ==> sextet_value(#[trigger] s[k]) is Some,
        decreases to - i,
    {
        assert(s[i - from] == v@[i as int]);
        assert(s.take(i - from + 1).drop_last() =~= s.take(i - from));
        match sextet_of_char(v[i]) {
            Some(n) => {
                push_bits(&mut bits, n, 6);
            },
            None => {
                proof {
                    lemma_first_foreign(s, i - from);
                }
                return Err(ImapError::Parse(invalid_byte_message(v[i])));
            },
        }
        i = i + 1;
    }
    proof {
        lemma_first_foreign(s, s.len() as int);
        assert(s.take(i - from) =~= s);
    }
    Ok(bits)
}

fn collect_units(bits: &Vec<bool>) -> (r: Vec<u16>)
    ensures
        r@ == units_of_bits(bits@),
{
    let mut out: Vec<u16> = Vec::new();
    let mut i: usize = 0;
    proof {
        assert(bits@.skip(0) =~= bits@);
        assert(out@ + units_of_bits(bits@) =~= units_of_bits(bits@));
    }
    while bits.len() - i >= 16
        invariant
            i <= bits@.len(),
            out@ + units_of_bits(bits@.skip(i as int)) == units_of_bits(bits@),
        decreases bits@.len() - i,
    {
        let ghost b = bits@.skip(i as int);
        let ghost so_far = out@;
        let n: u32 = read_value(bits, i, i + 16);
        proof {
            assert(b.take(16) =~= bits@.subrange(i as int, i as int + 16));
            assert(b.skip(16) =~= bits@.skip(i as int + 16));
        }
        out.push(n as u16);
        proof {
            assert(so_far + (seq![n as u16] + units_of_bits(b.skip(16))) =~= out@ + units_of_bits(
                b.skip(16),
            ));
        }
        i = i + 16;
    }
    assert(out@ + units_of_bits(bits@.skip(i as int)) =~= out@);
    out
}

/// The text that units are in UTF-16.
fn read_units(u: &Vec<u16>) -> (r: Option<String>)
    ensures
        crate::json::text_view(r) == text_of_units(u@),
{
    let mut out: String = String::new();
    let mut i: usize = 0;
    proof {
        assert(u@.skip(0) =~= u@);
        if text_of_units(u@) is Some {
            assert(out@ + text_of_units(u@)->0 =~= text_of_units(u@)->0);
        }
    }
    while i < u.len()
        invariant
            i <= u@.len(),
            text_of_units(u@) is Some <==> text_of_units(u@.skip(i as int)) is Some,
            text_of_units(u@) matches Some(t) ==> out@ + text_of_units(u@.skip(i as int))->0 == t,
        decreases u@.len() - i,
    {
        let ghost s = u@.skip(i as int);
        let ghost so_far = out@;
        let a: u32 = u[i] as u32;
        assert(s[0] == u@[i as int]);
        if a < 0xd800 || a > 0xdfff {
            let c: char = match char::from_u32(a) {
                Some(c) => c,
                None => {
                    return None;
                },
            };
            out.push(c);
            proof {
                assert(s.skip(1) =~= u@.skip(i as int + 1));
                vstd::utf8::char_u32_cast(c, a);
                assert(c == s[0] as char);
                if text_of_units(s.skip(1)) is Some {
                    let t = text_of_units(s.skip(1))->0;
                    assert(so_far + (seq![c] + t) =~= out@ + t);
                }
            }
            i = i + 1;
        } else if a <= 0xdbff && i + 1 < u.len() && u[i + 1] >= 0xdc00 && u[i + 1] <= 0xdfff {
            let b: u32 = u[i + 1] as u32;
            assert(s[1] == u@[i as int + 1]);
            let n: u32 = 0x10000 + (a - 0xd800) * 0x400 + (b - 0xdc00);
            let c: char = match char::from_u32(n) {
                Some(c) => c,
                None => {
                    return None;
                },
            };
            out.push(c);
            proof {
                assert(s.skip(2) =~= u@.skip(i as int + 2));
                vstd::utf8::char_u32_cast(c, n);
                assert(c == (0x10000 + (s[0] - 0xd800) * 0x400 + (s[1] - 0xdc00)) as char);
                if text_of_units(s.skip(2)) is Some {
                    let t = text_of_units(s.skip(2))->0;
                    assert(so_far + (seq![c] + t) =~= out@ + t);
                }
            }
            i = i + 2;
        } else {
            proof {
                if s.len() > 1 {
                    assert(s[1] == u@[i as int + 1]);
                }
            }
            return None;
        }
    }
    proof {
        assert(u@.skip(i as int) =~= Seq::<u16>::empty());
        assert(out@ + Seq::<char>::empty() =~= out@);
    }
    Some(out)
}

/// Decodes a mailbox name from modified UTF-7.
pub fn decode_mailbox_name(input: &str) -> (r: Result<String, ImapError>)
    ensures
        match r {
            Ok(t) => decoded(input@) == Ok::<Seq<char>, Seq<char>>(t@),
            Err(e) => e matches ImapError::Parse(m) && decoded(input@) == Err::<
                Seq<char>,
                Seq<char>,
            >(m@),
        },
{
    let v: Vec<char> = text::chars_of(input);
    let mut out: String = String::new();
    let mut i: usize = 0;
    proof {
        assert(v@.skip(0) =~= v@);
        if decoded(v@) is Ok {
            assert(out@ + decoded(v@)->Ok_0 =~= decoded(v@)->Ok_0);
        }
    }
    while i < v.len()
        invariant
            i <= v@.len(),
            v@ == input@,
            decoded(input@) == before(out@, decoded(v@.skip(i as int))),
        decreases v@.len() - i,
    {
        let ghost s = v@.skip(i as int);
        let ghost so_far = out@;
        assert(s[0] == v@[i as int]);
        if v[i] != '&' {
            out.push(v[i]);
            proof {
                assert(s.skip(1) =~= v@.skip(i as int + 1));
                if decoded(s.skip(1)) is Ok {
                    let t = decoded(s.skip(1))->Ok_0;
                    assert(so_far + (seq![s[0]] + t) =~= out@ + t);
                }
            }
            i = i + 1;
        } else if i + 1 < v.len() && v[i + 1] == '-' {
            assert(s[1] == v@[i as int + 1]);
            out.push('&');
            proof {
                assert(s.skip(2) =~= v@.skip(i as int + 2));
                if decoded(s.skip(2)) is Ok {
                    let t = decoded(s.skip(2))->Ok_0;
                    assert(so_far + (seq!['&'] + t) =~= out@ + t);
                }
            }
            i = i + 2;
        } else {
            let mut end: usize = i + 1;
            let ghost rest = s.skip(1);
            proof {
                if s.len() > 1 {
                    assert(s[1] == v@[i as int + 1]);
                }
            }
            while end < v.len() && v[end] != '-'
                invariant
                    i < end <= v@.len(),
                    forall|k: int| i + 1 <= k < end ==> v@[k] != '-',
                decreases v@.len() - end,
            {
                end = end + 1;
            }
            proof {
                assert(rest =~= v@.skip(i as int + 1));
                assert forall|k: int| 0 <= k < end - i - 1 implies rest[k] != '-' by {
                    assert(rest[k] == v@[k + i + 1]);
                }
                if end < v@.len() {
                    assert(rest[end - i - 1] == v@[end as int]);
                }
                text::lemma_first_index(rest, '-', end - i - 1);
            }
            if end == v.len() {
                return Err(ImapError::Parse("unterminated modified UTF-7 sequence".to_owned()));
            }
            assert(rest.take(end - i - 1) =~= v@.subrange(i as int + 1, end as int));
            let bits: Vec<bool> = match decode_b64_modified(&v, i + 1, end) {
                Ok(b) => b,
                Err(e) => {
                    return Err(e);
                },
            };
            let units: Vec<u16> = collect_units(&bits);
            match read_units(&units) {
                Some(t) => {
                    out.append(t.as_str());
                    proof {
                        assert(rest.skip(end - i) =~= v@.skip(end as int + 1));
                        if decoded(rest.skip(end - i)) is Ok {
                            let x = decoded(rest.skip(end - i))->Ok_0;
                            assert(so_far + (t@ + x) =~= out@ + x);
                        }
                    }
                },
                None => {
                    return Err(
                        ImapError::Parse(
                            "utf-16: invalid utf-16: lone surrogate found".to_owned(),
                        ),
                    );
                },
            }
            i = end + 1;
        }
    }
    proof {
        assert(v@.skip(i as int) =~= Seq::<char>::empty());
        assert(out@ + Seq::<char>::empty() =~= out@);
    }
    Ok(out)
}

/// Decodes a mailbox name from a server that sends UTF-8, or from one that
/// does not.
pub fn decode_mailbox_name_with(input: &str, utf8_accept: bool) -> (r: Result<String, ImapError>)
    ensures
        utf8_accept ==> (r matches Ok(t) && t@ == input@),
        !utf8_accept ==> match r {
            Ok(t) => decoded(input@) == Ok::<Seq<char>, Seq<char>>(t@),
            Err(e) => e matches ImapError::Parse(m) && decoded(input@) == Err::<
                Seq<char>,
                Seq<char>,
            >(m@),
        },
{
    if utf8_accept {
        Ok(input.to_owned())
    } else {
        decode_mailbox_name(input)
    }
}

proof fn lemma_sextet_reads_back(n: nat)
    requires
        n < 64,
    ensures
        sextet_value(sextet_char(n)) == Some(n),
        sextet_char(n) != '-',
        sextet_char(n) != '&',
{
}

proof fn lemma_bits_of_sextets_concat(a: Seq<char>, b: Seq<char>)
    ensures
        bits_of_sextets(a + b) == bits_of_sextets(a) + bits_of_sextets(b),
    decreases b.len(),
{
    if b.len() == 0 {
        assert(a + b =~= a);
        assert(bits_of_sextets(a) + bits_of_sextets(b) =~= bits_of_sextets(a));
    } else {
        assert((a + b).drop_last() =~= a + b.drop_last());
        lemma_bits_of_sextets_concat(a, b.drop_last());
        let last = bits_of(
            match sextet_value(b.last()) {
                Some(n) => n,
                None => 0,
            },
            6,
        );
        assert(bits_of_sextets(a) + bits_of_sextets(b.drop_last()) + last =~= bits_of_sextets(a)
            + (bits_of_sextets(b.drop_last()) + last));
    }
}

proof fn lemma_one_sextet(b: Seq<bool>)
    requires
        b.len() == 6,
    ensures
        bits_of_sextets(seq![sextet_char(value_of(b))]) == b,
        sextet_value(sextet_char(value_of(b))) is Some,
        sextet_char(value_of(b)) != '-',
        sextet_char(value_of(b)) != '&',
{
    lemma_two_to();
    lemma_value_bound(b);
    lemma_sextet_reads_back(value_of(b));
    lemma_value_bits(b);
    let s = seq![sextet_char(value_of(b))];
    assert(s.drop_last() =~= Seq::<char>::empty());
    assert(bits_of_sextets(s.drop_last()) =~= Seq::<bool>::empty());
    assert(bits_of_sextets(s.drop_last()) + b =~= b);
}

/// Encoded bits read back as themselves, followed by fewer than six zeros.
proof fn lemma_sextets_read_back(b: Seq<bool>)
    ensures
        bits_of_sextets(sextets(b)).len() >= b.len(),
        bits_of_sextets(sextets(b)).len() < b.len() + 6,
        bits_of_sextets(sextets(b)).take(b.len() as int) == b,
        forall|i: int|
            0 <= i < sextets(b).len() ==> sextet_value(#[trigger] sextets(b)[i]) is Some
                && sextets(b)[i] != '-' && sextets(b)[i] != '&',
        6 * sextets(b).len() >= b.len(),
    decreases b.len(),
{
    let s = sextets(b);
    if b.len() == 0 {
        assert(s =~= Seq::<char>::empty());
        assert(bits_of_sextets(s).take(0) =~= b);
    } else if b.len() <= 6 {
        let full = b + zeros((6 - b.len()) as nat);
        lemma_one_sextet(full);
        assert(full.take(b.len() as int) =~= b);
    } else {
        lemma_one_sextet(b.take(6));
        lemma_sextets_read_back(b.skip(6));
        let head = seq![sextet_char(value_of(b.take(6)))];
        let tail = sextets(b.skip(6));
        lemma_bits_of_sextets_concat(head, tail);
        let all = bits_of_sextets(s);
        assert(all == b.take(6) + bits_of_sextets(tail));
        assert(all.take(b.len() as int) =~= b) by {
            assert forall|i: int| 0 <= i < b.len() implies all.take(b.len() as int)[i] == b[i] by {
                if i >= 6 {
                    assert(bits_of_sextets(tail).take(b.len() - 6)[i - 6] == b.skip(6)[i - 6]);
                }
            }
        }
        assert forall|i: int| 0 <= i < s.len() implies sextet_value(#[trigger] s[i]) is Some && s[i]
            != '-' && s[i] != '&' by {
            if i > 0 {
                assert(s[i] == tail[i - 1]);
            }
        }
    }
}

proof fn lemma_units_bits_len(u: Seq<u16>)
    ensures
        bits_of_units(u).len() == 16 * u.len(),
    decreases u.len(),
{
    if u.len() > 0 {
        lemma_units_bits_len(u.drop_last());
        lemma_bits_len(u.last() as nat, 16);
    }
}

/// Units read back from their bits and fewer than a unit's more.
proof fn lemma_units_read_back(u: Seq<u16>, b: Seq<bool>)
    requires
        16 * u.len() <= b.len() < 16 * u.len() + 16,
        b.take(16 * u.len() as int) == bits_of_units(u),
    ensures
        units_of_bits(b) == u,
    decreases u.len(),
{
    if u.len() == 0 {
        assert(units_of_bits(b) =~= u);
    } else {
        let first = seq![u[0]];
        let rest = u.skip(1);
        assert(first + rest =~= u);
        lemma_bits_of_units_concat(first, rest);
        lemma_units_bits_len(rest);
        assert(first.drop_last() =~= Seq::<u16>::empty());
        assert(bits_of_units(first.drop_last()) =~= Seq::<bool>::empty());
        assert(bits_of_units(first) == bits_of_units(first.drop_last()) + bits_of(
            u[0] as nat,
            16,
        ));
        assert(bits_of_units(first) =~= bits_of(u[0] as nat, 16));
        lemma_bits_len(u[0] as nat, 16);
        lemma_two_to();
        lemma_bits_value(u[0] as nat, 16);
        assert(b.take(16) =~= bits_of(u[0] as nat, 16)) by {
            assert forall|i: int| 0 <= i < 16 implies b.take(16)[i] == bits_of(u[0] as nat, 16)[i] by {
                assert(b.take(16 * u.len() as int)[i] == bits_of_units(u)[i]);
            }
        }
        assert(b.skip(16).take(16 * rest.len() as int) =~= bits_of_units(rest)) by {
            assert forall|i: int| 0 <= i < 16 * rest.len() implies b.skip(16).take(
                16 * rest.len() as int,
            )[i] == bits_of_units(rest)[i] by {
                assert(b.take(16 * u.len() as int)[i + 16] == bits_of_units(u)[i + 16]);
            }
        }
        lemma_units_read_back(rest, b.skip(16));
        assert(seq![u[0]] + rest =~= u);
    }
}

proof fn lemma_units_of_text_head(s: Seq<char>)
    requires
        s.len() > 0,
    ensures
        units_of_text(s) == units_of_char(s[0]) + units_of_text(s.skip(1)),
    decreases s.len(),
{
    if s.len() == 1 {
        assert(s.drop_last() =~= Seq::<char>::empty());
        assert(s.skip(1) =~= Seq::<char>::empty());
        assert(units_of_text(s) =~= units_of_char(s[0]) + units_of_text(s.skip(1)));
    } else {
        lemma_units_of_text_head(s.drop_last());
        assert(s.drop_last().skip(1) =~= s.skip(1).drop_last());
        assert(units_of_char(s[0]) + units_of_text(s.skip(1).drop_last()) + units_of_char(s.last())
            =~= units_of_char(s[0]) + units_of_text(s.skip(1)));
    }
}

proof fn lemma_text_reads_back(s: Seq<char>)
    ensures
        text_of_units(units_of_text(s)) == Some(s),
        units_of_text(s).len() >= s.len(),
    decreases s.len(),
{
    if s.len() == 0 {
        assert(s =~= Seq::<char>::empty());
    } else {
        let u = units_of_text(s);
        let c = s[0];
        let n = c as u32;
        vstd::utf8::char_is_scalar(c);
        lemma_units_of_text_head(s);
        lemma_text_reads_back(s.skip(1));
        assert(seq![c] + s.skip(1) =~= s);
        if n < 0x10000 {
            assert(u.skip(1) =~= units_of_text(s.skip(1)));
            assert(u[0] as u32 == n);
            vstd::utf8::char_u32_cast(c, n);
        } else {
            assert(u.skip(2) =~= units_of_text(s.skip(1)));
            assert(n <= 0x10ffff);
            let high = 0xd800 + (n - 0x10000) / 0x400;
            let low = 0xdc00 + (n - 0x10000) % 0x400;
            assert(u[0] as int == high && u[1] as int == low);
            assert(0x10000 + (high - 0xd800) * 0x400 + (low - 0xdc00) == n);
            vstd::utf8::char_u32_cast(c, n);
        }
    }
}

proof fn lemma_run_reads_back(s: Seq<char>)
    requires
        s.len() > 0,
    ensures
        ({
            let b = sextets(bits_of_units(units_of_text(s)));
            &&& section_text(b) == Ok::<Seq<char>, Seq<char>>(s)
            &&& b.len() >= 2 * s.len()
            &&& forall|i: int| 0 <= i < b.len() ==> b[i] != '-' && b[i] != '&'
        }),
{
    let u = units_of_text(s);
    let bits = bits_of_units(u);
    let b = sextets(bits);
    lemma_text_reads_back(s);
    lemma_units_bits_len(u);
    lemma_sextets_read_back(bits);
    lemma_units_read_back(u, bits_of_sextets(b));
    lemma_first_foreign(b, b.len() as int);
}

/// Whatever a mailbox is called, its encoded name decodes to that name.
pub proof fn encoded_names_decode_to_themselves(s: Seq<char>)
    ensures
        decoded(encoded(s)) == Ok::<Seq<char>, Seq<char>>(s),
    decreases s.len(),
{
    let e = encoded(s);
    if s.len() == 0 {
        assert(s =~= Seq::<char>::empty());
    } else if s[0] == '&' {
        encoded_names_decode_to_themselves(s.skip(1));
        assert(e.skip(2) =~= encoded(s.skip(1)));
        assert(seq!['&'] + s.skip(1) =~= s);
    } else if is_printable(s[0]) {
        encoded_names_decode_to_themselves(s.skip(1));
        assert(e.skip(1) =~= encoded(s.skip(1)));
        assert(seq![s[0]] + s.skip(1) =~= s);
    } else {
        let k = run_length(s);
        lemma_run_bounds(s);
        let b = sextets(bits_of_units(units_of_text(s.take(k))));
        lemma_run_reads_back(s.take(k));
        encoded_names_decode_to_themselves(s.skip(k));
        let tail = encoded(s.skip(k));
        let rest = e.skip(1);
        assert(rest =~= b + seq!['-'] + tail);
        assert(e[1] == b[0]);
        assert forall|i: int| 0 <= i < b.len() implies rest[i] != '-' by {
            assert(rest[i] == b[i]);
        }
        assert(rest[b.len() as int] == '-');
        text::lemma_first_index(rest, '-', b.len() as int);
        assert(rest.take(b.len() as int) =~= b);
        assert(rest.skip(b.len() as int + 1) =~= tail);
        assert(s.take(k) + s.skip(k) =~= s);
    }
}

/// A name without `&` decodes to itself: raw UTF-8 names survive decoding.
pub proof fn names_without_ampersand_decode_to_themselves(s: Seq<char>)
    requires
        !s.contains('&'),
    ensures
        decoded(s) == Ok::<Seq<char>, Seq<char>>(s),
    decreases s.len(),
{
    if s.len() == 0 {
        assert(s =~= Seq::<char>::empty());
    } else {
        assert(s[0] != '&');
        assert(!s.skip(1).contains('&')) by {
            if s.skip(1).contains('&') {
                let k = choose|k: int| 0 <= k < s.skip(1).len() && s.skip(1)[k] == '&';
                assert(s[k + 1] == '&');
            }
        }
        names_without_ampersand_decode_to_themselves(s.skip(1));
        assert(seq![s[0]] + s.skip(1) =~= s);
    }
}

/// Whether a name is printable ASCII without `&`.
pub open spec fn is_plain(s: Seq<char>) -> bool {
    forall|i: int| 0 <= i < s.len() ==> is_printable(#[trigger] s[i]) && s[i] != '&'
}

/// The encoding changes a name unless the name is printable ASCII without
/// `&`: only then is there no second encoding to try.
pub proof fn only_plain_names_have_one_encoding(s: Seq<char>)
    ensures
        encoded(s) == s <==> is_plain(s),
        encoded(s).len() >= s.len(),
        encoded(s).len() == s.len() <==> is_plain(s),
    decreases s.len(),
{
    if s.len() == 0 {
        assert(encoded(s) =~= s);
    } else if s[0] == '&' {
        only_plain_names_have_one_encoding(s.skip(1));
    } else if is_printable(s[0]) {
        let d = s.skip(1);
        only_plain_names_have_one_encoding(d);
        if is_plain(d) {
            assert(seq![s[0]] + d =~= s);
            assert forall|i: int| 0 <= i < s.len() implies is_printable(#[trigger] s[i]) && s[i]
                != '&' by {
                if i > 0 {
                    assert(d[i - 1] == s[i]);
                }
            }
        } else {
            let k = choose|k: int| 0 <= k < d.len() && !(is_printable(#[trigger] d[k]) && d[k] != '&');
            assert(s[k + 1] == d[k]);
        }
    } else {
        let k = run_length(s);
        lemma_run_bounds(s);
        lemma_run_reads_back(s.take(k));
        only_plain_names_have_one_encoding(s.skip(k));
        assert(!is_printable(s[0]));
    }
}

} // verus!
