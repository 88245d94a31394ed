//! Text as a sequence of characters: trimming, case folding, searching,
//! splitting and decimal numbers.

use vstd::prelude::*;

verus! {

/// `String::push` appends one character at the end of the string.
pub assume_specification[ String::push ](s: &mut String, c: char)
    ensures
        final(s)@ == old(s)@.push(c),
;

/// Whether two texts hold the same characters.
pub fn same(a: &str, b: &str) -> (r: bool)
    ensures
        r == (a@ == b@),
{
    a.to_owned() == b.to_owned()
}

/// The characters of a text, in order.
pub fn chars_of(s: &str) -> (v: Vec<char>)
    ensures
        v@ == s@,
{
    let mut v: Vec<char> = Vec::new();
    for c in it: s.chars()
        invariant
            it.seq() == s@,
            v@ == s@.take(it.index() as int),
    {
        v.push(c);
        assert(v@ == s@.take(it.index() as int + 1));
    }
    assert(v@ == s@);
    v
}

/// The text made of `v[from..to]`.
pub fn string_of(v: &Vec<char>, from: usize, to: usize) -> (s: String)
    requires
        from <= to <= v@.len(),
    ensures
        s@ == v@.subrange(from as int, to as int),
{
    let mut s: String = String::new();
    let mut i: usize = from;
    while i < to
        invariant
            from <= i <= to <= v@.len(),
            s@ == v@.subrange(from as int, i as int),
        decreases to - i,
    {
        s.push(v[i]);
        i = i + 1;
        assert(s@ == v@.subrange(from as int, i as int));
    }
    s
}

/// The two texts one after the other.
pub fn joined(a: &str, b: &str) -> (r: String)
    ensures
        r@ == a@ + b@,
{
    let mut s: String = a.to_owned();
    s.append(b);
    s
}

/// Whether a character has the Unicode property White_Space.
pub open spec fn is_white(c: char) -> bool {
    ||| 0x09 <= c as u32 <= 0x0d
    ||| c as u32 == 0x20
    ||| c as u32 == 0x85
    ||| c as u32 == 0xa0
    ||| c as u32 == 0x1680
    ||| 0x2000 <= c as u32 <= 0x200a
    ||| c as u32 == 0x2028
    ||| c as u32 == 0x2029
    ||| c as u32 == 0x202f
    ||| c as u32 == 0x205f
    ||| c as u32 == 0x3000
}

pub fn white(c: char) -> (r: bool)
    ensures
        r == is_white(c),
{
    let n: u32 = c as u32;
    (n >= 0x09 && n <= 0x0d) || n == 0x20 || n == 0x85 || n == 0xa0 || n == 0x1680 || (n >= 0x2000
        && n <= 0x200a) || n == 0x2028 || n == 0x2029 || n == 0x202f || n == 0x205f || n == 0x3000
}

/// A text without its leading white space.
pub open spec fn trim_start(s: Seq<char>) -> Seq<char>
    decreases s.len(),
{
    if s.len() > 0 && is_white(s[0]) {
        trim_start(s.drop_first())
    } else {
        s
    }
}

/// A text without its trailing white space.
pub open spec fn trim_end(s: Seq<char>) -> Seq<char>
    decreases s.len(),
{
    if s.len() > 0 && is_white(s.last()) {
        trim_end(s.drop_last())
    } else {
        s
    }
}

/// A text without the white space at either end.
pub open spec fn trimmed(s: Seq<char>) -> Seq<char> {
    trim_end(trim_start(s))
}

/// Whether a text stands somewhere in another.
pub open spec fn is_part(a: Seq<char>, s: Seq<char>) -> bool {
    exists|i: int, j: int| 0 <= i <= j <= s.len() && a == #[trigger] s.subrange(i, j)
}

/// A part of a part is a part.
pub proof fn lemma_part_of_part(a: Seq<char>, b: Seq<char>, s: Seq<char>)
    requires
        is_part(a, b),
        is_part(b, s),
    ensures
        is_part(a, s),
{
    let (i, j) = choose|i: int, j: int| 0 <= i <= j <= b.len() && a == #[trigger] b.subrange(i, j);
    let (k, l) = choose|k: int, l: int| 0 <= k <= l <= s.len() && b == #[trigger] s.subrange(k, l);
    assert(a =~= s.subrange(k + i, k + j));
}

proof fn lemma_trim_start_is_part(s: Seq<char>)
    ensures
        is_part(trim_start(s), s),
    decreases s.len(),
{
    if s.len() > 0 && is_white(s[0]) {
        lemma_trim_start_is_part(s.drop_first());
        assert(s.drop_first() =~= s.subrange(1, s.len() as int));
        lemma_part_of_part(trim_start(s), s.drop_first(), s);
    } else {
        assert(s =~= s.subrange(0, s.len() as int));
    }
}

proof fn lemma_trim_end_is_part(s: Seq<char>)
    ensures
        is_part(trim_end(s), s),
    decreases s.len(),
{
    if s.len() > 0 && is_white(s.last()) {
        lemma_trim_end_is_part(s.drop_last());
        assert(s.drop_last() =~= s.subrange(0, s.len() - 1));
        lemma_part_of_part(trim_end(s), s.drop_last(), s);
    } else {
        assert(s =~= s.subrange(0, s.len() as int));
    }
}

/// What is left of a text without the white space around it is a part of it.
pub proof fn lemma_trimmed_is_part(s: Seq<char>)
    ensures
        is_part(trimmed(s), s),
{
    lemma_trim_start_is_part(s);
    lemma_trim_end_is_part(trim_start(s));
    lemma_part_of_part(trimmed(s), trim_start(s), s);
}

proof fn lemma_trim_start(s: Seq<char>, i: int)
    requires
        0 <= i <= s.len(),
        forall|k: int| 0 <= k < i ==> is_white(s[k]),
        i < s.len() ==> !is_white(s[i]),
    ensures
        trim_start(s) == s.subrange(i, s.len() as int),
    decreases s.len(),
{
    if i == 0 {
        assert(s == s.subrange(0, s.len() as int));
    } else {
        assert(forall|k: int| 0 <= k < i - 1 ==> s.drop_first()[k] == s[k + 1]);
        lemma_trim_start(s.drop_first(), i - 1);
        assert(s.drop_first().subrange(i - 1, s.len() - 1) == s.subrange(i, s.len() as int));
    }
}

proof fn lemma_trim_end(s: Seq<char>, j: int)
    requires
        0 <= j <= s.len(),
        forall|k: int| j <= k < s.len() ==> is_white(s[k]),
        j > 0 ==> !is_white(s[j - 1]),
    ensures
        trim_end(s) == s.subrange(0, j),
    decreases s.len(),
{
    if j == s.len() {
        assert(s == s.subrange(0, j));
    } else {
        lemma_trim_end(s.drop_last(), j);
        assert(s.drop_last().subrange(0, j) == s.subrange(0, j));
    }
}

/// Removes white space at either end.
pub fn trim(s: &str) -> (r: String)
    ensures
        r@ == trimmed(s@),
{
    let v: Vec<char> = chars_of(s);
    let mut i: usize = 0;
    while i < v.len() && white(v[i])
        invariant
            i <= v@.len(),
            forall|k: int| 0 <= k < i ==> is_white(v@[k]),
        decreases v@.len() - i,
    {
        i = i + 1;
    }
    let mut j: usize = v.len();
    while j > i && white(v[j - 1])
        invariant
            i <= j <= v@.len(),
            forall|k: int| j <= k < v@.len() ==> is_white(v@[k]),
        decreases j,
    {
        j = j - 1;
    }
    proof {
        lemma_trim_start(v@, i as int);
        let t = v@.subrange(i as int, v@.len() as int);
        assert forall|k: int| j - i <= k < t.len() implies is_white(t[k]) by {
            assert(t[k] == v@[k + i]);
        }
        lemma_trim_end(t, j - i);
        assert(t.subrange(0, j - i) == v@.subrange(i as int, j as int));
    }
    string_of(&v, i, j)
}

/// Whether a text holds nothing but white space.
pub fn is_blank(s: &str) -> (r: bool)
    ensures
        r == (trimmed(s@).len() == 0),
{
    trim(s).as_str().is_empty()
}

/// The ASCII lower case of a character.
pub open spec fn lower(c: char) -> char {
    if 'A' <= c <= 'Z' {
        (c as u8 + 32) as char
    } else {
        c
    }
}

pub open spec fn lowered(s: Seq<char>) -> Seq<char> {
    Seq::new(s.len(), |i: int| lower(s[i]))
}

pub fn lower_char(c: char) -> (r: char)
    ensures
        r == lower(c),
{
    if c >= 'A' && c <= 'Z' {
        ((c as u8) + 32) as char
    } else {
        c
    }
}

/// Replaces ASCII capitals by small letters and leaves the rest.
pub fn to_lower(s: &str) -> (r: String)
    ensures
        r@ == lowered(s@),
{
    let v: Vec<char> = chars_of(s);
    let mut r: String = String::new();
    let mut i: usize = 0;
    while i < v.len()
        invariant
            i <= v@.len(),
            r@ == lowered(v@).take(i as int),
        decreases v@.len() - i,
    {
        r.push(lower_char(v[i]));
        i = i + 1;
        assert(r@ == lowered(v@).take(i as int));
    }
    assert(r@ == lowered(v@));
    r
}

/// Whether two texts are the same but for the case of ASCII letters.
pub fn same_ignoring_case(a: &str, b: &str) -> (r: bool)
    ensures
        r == (lowered(a@) == lowered(b@)),
{
    let x: String = to_lower(a);
    let y: String = to_lower(b);
    same(x.as_str(), y.as_str())
}

pub open spec fn is_digit(c: char) -> bool {
    '0' <= c <= '9'
}

pub open spec fn all_digits(s: Seq<char>) -> bool {
    forall|i: int| 0 <= i < s.len() ==> is_digit(#[trigger] s[i])
}

pub fn digit(c: char) -> (r: bool)
    ensures
        r == is_digit(c),
{
    c >= '0' && c <= '9'
}

/// The number that a sequence of decimal digits denotes.
pub open spec fn digits_value(s: Seq<char>) -> nat
    decreases s.len(),
{
    if s.len() == 0 {
        0
    } else {
        digits_value(s.drop_last()) * 10 + (s.last() as u32 - '0' as u32) as nat
    }
}

/// The character for one decimal digit.
pub open spec fn digit_char(n: nat) -> char {
    (48 + n) as char
}

/// A number in decimal, without leading zeros.
pub open spec fn dec(n: nat) -> Seq<char>
    decreases n,
{
    if n < 10 {
        seq![digit_char(n)]
    } else {
        dec(n / 10).push(digit_char(n % 10))
    }
}

pub fn digit_of(n: u8) -> (c: char)
    requires
        n < 10,
    ensures
        c == digit_char(n as nat),
{
    (48 + n) as char
}

/// Writes a number in decimal.
pub fn decimal(n: u64) -> (s: String)
    ensures
        s@ == dec(n as nat),
{
    wide_decimal(n as u128)
}

/// Writes the number that follows `n` in decimal.
pub fn ordinal(n: usize) -> (s: String)
    ensures
        s@ == dec(n as nat + 1),
{
    wide_decimal(n as u128 + 1)
}

/// Writes a number of up to 128 bits in decimal.
pub fn wide_decimal(n: u128) -> (s: String)
    ensures
        s@ == dec(n as nat),
    decreases n,
{
    if n < 10 {
        let mut s: String = String::new();
        s.push(digit_of(n as u8));
        assert(s@ == seq![digit_char(n as nat)]);
        s
    } else {
        let mut s: String = wide_decimal(n / 10);
        s.push(digit_of((n % 10) as u8));
        s
    }
}

/// A signed number in decimal.
pub open spec fn signed_dec(n: int) -> Seq<char> {
    if n < 0 {
        seq!['-'] + dec((-n) as nat)
    } else {
        dec(n as nat)
    }
}

/// Writes a signed number in decimal.
pub fn signed_decimal(n: i64) -> (s: String)
    ensures
        s@ == signed_dec(n as int),
{
    if n < 0 {
        let m: u64 = (0 - (n as i128)) as u64;
        let d: String = decimal(m);
        proof {
            reveal_strlit("-");
            assert("-"@ == seq!['-']);
        }
        joined("-", d.as_str())
    } else {
        decimal(n as u64)
    }
}

/// A number in decimal, filled with zeros on the left up to `width`
/// characters.
pub open spec fn padded(n: nat, width: nat) -> Seq<char>
    decreases width,
{
    if width == 0 || dec(n).len() >= width {
        dec(n)
    } else if dec(n).len() + 1 == width {
        seq!['0'] + dec(n)
    } else {
        seq!['0'] + padded(n, (width - 1) as nat)
    }
}

/// Writes a number in decimal with at least `width` digits.
pub fn zero_padded(n: u64, width: usize) -> (s: String)
    ensures
        s@ == padded(n as nat, width as nat),
    decreases width,
{
    let d: String = decimal(n);
    let len: usize = d.as_str().unicode_len();
    if width == 0 || len >= width {
        return d;
    }
    proof {
        reveal_strlit("0");
        assert("0"@ == seq!['0']);
    }
    if len == width - 1 {
        joined("0", d.as_str())
    } else {
        let rest: String = zero_padded(n, width - 1);
        joined("0", rest.as_str())
    }
}

/// The value of a text of decimal digits with an optional plus sign, if it
/// is at most `max`.
pub open spec fn parsed_unsigned(s: Seq<char>, max: nat) -> Option<nat> {
    let d = if s.len() > 0 && s[0] == '+' { s.drop_first() } else { s };
    if d.len() > 0 && all_digits(d) && digits_value(d) <= max {
        Some(digits_value(d))
    } else {
        None
    }
}

proof fn lemma_digits_value_grows(s: Seq<char>, i: int)
    requires
        0 <= i <= s.len(),
        all_digits(s),
    ensures
        digits_value(s.take(i)) <= digits_value(s),
    decreases s.len(),
{
    if i == s.len() {
        assert(s.take(i) == s);
    } else {
        assert(s.drop_last().take(i) == s.take(i));
        lemma_digits_value_grows(s.drop_last(), i);
    }
}

/// The value of `v[from..to]` read as decimal digits, if it fits.
pub fn parse_digits(v: &Vec<char>, from: usize, to: usize, max: u64) -> (r: Option<u64>)
    requires
        from <= to <= v@.len(),
    ensures
        ({
            let d = v@.subrange(from as int, to as int);
            match r {
                Some(n) => d.len() > 0 && all_digits(d) && digits_value(d) <= max && n
                    == digits_value(d),
                None => !(d.len() > 0 && all_digits(d) && digits_value(d) <= max),
            }
        }),
{
    let ghost d = v@.subrange(from as int, to as int);
    if from == to {
        return None;
    }
    let mut j: usize = from;
    while j < to
        invariant
            from <= j <= to <= v@.len(),
            d == v@.subrange(from as int, to as int),
            forall|k: int| 0 <= k < j - from ==> is_digit(#[trigger] d[k]),
        decreases to - j,
    {
        if !digit(v[j]) {
            assert(d[j - from] == v@[j as int]);
            return None;
        }
        j = j + 1;
    }
    let mut n: u64 = 0;
    let mut i: usize = from;
    while i < to
        invariant
            from <= i <= to <= v@.len(),
            d == v@.subrange(from as int, to as int),
            all_digits(d),
            n == digits_value(d.take(i - from)),
            n <= max,
        decreases to - i,
    {
        assert(d[i - from] == v@[i as int]);
        assert(is_digit(d[i - from]));
        let x: u64 = (v[i] as u32 - '0' as u32) as u64;
        let wide: u128 = (n as u128) * 10 + (x as u128);
        proof {
            assert(d.take(i - from + 1).drop_last() == d.take(i - from));
            assert(digits_value(d.take(i - from + 1)) == wide as nat);
            lemma_digits_value_grows(d, i - from + 1);
        }
        if wide > max as u128 {
            return None;
        }
        n = wide as u64;
        i = i + 1;
    }
    assert(d.take(to - from) == d);
    Some(n)
}

/// Reads an unsigned decimal number of at most `max`, with an optional plus
/// sign.
pub fn parse_unsigned(s: &str, max: u64) -> (r: Option<u64>)
    ensures
        match r {
            Some(n) => parsed_unsigned(s@, max as nat) == Some(n as nat),
            None => parsed_unsigned(s@, max as nat) is None,
        },
{
    let v: Vec<char> = chars_of(s);
    if v.len() > 0 && v[0] == '+' {
        assert(v@.drop_first() == v@.subrange(1, v@.len() as int));
        parse_digits(&v, 1, v.len(), max)
    } else {
        assert(v@ == v@.subrange(0, v@.len() as int));
        parse_digits(&v, 0, v.len(), max)
    }
}

/// The value of a text of decimal digits with an optional sign, if it fits in
/// 64 bits.
pub open spec fn parsed_i64(s: Seq<char>) -> Option<int> {
    if s.len() > 0 && s[0] == '-' {
        let d = s.drop_first();
        if d.len() > 0 && all_digits(d) && digits_value(d) <= 0x8000_0000_0000_0000 {
            Some(-(digits_value(d) as int))
        } else {
            None
        }
    } else {
        match parsed_unsigned(s, i64::MAX as nat) {
            Some(n) => Some(n as int),
            None => None,
        }
    }
}

/// Reads a decimal number with an optional sign.
pub fn parse_i64(s: &str) -> (r: Option<i64>)
    ensures
        match r {
            Some(n) => parsed_i64(s@) == Some(n as int),
            None => parsed_i64(s@) is None,
        },
{
    let v: Vec<char> = chars_of(s);
    if v.len() > 0 && v[0] == '-' {
        assert(v@.drop_first() == v@.subrange(1, v@.len() as int));
        match parse_digits(&v, 1, v.len(), 0x8000_0000_0000_0000) {
            Some(n) => Some((0 - (n as i128)) as i64),
            None => None,
        }
    } else {
        match parse_unsigned(s, 0x7fff_ffff_ffff_ffff) {
            Some(n) => Some(n as i64),
            None => None,
        }
    }
}

proof fn lemma_dec_digits(n: nat)
    ensures
        dec(n).len() > 0,
        all_digits(dec(n)),
        digits_value(dec(n)) == n,
    decreases n,
{
    if n < 10 {
        assert(dec(n).drop_last() =~= Seq::<char>::empty());
        assert(digits_value(dec(n).drop_last()) == 0);
    } else {
        lemma_dec_digits(n / 10);
        assert(dec(n).drop_last() =~= dec(n / 10));
    }
}

/// Numbers are told apart by their decimals, which are digits with the number's
/// value.
pub proof fn decimals_tell_numbers_apart(a: nat, b: nat)
    ensures
        dec(a) == dec(b) ==> a == b,
        all_digits(dec(a)),
        dec(a).len() > 0,
        digits_value(dec(a)) == a,
{
    lemma_dec_digits(a);
    lemma_dec_digits(b);
}

/// A number written in decimal reads back as itself.
pub proof fn decimals_read_back(n: int)
    requires
        i64::MIN <= n <= i64::MAX,
    ensures
        parsed_i64(signed_dec(n)) == Some(n),
{
    if n < 0 {
        lemma_dec_digits((-n) as nat);
        assert(signed_dec(n).drop_first() =~= dec((-n) as nat));
    } else {
        lemma_dec_digits(n as nat);
        assert(is_digit(dec(n as nat)[0]));
    }
}

/// Whether `s` starts with `p`.
pub open spec fn has_prefix(s: Seq<char>, p: Seq<char>) -> bool {
    p.len() <= s.len() && s.subrange(0, p.len() as int) == p
}

/// Whether `s` ends with `p`.
pub open spec fn has_suffix(s: Seq<char>, p: Seq<char>) -> bool {
    p.len() <= s.len() && s.subrange(s.len() - p.len(), s.len() as int) == p
}

/// Whether `v[at..]` starts with `p`.
pub fn prefix_at(v: &Vec<char>, at: usize, p: &Vec<char>) -> (r: bool)
    requires
        at <= v@.len(),
    ensures
        r == has_prefix(v@.subrange(at as int, v@.len() as int), p@),
{
    let ghost t = v@.subrange(at as int, v@.len() as int);
    if p.len() > v.len() - at {
        return false;
    }
    let mut i: usize = 0;
    while i < p.len()
        invariant
            at + p.len() <= v.len(),
            i <= p@.len(),
            t == v@.subrange(at as int, v@.len() as int),
            forall|k: int| 0 <= k < i ==> t[k] == p@[k],
        decreases p@.len() - i,
    {
        if v[at + i] != p[i] {
            assert(t.subrange(0, p@.len() as int)[i as int] != p@[i as int]);
            return false;
        }
        i = i + 1;
    }
    assert(t.subrange(0, p@.len() as int) == p@);
    true
}

pub fn starts_with(s: &str, p: &str) -> (r: bool)
    ensures
        r == has_prefix(s@, p@),
{
    let v: Vec<char> = chars_of(s);
    let q: Vec<char> = chars_of(p);
    assert(v@ == v@.subrange(0, v@.len() as int));
    prefix_at(&v, 0, &q)
}

pub fn ends_with(s: &str, p: &str) -> (r: bool)
    ensures
        r == has_suffix(s@, p@),
{
    let v: Vec<char> = chars_of(s);
    let q: Vec<char> = chars_of(p);
    if q.len() > v.len() {
        return false;
    }
    let at: usize = v.len() - q.len();
    let ghost t = v@.subrange(at as int, v@.len() as int);
    assert(t.subrange(0, q@.len() as int) == t);
    prefix_at(&v, at, &q)
}

/// What follows the prefix `p` of `s`, if `s` has it.
pub fn after_prefix(s: &str, p: &str) -> (r: Option<String>)
    ensures
        match r {
            Some(t) => has_prefix(s@, p@) && t@ == s@.subrange(p@.len() as int, s@.len() as int),
            None => !has_prefix(s@, p@),
        },
{
    let v: Vec<char> = chars_of(s);
    let q: Vec<char> = chars_of(p);
    assert(v@ == v@.subrange(0, v@.len() as int));
    if prefix_at(&v, 0, &q) {
        Some(string_of(&v, q.len(), v.len()))
    } else {
        None
    }
}

/// Where `c` first stands in `s`; the length of `s` if it stands nowhere.
pub open spec fn first_index(s: Seq<char>, c: char) -> int
    decreases s.len(),
{
    if s.len() == 0 || s[0] == c {
        0
    } else {
        1 + first_index(s.drop_first(), c)
    }
}

pub proof fn lemma_first_index(s: Seq<char>, c: char, i: int)
    requires
        0 <= i <= s.len(),
        forall|k: int| 0 <= k < i ==> s[k] != c,
        i < s.len() ==> s[i] == c,
    ensures
        first_index(s, c) == i,
    decreases s.len(),
{
    if i > 0 {
        assert(forall|k: int| 0 <= k < i - 1 ==> s.drop_first()[k] == s[k + 1]);
        lemma_first_index(s.drop_first(), c, i - 1);
    }
}

/// Finds the first `c` in `v`.
pub fn find_char(v: &Vec<char>, c: char) -> (r: usize)
    ensures
        r <= v@.len(),
        r == first_index(v@, c),
        forall|k: int| 0 <= k < r ==> v@[k] != c,
        r < v@.len() ==> v@[r as int] == c,
{
    let mut i: usize = 0;
    while i < v.len() && v[i] != c
        invariant
            i <= v@.len(),
            forall|k: int| 0 <= k < i ==> v@[k] != c,
        decreases v@.len() - i,
    {
        i = i + 1;
    }
    proof {
        lemma_first_index(v@, c, i as int);
    }
    i
}

pub fn contains_char(s: &str, c: char) -> (r: bool)
    ensures
        r == s@.contains(c),
{
    let v: Vec<char> = chars_of(s);
    let i: usize = find_char(&v, c);
    i < v.len()
}

/// The texts joined by a separator.
pub open spec fn join(parts: Seq<Seq<char>>, sep: Seq<char>) -> Seq<char>
    decreases parts.len(),
{
    if parts.len() == 0 {
        Seq::empty()
    } else if parts.len() == 1 {
        parts[0]
    } else {
        join(parts.drop_last(), sep) + sep + parts.last()
    }
}

/// The characters of each of several texts.
pub open spec fn texts(v: Seq<String>) -> Seq<Seq<char>> {
    Seq::new(v.len(), |i: int| v[i]@)
}

/// Joins texts by a separator.
pub fn join_texts(parts: &Vec<String>, sep: &str) -> (r: String)
    ensures
        r@ == join(texts(parts@), sep@),
{
    let mut r: String = String::new();
    let mut i: usize = 0;
    while i < parts.len()
        invariant
            i <= parts@.len(),
            r@ == join(texts(parts@).take(i as int), sep@),
        decreases parts@.len() - i,
    {
        proof {
            let t = texts(parts@).take(i as int + 1);
            assert(t.drop_last() == texts(parts@).take(i as int));
            assert(t.last() == parts@[i as int]@);
            if i == 0 {
                assert(r@ + parts@[0]@ == parts@[0]@);
            }
        }
        if i > 0 {
            r.append(sep);
        }
        r.append(parts[i].as_str());
        i = i + 1;
    }
    assert(texts(parts@).take(i as int) == texts(parts@));
    r
}

/// A text added to texts, unless it is there.
pub open spec fn with_text(list: Seq<Seq<char>>, t: Seq<char>) -> Seq<Seq<char>> {
    if list.contains(t) {
        list
    } else {
        list.push(t)
    }
}

/// Whether a text stands in a list.
pub fn has_text(list: &Vec<String>, t: &str) -> (r: bool)
    ensures
        r == texts(list@).contains(t@),
{
    let mut i: usize = 0;
    while i < list.len()
        invariant
            i <= list@.len(),
            forall|k: int| 0 <= k < i ==> texts(list@)[k] != t@,
        decreases list@.len() - i,
    {
        if same(list[i].as_str(), t) {
            assert(texts(list@)[i as int] == t@);
            return true;
        }
        i = i + 1;
    }
    false
}

/// Adds a text to a list, unless it is there. Says whether it was added.
pub fn add_text(list: &mut Vec<String>, t: &str) -> (r: bool)
    ensures
        texts(final(list)@) == with_text(texts(old(list)@), t@),
        r == !texts(old(list)@).contains(t@),
{
    if has_text(list, t) {
        return false;
    }
    let ghost before = texts(list@);
    list.push(t.to_owned());
    assert(texts(list@) =~= before.push(t@));
    true
}

/// The pieces of a text between the occurrences of `c`: one more than there
/// are occurrences.
pub open spec fn split_by(s: Seq<char>, c: char) -> Seq<Seq<char>>
    decreases s.len(),
{
    let i = first_index(s, c);
    if 0 <= i < s.len() {
        seq![s.take(i)] + split_by(s.skip(i + 1), c)
    } else {
        seq![s]
    }
}

pub proof fn lemma_first_index_bounds(s: Seq<char>, c: char)
    ensures
        0 <= first_index(s, c) <= s.len(),
        first_index(s, c) < s.len() <==> s.contains(c),
        first_index(s, c) < s.len() ==> s[first_index(s, c)] == c,
        forall|k: int| 0 <= k < first_index(s, c) ==> s[k] != c,
    decreases s.len(),
{
    if s.len() > 0 && s[0] != c {
        let d = s.drop_first();
        lemma_first_index_bounds(d, c);
        let i = first_index(d, c);
        if i < d.len() {
            assert(s[i + 1] == c);
        }
        assert forall|k: int| 0 <= k < i + 1 implies s[k] != c by {
            if k > 0 {
                assert(d[k - 1] == s[k]);
            }
        }
        if s.contains(c) {
            let k = choose|k: int| 0 <= k < s.len() && s[k] == c;
            assert(d[k - 1] == c);
        }
    } else if s.len() > 0 {
        assert(s[0] == c);
    }
}

/// Splits a text at every `c`.
pub fn split(s: &str, c: char) -> (r: Vec<String>)
    ensures
        texts(r@) == split_by(s@, c),
        r@.len() >= 1,
{
    let v: Vec<char> = chars_of(s);
    let mut r: Vec<String> = Vec::new();
    let mut start: usize = 0;
    let mut i: usize = 0;
    proof {
        assert(v@.skip(0) == s@);
        assert(texts(r@) + split_by(s@, c) =~= split_by(s@, c));
    }
    while i < v.len()
        invariant
            start <= i <= v@.len(),
            v@ == s@,
            forall|k: int| start <= k < i ==> v@[k] != c,
            texts(r@) + split_by(v@.skip(start as int), c) == split_by(s@, c),
        decreases v@.len() - i,
    {
        if v[i] == c {
            proof {
                let t = v@.skip(start as int);
                lemma_first_index(t, c, i - start);
                assert(t.take(i - start) == v@.subrange(start as int, i as int));
                assert(t.skip(i - start + 1) == v@.skip(i as int + 1));
            }
            let ghost before = texts(r@);
            let piece: String = string_of(&v, start, i);
            r.push(piece);
            proof {
                let t = v@.skip(start as int);
                assert(texts(r@) == before + seq![t.take(i - start)]);
                assert(before + (seq![t.take(i - start)] + split_by(t.skip(i - start + 1), c))
                    == texts(r@) + split_by(v@.skip(i as int + 1), c));
            }
            start = i + 1;
        }
        i = i + 1;
    }
    proof {
        let t = v@.skip(start as int);
        lemma_first_index(t, c, t.len() as int);
        assert(t == v@.subrange(start as int, v@.len() as int));
    }
    let ghost before = texts(r@);
    let piece: String = string_of(&v, start, v.len());
    r.push(piece);
    assert(texts(r@) == before + seq![v@.skip(start as int)]);
    r
}

/// Whether a character is an ASCII letter.
pub open spec fn is_alpha(c: char) -> bool {
    'a' <= c <= 'z' || 'A' <= c <= 'Z'
}

/// Whether a character is an ASCII letter or digit.
pub open spec fn is_alnum(c: char) -> bool {
    is_alpha(c) || is_digit(c)
}

pub fn alpha(c: char) -> (r: bool)
    ensures
        r == is_alpha(c),
{
    (c >= 'a' && c <= 'z') || (c >= 'A' && c <= 'Z')
}

pub fn alnum(c: char) -> (r: bool)
    ensures
        r == is_alnum(c),
{
    alpha(c) || digit(c)
}

/// Where `c` last stands in `s`; -1 if it stands nowhere.
pub open spec fn last_index(s: Seq<char>, c: char) -> int
    decreases s.len(),
{
    if s.len() == 0 {
        -1
    } else if s.last() == c {
        s.len() - 1
    } else {
        last_index(s.drop_last(), c)
    }
}

/// Finds the last `c` in `v`.
pub fn find_last_char(v: &Vec<char>, c: char) -> (r: Option<usize>)
    ensures
        match r {
            Some(i) => i < v@.len() && i == last_index(v@, c) && v@[i as int] == c,
            None => last_index(v@, c) == -1,
        },
{
    let mut n: usize = v.len();
    assert(v@ == v@.take(n as int));
    while n > 0
        invariant
            n <= v@.len(),
            last_index(v@, c) == last_index(v@.take(n as int), c),
        decreases n,
    {
        assert(v@.take(n as int).drop_last() == v@.take(n as int - 1));
        if v[n - 1] == c {
            return Some(n - 1);
        }
        n = n - 1;
    }
    None
}

/// How many bytes a character takes in UTF-8.
pub open spec fn char_bytes(c: char) -> nat {
    if (c as u32) < 0x80 {
        1
    } else if (c as u32) < 0x800 {
        2
    } else if (c as u32) < 0x10000 {
        3
    } else {
        4
    }
}

/// How many bytes a text takes in UTF-8.
pub open spec fn byte_len(s: Seq<char>) -> nat
    decreases s.len(),
{
    if s.len() == 0 {
        0
    } else {
        byte_len(s.drop_last()) + char_bytes(s.last())
    }
}

pub fn bytes_of_char(c: char) -> (n: usize)
    ensures
        n == char_bytes(c),
        1 <= n <= 4,
{
    let u: u32 = c as u32;
    if u < 0x80 {
        1
    } else if u < 0x800 {
        2
    } else if u < 0x10000 {
        3
    } else {
        4
    }
}

/// Whether a text takes at most `max` bytes in UTF-8.
pub fn byte_len_at_most(v: &Vec<char>, max: usize) -> (r: bool)
    requires
        max <= usize::MAX - 4,
    ensures
        r == (byte_len(v@) <= max),
{
    let mut i: usize = 0;
    let mut n: usize = 0;
    while i < v.len()
        invariant
            i <= v@.len(),
            n == byte_len(v@.take(i as int)),
            n <= max <= usize::MAX - 4,
        decreases v@.len() - i,
    {
        proof {
            assert(v@.take(i as int + 1).drop_last() == v@.take(i as int));
            lemma_byte_len_grows(v@, i as int + 1);
        }
        n = n + bytes_of_char(v[i]);
        i = i + 1;
        if n > max {
            return false;
        }
    }
    assert(v@.take(i as int) == v@);
    true
}

pub proof fn lemma_byte_len_grows(s: Seq<char>, i: int)
    requires
        0 <= i <= s.len(),
    ensures
        byte_len(s.take(i)) <= byte_len(s),
    decreases s.len(),
{
    if i == s.len() {
        assert(s.take(i) == s);
    } else {
        assert(s.drop_last().take(i) == s.take(i));
        lemma_byte_len_grows(s.drop_last(), i);
    }
}

/// Whether a text does not come after another, character by character.
pub open spec fn not_after(a: Seq<char>, b: Seq<char>) -> bool
    decreases a.len(),
{
    if a.len() == 0 {
        true
    } else if b.len() == 0 {
        false
    } else if a[0] != b[0] {
        a[0] < b[0]
    } else {
        not_after(a.skip(1), b.skip(1))
    }
}

/// Compares two texts, character by character.
pub fn at_most(a: &str, b: &str) -> (r: bool)
    ensures
        r == not_after(a@, b@),
{
    let x: Vec<char> = chars_of(a);
    let y: Vec<char> = chars_of(b);
    let mut i: usize = 0;
    assert(x@.skip(0) =~= a@);
    assert(y@.skip(0) =~= b@);
    while i < x.len() && i < y.len() && x[i] == y[i]
        invariant
            i <= x@.len(),
            i <= y@.len(),
            not_after(x@.skip(i as int), y@.skip(i as int)) == not_after(a@, b@),
        decreases x@.len() - i,
    {
        proof {
            assert(x@.skip(i as int).skip(1) =~= x@.skip(i as int + 1));
            assert(y@.skip(i as int).skip(1) =~= y@.skip(i as int + 1));
        }
        i = i + 1;
    }
    if i == x.len() {
        true
    } else if i == y.len() {
        false
    } else {
        x[i] < y[i]
    }
}

/// A text put into an ordered list of texts, behind those that do not come
/// after it.
pub open spec fn put_in_order(list: Seq<Seq<char>>, t: Seq<char>) -> Seq<Seq<char>>
    decreases list.len(),
{
    if list.len() == 0 || not_after(list.last(), t) {
        list.push(t)
    } else {
        put_in_order(list.drop_last(), t).push(list.last())
    }
}

/// The texts of a list, in order.
pub open spec fn in_order(list: Seq<Seq<char>>) -> Seq<Seq<char>>
    decreases list.len(),
{
    if list.len() == 0 {
        list
    } else {
        put_in_order(in_order(list.drop_last()), list.last())
    }
}

fn insert_in_order(list: &mut Vec<String>, t: String)
    ensures
        texts(final(list)@) == put_in_order(texts(old(list)@), t@),
{
    let ghost before = list@;
    let mut at: usize = list.len();
    let ghost all = texts(before);
    proof {
        assert(all.take(at as int) =~= all);
        assert(put_in_order(all, t@) + all.skip(at as int) =~= put_in_order(all, t@));
    }
    while at > 0 && !at_most(list[at - 1].as_str(), t.as_str())
        invariant
            at <= list@.len(),
            list@ == before,
            all == texts(before),
            put_in_order(all, t@) == put_in_order(all.take(at as int), t@) + all.skip(at as int),
        decreases at,
    {
        proof {
            let head = all.take(at as int);
            assert(head.drop_last() =~= all.take(at - 1));
            assert(put_in_order(all.take(at - 1), t@).push(head.last()) + all.skip(at as int)
                =~= put_in_order(all.take(at - 1), t@) + all.skip(at - 1));
        }
        at = at - 1;
    }
    list.insert(at, t);
    proof {
        if at > 0 {
            assert(all.take(at as int).last() == before[at - 1]@);
        }
        assert(texts(list@) =~= all.take(at as int).push(t@) + all.skip(at as int));
    }
}

/// Puts texts in order.
pub fn sort_texts(list: &Vec<String>) -> (r: Vec<String>)
    ensures
        texts(r@) == in_order(texts(list@)),
        r@.len() == list@.len(),
{
    let mut r: Vec<String> = Vec::new();
    let mut i: usize = 0;
    let ghost all = texts(list@);
    assert(texts(r@) =~= in_order(all.take(0)));
    while i < list.len()
        invariant
            i <= list@.len(),
            all == texts(list@),
            texts(r@) == in_order(all.take(i as int)),
        decreases list@.len() - i,
    {
        proof {
            assert(all.take(i as int + 1).drop_last() =~= all.take(i as int));
        }
        insert_in_order(&mut r, list[i].clone());
        i = i + 1;
    }
    proof {
        assert(all.take(i as int) =~= all);
        lemma_order_keeps(all);
        assert(texts(r@).len() == all.len());
    }
    r
}

proof fn lemma_put_keeps(list: Seq<Seq<char>>, t: Seq<char>)
    ensures
        put_in_order(list, t).to_multiset() == list.to_multiset().insert(t),
        put_in_order(list, t).len() == list.len() + 1,
    decreases list.len(),
{
    broadcast use vstd::seq_lib::group_to_multiset_ensures;

    if list.len() == 0 || not_after(list.last(), t) {
    } else {
        lemma_put_keeps(list.drop_last(), t);
        assert(list.drop_last().push(list.last()) =~= list);
        assert(put_in_order(list, t).to_multiset() =~= list.to_multiset().insert(t));
    }
}

proof fn lemma_order_keeps(list: Seq<Seq<char>>)
    ensures
        in_order(list).to_multiset() == list.to_multiset(),
        in_order(list).len() == list.len(),
    decreases list.len(),
{
    broadcast use vstd::seq_lib::group_to_multiset_ensures;

    if list.len() > 0 {
        lemma_order_keeps(list.drop_last());
        lemma_put_keeps(in_order(list.drop_last()), list.last());
        assert(list.drop_last().push(list.last()) =~= list);
    }
}

proof fn lemma_order_total(a: Seq<char>, b: Seq<char>)
    ensures
        not_after(a, b) || not_after(b, a),
    decreases a.len(),
{
    if a.len() > 0 && b.len() > 0 && a[0] == b[0] {
        lemma_order_total(a.skip(1), b.skip(1));
    }
}

proof fn lemma_order_chains(a: Seq<char>, b: Seq<char>, c: Seq<char>)
    requires
        not_after(a, b),
        not_after(b, c),
    ensures
        not_after(a, c),
    decreases a.len(),
{
    if a.len() > 0 && b.len() > 0 && c.len() > 0 && a[0] == b[0] && b[0] == c[0] {
        lemma_order_chains(a.skip(1), b.skip(1), c.skip(1));
    }
}

/// Whether no text comes after one behind it.
pub open spec fn is_ordered(list: Seq<Seq<char>>) -> bool {
    forall|i: int, j: int| 0 <= i <= j < list.len() ==> not_after(#[trigger] list[i], #[trigger] list[j])
}

proof fn lemma_put_ordered(list: Seq<Seq<char>>, t: Seq<char>)
    requires
        is_ordered(list),
    ensures
        is_ordered(put_in_order(list, t)),
        forall|i: int|
            0 <= i < put_in_order(list, t).len() ==> (#[trigger] put_in_order(list, t)[i] == t
                || list.contains(put_in_order(list, t)[i])),
    decreases list.len(),
{
    let r = put_in_order(list, t);
    lemma_order_total(t, t);
    if list.len() == 0 || not_after(list.last(), t) {
        assert forall|i: int, j: int| 0 <= i <= j < r.len() implies not_after(
            #[trigger] r[i],
            #[trigger] r[j],
        ) by {
            if j == list.len() && i < j {
                assert(not_after(list[i], list.last()));
                lemma_order_chains(list[i], list.last(), t);
            }
        }
        assert forall|i: int| 0 <= i < r.len() implies (#[trigger] r[i] == t || list.contains(r[i])) by {
            if i < list.len() {
                assert(list[i] == r[i]);
            }
        }
    } else {
        let d = list.drop_last();
        assert(is_ordered(d)) by {
            assert forall|i: int, j: int| 0 <= i <= j < d.len() implies not_after(
                #[trigger] d[i],
                #[trigger] d[j],
            ) by {
                assert(not_after(list[i], list[j]));
            }
        }
        lemma_put_ordered(d, t);
        lemma_put_keeps(d, t);
        lemma_order_total(list.last(), t);
        let p = put_in_order(d, t);
        assert forall|i: int, j: int| 0 <= i <= j < r.len() implies not_after(
            #[trigger] r[i],
            #[trigger] r[j],
        ) by {
            if j == p.len() {
                if i < j {
                    assert(r[i] == p[i]);
                    if p[i] != t {
                        let k = choose|k: int| 0 <= k < d.len() && d[k] == p[i];
                        assert(list[k] == p[i]);
                        assert(not_after(list[k], list[list.len() - 1]));
                    }
                } else {
                    lemma_order_total(r[i], r[i]);
                }
            } else {
                assert(not_after(p[i], p[j]));
            }
        }
        assert forall|i: int| 0 <= i < r.len() implies (#[trigger] r[i] == t || list.contains(r[i])) by {
            if i < p.len() {
                assert(r[i] == p[i]);
                if p[i] != t {
                    let k = choose|k: int| 0 <= k < d.len() && d[k] == p[i];
                    assert(list[k] == p[i]);
                }
            } else {
                assert(list[list.len() - 1] == r[i]);
            }
        }
    }
}

/// Putting texts in order gives the same texts, none of them behind one that
/// comes after it.
pub proof fn ordering_is_ordered_and_loses_nothing(list: Seq<Seq<char>>)
    ensures
        is_ordered(in_order(list)),
        in_order(list).to_multiset() == list.to_multiset(),
    decreases list.len(),
{
    lemma_order_keeps(list);
    if list.len() > 0 {
        ordering_is_ordered_and_loses_nothing(list.drop_last());
        lemma_put_ordered(in_order(list.drop_last()), list.last());
    }
}

/// A text with every occurrence of `pat` replaced, from the left and without
/// overlap.
pub open spec fn replaced(s: Seq<char>, pat: Seq<char>, by: Seq<char>) -> Seq<char>
    decreases s.len(),
{
    if pat.len() == 0 || s.len() < pat.len() {
        s
    } else if has_prefix(s, pat) {
        by + replaced(s.skip(pat.len() as int), pat, by)
    } else {
        seq![s[0]] + replaced(s.skip(1), pat, by)
    }
}

/// Replaces every occurrence of `pat`.
pub fn replace(s: &str, pat: &str, by: &str) -> (r: String)
    ensures
        r@ == replaced(s@, pat@, by@),
{
    let v: Vec<char> = chars_of(s);
    let p: Vec<char> = chars_of(pat);
    if p.len() == 0 {
        return s.to_owned();
    }
    let mut r: String = String::new();
    let mut i: usize = 0;
    proof {
        assert(v@.skip(0) =~= s@);
        assert(r@ + replaced(s@, pat@, by@) =~= replaced(s@, pat@, by@));
    }
    while i < v.len() && v.len() - i >= p.len()
        invariant
            i <= v@.len(),
            p@ == pat@,
            p@.len() > 0,
            r@ + replaced(v@.skip(i as int), pat@, by@) == replaced(s@, pat@, by@),
        decreases v@.len() - i,
    {
        let ghost so_far = r@;
        let ghost rest = v@.skip(i as int);
        assert(rest =~= v@.subrange(i as int, v@.len() as int));
        if prefix_at(&v, i, &p) {
            r.append(by);
            i = i + p.len();
            proof {
                assert(rest.skip(pat@.len() as int) =~= v@.skip(i as int));
                assert(so_far + (by@ + replaced(v@.skip(i as int), pat@, by@)) =~= r@ + replaced(
                    v@.skip(i as int),
                    pat@,
                    by@,
                ));
            }
        } else {
            r.push(v[i]);
            i = i + 1;
            proof {
                assert(rest.skip(1) =~= v@.skip(i as int));
                assert(so_far + (seq![rest[0]] + replaced(v@.skip(i as int), pat@, by@)) =~= r@
                    + replaced(v@.skip(i as int), pat@, by@));
            }
        }
    }
    let tail: String = string_of(&v, i, v.len());
    assert(v@.skip(i as int) =~= v@.subrange(i as int, v@.len() as int));
    r.append(tail.as_str());
    r
}

/// A text without the `c`s at its end.
pub open spec fn without_end(s: Seq<char>, c: char) -> Seq<char>
    decreases s.len(),
{
    if s.len() > 0 && s.last() == c {
        without_end(s.drop_last(), c)
    } else {
        s
    }
}

/// Drops the `c`s at the end of a text.
pub fn drop_end(s: &str, c: char) -> (r: String)
    ensures
        r@ == without_end(s@, c),
{
    let v: Vec<char> = chars_of(s);
    let mut n: usize = v.len();
    assert(v@.take(n as int) =~= s@);
    while n > 0 && v[n - 1] == c
        invariant
            n <= v@.len(),
            without_end(v@.take(n as int), c) == without_end(s@, c),
        decreases n,
    {
        assert(v@.take(n as int).drop_last() =~= v@.take(n - 1));
        n = n - 1;
    }
    let r: String = string_of(&v, 0, n);
    assert(r@ =~= v@.take(n as int));
    r
}

/// A text in quotes, with escapes, as `std::fmt::Debug` writes it.
pub uninterp spec fn debug_text(s: Seq<char>) -> Seq<char>;

/// `std::fmt::Debug` of a text. What it writes depends on the text alone.
#[verifier::external_body]
pub(crate) fn quoted(s: &str) -> (r: String)
    ensures
        r@ == debug_text(s@),
{
    format!("{:?}", s)
}

} // verus!
