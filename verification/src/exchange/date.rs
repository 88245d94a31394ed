//! The end of a recurrence as Exchange writes it, turned into a local
//! date-time.

use crate::text;
use vstd::prelude::*;

verus! {

/// Whether a text has the shape of a calendar date, `YYYY-MM-DD`.
pub open spec fn is_date_shape(s: Seq<char>) -> bool {
    &&& s.len() == 10
    &&& text::all_digits(s.subrange(0, 4))
    &&& s[4] == '-'
    &&& text::all_digits(s.subrange(5, 7))
    &&& s[7] == '-'
    &&& text::all_digits(s.subrange(8, 10))
}

/// Two decimal digits, once white space is taken off.
pub open spec fn two_digit_text(s: Seq<char>) -> Option<Seq<char>> {
    let v = text::trimmed(s);
    if v.len() == 2 && text::all_digits(v) {
        Some(v)
    } else {
        None
    }
}

/// Where the zone designator of a clock time starts.
pub open spec fn zone_start(s: Seq<char>) -> int {
    let marks = first_zone_mark(s);
    if marks < s.len() {
        marks
    } else {
        text::first_index(s, '-')
    }
}

/// Where `Z`, `z` or `+` first stands.
pub open spec fn first_zone_mark(s: Seq<char>) -> int
    decreases s.len(),
{
    if s.len() == 0 || s[0] == 'Z' || s[0] == 'z' || s[0] == '+' {
        0
    } else {
        1 + first_zone_mark(s.drop_first())
    }
}

/// The clock time `HH:MM:SS` that a text starts with: minutes and seconds
/// may be missing, fractions and zone are dropped.
pub open spec fn clock_text(s: Seq<char>) -> Option<Seq<char>> {
    let parts = text::split_by(s.take(zone_start(s)), ':');
    let hour = two_digit_text(parts[0]);
    let minute = if parts.len() > 1 {
        two_digit_text(parts[1])
    } else {
        Some("00"@)
    };
    let second = if parts.len() > 2 {
        two_digit_text(text::split_by(parts[2], '.')[0])
    } else {
        Some("00"@)
    };
    match (hour, minute, second) {
        (Some(h), Some(m), Some(x)) => Some(h + ":"@ + m + ":"@ + x),
        _ => None,
    }
}

/// The clock time of a bare date's end.
pub open spec fn end_of_day() -> Seq<char> {
    "23:59:59"@
}

/// The last moment of a recurrence: its date, and its clock time if it has
/// one that can be read, else the end of the day.
pub open spec fn until_text(raw: Seq<char>) -> Option<Seq<char>> {
    let t = text::trimmed(raw);
    if t.len() >= 10 && is_date_shape(t.take(10)) {
        let rest = t.skip(10);
        let time = if rest.len() > 0 && (rest[0] == 'T' || rest[0] == 't') {
            match clock_text(rest.skip(1)) {
                Some(c) => c,
                None => end_of_day(),
            }
        } else {
            end_of_day()
        };
        Some(t.take(10) + "T"@ + time)
    } else {
        None
    }
}

fn digits_in(v: &Vec<char>, from: usize, to: usize) -> (r: bool)
    requires
        from <= to <= v@.len(),
    ensures
        r == text::all_digits(v@.subrange(from as int, to as int)),
{
    let ghost d = v@.subrange(from as int, to as int);
    let mut i: usize = from;
    while i < to
        invariant
            from <= i <= to <= v@.len(),
            d == v@.subrange(from as int, to as int),
            forall|k: int| 0 <= k < i - from ==> text::is_digit(#[trigger] d[k]),
        decreases to - i,
    {
        if !text::digit(v[i]) {
            assert(!text::is_digit(d[i - from]));
            return false;
        }
        i = i + 1;
    }
    true
}

/// Whether a text is a date of ten characters.
pub fn is_calendar_date(v: &Vec<char>) -> (r: bool)
    ensures
        r == is_date_shape(v@),
{
    v.len() == 10 && digits_in(v, 0, 4) && v[4] == '-' && digits_in(v, 5, 7) && v[7] == '-'
        && digits_in(v, 8, 10)
}

fn two_digits(value: &str) -> (r: Option<String>)
    ensures
        crate::json::text_view(r) == two_digit_text(value@),
{
    let v: String = text::trim(value);
    let c: Vec<char> = text::chars_of(v.as_str());
    assert(c@ == c@.subrange(0, c@.len() as int));
    if c.len() == 2 && digits_in(&c, 0, 2) {
        Some(v)
    } else {
        None
    }
}

fn zone_mark(v: &Vec<char>) -> (r: usize)
    ensures
        r <= v@.len(),
        r == first_zone_mark(v@),
{
    let mut i: usize = 0;
    assert(v@ == v@.skip(0));
    while i < v.len()
        invariant
            i <= v@.len(),
            first_zone_mark(v@) == i + first_zone_mark(v@.skip(i as int)),
        decreases v@.len() - i,
    {
        if v[i] == 'Z' || v[i] == 'z' || v[i] == '+' {
            return i;
        }
        assert(v@.skip(i as int).drop_first() == v@.skip(i as int + 1));
        i = i + 1;
    }
    i
}

fn clock_time(rest: &str) -> (r: Option<String>)
    ensures
        crate::json::text_view(r) == clock_text(rest@),
{
    let v: Vec<char> = text::chars_of(rest);
    let mark: usize = zone_mark(&v);
    let end: usize = if mark < v.len() {
        mark
    } else {
        text::find_char(&v, '-')
    };
    let raw: String = text::string_of(&v, 0, end);
    assert(raw@ == rest@.take(zone_start(rest@)));
    let parts: Vec<String> = text::split(raw.as_str(), ':');
    let ghost p = text::split_by(raw@, ':');
    assert(text::texts(parts@) == p);
    assert(p.len() == parts@.len());
    assert(forall|k: int| 0 <= k < p.len() ==> p[k] == parts@[k]@);
    let hour: Option<String> = two_digits(parts[0].as_str());
    let minute: Option<String> = if parts.len() > 1 {
        two_digits(parts[1].as_str())
    } else {
        Some("00".to_owned())
    };
    let second: Option<String> = if parts.len() > 2 {
        let whole: Vec<String> = text::split(parts[2].as_str(), '.');
        assert(text::texts(whole@)[0] == whole@[0]@);
        two_digits(whole[0].as_str())
    } else {
        Some("00".to_owned())
    };
    match (hour, minute, second) {
        (Some(h), Some(m), Some(s)) => {
            let mut out: String = h;
            out.append(":");
            out.append(m.as_str());
            out.append(":");
            out.append(s.as_str());
            Some(out)
        },
        _ => None,
    }
}

/// The local date-time at which a recurrence ends.
pub fn recurrence_until(raw: &str) -> (r: Option<String>)
    ensures
        crate::json::text_view(r) == until_text(raw@),
{
    let t: String = text::trim(raw);
    let v: Vec<char> = text::chars_of(t.as_str());
    if v.len() < 10 {
        return None;
    }
    let date: String = text::string_of(&v, 0, 10);
    assert(date@ == t@.take(10));
    let d: Vec<char> = text::chars_of(date.as_str());
    if !is_calendar_date(&d) {
        return None;
    }
    let time: String = if v.len() > 10 && (v[10] == 'T' || v[10] == 't') {
        let rest: String = text::string_of(&v, 11, v.len());
        assert(rest@ == t@.skip(10).skip(1));
        match clock_time(rest.as_str()) {
            Some(c) => c,
            None => "23:59:59".to_owned(),
        }
    } else {
        "23:59:59".to_owned()
    };
    let mut out: String = date;
    out.append("T");
    out.append(time.as_str());
    Some(out)
}

/// Whatever a recurrence's end looks like, what is stored of it is a local
/// date-time of nineteen characters, without a zone.
pub proof fn until_is_a_local_date_time(raw: Seq<char>)
    ensures
        until_text(raw) matches Some(u) ==> u.len() == 19 && is_date_shape(u.take(10)) && u[10]
            == 'T' && text::all_digits(u.subrange(11, 13)) && u[13] == ':' && text::all_digits(
            u.subrange(14, 16),
        ) && u[16] == ':' && text::all_digits(u.subrange(17, 19)),
{
    reveal_strlit("T");
    reveal_strlit(":");
    reveal_strlit("00");
    reveal_strlit("23:59:59");
    if until_text(raw) is Some {
        let t = text::trimmed(raw);
        let u = until_text(raw)->0;
        let time = u.skip(11);
        assert(u.take(10) == t.take(10));
        assert(u == t.take(10) + "T"@ + time);
        let rest = t.skip(10);
        let read = rest.len() > 0 && (rest[0] == 'T' || rest[0] == 't') && clock_text(
            rest.skip(1),
        ) is Some;
        if read {
            let s = rest.skip(1);
            let parts = text::split_by(s.take(zone_start(s)), ':');
            let h = two_digit_text(parts[0])->0;
            let m = if parts.len() > 1 {
                two_digit_text(parts[1])->0
            } else {
                "00"@
            };
            let x = if parts.len() > 2 {
                two_digit_text(text::split_by(parts[2], '.')[0])->0
            } else {
                "00"@
            };
            assert(time == h + ":"@ + m + ":"@ + x);
            assert(u.subrange(11, 13) == h);
            assert(u.subrange(14, 16) == m);
            assert(u.subrange(17, 19) == x);
        } else {
            assert(time == end_of_day());
            assert(u.subrange(11, 13) == seq!['2', '3']);
            assert(u.subrange(14, 16) == seq!['5', '9']);
            assert(u.subrange(17, 19) == seq!['5', '9']);
        }
    }
}

proof fn lemma_no_zone_mark(s: Seq<char>)
    requires
        forall|k: int| 0 <= k < s.len() ==> #[trigger] s[k] != 'Z' && s[k] != 'z' && s[k] != '+',
    ensures
        first_zone_mark(s) == s.len(),
    decreases s.len(),
{
    if s.len() > 0 {
        assert(s[0] != 'Z');
        lemma_no_zone_mark(s.drop_first());
    }
}

proof fn lemma_clock_reads_back(s: Seq<char>)
    requires
        s.len() == 8,
        text::all_digits(s.subrange(0, 2)),
        s[2] == ':',
        text::all_digits(s.subrange(3, 5)),
        s[5] == ':',
        text::all_digits(s.subrange(6, 8)),
    ensures
        clock_text(s) == Some(s),
{
    reveal_strlit(":");
    let h = s.subrange(0, 2);
    let m = s.subrange(3, 5);
    let x = s.subrange(6, 8);
    assert(text::is_digit(h[0]) && text::is_digit(h[1]));
    assert(text::is_digit(m[0]) && text::is_digit(m[1]));
    assert(text::is_digit(x[0]) && text::is_digit(x[1]));
    assert(h[0] == s[0] && h[1] == s[1] && m[0] == s[3] && m[1] == s[4] && x[0] == s[6] && x[1]
        == s[7]);
    lemma_no_zone_mark(s);
    text::lemma_first_index(s, '-', 8);
    assert(s.take(8) =~= s);
    text::lemma_first_index(s, ':', 2);
    let s1 = s.skip(3);
    text::lemma_first_index(s1, ':', 2);
    let s2 = s1.skip(3);
    text::lemma_first_index(s2, ':', 2);
    assert(s.take(2) =~= h);
    assert(s1.take(2) =~= m);
    assert(s2 =~= x);
    reveal_with_fuel(text::split_by, 4);
    let parts = text::split_by(s, ':');
    assert(parts =~= seq![h, m, x]);
    text::lemma_first_index(x, '.', 2);
    assert(text::split_by(x, '.')[0] == x);
    assert(h + ":"@ + m + ":"@ + x =~= s);
}

/// There is an end of a recurrence exactly where a text starts with a date; what
/// is stored of it has that date, and reading it again gives itself.
pub proof fn ends_read_as_themselves(raw: Seq<char>)
    ensures
        until_text(raw) is Some <==> text::trimmed(raw).len() >= 10 && is_date_shape(
            text::trimmed(raw).take(10),
        ),
        until_text(raw) matches Some(u) ==> u.take(10) == text::trimmed(raw).take(10)
            && until_text(u) == Some(u),
{
    until_is_a_local_date_time(raw);
    if until_text(raw) is Some {
        reveal_strlit("T");
        let u = until_text(raw)->0;
        let date = u.take(10);
        let clock = u.skip(10).skip(1);
        assert(date =~= text::trimmed(raw).take(10));
        assert(text::is_digit(date.subrange(0, 4)[0]));
        assert(text::is_digit(u.subrange(17, 19)[1]));
        assert(u[0] == date.subrange(0, 4)[0]);
        assert(u[18] == u.subrange(17, 19)[1]);
        assert(text::trimmed(u) == u);
        assert(clock.subrange(0, 2) =~= u.subrange(11, 13));
        assert(clock.subrange(3, 5) =~= u.subrange(14, 16));
        assert(clock.subrange(6, 8) =~= u.subrange(17, 19));
        lemma_clock_reads_back(clock);
        assert(u =~= date + "T"@ + clock);
    }
}

} // verus!
