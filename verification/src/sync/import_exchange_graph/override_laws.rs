//! How the occurrences of a series are told apart, and which are left out.

use crate::civil;
use crate::exchange_graph::expand;
use crate::json::Val;
use crate::sync::import_exchange_graph::calendar;
use crate::sync::import_exchange_graph::calendar::ConvertedVal;
use crate::text;
use crate::text_laws;
use vstd::prelude::*;

verus! {

/// Whether a text is a date and a clock time without fraction and offset: a `T`
/// stands between the two, and dashes in the date only.
pub open spec fn is_plain(s: Seq<char>) -> bool {
    &&& s.len() > 10
    &&& s[10] == 'T'
    &&& forall|i: int| 0 <= i < s.len() ==> #[trigger] s[i] != 'Z' && s[i] != '+' && s[i] != '.'
    &&& forall|i: int| 10 <= i < s.len() ==> #[trigger] s[i] != '-'
    &&& forall|i: int| 0 <= i < s.len() ==> (#[trigger] s[i] as u32) < 0x80
}

/// Whether a text is a fraction of a second, or nothing.
pub open spec fn is_fraction(s: Seq<char>) -> bool {
    s.len() == 0 || (s[0] == '.' && text::all_digits(s.skip(1)))
}

/// Whether a text is an offset from UTC, or nothing.
pub open spec fn is_offset(s: Seq<char>) -> bool {
    &&& s.len() > 0 ==> s[0] == 'Z' || s[0] == '+' || s[0] == '-'
    &&& forall|i: int|
        0 < i < s.len() ==> #[trigger] s[i] != 'Z' && s[i] != '+' && s[i] != '-'
}

proof fn lemma_last(s: Seq<char>, c: char, i: int)
    requires
        0 <= i < s.len(),
        s[i] == c,
        forall|k: int| i < k < s.len() ==> #[trigger] s[k] != c,
    ensures
        text::last_index(s, c) == i,
    decreases s.len(),
{
    if i < s.len() - 1 {
        assert(s.last() == s[s.len() - 1]);
        assert(forall|k: int| 0 <= k < s.len() - 1 ==> #[trigger] s.drop_last()[k] == s[k]);
        lemma_last(s.drop_last(), c, i);
    }
}

proof fn lemma_last_within(s: Seq<char>, c: char, n: int)
    requires
        0 <= n <= s.len(),
        forall|k: int| n <= k < s.len() ==> #[trigger] s[k] != c,
    ensures
        -1 <= text::last_index(s, c) < n,
    decreases s.len(),
{
    if s.len() > 0 {
        if s.len() > n {
            assert(s.last() == s[s.len() - 1]);
            assert(forall|k: int| 0 <= k < s.len() - 1 ==> #[trigger] s.drop_last()[k] == s[k]);
            lemma_last_within(s.drop_last(), c, n);
        } else {
            lemma_last_bound(s, c);
        }
    }
}

proof fn lemma_last_bound(s: Seq<char>, c: char)
    ensures
        -1 <= text::last_index(s, c) < s.len(),
    decreases s.len(),
{
    if s.len() > 0 {
        lemma_last_bound(s.drop_last(), c);
    }
}

proof fn lemma_ascii(s: Seq<char>)
    requires
        forall|i: int| 0 <= i < s.len() ==> (#[trigger] s[i] as u32) < 0x80,
    ensures
        text::byte_len(s) == s.len(),
    decreases s.len(),
{
    if s.len() > 0 {
        assert(s.last() == s[s.len() - 1]);
        assert forall|i: int| 0 <= i < s.drop_last().len() implies (#[trigger] s.drop_last()[i]
            as u32) < 0x80 by {
            assert(s.drop_last()[i] == s[i]);
        }
        lemma_ascii(s.drop_last());
    }
}

/// An occurrence is known by the date and the clock time of its start, whatever
/// fraction and offset the server writes after them. A date alone stands for its
/// first second.
pub proof fn fractions_and_offsets_do_not_count(
    base: Seq<char>,
    fraction: Seq<char>,
    offset: Seq<char>,
)
    requires
        is_plain(base),
        is_fraction(fraction),
        is_offset(offset),
    ensures
        calendar::override_key(base + fraction + offset, None) == base,
        calendar::override_key(base.take(10), None) == base.take(10) + "T00:00:00"@ || base.take(
            10,
        ).contains('T'),
{
    let time = base + fraction;
    let raw = time + offset;
    let n = time.len() as int;
    assert forall|i: int| 0 <= i < time.len() implies #[trigger] time[i] != 'Z' && time[i] != '+'
        && (i >= 10 ==> time[i] != '-') && (time[i] as u32) < 0x80 by {
        if i < base.len() {
            assert(time[i] == base[i]);
        } else {
            assert(time[i] == fraction[i - base.len()]);
            if i > base.len() {
                assert(fraction.skip(1)[i - base.len() - 1] == time[i]);
            }
        }
    }
    assert forall|i: int| 0 <= i < n implies #[trigger] raw[i] == time[i] by {}
    assert forall|i: int| n <= i < raw.len() implies #[trigger] raw[i] == offset[i - n] by {}
    assert(raw.take(n) =~= time);
    if offset.len() == 0 {
        assert(raw =~= time);
        text::lemma_first_index(raw, 'Z', raw.len() as int);
        text::lemma_first_index(raw, '+', raw.len() as int);
        lemma_last_within(raw, '-', 10);
        let m = text::last_index(raw, '-');
        if m >= 0 {
            lemma_ascii(raw.take(m));
        }
    } else if offset[0] == 'Z' {
        assert(raw[n] == 'Z');
        text::lemma_first_index(raw, 'Z', n);
    } else {
        assert forall|k: int| 0 <= k < raw.len() implies raw[k] != 'Z' by {
            if k >= n {
                assert(raw[k] == offset[k - n]);
            }
        }
        text::lemma_first_index(raw, 'Z', raw.len() as int);
        if offset[0] == '+' {
            assert(raw[n] == '+');
            text::lemma_first_index(raw, '+', n);
        } else {
            assert forall|k: int| 0 <= k < raw.len() implies raw[k] != '+' by {
                if k >= n {
                    assert(raw[k] == offset[k - n]);
                }
            }
            text::lemma_first_index(raw, '+', raw.len() as int);
            assert(raw[n] == '-');
            assert forall|k: int| n < k < raw.len() implies #[trigger] raw[k] != '-' by {
                assert(raw[k] == offset[k - n]);
            }
            lemma_last(raw, '-', n);
            lemma_ascii(time);
        }
    }
    assert(calendar::without_offset(raw) == time);
    assert forall|k: int| 0 <= k < base.len() implies time[k] != '.' by {
        assert(time[k] == base[k]);
    }
    if fraction.len() > 0 {
        assert(time[base.len() as int] == '.');
    }
    text::lemma_first_index(time, '.', base.len() as int);
    assert(time.take(base.len() as int) =~= base);
    assert(base.contains(base[10]));
    let d = base.take(10);
    assert forall|k: int| 0 <= k < d.len() implies d[k] != 'Z' && d[k] != '+' && d[k] != '.' && (
    d[k] as u32) < 0x80 by {
        assert(d[k] == base[k]);
    }
    text::lemma_first_index(d, 'Z', 10);
    text::lemma_first_index(d, '+', 10);
    lemma_last_bound(d, '-');
    let m = text::last_index(d, '-');
    if m >= 0 {
        assert forall|i: int| 0 <= i < d.take(m).len() implies (#[trigger] d.take(m)[i] as u32)
            < 0x80 by {
            assert(d.take(m)[i] == d[i]);
        }
        lemma_ascii(d.take(m));
    }
    text::lemma_first_index(d, '.', 10);
    assert(d.take(10) =~= d);
}

/// Whether the server lists an occurrence on a date: as it is, or changed.
pub open spec fn is_listed_on(
    starts: Seq<Seq<char>>,
    exceptions: Seq<ConvertedVal>,
    zone: Option<Seq<char>>,
    date: Seq<char>,
) -> bool {
    ||| exists|i: int|
        0 <= i < starts.len() && calendar::date_part(
            calendar::override_key(#[trigger] starts[i], zone),
        ) == date
    ||| exists|i: int|
        0 <= i < exceptions.len() && (#[trigger] exceptions[i]).original_start is Some
            && calendar::date_part(
            calendar::override_key(exceptions[i].original_start->0, zone),
        ) == date
}

proof fn lemma_pushed(s: Seq<Seq<char>>, last: Seq<char>, x: Seq<char>)
    ensures
        s.push(last).contains(x) <==> s.contains(x) || last == x,
{
    let t = s.push(last);
    if s.contains(x) {
        let i = choose|i: int| 0 <= i < s.len() && s[i] == x;
        assert(t[i] == x);
    }
    assert(t[s.len() as int] == last);
    if t.contains(x) && last != x {
        let i = choose|i: int| 0 <= i < t.len() && t[i] == x;
        assert(s[i] == x);
    }
}

/// The dates with an occurrence are those on which the server lists one.
pub proof fn dates_are_those_of_the_occurrences(
    starts: Seq<Seq<char>>,
    exceptions: Seq<ConvertedVal>,
    zone: Option<Seq<char>>,
    date: Seq<char>,
)
    ensures
        calendar::actual_dates(starts, exceptions, zone).contains(date) <==> is_listed_on(
            starts,
            exceptions,
            zone,
            date,
        ),
    decreases starts.len() + exceptions.len(),
{
    if exceptions.len() > 0 {
        let rest = exceptions.drop_last();
        dates_are_those_of_the_occurrences(starts, rest, zone, date);
        assert(exceptions[exceptions.len() - 1] == exceptions.last());
        assert(forall|i: int| 0 <= i < rest.len() ==> #[trigger] rest[i] == exceptions[i]);
        if let Some(raw) = exceptions.last().original_start {
            lemma_pushed(
                calendar::actual_dates(starts, rest, zone),
                calendar::date_part(calendar::override_key(raw, zone)),
                date,
            );
        }
        if exists|i: int|
            0 <= i < rest.len() && (#[trigger] rest[i]).original_start is Some
                && calendar::date_part(calendar::override_key(rest[i].original_start->0, zone))
                == date {
            let i = choose|i: int|
                0 <= i < rest.len() && (#[trigger] rest[i]).original_start is Some
                    && calendar::date_part(calendar::override_key(rest[i].original_start->0, zone))
                    == date;
            assert(exceptions[i].original_start is Some);
        }
        if exists|i: int|
            0 <= i < exceptions.len() && (#[trigger] exceptions[i]).original_start is Some
                && calendar::date_part(
                calendar::override_key(exceptions[i].original_start->0, zone),
            ) == date {
            let i = choose|i: int|
                0 <= i < exceptions.len() && (#[trigger] exceptions[i]).original_start is Some
                    && calendar::date_part(
                    calendar::override_key(exceptions[i].original_start->0, zone),
                ) == date;
            if i < rest.len() {
                assert(rest[i].original_start is Some);
            }
        }
    } else if starts.len() > 0 {
        let rest = starts.drop_last();
        dates_are_those_of_the_occurrences(rest, exceptions, zone, date);
        assert(starts[starts.len() - 1] == starts.last());
        assert(forall|i: int| 0 <= i < rest.len() ==> #[trigger] rest[i] == starts[i]);
        lemma_pushed(
            calendar::actual_dates(rest, exceptions, zone),
            calendar::date_part(calendar::override_key(starts.last(), zone)),
            date,
        );
        if exists|i: int|
            0 <= i < rest.len() && calendar::date_part(
                calendar::override_key(#[trigger] rest[i], zone),
            ) == date {
            let i = choose|i: int|
                0 <= i < rest.len() && calendar::date_part(
                    calendar::override_key(#[trigger] rest[i], zone),
                ) == date;
            assert(calendar::date_part(calendar::override_key(starts[i], zone)) == date);
        }
        if exists|i: int|
            0 <= i < starts.len() && calendar::date_part(
                calendar::override_key(#[trigger] starts[i], zone),
            ) == date {
            let i = choose|i: int|
                0 <= i < starts.len() && calendar::date_part(
                    calendar::override_key(#[trigger] starts[i], zone),
                ) == date;
            if i < rest.len() {
                assert(calendar::date_part(calendar::override_key(rest[i], zone)) == date);
            }
        }
    }
}

/// Whether a span of time covers a day.
pub open spec fn covers(w: (String, String), d: int) -> bool {
    calendar::days_of_window(w) matches Some(days) && days.0 <= d <= days.1
}

/// The first and the last day of a span are those that its two ends begin with.
pub proof fn spans_reach_from_day_to_day(w: (String, String), from: Seq<char>, to: Seq<char>)
    requires
        w.0@.len() >= 10,
        w.1@.len() >= 10,
        w.0@.take(10) == from,
        w.1@.take(10) == to,
    ensures
        civil::parsed_date(from) is Some && civil::parsed_date(to) is Some
            ==> calendar::days_of_window(w) == Some(
            (civil::parsed_date(from)->0, civil::parsed_date(to)->0),
        ),
        civil::parsed_date(from) is None || civil::parsed_date(to) is None
            ==> calendar::days_of_window(w) is None,
{
    if w.0@.len() == 10 {
        assert(w.0@.take(10) =~= w.0@);
    }
    if w.1@.len() == 10 {
        assert(w.1@.take(10) =~= w.1@);
    }
}

/// An occurrence counts as cancelled exactly where the series has one on a day
/// that a span of time covers, at the time of day of the series, and the server
/// lists none on that day.
pub proof fn unlisted_occurrences_are_cancelled(
    pattern: Val,
    windows: Seq<(String, String)>,
    starts: Seq<Seq<char>>,
    exceptions: Seq<ConvertedVal>,
    zone: Option<Seq<char>>,
    time: Seq<char>,
    d: int,
    i: int,
)
    requires
        0 <= i < windows.len(),
        covers(windows[i], d),
        expand::series_dates(pattern, (calendar::days_of_window(windows[i])->0).1) matches Some(
            days,
        ) && days.contains(d),
        !is_listed_on(starts, exceptions, zone, civil::date_text(d)),
    ensures
        calendar::is_cancelled_key(
            pattern,
            windows,
            calendar::actual_dates(starts, exceptions, zone),
            time,
            civil::date_text(d) + seq!['T'] + time,
        ),
{
    reveal_strlit("T");
    assert("T"@ =~= seq!['T']);
    let actual = calendar::actual_dates(starts, exceptions, zone);
    dates_are_those_of_the_occurrences(starts, exceptions, zone, civil::date_text(d));
    assert(calendar::is_missing_day(pattern, windows[i], actual, d));
}

proof fn lemma_no_t(s: Seq<char>)
    requires
        text::all_digits(s),
    ensures
        !s.contains('T'),
{
    if s.contains('T') {
        let i = choose|i: int| 0 <= i < s.len() && s[i] == 'T';
        assert(text::is_digit(s[i]));
    }
}

proof fn lemma_date(d: int)
    ensures
        !civil::date_text(d).contains('T'),
{
    reveal(civil::date_text);
    reveal_strlit("-");
    reveal_strlit("+");
    assert("-"@ =~= seq!['-']);
    assert("+"@ =~= seq!['+']);
    let (y, m, n) = civil::civil_of(d);
    text_laws::padding_keeps_the_number(y as nat, 4);
    text_laws::padding_keeps_the_number((0 - y) as nat, 4);
    text_laws::padding_keeps_the_number(m as nat, 2);
    text_laws::padding_keeps_the_number(n as nat, 2);
    lemma_no_t(text::padded(y as nat, 4));
    lemma_no_t(text::padded((0 - y) as nat, 4));
    lemma_no_t(text::padded(m as nat, 2));
    lemma_no_t(text::padded(n as nat, 2));
    lemma_joined_no_t("-"@, text::padded((0 - y) as nat, 4));
    lemma_joined_no_t("+"@, text::padded(y as nat, 4));
    let a = civil::year_text(y);
    let b = text::padded(m as nat, 2);
    let c = text::padded(n as nat, 2);
    lemma_joined_no_t(a, "-"@);
    lemma_joined_no_t(a + "-"@, b);
    lemma_joined_no_t(a + "-"@ + b, "-"@);
    lemma_joined_no_t(a + "-"@ + b + "-"@, c);
}

proof fn lemma_joined_no_t(a: Seq<char>, b: Seq<char>)
    ensures
        !a.contains('T') && !b.contains('T') ==> !(a + b).contains('T'),
        !seq!['-'].contains('T'),
        !seq!['+'].contains('T'),
{
    let s = a + b;
    if s.contains('T') {
        let i = choose|i: int| 0 <= i < s.len() && s[i] == 'T';
        if i < a.len() {
            assert(a[i] == 'T');
        } else {
            assert(b[i - a.len()] == 'T');
        }
    }
}

/// An occurrence on a date on which the server lists one is never cancelled.
pub proof fn listed_occurrences_are_never_cancelled(
    pattern: Val,
    windows: Seq<(String, String)>,
    starts: Seq<Seq<char>>,
    exceptions: Seq<ConvertedVal>,
    zone: Option<Seq<char>>,
    time: Seq<char>,
    key: Seq<char>,
)
    requires
        is_listed_on(starts, exceptions, zone, calendar::date_part(key)),
    ensures
        !calendar::is_cancelled_key(
            pattern,
            windows,
            calendar::actual_dates(starts, exceptions, zone),
            time,
            key,
        ),
{
    reveal_strlit("T");
    assert("T"@ =~= seq!['T']);
    let actual = calendar::actual_dates(starts, exceptions, zone);
    if calendar::is_cancelled_key(pattern, windows, actual, time, key) {
        let (i, d) = choose|i: int, d: int|
            #![trigger calendar::is_missing_day(pattern, windows[i], actual, d)]
            0 <= i < windows.len() && calendar::is_missing_day(pattern, windows[i], actual, d)
                && key == civil::date_text(d) + "T"@ + time;
        let date = civil::date_text(d);
        lemma_date(d);
        assert forall|k: int| 0 <= k < date.len() implies key[k] != 'T' by {
            assert(date.contains(date[k]));
        }
        assert(key[date.len() as int] == 'T');
        text::lemma_first_index(key, 'T', date.len() as int);
        assert(key.take(date.len() as int) =~= date);
        dates_are_those_of_the_occurrences(starts, exceptions, zone, date);
    }
}

/// The start of a series is its day and its time of day; one that is a day only
/// begins with that day.
pub proof fn starts_are_days_and_times(date: Seq<char>, time: Seq<char>)
    requires
        !date.contains('T'),
    ensures
        calendar::start_parts(date + seq!['T'] + time) == (date, time),
        calendar::start_parts(date) == (date, "00:00:00"@),
        calendar::date_part(date + seq!['T'] + time) == date,
{
    let s = date + seq!['T'] + time;
    assert forall|k: int| 0 <= k < date.len() implies s[k] != 'T' by {
        assert(date.contains(date[k]));
    }
    assert forall|k: int| 0 <= k < date.len() implies date[k] != 'T' by {
        assert(date.contains(date[k]));
    }
    text::lemma_first_index(s, 'T', date.len() as int);
    text::lemma_first_index(date, 'T', date.len() as int);
    assert(s.take(date.len() as int) =~= date);
    assert(s.skip(date.len() as int + 1) =~= time);
}

/// The span that is looked through is as many years as were asked for, at least
/// one and at most five.
pub proof fn spans_last_the_years_asked_for(years: i32)
    ensures
        calendar::window_days(years) == 365 * (if years < 1 {
            1
        } else if years > 5 {
            5
        } else {
            years as int
        }),
{
}

} // verus!
