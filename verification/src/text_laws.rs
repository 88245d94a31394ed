//! What the operations on texts keep.

use crate::text;
use vstd::prelude::*;

verus! {

proof fn lemma_split(s: Seq<char>, c: char)
    ensures
        text::split_by(s, c).len() > 0,
        text::split_by(s, c).len() == 1 <==> !s.contains(c),
    decreases s.len(),
{
    text::lemma_first_index_bounds(s, c);
    let i = text::first_index(s, c);
    if i < s.len() {
        lemma_split(s.skip(i + 1), c);
    }
}

proof fn lemma_join_front(a: Seq<char>, rest: Seq<Seq<char>>, sep: Seq<char>)
    requires
        rest.len() > 0,
    ensures
        text::join(seq![a] + rest, sep) == a + sep + text::join(rest, sep),
    decreases rest.len(),
{
    let all = seq![a] + rest;
    if rest.len() == 1 {
        assert(all.drop_last() =~= seq![a]);
        assert(text::join(seq![a], sep) == a);
        assert(all.last() == rest[0]);
    } else {
        lemma_join_front(a, rest.drop_last(), sep);
        assert(all.drop_last() =~= seq![a] + rest.drop_last());
        assert(all.last() == rest.last());
        assert(a + sep + text::join(rest.drop_last(), sep) + sep + rest.last() =~= a + sep + (
        text::join(rest.drop_last(), sep) + sep + rest.last()));
    }
}

/// The pieces of a text, put together again, are the text; and no piece has the
/// mark at which it was split.
pub proof fn pieces_make_up_the_text(s: Seq<char>, c: char, k: int)
    ensures
        text::join(text::split_by(s, c), seq![c]) == s,
        0 <= k < text::split_by(s, c).len() ==> !text::split_by(s, c)[k].contains(c),
        text::split_by(s, c).len() == 1 <==> !s.contains(c),
    decreases s.len(),
{
    lemma_split(s, c);
    text::lemma_first_index_bounds(s, c);
    let i = text::first_index(s, c);
    if i < s.len() {
        let rest = s.skip(i + 1);
        lemma_split(rest, c);
        pieces_make_up_the_text(rest, c, k - 1);
        lemma_join_front(s.take(i), text::split_by(rest, c), seq![c]);
        assert(s.take(i) + seq![c] + rest =~= s);
        if k == 0 {
            if s.take(i).contains(c) {
                let j = choose|j: int| 0 <= j < i && s.take(i)[j] == c;
                assert(s[j] == c);
            }
        }
    }
}

/// Whether a text is white space only.
pub open spec fn is_blank(s: Seq<char>) -> bool {
    forall|i: int| 0 <= i < s.len() ==> text::is_white(#[trigger] s[i])
}

proof fn lemma_trim_start(s: Seq<char>) -> (n: int)
    ensures
        0 <= n <= s.len(),
        text::trim_start(s) == s.skip(n),
        is_blank(s.take(n)),
        n < s.len() ==> !text::is_white(s[n]),
    decreases s.len(),
{
    if s.len() > 0 && text::is_white(s[0]) {
        let m = lemma_trim_start(s.drop_first());
        assert(s.drop_first().skip(m) =~= s.skip(m + 1));
        assert forall|i: int| 0 <= i < s.take(m + 1).len() implies text::is_white(
            #[trigger] s.take(m + 1)[i],
        ) by {
            if i > 0 {
                assert(s.drop_first().take(m)[i - 1] == s[i]);
            }
        }
        m + 1
    } else {
        assert(s.skip(0) =~= s);
        0
    }
}

proof fn lemma_trim_end(s: Seq<char>) -> (n: int)
    ensures
        0 <= n <= s.len(),
        text::trim_end(s) == s.take(n),
        is_blank(s.skip(n)),
        n > 0 ==> !text::is_white(s[n - 1]),
    decreases s.len(),
{
    if s.len() > 0 && text::is_white(s.last()) {
        let n = lemma_trim_end(s.drop_last());
        assert(s.drop_last().take(n) =~= s.take(n));
        assert forall|i: int| 0 <= i < s.skip(n).len() implies text::is_white(
            #[trigger] s.skip(n)[i],
        ) by {
            if i + n < s.len() - 1 {
                assert(s.drop_last().skip(n)[i] == s[i + n]);
            }
        }
        n
    } else {
        assert(s.take(s.len() as int) =~= s);
        s.len() as int
    }
}

/// Trimming takes the white space off both ends, and nothing else.
pub proof fn trimming_takes_white_space_off(s: Seq<char>)
    ensures
        exists|i: int, j: int|
            0 <= i <= j <= s.len() && text::trimmed(s) == #[trigger] s.subrange(i, j) && is_blank(
                s.take(i),
            ) && is_blank(s.skip(j)),
        text::trimmed(s).len() > 0 ==> !text::is_white(text::trimmed(s)[0]) && !text::is_white(
            text::trimmed(s).last(),
        ),
{
    let i = lemma_trim_start(s);
    let t = s.skip(i);
    let n = lemma_trim_end(t);
    let j = i + n;
    assert(t.take(n) =~= s.subrange(i, j));
    assert(t.skip(n) =~= s.skip(j));
    if n > 0 {
        assert(text::trimmed(s)[0] == s[i]);
        assert(text::trimmed(s).last() == t[n - 1]);
    }
}

proof fn lemma_padded(n: nat, width: nat)
    ensures
        text::all_digits(text::padded(n, width)),
        text::digits_value(text::padded(n, width)) == n,
        text::padded(n, width).len() >= width,
        text::padded(n, width).len() == width || text::padded(n, width) == text::dec(n),
    decreases width,
{
    lemma_dec(n);
    let p = text::padded(n, width);
    if width > 0 && text::dec(n).len() < width {
        let tail = p.drop_first();
        if text::dec(n).len() + 1 != width {
            lemma_padded(n, (width - 1) as nat);
            assert(tail =~= text::padded(n, (width - 1) as nat));
        } else {
            assert(tail =~= text::dec(n));
        }
        assert(p =~= seq!['0'] + tail);
        assert forall|i: int| 0 <= i < p.len() implies text::is_digit(#[trigger] p[i]) by {
            if i > 0 {
                assert(p[i] == tail[i - 1]);
            }
        }
        lemma_zero(tail);
    }
}

proof fn lemma_zero(s: Seq<char>)
    ensures
        text::digits_value(seq!['0'] + s) == text::digits_value(s),
    decreases s.len(),
{
    let t = seq!['0'] + s;
    if s.len() > 0 {
        assert(t.drop_last() =~= seq!['0'] + s.drop_last());
        assert(t.last() == s.last());
        lemma_zero(s.drop_last());
    } else {
        assert(t.drop_last() =~= Seq::empty());
        assert(text::digits_value(t.drop_last()) == 0);
    }
}

proof fn lemma_dec(n: nat)
    ensures
        text::all_digits(text::dec(n)),
        text::digits_value(text::dec(n)) == n,
        text::dec(n).len() > 0,
    decreases n,
{
    let d = text::dec(n);
    if n < 10 {
        assert(d.drop_last() =~= Seq::empty());
        assert(text::digits_value(d.drop_last()) == 0);
        assert(d[0] == text::digit_char(n));
    } else {
        lemma_dec(n / 10);
        assert(d.drop_last() =~= text::dec(n / 10));
        assert forall|i: int| 0 <= i < d.len() implies text::is_digit(#[trigger] d[i]) by {
            if i < d.len() - 1 {
                assert(d[i] == text::dec(n / 10)[i]);
            }
        }
    }
}

/// A number is written with digits that read as the number, and with as many as
/// the width asks for where fewer would do.
pub proof fn padding_keeps_the_number(n: nat, width: nat)
    ensures
        text::all_digits(text::padded(n, width)),
        text::digits_value(text::padded(n, width)) == n,
        text::padded(n, width).len() == (if text::dec(n).len() < width {
            width
        } else {
            text::dec(n).len()
        }),
        text::all_digits(text::dec(n)),
        text::digits_value(text::dec(n)) == n,
        text::dec(n).len() > 1 ==> text::dec(n)[0] != '0',
    decreases n,
{
    lemma_padded(n, width);
    lemma_dec(n);
    lemma_no_zero_first(n);
}

proof fn lemma_no_zero_first(n: nat)
    ensures
        n > 0 ==> text::dec(n)[0] != '0',
    decreases n,
{
    if n >= 10 {
        lemma_no_zero_first(n / 10);
        lemma_dec(n / 10);
        assert(text::dec(n)[0] == text::dec(n / 10)[0]);
    } else {
        assert(text::dec(n)[0] == text::digit_char(n));
    }
}

/// What is left without the marks at its end is the text up to them.
pub proof fn end_marks_are_taken_off(s: Seq<char>, c: char)
    ensures
        text::without_end(s, c).len() <= s.len(),
        text::without_end(s, c) == s.take(text::without_end(s, c).len() as int),
        forall|i: int|
            text::without_end(s, c).len() <= i < s.len() ==> #[trigger] s[i] == c,
        text::without_end(s, c).len() > 0 ==> text::without_end(s, c).last() != c,
    decreases s.len(),
{
    if s.len() > 0 && s.last() == c {
        end_marks_are_taken_off(s.drop_last(), c);
        let r = text::without_end(s, c);
        assert(s.drop_last().take(r.len() as int) =~= s.take(r.len() as int));
        assert forall|i: int| r.len() <= i < s.len() implies #[trigger] s[i] == c by {
            if i < s.len() - 1 {
                assert(s.drop_last()[i] == s[i]);
            }
        }
    } else {
        assert(s.take(s.len() as int) =~= s);
    }
}

/// Small letters stand for the capital ones, in their order, and all else stays.
pub proof fn lowering_makes_letters_small(c: char)
    ensures
        'A' <= c <= 'Z' ==> text::lower(c) as int - 'a' as int == c as int - 'A' as int,
        !('A' <= c <= 'Z') ==> text::lower(c) == c,
{
}

/// The order of texts is a total one.
pub proof fn texts_have_one_order(a: Seq<char>, b: Seq<char>)
    ensures
        text::not_after(a, b) || text::not_after(b, a),
        text::not_after(a, b) && text::not_after(b, a) ==> a == b,
    decreases a.len(),
{
    if a.len() > 0 && b.len() > 0 && a[0] == b[0] {
        texts_have_one_order(a.skip(1), b.skip(1));
        assert(a =~= seq![a[0]] + a.skip(1));
        assert(b =~= seq![b[0]] + b.skip(1));
    } else if a.len() == 0 && b.len() == 0 {
        assert(a =~= b);
    }
}

/// Whether a text stands nowhere in another one.
pub open spec fn is_absent(s: Seq<char>, pat: Seq<char>) -> bool {
    forall|i: int| 0 <= i <= s.len() - pat.len() ==> #[trigger] s.subrange(i, i + pat.len()) != pat
}

/// What is replaced is each place of the text in turn: one that has none stays
/// as it is, and the first one gives way to the new text.
pub proof fn replacing_goes_from_place_to_place(
    before: Seq<char>,
    pat: Seq<char>,
    by: Seq<char>,
    after: Seq<char>,
)
    requires
        pat.len() > 0,
        forall|i: int|
            0 <= i < before.len() ==> #[trigger] (before + pat + after).subrange(i, i + pat.len())
                != pat,
    ensures
        text::replaced(before + pat + after, pat, by) == before + by + text::replaced(
            after,
            pat,
            by,
        ),
        is_absent(after, pat) ==> text::replaced(after, pat, by) == after,
    decreases before.len(),
{
    let s = before + pat + after;
    if before.len() == 0 {
        assert(s.subrange(0, pat.len() as int) =~= pat);
        assert(s.skip(pat.len() as int) =~= after);
        assert(before + by + text::replaced(after, pat, by) =~= by + text::replaced(
            after,
            pat,
            by,
        ));
    } else {
        let rest = before.skip(1);
        assert(s.subrange(0, 0int + pat.len()) != pat);
        assert(s.skip(1) =~= rest + pat + after);
        assert forall|i: int| 0 <= i < rest.len() implies #[trigger] (rest + pat + after).subrange(
            i,
            i + pat.len(),
        ) != pat by {
            assert((rest + pat + after).subrange(i, i + pat.len()) =~= s.subrange(
                i + 1,
                i + 1 + pat.len(),
            ));
        }
        replacing_goes_from_place_to_place(rest, pat, by, after);
        assert(seq![s[0]] + (rest + by + text::replaced(after, pat, by)) =~= before + by
            + text::replaced(after, pat, by));
    }
    if is_absent(after, pat) {
        lemma_absent(after, pat, by);
    }
}

proof fn lemma_absent(s: Seq<char>, pat: Seq<char>, by: Seq<char>)
    requires
        pat.len() > 0,
        is_absent(s, pat),
    ensures
        text::replaced(s, pat, by) == s,
    decreases s.len(),
{
    if s.len() >= pat.len() {
        assert(s.subrange(0, 0int + pat.len()) != pat);
        let t = s.skip(1);
        assert forall|i: int| 0 <= i <= t.len() - pat.len() implies #[trigger] t.subrange(
            i,
            i + pat.len(),
        ) != pat by {
            assert(t.subrange(i, i + pat.len()) =~= s.subrange(i + 1, i + 1 + pat.len()));
        }
        lemma_absent(t, pat, by);
        assert(seq![s[0]] + t =~= s);
    }
}

} // verus!
