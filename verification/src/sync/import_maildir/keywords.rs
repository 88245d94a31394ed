//! What the name of a Maildir file says of its message.

use crate::text;
use vstd::prelude::*;

verus! {

/// What a letter after the name of a message says of it.
#[derive(Clone, Copy, PartialEq, Eq, Structural, Debug)]
pub enum Flag {
    Passed,
    Replied,
    Seen,
    Trashed,
    Draft,
    Flagged,
}

/// Where the flags of a file name begin to be told: at its last colon, if that
/// is followed by `2,`; else nowhere.
pub open spec fn marker(name: Seq<char>) -> Option<int> {
    let i = text::last_index(name, ':');
    if 0 <= i && i + 2 < name.len() && name[i + 1] == '2' && name[i + 2] == ',' {
        Some(i)
    } else {
        None
    }
}

/// What names the message, whatever its flags are.
pub open spec fn unique_id(name: Seq<char>) -> Seq<char> {
    match marker(name) {
        Some(i) => name.take(i),
        None => name,
    }
}

/// The letters of the flags.
pub open spec fn flag_letters(name: Seq<char>) -> Seq<char> {
    match marker(name) {
        Some(i) => name.skip(i + 3),
        None => Seq::empty(),
    }
}

/// The flag that a letter stands for.
pub open spec fn flag_of(c: char) -> Option<Flag> {
    if c == 'P' {
        Some(Flag::Passed)
    } else if c == 'R' {
        Some(Flag::Replied)
    } else if c == 'S' {
        Some(Flag::Seen)
    } else if c == 'T' {
        Some(Flag::Trashed)
    } else if c == 'D' {
        Some(Flag::Draft)
    } else if c == 'F' {
        Some(Flag::Flagged)
    } else {
        None
    }
}

/// The flags that letters stand for, in order.
pub open spec fn flags_of(letters: Seq<char>) -> Seq<Flag>
    decreases letters.len(),
{
    if letters.len() == 0 {
        Seq::empty()
    } else {
        let before = flags_of(letters.drop_last());
        match flag_of(letters.last()) {
            Some(f) => before.push(f),
            None => before,
        }
    }
}

fn find_marker(v: &Vec<char>) -> (r: Option<usize>)
    ensures
        match r {
            Some(i) => marker(v@) == Some(i as int) && i + 2 < v@.len(),
            None => marker(v@) is None,
        },
{
    match text::find_last_char(v, ':') {
        Some(i) => {
            let n: usize = v.len();
            if n - i > 2 && v[i + 1] == '2' && v[i + 2] == ',' {
                Some(i)
            } else {
                None
            }
        },
        None => None,
    }
}

/// What names the message of a file, whatever its flags are.
pub fn unique_id_from_filename(filename: &str) -> (r: String)
    ensures
        r@ == unique_id(filename@),
{
    let v: Vec<char> = text::chars_of(filename);
    match find_marker(&v) {
        Some(i) => {
            let s: String = text::string_of(&v, 0, i);
            assert(s@ =~= unique_id(filename@));
            s
        },
        None => filename.to_owned(),
    }
}

fn flag_for(c: char) -> (r: Option<Flag>)
    ensures
        r == flag_of(c),
{
    if c == 'P' {
        Some(Flag::Passed)
    } else if c == 'R' {
        Some(Flag::Replied)
    } else if c == 'S' {
        Some(Flag::Seen)
    } else if c == 'T' {
        Some(Flag::Trashed)
    } else if c == 'D' {
        Some(Flag::Draft)
    } else if c == 'F' {
        Some(Flag::Flagged)
    } else {
        None
    }
}

/// The flags that a file name tells.
pub fn flags_from_filename(filename: &str) -> (r: Vec<Flag>)
    ensures
        r@ == flags_of(flag_letters(filename@)),
{
    let v: Vec<char> = text::chars_of(filename);
    let mut out: Vec<Flag> = Vec::new();
    let n: usize = v.len();
    let start: usize = match find_marker(&v) {
        Some(i) => {
            assert(i + 3 <= n);
            i + 3
        },
        None => {
            return out;
        },
    };
    let ghost letters = flag_letters(filename@);
    let mut i: usize = start;
    assert(letters.take(0) =~= Seq::empty());
    while i < v.len()
        invariant
            start <= i <= v@.len(),
            letters == v@.skip(start as int),
            out@ == flags_of(letters.take(i - start)),
        decreases v@.len() - i,
    {
        proof {
            assert(letters.take(i + 1 - start).drop_last() =~= letters.take(i - start));
            assert(letters.take(i + 1 - start).last() == v@[i as int]);
        }
        match flag_for(v[i]) {
            Some(f) => {
                out.push(f);
            },
            None => {},
        }
        i = i + 1;
    }
    assert(letters.take(i - start) =~= letters);
    out
}

/// What flags mean for the archive.
#[derive(Debug)]
pub struct Translation {
    pub keywords: Vec<String>,
    pub has_trashed_flag: bool,
}

/// The keyword that a flag becomes. A trashed message has one only where
/// deleted messages are kept.
pub open spec fn keyword_of(f: Flag, include_deleted: bool) -> Option<Seq<char>> {
    match f {
        Flag::Passed => Some("$forwarded"@),
        Flag::Replied => Some("$answered"@),
        Flag::Seen => Some("$seen"@),
        Flag::Draft => Some("$draft"@),
        Flag::Flagged => Some("$flagged"@),
        Flag::Trashed => if include_deleted {
            Some("$deleted"@)
        } else {
            None
        },
    }
}

/// The keywords that flags become, in order.
pub open spec fn keywords_of(flags: Seq<Flag>, include_deleted: bool) -> Seq<Seq<char>>
    decreases flags.len(),
{
    if flags.len() == 0 {
        Seq::empty()
    } else {
        let before = keywords_of(flags.drop_last(), include_deleted);
        match keyword_of(flags.last(), include_deleted) {
            Some(k) => before.push(k),
            None => before,
        }
    }
}

fn keyword_for(f: Flag, include_deleted: bool) -> (r: Option<&'static str>)
    ensures
        crate::json::str_view(r) == keyword_of(f, include_deleted),
{
    match f {
        Flag::Passed => Some("$forwarded"),
        Flag::Replied => Some("$answered"),
        Flag::Seen => Some("$seen"),
        Flag::Draft => Some("$draft"),
        Flag::Flagged => Some("$flagged"),
        Flag::Trashed => if include_deleted {
            Some("$deleted")
        } else {
            None
        },
    }
}

/// What flags mean for the archive.
pub fn translate_flags(flags: &Vec<Flag>, include_deleted: bool) -> (r: Translation)
    ensures
        text::texts(r.keywords@) == keywords_of(flags@, include_deleted),
        r.has_trashed_flag == flags@.contains(Flag::Trashed),
{
    let mut keywords: Vec<String> = Vec::new();
    let mut has_trashed_flag: bool = false;
    let mut i: usize = 0;
    assert(flags@.take(0) =~= Seq::empty());
    assert(text::texts(keywords@) =~= Seq::empty());
    while i < flags.len()
        invariant
            i <= flags@.len(),
            text::texts(keywords@) == keywords_of(flags@.take(i as int), include_deleted),
            has_trashed_flag == flags@.take(i as int).contains(Flag::Trashed),
        decreases flags@.len() - i,
    {
        let ghost before = text::texts(keywords@);
        proof {
            let t = flags@.take(i as int + 1);
            assert(t.drop_last() =~= flags@.take(i as int));
            assert(t.last() == flags@[i as int]);
            assert forall|f: Flag| t.contains(f) == (flags@.take(i as int).contains(f) || f
                == flags@[i as int]) by {
                if flags@.take(i as int).contains(f) {
                    let k = choose|k: int|
                        0 <= k < flags@.take(i as int).len() && flags@.take(i as int)[k] == f;
                    assert(t[k] == f);
                }
                if f == flags@[i as int] {
                    assert(t[i as int] == f);
                }
                if t.contains(f) && f != flags@[i as int] {
                    let k = choose|k: int| 0 <= k < t.len() && t[k] == f;
                    assert(flags@.take(i as int)[k] == f);
                }
            }
        }
        if flags[i] == Flag::Trashed {
            has_trashed_flag = true;
        }
        match keyword_for(flags[i], include_deleted) {
            Some(k) => {
                keywords.push(k.to_owned());
                assert(text::texts(keywords@) =~= before.push(k@));
            },
            None => {},
        }
        i = i + 1;
    }
    assert(flags@.take(i as int) =~= flags@);
    Translation { keywords, has_trashed_flag }
}

/// What a letter after the name of a message means for the archive.
pub open spec fn means(c: char, keyword: Seq<char>) -> bool {
    ||| c == 'P' && keyword == "$forwarded"@
    ||| c == 'R' && keyword == "$answered"@
    ||| c == 'S' && keyword == "$seen"@
    ||| c == 'D' && keyword == "$draft"@
    ||| c == 'F' && keyword == "$flagged"@
    ||| c == 'T' && keyword == "$deleted"@
}

proof fn lemma_marker(id: Seq<char>, letters: Seq<char>)
    requires
        !letters.contains(':'),
    ensures
        text::last_index(id + ":2,"@ + letters, ':') == id.len(),
    decreases letters.len(),
{
    reveal_strlit(":2,");
    reveal_with_fuel(text::last_index, 4);
    assert(":2,"@ =~= seq![':', '2', ',']);
    let s = id + ":2,"@ + letters;
    if letters.len() == 0 {
        assert(s.last() == ',');
        assert(s.drop_last().last() == '2');
        assert(s.drop_last().drop_last().last() == ':');
    } else {
        let rest = letters.drop_last();
        assert(s.last() == letters[letters.len() - 1]);
        assert(s.drop_last() =~= id + ":2,"@ + rest);
        assert forall|i: int| 0 <= i < rest.len() implies rest[i] != ':' by {
            assert(letters[i] == rest[i]);
            assert(letters.contains(letters[i]));
        }
        assert(letters.contains(letters[letters.len() - 1]));
        lemma_marker(id, rest);
    }
}

/// The letters after `:2,` are flags, and what stands before it names the
/// message, so that a message keeps its name whatever its flags become. A name
/// without a colon has no flags.
pub proof fn names_and_flags_are_told_apart(id: Seq<char>, letters: Seq<char>)
    requires
        !letters.contains(':'),
    ensures
        unique_id(id + ":2,"@ + letters) == id,
        flag_letters(id + ":2,"@ + letters) == letters,
        !id.contains(':') ==> unique_id(id) == id && flag_letters(id).len() == 0,
{
    lemma_marker(id, letters);
    reveal_strlit(":2,");
    let s = id + ":2,"@ + letters;
    assert(":2,"@ =~= seq![':', '2', ',']);
    assert(s[id.len() as int + 1] == '2' && s[id.len() as int + 2] == ',');
    assert(s.take(id.len() as int) =~= id);
    assert(s.skip(id.len() as int + 3) =~= letters);
    if !id.contains(':') {
        lemma_no_mark(id);
    }
}

proof fn lemma_no_mark(s: Seq<char>)
    requires
        !s.contains(':'),
    ensures
        text::last_index(s, ':') == -1,
    decreases s.len(),
{
    if s.len() > 0 {
        assert(s.contains(s[s.len() - 1]));
        let rest = s.drop_last();
        assert forall|i: int| 0 <= i < rest.len() implies rest[i] != ':' by {
            assert(s[i] == rest[i]);
            assert(s.contains(s[i]));
        }
        lemma_no_mark(rest);
    }
}

proof fn lemma_keyword_names()
    ensures
        "$forwarded"@ != "$answered"@,
        "$forwarded"@ != "$seen"@,
        "$forwarded"@ != "$draft"@,
        "$forwarded"@ != "$flagged"@,
        "$forwarded"@ != "$deleted"@,
        "$answered"@ != "$seen"@,
        "$answered"@ != "$draft"@,
        "$answered"@ != "$flagged"@,
        "$answered"@ != "$deleted"@,
        "$seen"@ != "$draft"@,
        "$seen"@ != "$flagged"@,
        "$seen"@ != "$deleted"@,
        "$draft"@ != "$flagged"@,
        "$draft"@ != "$deleted"@,
        "$flagged"@ != "$deleted"@,
{
    reveal_strlit("$forwarded");
    reveal_strlit("$answered");
    reveal_strlit("$seen");
    reveal_strlit("$draft");
    reveal_strlit("$flagged");
    reveal_strlit("$deleted");
    assert("$forwarded"@.len() == 10);
    assert("$answered"@.len() == 9);
    assert("$seen"@.len() == 5);
    assert("$draft"@.len() == 6);
    assert("$flagged"@[1] == 'f');
    assert("$deleted"@[1] == 'd');
    assert("$flagged"@.len() == 8);
    assert("$deleted"@.len() == 8);
}

proof fn lemma_pushed<A>(s: Seq<A>, last: A, x: A)
    ensures
        s.push(last).contains(x) <==> s.contains(x) || last == x,
{
    let t = s.push(last);
    if s.contains(x) {
        let i = choose|i: int| 0 <= i < s.len() && s[i] == x;
        assert(t[i] == x);
    }
    assert(t[s.len() as int] == last);
    if t.contains(x) && last != x {
        let i = choose|i: int| 0 <= i < t.len() && t[i] == x;
        assert(s[i] == x);
    }
}

proof fn lemma_flags(letters: Seq<char>, f: Flag)
    ensures
        flags_of(letters).contains(f) <==> exists|i: int|
            0 <= i < letters.len() && flag_of(#[trigger] letters[i]) == Some(f),
    decreases letters.len(),
{
    if letters.len() > 0 {
        let rest = letters.drop_last();
        lemma_flags(rest, f);
        assert(letters[letters.len() - 1] == letters.last());
        assert(forall|i: int| 0 <= i < rest.len() ==> #[trigger] rest[i] == letters[i]);
        if let Some(g) = flag_of(letters.last()) {
            lemma_pushed(flags_of(rest), g, f);
        }
        if exists|i: int| 0 <= i < rest.len() && flag_of(#[trigger] rest[i]) == Some(f) {
            let i = choose|i: int| 0 <= i < rest.len() && flag_of(#[trigger] rest[i]) == Some(f);
            assert(flag_of(letters[i]) == Some(f));
        }
        if exists|i: int| 0 <= i < letters.len() && flag_of(#[trigger] letters[i]) == Some(f) {
            let i = choose|i: int|
                0 <= i < letters.len() && flag_of(#[trigger] letters[i]) == Some(f);
            if i < rest.len() {
                assert(flag_of(rest[i]) == Some(f));
            }
        }
    }
}

proof fn lemma_keywords_of(flags: Seq<Flag>, include_deleted: bool, k: Seq<char>)
    ensures
        keywords_of(flags, include_deleted).contains(k) <==> exists|i: int|
            0 <= i < flags.len() && keyword_of(#[trigger] flags[i], include_deleted) == Some(k),
    decreases flags.len(),
{
    if flags.len() > 0 {
        let rest = flags.drop_last();
        lemma_keywords_of(rest, include_deleted, k);
        assert(flags[flags.len() - 1] == flags.last());
        assert(forall|i: int| 0 <= i < rest.len() ==> #[trigger] rest[i] == flags[i]);
        if let Some(g) = keyword_of(flags.last(), include_deleted) {
            lemma_pushed(keywords_of(rest, include_deleted), g, k);
        }
        if exists|i: int|
            0 <= i < rest.len() && keyword_of(#[trigger] rest[i], include_deleted) == Some(k) {
            let i = choose|i: int|
                0 <= i < rest.len() && keyword_of(#[trigger] rest[i], include_deleted) == Some(k);
            assert(keyword_of(flags[i], include_deleted) == Some(k));
        }
        if exists|i: int|
            0 <= i < flags.len() && keyword_of(#[trigger] flags[i], include_deleted) == Some(k) {
            let i = choose|i: int|
                0 <= i < flags.len() && keyword_of(#[trigger] flags[i], include_deleted) == Some(k);
            if i < rest.len() {
                assert(keyword_of(rest[i], include_deleted) == Some(k));
            }
        }
    }
}

/// A message has a keyword exactly where one of its letters means it; that it
/// was deleted is one only where deleted messages are kept. It counts as trashed
/// exactly where its letters say so.
pub proof fn keywords_are_those_of_the_letters(
    letters: Seq<char>,
    include_deleted: bool,
    k: Seq<char>,
)
    ensures
        keywords_of(flags_of(letters), include_deleted).contains(k) <==> (exists|i: int|
            0 <= i < letters.len() && means(#[trigger] letters[i], k)) && (include_deleted || k
            != "$deleted"@),
        flags_of(letters).contains(Flag::Trashed) <==> letters.contains('T'),
{
    lemma_keyword_names();
    let flags = flags_of(letters);
    lemma_keywords_of(flags, include_deleted, k);
    lemma_flags(letters, Flag::Passed);
    lemma_flags(letters, Flag::Replied);
    lemma_flags(letters, Flag::Seen);
    lemma_flags(letters, Flag::Draft);
    lemma_flags(letters, Flag::Flagged);
    lemma_flags(letters, Flag::Trashed);
    if keywords_of(flags, include_deleted).contains(k) {
        let j = choose|j: int|
            0 <= j < flags.len() && keyword_of(#[trigger] flags[j], include_deleted) == Some(k);
        lemma_flags(letters, flags[j]);
        assert(flags.contains(flags[j]));
        let i = choose|i: int|
            0 <= i < letters.len() && flag_of(#[trigger] letters[i]) == Some(flags[j]);
        assert(means(letters[i], k));
    }
    if (exists|i: int| 0 <= i < letters.len() && means(#[trigger] letters[i], k)) && (
    include_deleted || k != "$deleted"@) {
        let i = choose|i: int| 0 <= i < letters.len() && means(#[trigger] letters[i], k);
        let f = flag_of(letters[i])->0;
        lemma_flags(letters, f);
        assert(flag_of(letters[i]) == Some(f));
        let j = choose|j: int| 0 <= j < flags.len() && flags[j] == f;
        assert(keyword_of(flags[j], include_deleted) == Some(k));
    }
    if letters.contains('T') {
        let i = choose|i: int| 0 <= i < letters.len() && letters[i] == 'T';
        assert(flag_of(letters[i]) == Some(Flag::Trashed));
    }
}

} // verus!
