//! JSON values: the documents that sources send, that the archive keeps and
//! that targets receive. An object keeps its members in insertion order.

use crate::text;
use serde::de::Unexpected;
use vstd::prelude::*;

verus! {

/// A JSON number. One that is no integer is kept as the text it was written
/// with.
#[derive(Debug)]
pub enum Number {
    Unsigned(u64),
    Negative(i64),
    Float(String),
}

/// A JSON value.
#[derive(Debug)]
pub enum Json {
    Null,
    Bool(bool),
    Number(Number),
    Text(String),
    List(Vec<Json>),
    Object(Vec<(String, Json)>),
}

/// A JSON number as a mathematical value.
#[verifier::ext_equal]
pub enum NumberVal {
    Unsigned(u64),
    Negative(i64),
    Float(Seq<char>),
}

/// A JSON value as a mathematical value.
#[verifier::ext_equal]
pub enum Val {
    Null,
    Bool(bool),
    Number(NumberVal),
    Text(Seq<char>),
    List(Seq<Val>),
    Object(Seq<(Seq<char>, Val)>),
}

/// The members of an object, in order.
pub type Members = Seq<(Seq<char>, Val)>;

pub open spec fn number_view(n: Number) -> NumberVal {
    match n {
        Number::Unsigned(u) => NumberVal::Unsigned(u),
        Number::Negative(i) => NumberVal::Negative(i),
        Number::Float(t) => NumberVal::Float(t@),
    }
}

pub open spec fn json_view(j: Json) -> Val
    decreases j,
{
    match j {
        Json::Null => Val::Null,
        Json::Bool(b) => Val::Bool(b),
        Json::Number(n) => Val::Number(number_view(n)),
        Json::Text(t) => Val::Text(t@),
        Json::List(v) => Val::List(list_view(v@)),
        Json::Object(e) => Val::Object(members_view(e@)),
    }
}

pub open spec fn list_view(v: Seq<Json>) -> Seq<Val>
    decreases v,
{
    Seq::new(
        v.len(),
        |i: int|
            if 0 <= i < v.len() {
                json_view(v[i])
            } else {
                Val::Null
            },
    )
}

pub open spec fn members_view(e: Seq<(String, Json)>) -> Members
    decreases e,
{
    Seq::new(
        e.len(),
        |i: int|
            if 0 <= i < e.len() {
                (e[i].0@, json_view(e[i].1))
            } else {
                (Seq::empty(), Val::Null)
            },
    )
}

impl View for Json {
    type V = Val;

    open spec fn view(&self) -> Val {
        json_view(*self)
    }
}

/// An optional value, seen through its view.
pub open spec fn opt_view(j: Option<Json>) -> Option<Val> {
    match j {
        Some(v) => Some(v@),
        None => None,
    }
}

/// An optional reference to a value, seen through its view.
pub open spec fn ref_view(j: Option<&Json>) -> Option<Val> {
    match j {
        Some(v) => Some(v@),
        None => None,
    }
}

/// An optional text, seen through its view.
pub open spec fn text_view(t: Option<String>) -> Option<Seq<char>> {
    match t {
        Some(s) => Some(s@),
        None => None,
    }
}

/// An optional text slice, seen through its view.
pub open spec fn str_view(t: Option<&str>) -> Option<Seq<char>> {
    match t {
        Some(s) => Some(s@),
        None => None,
    }
}

/// The value of the first member with the given name.
pub open spec fn lookup(e: Members, key: Seq<char>) -> Option<Val>
    decreases e.len(),
{
    if e.len() == 0 {
        None
    } else if e[0].0 == key {
        Some(e[0].1)
    } else {
        lookup(e.drop_first(), key)
    }
}

/// Where the first member with the given name stands; the number of members
/// if there is none.
pub open spec fn position(e: Members, key: Seq<char>) -> int
    decreases e.len(),
{
    if e.len() == 0 || e[0].0 == key {
        0
    } else {
        1 + position(e.drop_first(), key)
    }
}

pub proof fn lemma_position(e: Members, key: Seq<char>, i: int)
    requires
        0 <= i <= e.len(),
        forall|k: int| 0 <= k < i ==> (#[trigger] e[k]).0 != key,
        i < e.len() ==> e[i].0 == key,
    ensures
        position(e, key) == i,
        lookup(e, key) == (if i < e.len() {
            Some(e[i].1)
        } else {
            None
        }),
    decreases e.len(),
{
    if i > 0 {
        assert(e[0].0 != key);
        let d = e.drop_first();
        assert forall|k: int| 0 <= k < i - 1 implies (#[trigger] d[k]).0 != key by {
            assert(d[k] == e[k + 1]);
        }
        if i < e.len() {
            assert(d[i - 1] == e[i]);
        }
        lemma_position(d, key, i - 1);
    }
}

/// The members after `key` is set to `value`: in place where the name is
/// there, else at the end.
pub open spec fn with_member(e: Members, key: Seq<char>, value: Val) -> Members {
    let i = position(e, key);
    if i < e.len() {
        e.update(i, (e[i].0, value))
    } else {
        e.push((key, value))
    }
}

/// The members after the one named `key` is taken out: the last member takes
/// its place.
pub open spec fn without_member(e: Members, key: Seq<char>) -> Members {
    let i = position(e, key);
    if i < e.len() {
        e.update(i, e.last()).drop_last()
    } else {
        e
    }
}

/// Setting a member changes that one and no other.
pub proof fn lemma_with_member(e: Members, key: Seq<char>, value: Val, k: Seq<char>)
    ensures
        lookup(with_member(e, key, value), k) == (if k == key {
            Some(value)
        } else {
            lookup(e, k)
        }),
    decreases e.len(),
{
    reveal_with_fuel(lookup, 2);
    let w = with_member(e, key, value);
    if e.len() > 0 && e[0].0 != key {
        let d = e.drop_first();
        lemma_with_member(d, key, value, k);
        lemma_position_within(d, key);
        assert(w.drop_first() =~= with_member(d, key, value));
        assert(w[0] == e[0]);
    } else if e.len() > 0 {
        assert(w.drop_first() =~= e.drop_first());
    } else {
        assert(w.drop_first() =~= Seq::empty());
    }
}

proof fn lemma_position_within(e: Members, key: Seq<char>)
    ensures
        0 <= position(e, key) <= e.len(),
    decreases e.len(),
{
    if e.len() > 0 && e[0].0 != key {
        lemma_position_within(e.drop_first(), key);
    }
}

impl Val {
    /// The member of an object with the given name.
    pub open spec fn get(self, key: Seq<char>) -> Option<Val> {
        match self {
            Val::Object(e) => lookup(e, key),
            _ => None,
        }
    }

    /// The text that this value is.
    pub open spec fn as_text(self) -> Option<Seq<char>> {
        match self {
            Val::Text(t) => Some(t),
            _ => None,
        }
    }

    /// The truth value that this value is.
    pub open spec fn as_bool(self) -> Option<bool> {
        match self {
            Val::Bool(b) => Some(b),
            _ => None,
        }
    }

    /// The non-negative integer that this value is.
    pub open spec fn as_u64(self) -> Option<u64> {
        match self {
            Val::Number(NumberVal::Unsigned(n)) => Some(n),
            _ => None,
        }
    }

    /// The signed integer that this value is, if it fits.
    pub open spec fn as_i64(self) -> Option<i64> {
        match self {
            Val::Number(NumberVal::Unsigned(n)) => if n <= i64::MAX {
                Some(n as i64)
            } else {
                None
            },
            Val::Number(NumberVal::Negative(n)) => Some(n),
            _ => None,
        }
    }

    /// The items of the list that this value is.
    pub open spec fn as_list(self) -> Option<Seq<Val>> {
        match self {
            Val::List(v) => Some(v),
            _ => None,
        }
    }

    /// The members of the object that this value is.
    pub open spec fn as_object(self) -> Option<Members> {
        match self {
            Val::Object(e) => Some(e),
            _ => None,
        }
    }

    /// The text of a member, if it is a text.
    pub open spec fn text_at(self, key: Seq<char>) -> Option<Seq<char>> {
        match self.get(key) {
            Some(v) => v.as_text(),
            None => None,
        }
    }

    /// The truth value of a member, if it is one.
    pub open spec fn bool_at(self, key: Seq<char>) -> Option<bool> {
        match self.get(key) {
            Some(v) => v.as_bool(),
            None => None,
        }
    }

    /// The items of a member, if it is a list; else none.
    pub open spec fn list_at(self, key: Seq<char>) -> Option<Seq<Val>> {
        match self.get(key) {
            Some(v) => v.as_list(),
            None => None,
        }
    }
}

/// Finds the first member with the given name; the number of members if
/// there is none.
pub fn find_member(e: &Vec<(String, Json)>, key: &str) -> (i: usize)
    ensures
        i <= e@.len(),
        i == position(members_view(e@), key@),
        lookup(members_view(e@), key@) == (if i < e@.len() {
            Some(e@[i as int].1@)
        } else {
            None
        }),
{
    let mut i: usize = 0;
    while i < e.len()
        invariant
            i <= e@.len(),
            forall|k: int| 0 <= k < i ==> (#[trigger] members_view(e@)[k]).0 != key@,
        decreases e@.len() - i,
    {
        if text::same(e[i].0.as_str(), key) {
            proof {
                lemma_position(members_view(e@), key@, i as int);
            }
            return i;
        }
        i = i + 1;
    }
    proof {
        lemma_position(members_view(e@), key@, i as int);
    }
    i
}

/// Sets a member: in place where the name is there, else at the end.
pub fn set_member(e: &mut Vec<(String, Json)>, key: &str, value: Json)
    ensures
        members_view(final(e)@) == with_member(members_view(old(e)@), key@, value@),
{
    let i: usize = find_member(e, key);
    let ghost before = e@;
    if i < e.len() {
        let name: String = e[i].0.clone();
        e.set(i, (name, value));
        assert(members_view(e@) =~= with_member(members_view(before), key@, value@));
    } else {
        e.push((key.to_owned(), value));
        assert(members_view(e@) =~= with_member(members_view(before), key@, value@));
    }
}

/// Takes a member out; the last one takes its place.
pub fn remove_member(e: &mut Vec<(String, Json)>, key: &str) -> (r: Option<Json>)
    ensures
        members_view(final(e)@) == without_member(members_view(old(e)@), key@),
        opt_view(r) == lookup(members_view(old(e)@), key@),
{
    let i: usize = find_member(e, key);
    let ghost before = e@;
    if i < e.len() {
        let gone: (String, Json) = e.swap_remove(i);
        assert(members_view(e@) =~= without_member(members_view(before), key@));
        Some(gone.1)
    } else {
        None
    }
}

/// Adds a member at the end.
pub fn push_member(e: &mut Vec<(String, Json)>, key: &str, value: Json)
    ensures
        members_view(final(e)@) == members_view(old(e)@).push((key@, value@)),
{
    let ghost before = e@;
    e.push((key.to_owned(), value));
    assert(members_view(e@) =~= members_view(before).push((key@, value@)));
}

/// The same members once more.
pub fn copied(e: &Vec<(String, Json)>) -> (r: Vec<(String, Json)>)
    ensures
        members_view(r@) == members_view(e@),
{
    let mut r: Vec<(String, Json)> = Vec::new();
    let mut i: usize = 0;
    while i < e.len()
        invariant
            i <= e@.len(),
            r@.len() == i,
            forall|k: int|
                0 <= k < i ==> (#[trigger] r@[k]).0@ == e@[k].0@ && r@[k].1@ == e@[k].1@,
        decreases e@.len() - i,
    {
        r.push((e[i].0.clone(), e[i].1.dup()));
        i = i + 1;
    }
    assert(members_view(r@) =~= members_view(e@));
    r
}

/// A text that may be there, borrowed.
pub fn str_of(t: &Option<String>) -> (r: Option<&str>)
    ensures
        str_view(r) == text_view(*t),
{
    match t {
        Some(s) => Some(s.as_str()),
        None => None,
    }
}

/// What is found in members put together: first in the former, then in the
/// latter.
pub proof fn lemma_lookup_concat(a: Members, b: Members, key: Seq<char>)
    ensures
        lookup(a + b, key) == (match lookup(a, key) {
            Some(v) => Some(v),
            None => lookup(b, key),
        }),
    decreases a.len(),
{
    if a.len() == 0 {
        assert(a + b =~= b);
    } else {
        assert((a + b).drop_first() =~= a.drop_first() + b);
        lemma_lookup_concat(a.drop_first(), b, key);
    }
}

/// What is found after a member that may be missing.
pub proof fn lemma_lookup_member_if(a: Members, name: Seq<char>, value: Option<Val>, key: Seq<char>)
    ensures
        lookup(a + member_if(name, value), key) == (match lookup(a, key) {
            Some(v) => Some(v),
            None => if name == key {
                value
            } else {
                None
            },
        }),
{
    lemma_lookup_concat(a, member_if(name, value), key);
    let b = member_if(name, value);
    if value is Some {
        assert(b.drop_first() =~= Seq::empty());
        assert(lookup(b.drop_first(), key) is None);
    }
}

/// What is found in one member.
pub proof fn lemma_find1(k1: Seq<char>, v1: Val, key: Seq<char>)
    ensures
        lookup(seq![(k1, v1)], key) == (if key == k1 {
            Some(v1)
        } else {
            None
        }),
{
    let e = seq![(k1, v1)];
    assert(e.drop_first() =~= Seq::empty());
    assert(lookup(e.drop_first(), key) is None);
}

/// What is found in two members.
pub proof fn lemma_find2(k1: Seq<char>, v1: Val, k2: Seq<char>, v2: Val, key: Seq<char>)
    ensures
        lookup(seq![(k1, v1), (k2, v2)], key) == (if key == k1 {
            Some(v1)
        } else if key == k2 {
            Some(v2)
        } else {
            None
        }),
{
    let e = seq![(k1, v1), (k2, v2)];
    assert(e.drop_first() =~= seq![(k2, v2)]);
    lemma_find1(k2, v2, key);
}

/// What is found in three members.
pub proof fn lemma_find3(
    k1: Seq<char>,
    v1: Val,
    k2: Seq<char>,
    v2: Val,
    k3: Seq<char>,
    v3: Val,
    key: Seq<char>,
)
    ensures
        lookup(seq![(k1, v1), (k2, v2), (k3, v3)], key) == (if key == k1 {
            Some(v1)
        } else if key == k2 {
            Some(v2)
        } else if key == k3 {
            Some(v3)
        } else {
            None
        }),
{
    let e = seq![(k1, v1), (k2, v2), (k3, v3)];
    assert(e.drop_first() =~= seq![(k2, v2), (k3, v3)]);
    lemma_find2(k2, v2, k3, v3, key);
}

/// What is found in four members.
pub proof fn lemma_find4(
    k1: Seq<char>,
    v1: Val,
    k2: Seq<char>,
    v2: Val,
    k3: Seq<char>,
    v3: Val,
    k4: Seq<char>,
    v4: Val,
    key: Seq<char>,
)
    ensures
        lookup(seq![(k1, v1), (k2, v2), (k3, v3), (k4, v4)], key) == (if key == k1 {
            Some(v1)
        } else if key == k2 {
            Some(v2)
        } else if key == k3 {
            Some(v3)
        } else if key == k4 {
            Some(v4)
        } else {
            None
        }),
{
    let e = seq![(k1, v1), (k2, v2), (k3, v3), (k4, v4)];
    assert(e.drop_first() =~= seq![(k2, v2), (k3, v3), (k4, v4)]);
    lemma_find3(k2, v2, k3, v3, k4, v4, key);
}

/// At most one member: the given one, if it has a value.
pub open spec fn member_if(key: Seq<char>, value: Option<Val>) -> Members {
    match value {
        Some(v) => seq![(key, v)],
        None => Seq::empty(),
    }
}

/// Adds a member at the end if it has a value.
pub fn push_member_if(e: &mut Vec<(String, Json)>, key: &str, value: Option<Json>)
    ensures
        members_view(final(e)@) == members_view(old(e)@) + member_if(key@, opt_view(value)),
{
    let ghost before = members_view(e@);
    match value {
        Some(v) => {
            let ghost w = v@;
            push_member(e, key, v);
            assert(before.push((key@, w)) =~= before + member_if(key@, Some(w)));
        },
        None => {
            assert(before =~= before + member_if(key@, None));
        },
    }
}

/// A text as a JSON value.
pub fn text_json(s: &str) -> (j: Json)
    ensures
        j@ == Val::Text(s@),
{
    Json::Text(s.to_owned())
}

/// An unsigned integer as a JSON value.
pub fn number_json(n: u64) -> (j: Json)
    ensures
        j@ == Val::Number(NumberVal::Unsigned(n)),
{
    Json::Number(Number::Unsigned(n))
}

/// A signed integer as a JSON value.
pub open spec fn int_val(n: i64) -> Val {
    if n >= 0 {
        Val::Number(NumberVal::Unsigned(n as u64))
    } else {
        Val::Number(NumberVal::Negative(n))
    }
}

pub fn int_json(n: i64) -> (j: Json)
    ensures
        j@ == int_val(n),
{
    if n >= 0 {
        Json::Number(Number::Unsigned(n as u64))
    } else {
        Json::Number(Number::Negative(n))
    }
}

impl Json {
    /// The member of an object with the given name.
    pub fn get(&self, key: &str) -> (r: Option<&Json>)
        ensures
            ref_view(r) == self@.get(key@),
    {
        match self {
            Json::Object(e) => {
                let i: usize = find_member(e, key);
                if i < e.len() {
                    Some(&e[i].1)
                } else {
                    None
                }
            },
            _ => None,
        }
    }

    pub fn as_text(&self) -> (r: Option<&str>)
        ensures
            str_view(r) == self@.as_text(),
    {
        match self {
            Json::Text(t) => Some(t.as_str()),
            _ => None,
        }
    }

    pub fn as_bool(&self) -> (r: Option<bool>)
        ensures
            r == self@.as_bool(),
    {
        match self {
            Json::Bool(b) => Some(*b),
            _ => None,
        }
    }

    pub fn as_u64(&self) -> (r: Option<u64>)
        ensures
            r == self@.as_u64(),
    {
        match self {
            Json::Number(Number::Unsigned(n)) => Some(*n),
            _ => None,
        }
    }

    pub fn as_i64(&self) -> (r: Option<i64>)
        ensures
            r == self@.as_i64(),
    {
        match self {
            Json::Number(Number::Unsigned(n)) => if *n <= 0x7fff_ffff_ffff_ffff {
                Some(*n as i64)
            } else {
                None
            },
            Json::Number(Number::Negative(n)) => Some(*n),
            _ => None,
        }
    }

    pub fn as_list(&self) -> (r: Option<&Vec<Json>>)
        ensures
            match r {
                Some(v) => self@.as_list() == Some(list_view(v@)),
                None => self@.as_list() is None,
            },
    {
        match self {
            Json::List(v) => Some(v),
            _ => None,
        }
    }

    pub fn as_object(&self) -> (r: Option<&Vec<(String, Json)>>)
        ensures
            match r {
                Some(e) => self@.as_object() == Some(members_view(e@)),
                None => self@.as_object() is None,
            },
    {
        match self {
            Json::Object(e) => Some(e),
            _ => None,
        }
    }

    /// The text of a member, if it is a text.
    pub fn text_at(&self, key: &str) -> (r: Option<&str>)
        ensures
            str_view(r) == self@.text_at(key@),
    {
        match self.get(key) {
            Some(v) => v.as_text(),
            None => None,
        }
    }

    pub fn bool_at(&self, key: &str) -> (r: Option<bool>)
        ensures
            r == self@.bool_at(key@),
    {
        match self.get(key) {
            Some(v) => v.as_bool(),
            None => None,
        }
    }

    pub fn list_at(&self, key: &str) -> (r: Option<&Vec<Json>>)
        ensures
            match r {
                Some(v) => self@.list_at(key@) == Some(list_view(v@)),
                None => self@.list_at(key@) is None,
            },
    {
        match self.get(key) {
            Some(v) => v.as_list(),
            None => None,
        }
    }

    /// A copy of the value.
    pub fn dup(&self) -> (r: Json)
        ensures
            r@ == self@,
        decreases self,
    {
        match self {
            Json::Null => Json::Null,
            Json::Bool(b) => Json::Bool(*b),
            Json::Number(Number::Unsigned(n)) => Json::Number(Number::Unsigned(*n)),
            Json::Number(Number::Negative(n)) => Json::Number(Number::Negative(*n)),
            Json::Number(Number::Float(t)) => Json::Number(Number::Float(t.clone())),
            Json::Text(t) => Json::Text(t.clone()),
            Json::List(v) => {
                let mut out: Vec<Json> = Vec::new();
                let mut i: usize = 0;
                while i < v.len()
                    invariant
                        self == Json::List(*v),
                        i <= v@.len(),
                        out@.len() == i,
                        forall|k: int| 0 <= k < i ==> (#[trigger] out@[k])@ == v@[k]@,
                    decreases v@.len() - i,
                {
                    proof {
                        assert(decreases_to!(*self => self->List_0));
                        assert(decreases_to!(*v => v@));
                        assert(decreases_to!(v@ => v@[i as int]));
                    }
                    out.push(v[i].dup());
                    i = i + 1;
                }
                assert(list_view(out@) =~= list_view(v@));
                Json::List(out)
            },
            Json::Object(e) => {
                let mut out: Vec<(String, Json)> = Vec::new();
                let mut i: usize = 0;
                while i < e.len()
                    invariant
                        self == Json::Object(*e),
                        i <= e@.len(),
                        out@.len() == i,
                        forall|k: int|
                            0 <= k < i ==> (#[trigger] out@[k]).0@ == e@[k].0@ && out@[k].1@
                                == e@[k].1@,
                    decreases e@.len() - i,
                {
                    proof {
                        assert(decreases_to!(*self => self->Object_0));
                        assert(decreases_to!(*e => e@));
                        assert(decreases_to!(e@ => e@[i as int]));
                        assert(decreases_to!(e@[i as int] => e@[i as int].1));
                    }
                    out.push((e[i].0.clone(), e[i].1.dup()));
                    i = i + 1;
                }
                assert(members_view(out@) =~= members_view(e@));
                Json::Object(out)
            },
        }
    }

    /// Whether two values are equal: lists item by item, objects member by
    /// member in whatever order.
    pub fn same_as(&self, other: &Json) -> (r: bool)
        ensures
            r == same_value(self@, other@),
        decreases self,
    {
        match (self, other) {
            (Json::Null, Json::Null) => true,
            (Json::Bool(a), Json::Bool(b)) => *a == *b,
            (Json::Number(Number::Unsigned(a)), Json::Number(Number::Unsigned(b))) => *a == *b,
            (Json::Number(Number::Negative(a)), Json::Number(Number::Negative(b))) => *a == *b,
            (Json::Number(Number::Float(a)), Json::Number(Number::Float(b))) => text::same(
                a.as_str(),
                b.as_str(),
            ),
            (Json::Text(a), Json::Text(b)) => text::same(a.as_str(), b.as_str()),
            (Json::List(a), Json::List(b)) => {
                if a.len() != b.len() {
                    return false;
                }
                let mut i: usize = 0;
                while i < a.len()
                    invariant
                        self == Json::List(*a),
                        other == Json::List(*b),
                        i <= a@.len() == b@.len(),
                        forall|k: int|
                            0 <= k < i ==> same_value(list_view(a@)[k], #[trigger] list_view(b@)[k]),
                    decreases a@.len() - i,
                {
                    proof {
                        assert(decreases_to!(*self => self->List_0));
                        assert(decreases_to!(*a => a@));
                        assert(decreases_to!(a@ => a@[i as int]));
                    }
                    let ok: bool = a[i].same_as(&b[i]);
                    if !ok {
                        assert(list_view(b@)[i as int] == b@[i as int]@);
                        return false;
                    }
                    i = i + 1;
                }
                assert(self@ == Val::List(list_view(a@)) && other@ == Val::List(list_view(b@)));
                true
            },
            (Json::Object(a), Json::Object(b)) => {
                if a.len() != b.len() {
                    return false;
                }
                let mut i: usize = 0;
                while i < a.len()
                    invariant
                        self == Json::Object(*a),
                        other == Json::Object(*b),
                        i <= a@.len() == b@.len(),
                        forall|k: int|
                            0 <= k < i ==> (lookup(members_view(b@), (#[trigger] members_view(a@)[k]).0) matches Some(f)
                                && same_value(members_view(a@)[k].1, f)),
                    decreases a@.len() - i,
                {
                    let j: usize = find_member(b, a[i].0.as_str());
                    assert(members_view(a@)[i as int] == (a@[i as int].0@, a@[i as int].1@));
                    if j >= b.len() {
                        assert(self@ == Val::Object(members_view(a@)));
                        return false;
                    }
                    proof {
                        assert(decreases_to!(*self => self->Object_0));
                        assert(decreases_to!(*a => a@));
                        assert(decreases_to!(a@ => a@[i as int]));
                        assert(decreases_to!(a@[i as int] => a@[i as int].1));
                    }
                    let ok: bool = a[i].1.same_as(&b[j].1);
                    if !ok {
                        assert(self@ == Val::Object(members_view(a@)));
                        return false;
                    }
                    i = i + 1;
                }
                assert(self@ == Val::Object(members_view(a@)) && other@ == Val::Object(
                    members_view(b@),
                ));
                true
            },
            _ => false,
        }
    }
}

/// Equality of JSON values: the order of an object's members does not count.
pub open spec fn same_value(a: Val, b: Val) -> bool
    decreases a,
{
    match (a, b) {
        (Val::List(x), Val::List(y)) => x.len() == y.len() && forall|k: int|
            0 <= k < x.len() ==> same_value(x[k], #[trigger] y[k]),
        (Val::Object(x), Val::Object(y)) => x.len() == y.len() && forall|k: int|
            0 <= k < x.len() ==> (lookup(y, (#[trigger] x[k]).0) matches Some(f) && same_value(
                x[k].1,
                f,
            )),
        _ => a == b,
    }
}

/// The texts of a list, as JSON values.
pub open spec fn text_vals(v: Seq<Seq<char>>) -> Seq<Val> {
    Seq::new(v.len(), |i: int| Val::Text(v[i]))
}

/// A list of texts as a JSON value.
pub fn texts_json(v: &Vec<String>) -> (j: Json)
    ensures
        j@ == Val::List(text_vals(text::texts(v@))),
{
    let mut out: Vec<Json> = Vec::new();
    let mut i: usize = 0;
    while i < v.len()
        invariant
            i <= v@.len(),
            out@.len() == i,
            forall|k: int| 0 <= k < i ==> (#[trigger] out@[k])@ == Val::Text(v@[k]@),
        decreases v@.len() - i,
    {
        out.push(text_json(v[i].as_str()));
        i = i + 1;
    }
    assert(list_view(out@) =~= text_vals(text::texts(v@)));
    Json::List(out)
}

/// An object with one member.
pub open spec fn obj1(k: Seq<char>, v: Val) -> Val {
    Val::Object(seq![(k, v)])
}

/// An object with two members.
pub open spec fn obj2(k1: Seq<char>, v1: Val, k2: Seq<char>, v2: Val) -> Val {
    Val::Object(seq![(k1, v1), (k2, v2)])
}

/// An object with three members.
pub open spec fn obj3(
    k1: Seq<char>,
    v1: Val,
    k2: Seq<char>,
    v2: Val,
    k3: Seq<char>,
    v3: Val,
) -> Val {
    Val::Object(seq![(k1, v1), (k2, v2), (k3, v3)])
}

pub fn object1(k: &str, v: Json) -> (j: Json)
    ensures
        j@ == obj1(k@, v@),
{
    let mut e: Vec<(String, Json)> = Vec::new();
    let ghost w = v@;
    e.push((k.to_owned(), v));
    assert(members_view(e@) =~= seq![(k@, w)]);
    Json::Object(e)
}

pub fn object2(k1: &str, v1: Json, k2: &str, v2: Json) -> (j: Json)
    ensures
        j@ == obj2(k1@, v1@, k2@, v2@),
{
    let mut e: Vec<(String, Json)> = Vec::new();
    let ghost w1 = v1@;
    let ghost w2 = v2@;
    e.push((k1.to_owned(), v1));
    e.push((k2.to_owned(), v2));
    assert(members_view(e@) =~= seq![(k1@, w1), (k2@, w2)]);
    Json::Object(e)
}

pub fn object3(k1: &str, v1: Json, k2: &str, v2: Json, k3: &str, v3: Json) -> (j: Json)
    ensures
        j@ == obj3(k1@, v1@, k2@, v2@, k3@, v3@),
{
    let mut e: Vec<(String, Json)> = Vec::new();
    let ghost w1 = v1@;
    let ghost w2 = v2@;
    let ghost w3 = v3@;
    e.push((k1.to_owned(), v1));
    e.push((k2.to_owned(), v2));
    e.push((k3.to_owned(), v3));
    assert(members_view(e@) =~= seq![(k1@, w1), (k2@, w2), (k3@, w3)]);
    Json::Object(e)
}

/// A text that is not empty.
pub open spec fn filled(t: Option<Seq<char>>) -> Option<Seq<char>> {
    match t {
        Some(s) => if s.len() > 0 {
            Some(s)
        } else {
            None
        },
        None => None,
    }
}

/// A member's text, if it is a text and not empty.
pub fn filled_at<'a>(j: &'a Json, key: &str) -> (r: Option<&'a str>)
    ensures
        str_view(r) == filled(j@.text_at(key@)),
{
    match j.text_at(key) {
        Some(t) => if t.is_empty() {
            None
        } else {
            Some(t)
        },
        None => None,
    }
}

/// A text as an optional value.
pub open spec fn text_opt(t: Option<Seq<char>>) -> Option<Val> {
    match t {
        Some(s) => Some(Val::Text(s)),
        None => None,
    }
}

pub fn text_json_opt(t: Option<&str>) -> (r: Option<Json>)
    ensures
        opt_view(r) == text_opt(str_view(t)),
{
    match t {
        Some(s) => Some(text_json(s)),
        None => None,
    }
}

/// An object, if it has members.
pub open spec fn object_opt(e: Members) -> Option<Val> {
    if e.len() > 0 {
        Some(Val::Object(e))
    } else {
        None
    }
}

pub fn object_json_opt(e: Vec<(String, Json)>) -> (r: Option<Json>)
    ensures
        opt_view(r) == object_opt(members_view(e@)),
{
    if e.len() > 0 {
        Some(Json::Object(e))
    } else {
        None
    }
}

/// A list, if it has items.
pub open spec fn list_opt(v: Seq<Val>) -> Option<Val> {
    if v.len() > 0 {
        Some(Val::List(v))
    } else {
        None
    }
}

pub fn list_json_opt(v: Vec<Json>) -> (r: Option<Json>)
    ensures
        opt_view(r) == list_opt(list_view(v@)),
{
    if v.len() > 0 {
        Some(Json::List(v))
    } else {
        None
    }
}

/// At most one item.
pub open spec fn item_if(value: Option<Val>) -> Seq<Val> {
    match value {
        Some(v) => seq![v],
        None => Seq::empty(),
    }
}

/// Adds an item at the end if there is one.
pub fn push_item_if(list: &mut Vec<Json>, value: Option<Json>)
    ensures
        list_view(final(list)@) == list_view(old(list)@) + item_if(opt_view(value)),
{
    let ghost before = list@;
    match value {
        Some(v) => {
            let ghost w = v@;
            list.push(v);
            assert(list_view(list@) =~= list_view(before) + seq![w]);
        },
        None => {
            assert(list_view(list@) =~= list_view(before) + Seq::<Val>::empty());
        },
    }
}

/// The value `serde_json` holds, as a JSON value.
pub uninterp spec fn json_contents(v: serde_json::Value) -> Val;

/// What `serde_json::from_slice` reads from a sequence of bytes: a value, or
/// the text of its error.
pub uninterp spec fn json_of(bytes: Seq<u8>) -> Result<Val, Seq<char>>;

#[verifier::external_type_specification]
#[verifier::external_body]
pub struct ExValue(serde_json::Value);

/// The text that `serde_json` writes for a value that it holds.
pub uninterp spec fn json_text(v: Val) -> Seq<char>;

/// Whether the members of the objects within a value have distinct names, its
/// negative numbers are negative, and it holds no number that is no integer.
pub open spec fn is_plain(v: Val) -> bool
    decreases v,
{
    match v {
        Val::Number(NumberVal::Negative(n)) => n < 0,
        Val::Number(NumberVal::Float(_)) => false,
        Val::List(l) => forall|i: int| #![trigger l[i]] 0 <= i < l.len() ==> is_plain(l[i]),
        Val::Object(e) => {
            &&& forall|i: int| #![trigger e[i]] 0 <= i < e.len() ==> is_plain(e[i].1)
            &&& forall|i: int, j: int|
                #![trigger e[i], e[j]]
                0 <= i < j < e.len() ==> e[i].0 != e[j].0
        },
        _ => true,
    }
}

/// Whether no more than so many lists and objects within a value lie within
/// one another.
pub open spec fn is_nested_within(v: Val, depth: nat) -> bool
    decreases v,
{
    match v {
        Val::List(l) => depth > 0 && forall|i: int|
            #![trigger l[i]]
            0 <= i < l.len() ==> is_nested_within(l[i], (depth - 1) as nat),
        Val::Object(e) => depth > 0 && forall|i: int|
            #![trigger e[i]]
            0 <= i < e.len() ==> is_nested_within(e[i].1, (depth - 1) as nat),
        _ => true,
    }
}

/// Whether a value comes back from its text: it is plain, and not nested
/// deeper than the reader goes.
pub open spec fn reads_back(v: Val) -> bool {
    is_plain(v) && is_nested_within(v, 127)
}

/// `serde_json::from_slice` reads one JSON document. What it reads, and the
/// text of its error, depend on the bytes alone. From the text that
/// `serde_json` wrote for a plain value it reads that value: its integers are
/// exact, its strings escape what they must, its map keeps the order of
/// insertion, and it goes 127 levels deep.
#[verifier::external_body]
fn read_value(bytes: &[u8]) -> (r: Result<serde_json::Value, String>)
    ensures
        match r {
            Ok(v) => json_of(bytes@) == Ok::<Val, Seq<char>>(json_contents(v)),
            Err(e) => json_of(bytes@) == Err::<Val, Seq<char>>(e@),
        },
        match r {
            Ok(x) => forall|v: Val|
                reads_back(v) && bytes@ == vstd::utf8::encode_utf8(#[trigger] json_text(v))
                    ==> json_contents(x) == v,
            Err(_) => forall|v: Val|
                reads_back(v) ==> bytes@ != vstd::utf8::encode_utf8(#[trigger] json_text(v)),
        },
{
    serde_json::from_slice::<serde_json::Value>(bytes).map_err(|e| e.to_string())
}

/// Takes a `serde_json::Value` apart, one variant for one. Its map keeps the
/// order of insertion.
#[verifier::external_body]
fn from_value(v: serde_json::Value) -> (r: Json)
    ensures
        r@ == json_contents(v),
{
    match v {
        serde_json::Value::Null => Json::Null,
        serde_json::Value::Bool(b) => Json::Bool(b),
        serde_json::Value::Number(n) => Json::Number(match (n.as_u64(), n.as_i64()) {
            (Some(u), _) => Number::Unsigned(u),
            (None, Some(i)) => Number::Negative(i),
            (None, None) => Number::Float(n.to_string()),
        }),
        serde_json::Value::String(s) => Json::Text(s),
        serde_json::Value::Array(a) => Json::List(a.into_iter().map(from_value).collect()),
        serde_json::Value::Object(m) => Json::Object(
            m.into_iter().map(|(k, x)| (k, from_value(x))).collect()),
    }
}

/// The value that `serde_json` holds for a value: an integer that is not
/// negative is held as such, a number that is no integer as what is read from
/// its text, and of members with one name the last value in the first place.
pub open spec fn held(v: Val) -> Val
    decreases v,
{
    match v {
        Val::Number(NumberVal::Negative(n)) => if n < 0 {
            v
        } else {
            Val::Number(NumberVal::Unsigned(n as u64))
        },
        Val::Number(NumberVal::Float(t)) => match json_of(vstd::utf8::encode_utf8(t)) {
            Ok(x) => x,
            Err(_) => Val::Null,
        },
        Val::List(l) => Val::List(held_items(l)),
        Val::Object(e) => Val::Object(held_members(e)),
        _ => v,
    }
}

pub open spec fn held_items(l: Seq<Val>) -> Seq<Val>
    decreases l,
{
    if l.len() == 0 {
        Seq::empty()
    } else {
        held_items(l.drop_last()).push(held(l[l.len() - 1]))
    }
}

pub open spec fn held_members(e: Members) -> Members
    decreases e,
{
    if e.len() == 0 {
        Seq::empty()
    } else {
        with_member(held_members(e.drop_last()), e[e.len() - 1].0, held(e[e.len() - 1].1))
    }
}

/// A plain value is held as it is.
pub proof fn plain_values_are_held_as_they_are(v: Val)
    requires
        is_plain(v),
    ensures
        held(v) == v,
    decreases v,
{
    match v {
        Val::List(l) => {
            lemma_held_items(l);
        },
        Val::Object(e) => {
            lemma_held_members(e);
        },
        _ => {},
    }
}

proof fn lemma_held_items(l: Seq<Val>)
    requires
        forall|i: int| #![trigger l[i]] 0 <= i < l.len() ==> is_plain(l[i]),
    ensures
        held_items(l) == l,
    decreases l,
{
    if l.len() > 0 {
        let d = l.drop_last();
        assert forall|i: int| #![trigger d[i]] 0 <= i < d.len() implies is_plain(d[i]) by {
            assert(d[i] == l[i]);
        }
        lemma_held_items(d);
        plain_values_are_held_as_they_are(l[l.len() - 1]);
        assert(held_items(l) =~= l);
    } else {
        assert(held_items(l) =~= l);
    }
}

proof fn lemma_held_members(e: Members)
    requires
        forall|i: int| #![trigger e[i]] 0 <= i < e.len() ==> is_plain(e[i].1),
        forall|i: int, j: int|
            #![trigger e[i], e[j]]
            0 <= i < j < e.len() ==> e[i].0 != e[j].0,
    ensures
        held_members(e) == e,
    decreases e,
{
    if e.len() > 0 {
        let d = e.drop_last();
        let last = e[e.len() - 1];
        assert forall|i: int| #![trigger d[i]] 0 <= i < d.len() implies is_plain(d[i].1) by {
            assert(d[i] == e[i]);
        }
        assert forall|i: int, j: int|
            #![trigger d[i], d[j]]
            0 <= i < j < d.len() implies d[i].0 != d[j].0 by {
            assert(e[i].0 != e[j].0);
        }
        lemma_held_members(d);
        assert(is_plain(last.1));
        plain_values_are_held_as_they_are(last.1);
        assert forall|k: int| 0 <= k < d.len() implies (#[trigger] d[k]).0 != last.0 by {
            assert(e[k].0 != e[e.len() - 1].0);
        }
        lemma_position(d, last.0, d.len() as int);
        assert(held_members(e) =~= e);
    } else {
        assert(held_members(e) =~= e);
    }
}

/// Builds a `serde_json::Value`, one variant for one. A map takes the members
/// in order, and of two with one name the later value. A number that is no
/// integer is read with `serde_json::from_str`, and is null where that fails.
#[verifier::external_body]
fn to_value(j: &Json) -> (r: serde_json::Value)
    ensures
        json_contents(r) == held(j@),
{
    match j {
        Json::Null => serde_json::Value::Null,
        Json::Bool(b) => serde_json::Value::Bool(*b),
        Json::Number(Number::Unsigned(n)) => serde_json::Value::from(*n),
        Json::Number(Number::Negative(n)) => serde_json::Value::from(*n),
        Json::Number(Number::Float(t)) => serde_json::from_str(t).unwrap_or_default(),
        Json::Text(t) => serde_json::Value::String(t.clone()),
        Json::List(v) => serde_json::Value::Array(v.iter().map(to_value).collect()),
        Json::Object(e) => serde_json::Value::Object(
            e.iter().map(|(k, x)| (k.clone(), to_value(x))).collect()),
    }
}

/// `serde_json::Value::to_string`. The text depends on the value alone.
#[verifier::external_body]
fn print_value(v: &serde_json::Value) -> (r: String)
    ensures
        r@ == json_text(json_contents(*v)),
{
    v.to_string()
}

/// The text of a value: what is written for the value that is held for it.
pub open spec fn written(v: Val) -> Seq<char> {
    json_text(held(v))
}

/// Writes a value as compact JSON.
pub fn write(j: &Json) -> (r: String)
    ensures
        r@ == written(j@),
{
    print_value(&to_value(j))
}

/// The text of the error with which `serde_json::from_value` refuses a value
/// that is to be a `u64`; nothing where it does not.
pub uninterp spec fn unsigned_fault(v: Val) -> Seq<char>;

/// The text of the error with which `serde_json::from_value` refuses a value
/// that is to be a map from texts to flags; nothing where it does not.
pub uninterp spec fn flags_fault(v: Val) -> Seq<char>;

/// The text of the error that `serde_json` has for a value of another type
/// than is expected.
pub uninterp spec fn type_fault(v: Val, expected: Seq<char>) -> Seq<char>;

/// `serde_json::from_value` to a `u64`. The text of its error depends on the
/// value alone.
#[verifier::external_body]
fn unsigned_error(v: serde_json::Value) -> (r: String)
    ensures
        r@ == unsigned_fault(json_contents(v)),
{
    serde_json::from_value::<u64>(v).map_or_else(|e| e.to_string(), |_| String::new())
}

/// `serde_json::from_value` to an `indexmap::IndexMap<String, bool>`. The text
/// of its error depends on the value alone.
#[verifier::external_body]
fn flags_error(v: serde_json::Value) -> (r: String)
    ensures
        r@ == flags_fault(json_contents(v)),
{
    serde_json::from_value::<indexmap::IndexMap<String, bool>>(v).map_or_else(
        |e| e.to_string(),
        |_| String::new(),
    )
}

/// `invalid_type` of `serde_json::Error`, of what the value is. The text
/// depends on the value and on what is expected alone.
#[verifier::external_body]
fn type_error(v: &serde_json::Value, expected: &str) -> (r: String)
    ensures
        r@ == type_fault(json_contents(*v), expected@),
{
    let found: Unexpected = match v {
        serde_json::Value::Null => Unexpected::Unit,
        serde_json::Value::Bool(b) => Unexpected::Bool(*b),
        serde_json::Value::Number(n) => match (n.as_u64(), n.as_i64()) {
            (Some(u), _) => Unexpected::Unsigned(u),
            (None, Some(i)) => Unexpected::Signed(i),
            (None, None) => Unexpected::Float(n.as_f64().unwrap_or_default()),
        },
        serde_json::Value::String(s) => Unexpected::Str(s),
        serde_json::Value::Array(_) => Unexpected::Seq,
        serde_json::Value::Object(_) => Unexpected::Map,
    };
    <serde_json::Error as serde::de::Error>::invalid_type(found, &expected).to_string()
}

/// What is said of a value that is to be an unsigned number and is none.
pub fn not_unsigned(j: &Json) -> (r: String)
    ensures
        r@ == unsigned_fault(held(j@)),
{
    unsigned_error(to_value(j))
}

/// What is said of a value that is to be an object of flags and is none.
pub fn not_flags(j: &Json) -> (r: String)
    ensures
        r@ == flags_fault(held(j@)),
{
    flags_error(to_value(j))
}

/// What is said of a value of another type than is expected.
pub fn not_expected(j: &Json, expected: &str) -> (r: String)
    ensures
        r@ == type_fault(held(j@), expected@),
{
    type_error(&to_value(j), expected)
}

/// Reads one JSON document, or gives the text of the reader's error. The text
/// of a value that reads back gives that value.
pub fn parse(bytes: &[u8]) -> (r: Result<Json, String>)
    ensures
        match r {
            Ok(j) => json_of(bytes@) == Ok::<Val, Seq<char>>(j@),
            Err(e) => json_of(bytes@) == Err::<Val, Seq<char>>(e@),
        },
        forall|v: Val|
            reads_back(v) && bytes@ == vstd::utf8::encode_utf8(#[trigger] json_text(v)) ==> (
            r matches Ok(j) && j@ == v),
{
    match read_value(bytes) {
        Ok(v) => Ok(from_value(v)),
        Err(e) => Err(e),
    }
}

} // verus!
