//! A Graph contact as a JSContact card.

use crate::exchange_graph::error::GraphError;
use crate::json;
use crate::json::{Json, Members, NumberVal, Val};
use crate::text;
use vstd::prelude::*;

verus! {

/// A card and its identifier.
#[derive(Debug)]
pub struct ConvertedContact {
    pub uid: String,
    pub data: Json,
}

/// The identifier under which a Graph contact is kept.
pub open spec fn contact_uid(graph_id: Seq<char>) -> Seq<char> {
    crate::digest::digest_name("vandelay-graph-"@, graph_id)
}

/// `true` under one name.
pub open spec fn flag(name: Seq<char>) -> Val {
    json::obj1(name, Val::Bool(true))
}

/// One part of a name or an address.
pub open spec fn component(of: Seq<char>, kind: Seq<char>, value: Option<Seq<char>>) -> Option<
    Val,
> {
    match value {
        Some(v) => Some(
            json::obj3("@type"@, Val::Text(of), "kind"@, Val::Text(kind), "value"@, Val::Text(v)),
        ),
        None => None,
    }
}

/// The text of a member that is there and not empty.
pub open spec fn field(c: Val, key: Seq<char>) -> Option<Seq<char>> {
    json::filled(c.text_at(key))
}

/// The parts of a contact's name, in the order of writing.
pub open spec fn name_components(c: Val) -> Seq<Val> {
    Seq::<Val>::empty() + json::item_if(
        component("NameComponent"@, "title"@, field(c, "title"@)),
    ) + json::item_if(component("NameComponent"@, "given"@, field(c, "givenName"@)))
        + json::item_if(component("NameComponent"@, "given2"@, field(c, "middleName"@)))
        + json::item_if(component("NameComponent"@, "surname"@, field(c, "surname"@)))
        + json::item_if(component("NameComponent"@, "generation"@, field(c, "generation"@)))
}

/// One for a field that is filled, none for another.
pub open spec fn filled_count(c: Val, key: Seq<char>) -> nat {
    if field(c, key) is Some {
        1
    } else {
        0
    }
}

/// Where the given name stands among the parts of the name.
pub open spec fn given_index(c: Val) -> Option<nat> {
    if field(c, "givenName"@) is Some {
        Some(filled_count(c, "title"@))
    } else {
        None
    }
}

/// Where the surname stands among the parts of the name.
pub open spec fn surname_index(c: Val) -> Option<nat> {
    if field(c, "surname"@) is Some {
        Some(
            filled_count(c, "title"@) + filled_count(c, "givenName"@) + filled_count(
                c,
                "middleName"@,
            ),
        )
    } else {
        None
    }
}

/// The name of a contact, if it has a display name or parts.
pub open spec fn name_of(c: Val) -> Option<Val> {
    let full = json::member_if("full"@, json::text_opt(field(c, "displayName"@)));
    let parts = json::member_if("components"@, json::list_opt(name_components(c)));
    if full.len() > 0 || parts.len() > 0 {
        Some(Val::Object(seq![("@type"@, Val::Text("Name"@))] + full + parts))
    } else {
        None
    }
}

pub open spec fn nicknames_of(c: Val) -> Option<Val> {
    match field(c, "nickName"@) {
        Some(n) => Some(
            json::obj1(
                "nick-1"@,
                json::obj2("@type"@, Val::Text("Nickname"@), "name"@, Val::Text(n)),
            ),
        ),
        None => None,
    }
}

/// The card's entry for the address at position `i` of a contact's list.
pub open spec fn email_entry(e: Val, i: nat) -> Members {
    match field(e, "address"@) {
        Some(a) => seq![
            (
                "email-"@ + text::dec(i + 1),
                Val::Object(
                    seq![("@type"@, Val::Text("EmailAddress"@)), ("address"@, Val::Text(a))]
                        + json::member_if(
                        "pref"@,
                        if i == 0 {
                            Some(Val::Number(NumberVal::Unsigned(1)))
                        } else {
                            None
                        },
                    ),
                ),
            ),
        ],
        None => Seq::empty(),
    }
}

pub open spec fn email_entries(v: Seq<Val>) -> Members
    decreases v.len(),
{
    if v.len() == 0 {
        Seq::empty()
    } else {
        email_entries(v.drop_last()) + email_entry(v.last(), (v.len() - 1) as nat)
    }
}

/// The items of a list, or none where there is no list.
pub open spec fn items(v: Option<Seq<Val>>) -> Seq<Val> {
    match v {
        Some(s) => s,
        None => Seq::empty(),
    }
}

pub open spec fn phone_key(n: nat) -> Seq<char> {
    "phone-"@ + text::dec(n)
}

/// A phone number used in one context.
pub open spec fn phone_in(number: Seq<char>, context: Seq<char>) -> Val {
    json::obj3(
        "@type"@,
        Val::Text("Phone"@),
        "number"@,
        Val::Text(number),
        "contexts"@,
        flag(context),
    )
}

/// The phones after those of a list have been added, numbered on.
pub open spec fn phones_after(acc: Members, v: Seq<Val>, context: Seq<char>) -> Members
    decreases v.len(),
{
    if v.len() == 0 {
        acc
    } else {
        let a = phones_after(acc, v.drop_last(), context);
        match json::filled(v.last().as_text()) {
            Some(n) => a.push((phone_key(a.len() + 1), phone_in(n, context))),
            None => a,
        }
    }
}

/// A mobile phone number.
pub open spec fn mobile_phone(number: Seq<char>) -> Val {
    json::obj3(
        "@type"@,
        Val::Text("Phone"@),
        "number"@,
        Val::Text(number),
        "features"@,
        json::obj2("mobile"@, Val::Bool(true), "voice"@, Val::Bool(true)),
    )
}

/// All phones of a contact.
pub open spec fn phone_entries(c: Val) -> Members {
    let work = phones_after(Seq::empty(), items(c.list_at("businessPhones"@)), "work"@);
    let home = phones_after(work, items(c.list_at("homePhones"@)), "private"@);
    match field(c, "mobilePhone"@) {
        Some(m) => home.push((phone_key(home.len() + 1), mobile_phone(m))),
        None => home,
    }
}

/// The parts of an address besides its street.
pub open spec fn address_components(a: Val) -> Seq<Val> {
    Seq::<Val>::empty() + json::item_if(
        component("AddressComponent"@, "locality"@, field(a, "city"@)),
    ) + json::item_if(component("AddressComponent"@, "region"@, field(a, "state"@)))
        + json::item_if(component("AddressComponent"@, "postcode"@, field(a, "postalCode"@)))
        + json::item_if(component("AddressComponent"@, "country"@, field(a, "countryOrRegion"@)))
}

/// The addresses after one more, if it holds anything.
pub open spec fn addresses_after(
    acc: Members,
    source: Option<Val>,
    context: Option<Seq<char>>,
) -> Members {
    match source {
        Some(a) => {
            let street = field(a, "street"@);
            let parts = address_components(a);
            if !(a is Object) || (street is None && parts.len() == 0) {
                acc
            } else {
                acc.push(
                    (
                        "addr-"@ + text::dec(acc.len() + 1),
                        Val::Object(
                            seq![("@type"@, Val::Text("Address"@))] + json::member_if(
                                "contexts"@,
                                match context {
                                    Some(x) => Some(flag(x)),
                                    None => None,
                                },
                            ) + json::member_if("full"@, json::text_opt(street)) + json::member_if(
                                "components"@,
                                json::list_opt(parts),
                            ),
                        ),
                    ),
                )
            }
        },
        None => acc,
    }
}

/// All addresses of a contact.
pub open spec fn address_entries(c: Val) -> Members {
    addresses_after(
        addresses_after(
            addresses_after(Seq::empty(), c.get("homeAddress"@), Some("private"@)),
            c.get("businessAddress"@),
            Some("work"@),
        ),
        c.get("otherAddress"@),
        None,
    )
}

/// Whether a contact names a company, a department or an office.
pub open spec fn has_organization(c: Val) -> bool {
    field(c, "companyName"@) is Some || field(c, "department"@) is Some || field(
        c,
        "officeLocation"@,
    ) is Some
}

/// One unit of an organization.
pub open spec fn org_unit(name: Option<Seq<char>>) -> Option<Val> {
    match name {
        Some(n) => Some(json::obj2("@type"@, Val::Text("OrgUnit"@), "name"@, Val::Text(n))),
        None => None,
    }
}

pub open spec fn organizations_of(c: Val) -> Option<Val> {
    if has_organization(c) {
        let units = Seq::<Val>::empty() + json::item_if(org_unit(field(c, "department"@)))
            + json::item_if(org_unit(field(c, "officeLocation"@)));
        Some(
            json::obj1(
                "org-1"@,
                Val::Object(
                    seq![("@type"@, Val::Text("Organization"@))] + json::member_if(
                        "name"@,
                        json::text_opt(field(c, "companyName"@)),
                    ) + json::member_if("units"@, json::list_opt(units)),
                ),
            ),
        )
    } else {
        None
    }
}

pub open spec fn titles_of(c: Val) -> Option<Val> {
    match field(c, "jobTitle"@) {
        Some(t) => Some(
            json::obj1(
                "title-1"@,
                Val::Object(
                    seq![("@type"@, Val::Text("Title"@)), ("name"@, Val::Text(t))]
                        + json::member_if(
                        "organizationId"@,
                        if has_organization(c) {
                            Some(Val::Text("org-1"@))
                        } else {
                            None
                        },
                    ),
                ),
            ),
        ),
        None => None,
    }
}

pub open spec fn notes_of(c: Val) -> Option<Val> {
    match field(c, "personalNotes"@) {
        Some(n) => Some(
            json::obj1(
                "note-1"@,
                json::obj2("@type"@, Val::Text("Note"@), "note"@, Val::Text(n)),
            ),
        ),
        None => None,
    }
}

/// The pointer to one part of the name.
pub open spec fn component_pointer(index: nat) -> Seq<char> {
    "name/components/"@ + text::dec(index) + "/value"@
}

/// A localized part of the name, if the part is there.
pub open spec fn localized_component(index: Option<nat>, reading: Option<Seq<char>>) -> Members {
    match (index, reading) {
        (Some(i), Some(r)) => seq![(component_pointer(i), Val::Text(r))],
        _ => Seq::empty(),
    }
}

/// The Japanese readings of a contact's company and names.
pub open spec fn japanese_entries(c: Val) -> Members {
    json::member_if(
        "organizations/org-1/name"@,
        if has_organization(c) {
            json::text_opt(field(c, "yomiCompanyName"@))
        } else {
            None
        },
    ) + localized_component(given_index(c), field(c, "yomiGivenName"@)) + localized_component(
        surname_index(c),
        field(c, "yomiSurname"@),
    )
}

pub open spec fn localizations_of(c: Val) -> Option<Val> {
    match json::object_opt(japanese_entries(c)) {
        Some(ja) => Some(json::obj1("ja"@, ja)),
        None => None,
    }
}

/// A number of at most 64 bits.
pub open spec fn parsed_u64(s: Seq<char>) -> Option<nat> {
    text::parsed_unsigned(s, u64::MAX as nat)
}

/// A whole number as a JSON value.
pub open spec fn nat_val(n: nat) -> Val {
    Val::Number(NumberVal::Unsigned(n as u64))
}

/// The month of a date's pieces, if they have one between 1 and 12.
pub open spec fn month_piece(parts: Seq<Seq<char>>) -> Option<nat> {
    if parts.len() > 1 {
        match parsed_u64(parts[1]) {
            Some(m) => if 1 <= m <= 12 {
                Some(m)
            } else {
                None
            },
            None => None,
        }
    } else {
        None
    }
}

/// The day of a date's pieces, if they have a month and a day between 1 and
/// 31.
pub open spec fn day_piece(parts: Seq<Seq<char>>) -> Option<nat> {
    if month_piece(parts) is Some && parts.len() > 2 {
        match parsed_u64(parts[2]) {
            Some(d) => if 1 <= d <= 31 {
                Some(d)
            } else {
                None
            },
            None => None,
        }
    } else {
        None
    }
}

/// A whole number, if there is one, as a JSON value.
pub open spec fn nat_opt(n: Option<nat>) -> Option<Val> {
    match n {
        Some(m) => Some(nat_val(m)),
        None => None,
    }
}

/// The date that a text starts with, as far as it can be read: a year, a
/// month and a day.
pub open spec fn partial_date(raw: Seq<char>) -> Option<Val> {
    let parts = text::split_by(text::split_by(raw, 'T')[0], '-');
    match parsed_u64(parts[0]) {
        Some(y) => Some(
            Val::Object(
                seq![("@type"@, Val::Text("PartialDate"@)), ("year"@, nat_val(y))]
                    + json::member_if("month"@, nat_opt(month_piece(parts))) + json::member_if(
                    "day"@,
                    nat_opt(day_piece(parts)),
                ),
            ),
        ),
        None => None,
    }
}

pub open spec fn anniversaries_of(c: Val) -> Option<Val> {
    match c.text_at("birthday"@) {
        Some(b) => match partial_date(b) {
            Some(d) => Some(
                json::obj1(
                    "anniversary-1"@,
                    json::obj3(
                        "@type"@,
                        Val::Text("Anniversary"@),
                        "kind"@,
                        Val::Text("birth"@),
                        "date"@,
                        d,
                    ),
                ),
            ),
            None => None,
        },
        None => None,
    }
}

pub open spec fn links_of(c: Val) -> Option<Val> {
    match field(c, "businessHomePage"@) {
        Some(u) => Some(
            json::obj1(
                "link-1"@,
                json::obj3(
                    "@type"@,
                    Val::Text("Link"@),
                    "uri"@,
                    Val::Text(u),
                    "contexts"@,
                    flag("work"@),
                ),
            ),
        ),
        None => None,
    }
}

/// The keywords that a list of categories gives: each text that is not blank,
/// in lower case, once.
pub open spec fn keyword_entries(v: Seq<Val>) -> Members
    decreases v.len(),
{
    if v.len() == 0 {
        Seq::empty()
    } else {
        let a = keyword_entries(v.drop_last());
        match v.last().as_text() {
            Some(t) => if text::trimmed(t).len() > 0 {
                json::with_member(a, text::lowered(t), Val::Bool(true))
            } else {
                a
            },
            None => a,
        }
    }
}

/// Whether a text is a URI by its look: a scheme, a colon and something more.
pub open spec fn looks_like_uri(s: Seq<char>) -> bool {
    let i = text::first_index(s, ':');
    let scheme = s.take(i);
    &&& 0 <= i < s.len()
    &&& i + 1 < s.len()
    &&& scheme.len() > 0
    &&& text::is_alpha(scheme[0])
    &&& forall|k: int|
        0 <= k < scheme.len() ==> text::is_alnum(#[trigger] scheme[k]) || scheme[k] == '+'
            || scheme[k] == '-' || scheme[k] == '.'
}

/// The messaging addresses of a list that are not blank, numbered from one.
pub open spec fn service_entries(v: Seq<Val>) -> Members
    decreases v.len(),
{
    if v.len() == 0 {
        Seq::empty()
    } else {
        let a = service_entries(v.drop_last());
        match v.last().as_text() {
            Some(t) => {
                let addr = text::trimmed(t);
                if addr.len() > 0 {
                    a.push(
                        (
                            text::dec(a.len() + 1),
                            json::obj2(
                                "@type"@,
                                Val::Text("OnlineService"@),
                                if looks_like_uri(addr) {
                                    "uri"@
                                } else {
                                    "user"@
                                },
                                Val::Text(addr),
                            ),
                        ),
                    )
                } else {
                    a
                }
            },
            None => a,
        }
    }
}

/// A text without the `Z`s at its end.
pub open spec fn without_final_z(s: Seq<char>) -> Seq<char>
    decreases s.len(),
{
    if s.len() > 0 && s.last() == 'Z' {
        without_final_z(s.drop_last())
    } else {
        s
    }
}

/// A UTC date-time without fractions of a second.
pub open spec fn whole_seconds(raw: Seq<char>) -> Seq<char> {
    let t = without_final_z(raw);
    let base = t.take(text::first_index(t, '.'));
    if raw.len() > 0 && raw.last() == 'Z' {
        base + "Z"@
    } else {
        base
    }
}

/// A member's date-time, if it is a text, without fractions of a second.
pub open spec fn stamp_of(c: Val, key: Seq<char>) -> Option<Val> {
    match c.text_at(key) {
        Some(t) => Some(Val::Text(whole_seconds(t))),
        None => None,
    }
}

/// The members of the card that stands for a contact.
pub open spec fn card_members(c: Val, uid: Seq<char>) -> Members {
    seq![
        ("@type"@, Val::Text("Card"@)),
        ("version"@, Val::Text("1.0"@)),
        ("uid"@, Val::Text(uid)),
        ("kind"@, Val::Text("individual"@)),
    ] + json::member_if("name"@, name_of(c)) + json::member_if("nicknames"@, nicknames_of(c))
        + json::member_if("emails"@, json::object_opt(email_entries(items(c.list_at(
        "emailAddresses"@,
    ))))) + json::member_if("phones"@, json::object_opt(phone_entries(c))) + json::member_if(
        "addresses"@,
        json::object_opt(address_entries(c)),
    ) + json::member_if("titles"@, titles_of(c)) + json::member_if(
        "organizations"@,
        organizations_of(c),
    ) + json::member_if("notes"@, notes_of(c)) + json::member_if(
        "localizations"@,
        localizations_of(c),
    ) + json::member_if("anniversaries"@, anniversaries_of(c)) + json::member_if(
        "links"@,
        links_of(c),
    ) + json::member_if("keywords"@, json::object_opt(keyword_entries(items(c.list_at(
        "categories"@,
    ))))) + json::member_if("onlineServices"@, json::object_opt(service_entries(items(c.list_at(
        "imAddresses"@,
    ))))) + json::member_if("created"@, stamp_of(c, "createdDateTime"@)) + json::member_if(
        "updated"@,
        stamp_of(c, "lastModifiedDateTime"@),
    )
}

fn flag_json(name: &str) -> (j: Json)
    ensures
        j@ == flag(name@),
{
    json::object1(name, Json::Bool(true))
}

fn make_component(of: &str, kind: &str, value: Option<&str>) -> (r: Option<Json>)
    ensures
        json::opt_view(r) == component(of@, kind@, json::str_view(value)),
{
    match value {
        Some(v) => Some(
            json::object3(
                "@type",
                json::text_json(of),
                "kind",
                json::text_json(kind),
                "value",
                json::text_json(v),
            ),
        ),
        None => None,
    }
}

fn push_part(list: &mut Vec<Json>, of: &str, kind: &str, c: &Json, key: &str)
    ensures
        json::list_view(final(list)@) == json::list_view(old(list)@) + json::item_if(
            component(of@, kind@, field(c@, key@)),
        ),
{
    json::push_item_if(list, make_component(of, kind, json::filled_at(c, key)));
}

fn make_name_components(c: &Json) -> (r: Vec<Json>)
    ensures
        json::list_view(r@) == name_components(c@),
{
    let mut list: Vec<Json> = Vec::new();
    assert(json::list_view(list@) =~= Seq::<Val>::empty());
    push_part(&mut list, "NameComponent", "title", c, "title");
    push_part(&mut list, "NameComponent", "given", c, "givenName");
    push_part(&mut list, "NameComponent", "given2", c, "middleName");
    push_part(&mut list, "NameComponent", "surname", c, "surname");
    push_part(&mut list, "NameComponent", "generation", c, "generation");
    list
}

fn make_name(c: &Json) -> (r: Option<Json>)
    ensures
        json::opt_view(r) == name_of(c@),
{
    let full: Option<Json> = json::text_json_opt(json::filled_at(c, "displayName"));
    let parts: Option<Json> = json::list_json_opt(make_name_components(c));
    if full.is_none() && parts.is_none() {
        return None;
    }
    let mut e: Vec<(String, Json)> = Vec::new();
    json::push_member(&mut e, "@type", json::text_json("Name"));
    assert(json::members_view(e@) =~= seq![("@type"@, Val::Text("Name"@))]);
    json::push_member_if(&mut e, "full", full);
    json::push_member_if(&mut e, "components", parts);
    Some(Json::Object(e))
}

fn make_nicknames(c: &Json) -> (r: Option<Json>)
    ensures
        json::opt_view(r) == nicknames_of(c@),
{
    match json::filled_at(c, "nickName") {
        Some(n) => Some(
            json::object1(
                "nick-1",
                json::object2("@type", json::text_json("Nickname"), "name", json::text_json(n)),
            ),
        ),
        None => None,
    }
}

fn make_email(a: &str, first: bool) -> (r: Json)
    ensures
        r@ == Val::Object(
            seq![("@type"@, Val::Text("EmailAddress"@)), ("address"@, Val::Text(a@))]
                + json::member_if(
                "pref"@,
                if first {
                    Some(Val::Number(NumberVal::Unsigned(1)))
                } else {
                    None
                },
            ),
        ),
{
    let mut e: Vec<(String, Json)> = Vec::new();
    json::push_member(&mut e, "@type", json::text_json("EmailAddress"));
    json::push_member(&mut e, "address", json::text_json(a));
    assert(json::members_view(e@) =~= seq![
        ("@type"@, Val::Text("EmailAddress"@)),
        ("address"@, Val::Text(a@)),
    ]);
    let pref: Option<Json> = if first {
        Some(json::number_json(1))
    } else {
        None
    };
    json::push_member_if(&mut e, "pref", pref);
    Json::Object(e)
}

fn make_emails(v: &Vec<Json>) -> (r: Vec<(String, Json)>)
    ensures
        json::members_view(r@) == email_entries(json::list_view(v@)),
{
    let mut out: Vec<(String, Json)> = Vec::new();
    let ghost all = json::list_view(v@);
    assert(json::members_view(out@) =~= email_entries(all.take(0)));
    let mut i: usize = 0;
    while i < v.len()
        invariant
            all == json::list_view(v@),
            i <= v@.len(),
            json::members_view(out@) == email_entries(all.take(i as int)),
        decreases v@.len() - i,
    {
        let ghost before = json::members_view(out@);
        proof {
            assert(all.take(i as int + 1).drop_last() == all.take(i as int));
            assert(all.take(i as int + 1).last() == v@[i as int]@);
        }
        match json::filled_at(&v[i], "address") {
            Some(a) => {
                let n: String = text::ordinal(i);
                let key: String = text::joined("email-", n.as_str());
                let entry: Json = make_email(a, i == 0);
                let ghost ev = entry@;
                json::push_member(&mut out, key.as_str(), entry);
                assert(before.push((key@, ev)) =~= before + email_entry(
                    v@[i as int]@,
                    i as nat,
                ));
            },
            None => {
                assert(before =~= before + email_entry(v@[i as int]@, i as nat));
            },
        }
        i = i + 1;
    }
    assert(all.take(i as int) == all);
    out
}

fn push_phones(target: &mut Vec<(String, Json)>, list: &Vec<Json>, context: &str)
    ensures
        json::members_view(final(target)@) == phones_after(
            json::members_view(old(target)@),
            json::list_view(list@),
            context@,
        ),
{
    let ghost start = json::members_view(target@);
    let ghost all = json::list_view(list@);
    assert(all.take(0).len() == 0);
    let mut i: usize = 0;
    while i < list.len()
        invariant
            all == json::list_view(list@),
            i <= list@.len(),
            json::members_view(target@) == phones_after(start, all.take(i as int), context@),
        decreases list@.len() - i,
    {
        proof {
            assert(all.take(i as int + 1).drop_last() == all.take(i as int));
            assert(all.take(i as int + 1).last() == list@[i as int]@);
        }
        match list[i].as_text() {
            Some(n) => {
                if !n.is_empty() {
                    let number: String = text::ordinal(target.len());
                    let key: String = text::joined("phone-", number.as_str());
                    let entry: Json = json::object3(
                        "@type",
                        json::text_json("Phone"),
                        "number",
                        json::text_json(n),
                        "contexts",
                        flag_json(context),
                    );
                    json::push_member(target, key.as_str(), entry);
                }
            },
            None => {},
        }
        i = i + 1;
    }
    assert(all.take(i as int) == all);
}

fn push_phones_at(target: &mut Vec<(String, Json)>, c: &Json, key: &str, context: &str)
    ensures
        json::members_view(final(target)@) == phones_after(
            json::members_view(old(target)@),
            items(c@.list_at(key@)),
            context@,
        ),
{
    match c.list_at(key) {
        Some(list) => push_phones(target, list, context),
        None => {},
    }
}

fn make_phones(c: &Json) -> (r: Vec<(String, Json)>)
    ensures
        json::members_view(r@) == phone_entries(c@),
{
    let mut out: Vec<(String, Json)> = Vec::new();
    assert(json::members_view(out@) =~= Seq::<(Seq<char>, Val)>::empty());
    push_phones_at(&mut out, c, "businessPhones", "work");
    push_phones_at(&mut out, c, "homePhones", "private");
    match json::filled_at(c, "mobilePhone") {
        Some(m) => {
            let number: String = text::ordinal(out.len());
            let key: String = text::joined("phone-", number.as_str());
            let entry: Json = json::object3(
                "@type",
                json::text_json("Phone"),
                "number",
                json::text_json(m),
                "features",
                json::object2("mobile", Json::Bool(true), "voice", Json::Bool(true)),
            );
            json::push_member(&mut out, key.as_str(), entry);
        },
        None => {},
    }
    out
}

fn make_address_components(a: &Json) -> (r: Vec<Json>)
    ensures
        json::list_view(r@) == address_components(a@),
{
    let mut list: Vec<Json> = Vec::new();
    assert(json::list_view(list@) =~= Seq::<Val>::empty());
    push_part(&mut list, "AddressComponent", "locality", a, "city");
    push_part(&mut list, "AddressComponent", "region", a, "state");
    push_part(&mut list, "AddressComponent", "postcode", a, "postalCode");
    push_part(&mut list, "AddressComponent", "country", a, "countryOrRegion");
    list
}

fn push_address(target: &mut Vec<(String, Json)>, source: Option<&Json>, context: Option<&str>)
    ensures
        json::members_view(final(target)@) == addresses_after(
            json::members_view(old(target)@),
            json::ref_view(source),
            json::str_view(context),
        ),
{
    let a: &Json = match source {
        Some(a) => a,
        None => {
            return;
        },
    };
    if a.as_object().is_none() {
        return;
    }
    let street: Option<Json> = json::text_json_opt(json::filled_at(a, "street"));
    let parts: Option<Json> = json::list_json_opt(make_address_components(a));
    if street.is_none() && parts.is_none() {
        return;
    }
    let mut e: Vec<(String, Json)> = Vec::new();
    json::push_member(&mut e, "@type", json::text_json("Address"));
    assert(json::members_view(e@) =~= seq![("@type"@, Val::Text("Address"@))]);
    let contexts: Option<Json> = match context {
        Some(x) => Some(flag_json(x)),
        None => None,
    };
    json::push_member_if(&mut e, "contexts", contexts);
    json::push_member_if(&mut e, "full", street);
    json::push_member_if(&mut e, "components", parts);
    let number: String = text::ordinal(target.len());
    let key: String = text::joined("addr-", number.as_str());
    json::push_member(target, key.as_str(), Json::Object(e));
}

fn make_addresses(c: &Json) -> (r: Vec<(String, Json)>)
    ensures
        json::members_view(r@) == address_entries(c@),
{
    let mut out: Vec<(String, Json)> = Vec::new();
    assert(json::members_view(out@) =~= Seq::<(Seq<char>, Val)>::empty());
    push_address(&mut out, c.get("homeAddress"), Some("private"));
    push_address(&mut out, c.get("businessAddress"), Some("work"));
    push_address(&mut out, c.get("otherAddress"), None);
    out
}

fn names_organization(c: &Json) -> (r: bool)
    ensures
        r == has_organization(c@),
{
    json::filled_at(c, "companyName").is_some() || json::filled_at(c, "department").is_some()
        || json::filled_at(c, "officeLocation").is_some()
}

fn make_unit(name: Option<&str>) -> (r: Option<Json>)
    ensures
        json::opt_view(r) == org_unit(json::str_view(name)),
{
    match name {
        Some(n) => Some(
            json::object2("@type", json::text_json("OrgUnit"), "name", json::text_json(n)),
        ),
        None => None,
    }
}

fn make_organizations(c: &Json) -> (r: Option<Json>)
    ensures
        json::opt_view(r) == organizations_of(c@),
{
    if !names_organization(c) {
        return None;
    }
    let mut units: Vec<Json> = Vec::new();
    assert(json::list_view(units@) =~= Seq::<Val>::empty());
    json::push_item_if(&mut units, make_unit(json::filled_at(c, "department")));
    json::push_item_if(&mut units, make_unit(json::filled_at(c, "officeLocation")));
    let mut org: Vec<(String, Json)> = Vec::new();
    json::push_member(&mut org, "@type", json::text_json("Organization"));
    assert(json::members_view(org@) =~= seq![("@type"@, Val::Text("Organization"@))]);
    json::push_member_if(
        &mut org,
        "name",
        json::text_json_opt(json::filled_at(c, "companyName")),
    );
    json::push_member_if(&mut org, "units", json::list_json_opt(units));
    Some(json::object1("org-1", Json::Object(org)))
}

fn make_titles(c: &Json) -> (r: Option<Json>)
    ensures
        json::opt_view(r) == titles_of(c@),
{
    match json::filled_at(c, "jobTitle") {
        Some(t) => {
            let mut e: Vec<(String, Json)> = Vec::new();
            json::push_member(&mut e, "@type", json::text_json("Title"));
            json::push_member(&mut e, "name", json::text_json(t));
            assert(json::members_view(e@) =~= seq![
                ("@type"@, Val::Text("Title"@)),
                ("name"@, Val::Text(t@)),
            ]);
            let org: Option<Json> = if names_organization(c) {
                Some(json::text_json("org-1"))
            } else {
                None
            };
            json::push_member_if(&mut e, "organizationId", org);
            Some(json::object1("title-1", Json::Object(e)))
        },
        None => None,
    }
}

fn make_notes(c: &Json) -> (r: Option<Json>)
    ensures
        json::opt_view(r) == notes_of(c@),
{
    match json::filled_at(c, "personalNotes") {
        Some(n) => Some(
            json::object1(
                "note-1",
                json::object2("@type", json::text_json("Note"), "note", json::text_json(n)),
            ),
        ),
        None => None,
    }
}

fn count_filled(c: &Json, key: &str) -> (n: u64)
    ensures
        n == filled_count(c@, key@),
        n <= 1,
{
    if json::filled_at(c, key).is_some() {
        1
    } else {
        0
    }
}

fn push_reading(e: &mut Vec<(String, Json)>, index: Option<u64>, reading: Option<&str>)
    ensures
        json::members_view(final(e)@) == json::members_view(old(e)@) + localized_component(
            match index {
                Some(i) => Some(i as nat),
                None => None,
            },
            json::str_view(reading),
        ),
{
    let ghost before = json::members_view(e@);
    match (index, reading) {
        (Some(i), Some(r)) => {
            let number: String = text::decimal(i);
            let head: String = text::joined("name/components/", number.as_str());
            let key: String = text::joined(head.as_str(), "/value");
            json::push_member(e, key.as_str(), json::text_json(r));
            assert(before.push((key@, Val::Text(r@))) =~= before + localized_component(
                Some(i as nat),
                Some(r@),
            ));
        },
        _ => {
            assert(before =~= before + Seq::<(Seq<char>, Val)>::empty());
        },
    }
}

fn make_localizations(c: &Json) -> (r: Option<Json>)
    ensures
        json::opt_view(r) == localizations_of(c@),
{
    let company: Option<Json> = if names_organization(c) {
        json::text_json_opt(json::filled_at(c, "yomiCompanyName"))
    } else {
        None
    };
    let mut ja: Vec<(String, Json)> = Vec::new();
    let ghost first = json::member_if("organizations/org-1/name"@, json::opt_view(company));
    assert(json::members_view(ja@) + first =~= first);
    json::push_member_if(&mut ja, "organizations/org-1/name", company);
    let titled: u64 = count_filled(c, "title");
    let given: u64 = count_filled(c, "givenName");
    let middle: u64 = count_filled(c, "middleName");
    let given_at: Option<u64> = if json::filled_at(c, "givenName").is_some() {
        Some(titled)
    } else {
        None
    };
    let surname_at: Option<u64> = if json::filled_at(c, "surname").is_some() {
        Some(titled + given + middle)
    } else {
        None
    };
    push_reading(&mut ja, given_at, json::filled_at(c, "yomiGivenName"));
    push_reading(&mut ja, surname_at, json::filled_at(c, "yomiSurname"));
    match json::object_json_opt(ja) {
        Some(j) => Some(json::object1("ja", j)),
        None => None,
    }
}

fn parse_u64(s: &str) -> (r: Option<u64>)
    ensures
        match r {
            Some(n) => parsed_u64(s@) == Some(n as nat),
            None => parsed_u64(s@) is None,
        },
{
    text::parse_unsigned(s, 0xffff_ffff_ffff_ffff)
}

fn parse_partial_date(raw: &str) -> (r: Option<Json>)
    ensures
        json::opt_view(r) == partial_date(raw@),
{
    let heads: Vec<String> = text::split(raw, 'T');
    assert(text::texts(heads@)[0] == heads@[0]@);
    let parts: Vec<String> = text::split(heads[0].as_str(), '-');
    let ghost p = text::split_by(text::split_by(raw@, 'T')[0], '-');
    assert(p.len() == parts@.len());
    assert(forall|k: int| 0 <= k < p.len() ==> p[k] == parts@[k]@);
    let year: u64 = match parse_u64(parts[0].as_str()) {
        Some(y) => y,
        None => {
            return None;
        },
    };
    let mut e: Vec<(String, Json)> = Vec::new();
    json::push_member(&mut e, "@type", json::text_json("PartialDate"));
    json::push_member(&mut e, "year", json::number_json(year));
    assert(json::members_view(e@) =~= seq![
        ("@type"@, Val::Text("PartialDate"@)),
        ("year"@, nat_val(year as nat)),
    ]);
    let mut month: Option<Json> = None;
    let mut day: Option<Json> = None;
    if parts.len() > 1 {
        match parse_u64(parts[1].as_str()) {
            Some(m) => {
                if m >= 1 && m <= 12 {
                    month = Some(json::number_json(m));
                    if parts.len() > 2 {
                        match parse_u64(parts[2].as_str()) {
                            Some(d) => {
                                if d >= 1 && d <= 31 {
                                    day = Some(json::number_json(d));
                                }
                            },
                            None => {},
                        }
                    }
                }
            },
            None => {},
        }
    }
    assert(json::opt_view(month) == nat_opt(month_piece(p)));
    assert(json::opt_view(day) == nat_opt(day_piece(p)));
    json::push_member_if(&mut e, "month", month);
    json::push_member_if(&mut e, "day", day);
    Some(Json::Object(e))
}

fn make_anniversaries(c: &Json) -> (r: Option<Json>)
    ensures
        json::opt_view(r) == anniversaries_of(c@),
{
    match c.text_at("birthday") {
        Some(b) => match parse_partial_date(b) {
            Some(d) => Some(
                json::object1(
                    "anniversary-1",
                    json::object3(
                        "@type",
                        json::text_json("Anniversary"),
                        "kind",
                        json::text_json("birth"),
                        "date",
                        d,
                    ),
                ),
            ),
            None => None,
        },
        None => None,
    }
}

fn make_links(c: &Json) -> (r: Option<Json>)
    ensures
        json::opt_view(r) == links_of(c@),
{
    match json::filled_at(c, "businessHomePage") {
        Some(u) => Some(
            json::object1(
                "link-1",
                json::object3(
                    "@type",
                    json::text_json("Link"),
                    "uri",
                    json::text_json(u),
                    "contexts",
                    flag_json("work"),
                ),
            ),
        ),
        None => None,
    }
}

fn make_keywords(v: &Vec<Json>) -> (r: Vec<(String, Json)>)
    ensures
        json::members_view(r@) == keyword_entries(json::list_view(v@)),
{
    let mut out: Vec<(String, Json)> = Vec::new();
    let ghost all = json::list_view(v@);
    assert(json::members_view(out@) =~= keyword_entries(all.take(0)));
    let mut i: usize = 0;
    while i < v.len()
        invariant
            all == json::list_view(v@),
            i <= v@.len(),
            json::members_view(out@) == keyword_entries(all.take(i as int)),
        decreases v@.len() - i,
    {
        proof {
            assert(all.take(i as int + 1).drop_last() == all.take(i as int));
            assert(all.take(i as int + 1).last() == v@[i as int]@);
        }
        match v[i].as_text() {
            Some(t) => {
                if !text::is_blank(t) {
                    let key: String = text::to_lower(t);
                    json::set_member(&mut out, key.as_str(), Json::Bool(true));
                }
            },
            None => {},
        }
        i = i + 1;
    }
    assert(all.take(i as int) == all);
    out
}

fn has_uri_scheme(value: &str) -> (r: bool)
    ensures
        r == looks_like_uri(value@),
{
    let v: Vec<char> = text::chars_of(value);
    let i: usize = text::find_char(&v, ':');
    if i >= v.len() || i + 1 >= v.len() || i == 0 {
        return false;
    }
    let ghost scheme = v@.take(i as int);
    if !text::alpha(v[0]) {
        assert(scheme[0] == v@[0]);
        return false;
    }
    let mut k: usize = 0;
    while k < i
        invariant
            k <= i < v@.len(),
            v@ == value@,
            i == text::first_index(v@, ':'),
            scheme == v@.take(i as int),
            forall|n: int|
                0 <= n < k ==> text::is_alnum(#[trigger] scheme[n]) || scheme[n] == '+' || scheme[n]
                    == '-' || scheme[n] == '.',
        decreases i - k,
    {
        let c: char = v[k];
        assert(scheme[k as int] == c);
        if !(text::alnum(c) || c == '+' || c == '-' || c == '.') {
            assert(!text::is_alnum(scheme[k as int]));
            return false;
        }
        k = k + 1;
    }
    true
}

fn make_services(v: &Vec<Json>) -> (r: Vec<(String, Json)>)
    ensures
        json::members_view(r@) == service_entries(json::list_view(v@)),
{
    let mut out: Vec<(String, Json)> = Vec::new();
    let ghost all = json::list_view(v@);
    assert(json::members_view(out@) =~= service_entries(all.take(0)));
    let mut i: usize = 0;
    while i < v.len()
        invariant
            all == json::list_view(v@),
            i <= v@.len(),
            json::members_view(out@) == service_entries(all.take(i as int)),
        decreases v@.len() - i,
    {
        proof {
            assert(all.take(i as int + 1).drop_last() == all.take(i as int));
            assert(all.take(i as int + 1).last() == v@[i as int]@);
        }
        match v[i].as_text() {
            Some(t) => {
                let addr: String = text::trim(t);
                if !addr.as_str().is_empty() {
                    let slot: &str = if has_uri_scheme(addr.as_str()) {
                        "uri"
                    } else {
                        "user"
                    };
                    let key: String = text::ordinal(out.len());
                    let entry: Json = json::object2(
                        "@type",
                        json::text_json("OnlineService"),
                        slot,
                        json::text_json(addr.as_str()),
                    );
                    json::push_member(&mut out, key.as_str(), entry);
                }
            },
            None => {},
        }
        i = i + 1;
    }
    assert(all.take(i as int) == all);
    out
}

fn normalise_utc_datetime(raw: &str) -> (r: String)
    ensures
        r@ == whole_seconds(raw@),
{
    let v: Vec<char> = text::chars_of(raw);
    let mut n: usize = v.len();
    assert(v@ == v@.take(n as int));
    while n > 0 && v[n - 1] == 'Z'
        invariant
            n <= v@.len(),
            without_final_z(v@) == without_final_z(v@.take(n as int)),
        decreases n,
    {
        assert(v@.take(n as int).drop_last() == v@.take(n as int - 1));
        n = n - 1;
    }
    let stem: String = text::string_of(&v, 0, n);
    assert(stem@ == v@.take(n as int));
    assert(stem@ == without_final_z(raw@));
    let t: Vec<char> = text::chars_of(stem.as_str());
    let dot: usize = text::find_char(&t, '.');
    let base: String = text::string_of(&t, 0, dot);
    assert(base@ == t@.take(dot as int));
    if v.len() > 0 && v[v.len() - 1] == 'Z' {
        text::joined(base.as_str(), "Z")
    } else {
        base
    }
}

fn make_stamp(c: &Json, key: &str) -> (r: Option<Json>)
    ensures
        json::opt_view(r) == stamp_of(c@, key@),
{
    match c.text_at(key) {
        Some(t) => {
            let s: String = normalise_utc_datetime(t);
            Some(Json::Text(s))
        },
        None => None,
    }
}

/// The identifier under which a Graph contact is kept.
pub fn synthetic_uid(graph_id: &str) -> (r: String)
    ensures
        r@ == contact_uid(graph_id@),
{
    crate::digest::digest_named("vandelay-graph-", graph_id)
}

/// The members of the list under a name, built by one of the makers above.
fn list_or_empty(c: &Json, key: &str) -> (r: Vec<Json>)
    ensures
        json::list_view(r@) == items(c@.list_at(key@)),
{
    match c.get(key) {
        Some(j) => match j.dup() {
            Json::List(v) => v,
            _ => {
                let v: Vec<Json> = Vec::new();
                assert(json::list_view(v@) =~= Seq::<Val>::empty());
                v
            },
        },
        None => {
            let v: Vec<Json> = Vec::new();
            assert(json::list_view(v@) =~= Seq::<Val>::empty());
            v
        },
    }
}

/// Turns a Graph contact into a card. It fails on a contact without an
/// identifier, and on no other.
pub fn convert_contact(graph_contact: &Json) -> (r: Result<ConvertedContact, GraphError>)
    ensures
        match r {
            Ok(c) => graph_contact@.text_at("id"@) is Some && c.uid@ == contact_uid(
                graph_contact@.text_at("id"@)->0,
            ) && c.data@ == Val::Object(card_members(graph_contact@, c.uid@)),
            Err(e) => graph_contact@.text_at("id"@) is None && (e matches GraphError::Malformed(m)
                && m@ == "contact has no id"@),
        },
{
    let c: &Json = graph_contact;
    let graph_id: &str = match c.text_at("id") {
        Some(id) => id,
        None => {
            return Err(GraphError::Malformed("contact has no id".to_owned()));
        },
    };
    let uid: String = synthetic_uid(graph_id);
    let mut card: Vec<(String, Json)> = Vec::new();
    json::push_member(&mut card, "@type", json::text_json("Card"));
    json::push_member(&mut card, "version", json::text_json("1.0"));
    json::push_member(&mut card, "uid", json::text_json(uid.as_str()));
    json::push_member(&mut card, "kind", json::text_json("individual"));
    assert(json::members_view(card@) =~= seq![
        ("@type"@, Val::Text("Card"@)),
        ("version"@, Val::Text("1.0"@)),
        ("uid"@, Val::Text(uid@)),
        ("kind"@, Val::Text("individual"@)),
    ]);
    json::push_member_if(&mut card, "name", make_name(c));
    json::push_member_if(&mut card, "nicknames", make_nicknames(c));
    let emails: Vec<Json> = list_or_empty(c, "emailAddresses");
    json::push_member_if(&mut card, "emails", json::object_json_opt(make_emails(&emails)));
    json::push_member_if(&mut card, "phones", json::object_json_opt(make_phones(c)));
    json::push_member_if(&mut card, "addresses", json::object_json_opt(make_addresses(c)));
    json::push_member_if(&mut card, "titles", make_titles(c));
    json::push_member_if(&mut card, "organizations", make_organizations(c));
    json::push_member_if(&mut card, "notes", make_notes(c));
    json::push_member_if(&mut card, "localizations", make_localizations(c));
    json::push_member_if(&mut card, "anniversaries", make_anniversaries(c));
    json::push_member_if(&mut card, "links", make_links(c));
    let categories: Vec<Json> = list_or_empty(c, "categories");
    json::push_member_if(&mut card, "keywords", json::object_json_opt(make_keywords(&categories)));
    let ims: Vec<Json> = list_or_empty(c, "imAddresses");
    json::push_member_if(
        &mut card,
        "onlineServices",
        json::object_json_opt(make_services(&ims)),
    );
    json::push_member_if(&mut card, "created", make_stamp(c, "createdDateTime"));
    json::push_member_if(&mut card, "updated", make_stamp(c, "lastModifiedDateTime"));
    Ok(ConvertedContact { uid, data: Json::Object(card) })
}

} // verus!
