//! What a card says of the contact that it stands for.

use crate::exchange_graph::contact_map;
use crate::json;
use crate::json::{Members, NumberVal, Val};
use crate::text;
use vstd::prelude::*;

verus! {

proof fn lemma_card_names()
    ensures
        "@type"@ != "version"@,
        "@type"@ != "uid"@,
        "@type"@ != "kind"@,
        "@type"@ != "name"@,
        "@type"@ != "nicknames"@,
        "@type"@ != "emails"@,
        "@type"@ != "phones"@,
        "@type"@ != "addresses"@,
        "@type"@ != "titles"@,
        "@type"@ != "organizations"@,
        "@type"@ != "notes"@,
        "@type"@ != "localizations"@,
        "@type"@ != "anniversaries"@,
        "@type"@ != "links"@,
        "@type"@ != "keywords"@,
        "@type"@ != "onlineServices"@,
        "@type"@ != "created"@,
        "@type"@ != "updated"@,
        "version"@ != "uid"@,
        "version"@ != "kind"@,
        "version"@ != "name"@,
        "version"@ != "nicknames"@,
        "version"@ != "emails"@,
        "version"@ != "phones"@,
        "version"@ != "addresses"@,
        "version"@ != "titles"@,
        "version"@ != "organizations"@,
        "version"@ != "notes"@,
        "version"@ != "localizations"@,
        "version"@ != "anniversaries"@,
        "version"@ != "links"@,
        "version"@ != "keywords"@,
        "version"@ != "onlineServices"@,
        "version"@ != "created"@,
        "version"@ != "updated"@,
        "uid"@ != "kind"@,
        "uid"@ != "name"@,
        "uid"@ != "nicknames"@,
        "uid"@ != "emails"@,
        "uid"@ != "phones"@,
        "uid"@ != "addresses"@,
        "uid"@ != "titles"@,
        "uid"@ != "organizations"@,
        "uid"@ != "notes"@,
        "uid"@ != "localizations"@,
        "uid"@ != "anniversaries"@,
        "uid"@ != "links"@,
        "uid"@ != "keywords"@,
        "uid"@ != "onlineServices"@,
        "uid"@ != "created"@,
        "uid"@ != "updated"@,
        "kind"@ != "name"@,
        "kind"@ != "nicknames"@,
        "kind"@ != "emails"@,
        "kind"@ != "phones"@,
        "kind"@ != "addresses"@,
        "kind"@ != "titles"@,
        "kind"@ != "organizations"@,
        "kind"@ != "notes"@,
        "kind"@ != "localizations"@,
        "kind"@ != "anniversaries"@,
        "kind"@ != "links"@,
        "kind"@ != "keywords"@,
        "kind"@ != "onlineServices"@,
        "kind"@ != "created"@,
        "kind"@ != "updated"@,
        "name"@ != "nicknames"@,
        "name"@ != "emails"@,
        "name"@ != "phones"@,
        "name"@ != "addresses"@,
        "name"@ != "titles"@,
        "name"@ != "organizations"@,
        "name"@ != "notes"@,
        "name"@ != "localizations"@,
        "name"@ != "anniversaries"@,
        "name"@ != "links"@,
        "name"@ != "keywords"@,
        "name"@ != "onlineServices"@,
        "name"@ != "created"@,
        "name"@ != "updated"@,
        "nicknames"@ != "emails"@,
        "nicknames"@ != "phones"@,
        "nicknames"@ != "addresses"@,
        "nicknames"@ != "titles"@,
        "nicknames"@ != "organizations"@,
        "nicknames"@ != "notes"@,
        "nicknames"@ != "localizations"@,
        "nicknames"@ != "anniversaries"@,
        "nicknames"@ != "links"@,
        "nicknames"@ != "keywords"@,
        "nicknames"@ != "onlineServices"@,
        "nicknames"@ != "created"@,
        "nicknames"@ != "updated"@,
        "emails"@ != "phones"@,
        "emails"@ != "addresses"@,
        "emails"@ != "titles"@,
        "emails"@ != "organizations"@,
        "emails"@ != "notes"@,
        "emails"@ != "localizations"@,
        "emails"@ != "anniversaries"@,
        "emails"@ != "links"@,
        "emails"@ != "keywords"@,
        "emails"@ != "onlineServices"@,
        "emails"@ != "created"@,
        "emails"@ != "updated"@,
        "phones"@ != "addresses"@,
        "phones"@ != "titles"@,
        "phones"@ != "organizations"@,
        "phones"@ != "notes"@,
        "phones"@ != "localizations"@,
        "phones"@ != "anniversaries"@,
        "phones"@ != "links"@,
        "phones"@ != "keywords"@,
        "phones"@ != "onlineServices"@,
        "phones"@ != "created"@,
        "phones"@ != "updated"@,
        "addresses"@ != "titles"@,
        "addresses"@ != "organizations"@,
        "addresses"@ != "notes"@,
        "addresses"@ != "localizations"@,
        "addresses"@ != "anniversaries"@,
        "addresses"@ != "links"@,
        "addresses"@ != "keywords"@,
        "addresses"@ != "onlineServices"@,
        "addresses"@ != "created"@,
        "addresses"@ != "updated"@,
        "titles"@ != "organizations"@,
        "titles"@ != "notes"@,
        "titles"@ != "localizations"@,
        "titles"@ != "anniversaries"@,
        "titles"@ != "links"@,
        "titles"@ != "keywords"@,
        "titles"@ != "onlineServices"@,
        "titles"@ != "created"@,
        "titles"@ != "updated"@,
        "organizations"@ != "notes"@,
        "organizations"@ != "localizations"@,
        "organizations"@ != "anniversaries"@,
        "organizations"@ != "links"@,
        "organizations"@ != "keywords"@,
        "organizations"@ != "onlineServices"@,
        "organizations"@ != "created"@,
        "organizations"@ != "updated"@,
        "notes"@ != "localizations"@,
        "notes"@ != "anniversaries"@,
        "notes"@ != "links"@,
        "notes"@ != "keywords"@,
        "notes"@ != "onlineServices"@,
        "notes"@ != "created"@,
        "notes"@ != "updated"@,
        "localizations"@ != "anniversaries"@,
        "localizations"@ != "links"@,
        "localizations"@ != "keywords"@,
        "localizations"@ != "onlineServices"@,
        "localizations"@ != "created"@,
        "localizations"@ != "updated"@,
        "anniversaries"@ != "links"@,
        "anniversaries"@ != "keywords"@,
        "anniversaries"@ != "onlineServices"@,
        "anniversaries"@ != "created"@,
        "anniversaries"@ != "updated"@,
        "links"@ != "keywords"@,
        "links"@ != "onlineServices"@,
        "links"@ != "created"@,
        "links"@ != "updated"@,
        "keywords"@ != "onlineServices"@,
        "keywords"@ != "created"@,
        "keywords"@ != "updated"@,
        "onlineServices"@ != "created"@,
        "onlineServices"@ != "updated"@,
        "created"@ != "updated"@,
{
    reveal_strlit("@type");
    reveal_strlit("version");
    reveal_strlit("uid");
    reveal_strlit("kind");
    reveal_strlit("name");
    reveal_strlit("nicknames");
    reveal_strlit("emails");
    reveal_strlit("phones");
    reveal_strlit("addresses");
    reveal_strlit("titles");
    reveal_strlit("organizations");
    reveal_strlit("notes");
    reveal_strlit("localizations");
    reveal_strlit("anniversaries");
    reveal_strlit("links");
    reveal_strlit("keywords");
    reveal_strlit("onlineServices");
    reveal_strlit("created");
    reveal_strlit("updated");
    assert("@type"@.len() == 5);
    assert("version"@.len() == 7);
    assert("uid"@.len() == 3);
    assert("kind"@.len() == 4);
    assert("name"@.len() == 4);
    assert("nicknames"@.len() == 9);
    assert("emails"@.len() == 6);
    assert("phones"@.len() == 6);
    assert("addresses"@.len() == 9);
    assert("titles"@.len() == 6);
    assert("organizations"@.len() == 13);
    assert("notes"@.len() == 5);
    assert("localizations"@.len() == 13);
    assert("anniversaries"@.len() == 13);
    assert("links"@.len() == 5);
    assert("keywords"@.len() == 8);
    assert("onlineServices"@.len() == 14);
    assert("created"@.len() == 7);
    assert("updated"@.len() == 7);
    assert("@type"@[0] == '@');
    assert("notes"@[0] == 'n');
    assert("links"@[0] == 'l');
    assert("version"@[0] == 'v');
    assert("created"@[0] == 'c');
    assert("updated"@[0] == 'u');
    assert("kind"@[0] == 'k');
    assert("name"@[0] == 'n');
    assert("nicknames"@[0] == 'n');
    assert("addresses"@[0] == 'a');
    assert("emails"@[0] == 'e');
    assert("phones"@[0] == 'p');
    assert("titles"@[0] == 't');
    assert("organizations"@[0] == 'o');
    assert("localizations"@[0] == 'l');
    assert("anniversaries"@[0] == 'a');
}

proof fn lemma_card(c: Val, uid: Seq<char>, key: Seq<char>)
    ensures
        json::lookup(contact_map::card_members(c, uid), key) == (if key == "@type"@ {
            Some(Val::Text("Card"@))
        } else if key == "version"@ {
            Some(Val::Text("1.0"@))
        } else if key == "uid"@ {
            Some(Val::Text(uid))
        } else if key == "kind"@ {
            Some(Val::Text("individual"@))
        } else if key == "name"@ {
            contact_map::name_of(c)
        } else if key == "nicknames"@ {
            contact_map::nicknames_of(c)
        } else if key == "emails"@ {
            json::object_opt(contact_map::email_entries(contact_map::items(c.list_at("emailAddresses"@))))
        } else if key == "phones"@ {
            json::object_opt(contact_map::phone_entries(c))
        } else if key == "addresses"@ {
            json::object_opt(contact_map::address_entries(c))
        } else if key == "titles"@ {
            contact_map::titles_of(c)
        } else if key == "organizations"@ {
            contact_map::organizations_of(c)
        } else if key == "notes"@ {
            contact_map::notes_of(c)
        } else if key == "localizations"@ {
            contact_map::localizations_of(c)
        } else if key == "anniversaries"@ {
            contact_map::anniversaries_of(c)
        } else if key == "links"@ {
            contact_map::links_of(c)
        } else if key == "keywords"@ {
            json::object_opt(contact_map::keyword_entries(contact_map::items(c.list_at("categories"@))))
        } else if key == "onlineServices"@ {
            json::object_opt(contact_map::service_entries(contact_map::items(c.list_at("imAddresses"@))))
        } else if key == "created"@ {
            contact_map::stamp_of(c, "createdDateTime"@)
        } else if key == "updated"@ {
            contact_map::stamp_of(c, "lastModifiedDateTime"@)
        } else {
            None
        }),
{
    lemma_card_names();
    let b0 = seq![("@type"@, Val::Text("Card"@)), ("version"@, Val::Text("1.0"@)), ("uid"@, Val::Text(uid)), ("kind"@, Val::Text("individual"@))];
    json::lemma_find4("@type"@, Val::Text("Card"@), "version"@, Val::Text("1.0"@), "uid"@, Val::Text(uid), "kind"@, Val::Text("individual"@), key);
    let m0 = b0;
    let m1 = m0 + json::member_if("name"@, contact_map::name_of(c));
    json::lemma_lookup_member_if(m0, "name"@, contact_map::name_of(c), key);
    let m2 = m1 + json::member_if("nicknames"@, contact_map::nicknames_of(c));
    json::lemma_lookup_member_if(m1, "nicknames"@, contact_map::nicknames_of(c), key);
    let m3 = m2 + json::member_if("emails"@, json::object_opt(contact_map::email_entries(contact_map::items(c.list_at("emailAddresses"@)))));
    json::lemma_lookup_member_if(m2, "emails"@, json::object_opt(contact_map::email_entries(contact_map::items(c.list_at("emailAddresses"@)))), key);
    let m4 = m3 + json::member_if("phones"@, json::object_opt(contact_map::phone_entries(c)));
    json::lemma_lookup_member_if(m3, "phones"@, json::object_opt(contact_map::phone_entries(c)), key);
    let m5 = m4 + json::member_if("addresses"@, json::object_opt(contact_map::address_entries(c)));
    json::lemma_lookup_member_if(m4, "addresses"@, json::object_opt(contact_map::address_entries(c)), key);
    let m6 = m5 + json::member_if("titles"@, contact_map::titles_of(c));
    json::lemma_lookup_member_if(m5, "titles"@, contact_map::titles_of(c), key);
    let m7 = m6 + json::member_if("organizations"@, contact_map::organizations_of(c));
    json::lemma_lookup_member_if(m6, "organizations"@, contact_map::organizations_of(c), key);
    let m8 = m7 + json::member_if("notes"@, contact_map::notes_of(c));
    json::lemma_lookup_member_if(m7, "notes"@, contact_map::notes_of(c), key);
    let m9 = m8 + json::member_if("localizations"@, contact_map::localizations_of(c));
    json::lemma_lookup_member_if(m8, "localizations"@, contact_map::localizations_of(c), key);
    let m10 = m9 + json::member_if("anniversaries"@, contact_map::anniversaries_of(c));
    json::lemma_lookup_member_if(m9, "anniversaries"@, contact_map::anniversaries_of(c), key);
    let m11 = m10 + json::member_if("links"@, contact_map::links_of(c));
    json::lemma_lookup_member_if(m10, "links"@, contact_map::links_of(c), key);
    let m12 = m11 + json::member_if("keywords"@, json::object_opt(contact_map::keyword_entries(contact_map::items(c.list_at("categories"@)))));
    json::lemma_lookup_member_if(m11, "keywords"@, json::object_opt(contact_map::keyword_entries(contact_map::items(c.list_at("categories"@)))), key);
    let m13 = m12 + json::member_if("onlineServices"@, json::object_opt(contact_map::service_entries(contact_map::items(c.list_at("imAddresses"@)))));
    json::lemma_lookup_member_if(m12, "onlineServices"@, json::object_opt(contact_map::service_entries(contact_map::items(c.list_at("imAddresses"@)))), key);
    let m14 = m13 + json::member_if("created"@, contact_map::stamp_of(c, "createdDateTime"@));
    json::lemma_lookup_member_if(m13, "created"@, contact_map::stamp_of(c, "createdDateTime"@), key);
    let m15 = m14 + json::member_if("updated"@, contact_map::stamp_of(c, "lastModifiedDateTime"@));
    json::lemma_lookup_member_if(m14, "updated"@, contact_map::stamp_of(c, "lastModifiedDateTime"@), key);
    assert(contact_map::card_members(c, uid) =~= m15);
}

proof fn lemma_part_names()
    ensures
        "@type"@ != "kind"@,
        "@type"@ != "value"@,
        "kind"@ != "value"@,
{
    reveal_strlit("@type");
    reveal_strlit("kind");
    reveal_strlit("value");
    assert("@type"@.len() == 5);
    assert("kind"@.len() == 4);
    assert("value"@.len() == 5);
    assert("@type"@[0] == '@');
    assert("value"@[0] == 'v');
}

proof fn lemma_entry_names()
    ensures
        "@type"@ != "full"@,
        "@type"@ != "components"@,
        "@type"@ != "contexts"@,
        "@type"@ != "number"@,
        "@type"@ != "features"@,
        "@type"@ != "address"@,
        "@type"@ != "pref"@,
        "@type"@ != "name"@,
        "@type"@ != "units"@,
        "@type"@ != "organizationId"@,
        "@type"@ != "note"@,
        "@type"@ != "date"@,
        "@type"@ != "uri"@,
        "@type"@ != "user"@,
        "@type"@ != "kind"@,
        "@type"@ != "year"@,
        "@type"@ != "month"@,
        "@type"@ != "day"@,
        "@type"@ != "value"@,
        "@type"@ != "mobile"@,
        "@type"@ != "voice"@,
        "@type"@ != "work"@,
        "@type"@ != "private"@,
        "full"@ != "components"@,
        "full"@ != "contexts"@,
        "full"@ != "number"@,
        "full"@ != "features"@,
        "full"@ != "address"@,
        "full"@ != "pref"@,
        "full"@ != "name"@,
        "full"@ != "units"@,
        "full"@ != "organizationId"@,
        "full"@ != "note"@,
        "full"@ != "date"@,
        "full"@ != "uri"@,
        "full"@ != "user"@,
        "full"@ != "kind"@,
        "full"@ != "year"@,
        "full"@ != "month"@,
        "full"@ != "day"@,
        "full"@ != "value"@,
        "full"@ != "mobile"@,
        "full"@ != "voice"@,
        "full"@ != "work"@,
        "full"@ != "private"@,
        "components"@ != "contexts"@,
        "components"@ != "number"@,
        "components"@ != "features"@,
        "components"@ != "address"@,
        "components"@ != "pref"@,
        "components"@ != "name"@,
        "components"@ != "units"@,
        "components"@ != "organizationId"@,
        "components"@ != "note"@,
        "components"@ != "date"@,
        "components"@ != "uri"@,
        "components"@ != "user"@,
        "components"@ != "kind"@,
        "components"@ != "year"@,
        "components"@ != "month"@,
        "components"@ != "day"@,
        "components"@ != "value"@,
        "components"@ != "mobile"@,
        "components"@ != "voice"@,
        "components"@ != "work"@,
        "components"@ != "private"@,
        "contexts"@ != "number"@,
        "contexts"@ != "features"@,
        "contexts"@ != "address"@,
        "contexts"@ != "pref"@,
        "contexts"@ != "name"@,
        "contexts"@ != "units"@,
        "contexts"@ != "organizationId"@,
        "contexts"@ != "note"@,
        "contexts"@ != "date"@,
        "contexts"@ != "uri"@,
        "contexts"@ != "user"@,
        "contexts"@ != "kind"@,
        "contexts"@ != "year"@,
        "contexts"@ != "month"@,
        "contexts"@ != "day"@,
        "contexts"@ != "value"@,
        "contexts"@ != "mobile"@,
        "contexts"@ != "voice"@,
        "contexts"@ != "work"@,
        "contexts"@ != "private"@,
        "number"@ != "features"@,
        "number"@ != "address"@,
        "number"@ != "pref"@,
        "number"@ != "name"@,
        "number"@ != "units"@,
        "number"@ != "organizationId"@,
        "number"@ != "note"@,
        "number"@ != "date"@,
        "number"@ != "uri"@,
        "number"@ != "user"@,
        "number"@ != "kind"@,
        "number"@ != "year"@,
        "number"@ != "month"@,
        "number"@ != "day"@,
        "number"@ != "value"@,
        "number"@ != "mobile"@,
        "number"@ != "voice"@,
        "number"@ != "work"@,
        "number"@ != "private"@,
        "features"@ != "address"@,
        "features"@ != "pref"@,
        "features"@ != "name"@,
        "features"@ != "units"@,
        "features"@ != "organizationId"@,
        "features"@ != "note"@,
        "features"@ != "date"@,
        "features"@ != "uri"@,
        "features"@ != "user"@,
        "features"@ != "kind"@,
        "features"@ != "year"@,
        "features"@ != "month"@,
        "features"@ != "day"@,
        "features"@ != "value"@,
        "features"@ != "mobile"@,
        "features"@ != "voice"@,
        "features"@ != "work"@,
        "features"@ != "private"@,
        "address"@ != "pref"@,
        "address"@ != "name"@,
        "address"@ != "units"@,
        "address"@ != "organizationId"@,
        "address"@ != "note"@,
        "address"@ != "date"@,
        "address"@ != "uri"@,
        "address"@ != "user"@,
        "address"@ != "kind"@,
        "address"@ != "year"@,
        "address"@ != "month"@,
        "address"@ != "day"@,
        "address"@ != "value"@,
        "address"@ != "mobile"@,
        "address"@ != "voice"@,
        "address"@ != "work"@,
        "address"@ != "private"@,
        "pref"@ != "name"@,
        "pref"@ != "units"@,
        "pref"@ != "organizationId"@,
        "pref"@ != "note"@,
        "pref"@ != "date"@,
        "pref"@ != "uri"@,
        "pref"@ != "user"@,
        "pref"@ != "kind"@,
        "pref"@ != "year"@,
        "pref"@ != "month"@,
        "pref"@ != "day"@,
        "pref"@ != "value"@,
        "pref"@ != "mobile"@,
        "pref"@ != "voice"@,
        "pref"@ != "work"@,
        "pref"@ != "private"@,
        "name"@ != "units"@,
        "name"@ != "organizationId"@,
        "name"@ != "note"@,
        "name"@ != "date"@,
        "name"@ != "uri"@,
        "name"@ != "user"@,
        "name"@ != "kind"@,
        "name"@ != "year"@,
        "name"@ != "month"@,
        "name"@ != "day"@,
        "name"@ != "value"@,
        "name"@ != "mobile"@,
        "name"@ != "voice"@,
        "name"@ != "work"@,
        "name"@ != "private"@,
        "units"@ != "organizationId"@,
        "units"@ != "note"@,
        "units"@ != "date"@,
        "units"@ != "uri"@,
        "units"@ != "user"@,
        "units"@ != "kind"@,
        "units"@ != "year"@,
        "units"@ != "month"@,
        "units"@ != "day"@,
        "units"@ != "value"@,
        "units"@ != "mobile"@,
        "units"@ != "voice"@,
        "units"@ != "work"@,
        "units"@ != "private"@,
        "organizationId"@ != "note"@,
        "organizationId"@ != "date"@,
        "organizationId"@ != "uri"@,
        "organizationId"@ != "user"@,
        "organizationId"@ != "kind"@,
        "organizationId"@ != "year"@,
        "organizationId"@ != "month"@,
        "organizationId"@ != "day"@,
        "organizationId"@ != "value"@,
        "organizationId"@ != "mobile"@,
        "organizationId"@ != "voice"@,
        "organizationId"@ != "work"@,
        "organizationId"@ != "private"@,
        "note"@ != "date"@,
        "note"@ != "uri"@,
        "note"@ != "user"@,
        "note"@ != "kind"@,
        "note"@ != "year"@,
        "note"@ != "month"@,
        "note"@ != "day"@,
        "note"@ != "value"@,
        "note"@ != "mobile"@,
        "note"@ != "voice"@,
        "note"@ != "work"@,
        "note"@ != "private"@,
        "date"@ != "uri"@,
        "date"@ != "user"@,
        "date"@ != "kind"@,
        "date"@ != "year"@,
        "date"@ != "month"@,
        "date"@ != "day"@,
        "date"@ != "value"@,
        "date"@ != "mobile"@,
        "date"@ != "voice"@,
        "date"@ != "work"@,
        "date"@ != "private"@,
        "uri"@ != "user"@,
        "uri"@ != "kind"@,
        "uri"@ != "year"@,
        "uri"@ != "month"@,
        "uri"@ != "day"@,
        "uri"@ != "value"@,
        "uri"@ != "mobile"@,
        "uri"@ != "voice"@,
        "uri"@ != "work"@,
        "uri"@ != "private"@,
        "user"@ != "kind"@,
        "user"@ != "year"@,
        "user"@ != "month"@,
        "user"@ != "day"@,
        "user"@ != "value"@,
        "user"@ != "mobile"@,
        "user"@ != "voice"@,
        "user"@ != "work"@,
        "user"@ != "private"@,
        "kind"@ != "year"@,
        "kind"@ != "month"@,
        "kind"@ != "day"@,
        "kind"@ != "value"@,
        "kind"@ != "mobile"@,
        "kind"@ != "voice"@,
        "kind"@ != "work"@,
        "kind"@ != "private"@,
        "year"@ != "month"@,
        "year"@ != "day"@,
        "year"@ != "value"@,
        "year"@ != "mobile"@,
        "year"@ != "voice"@,
        "year"@ != "work"@,
        "year"@ != "private"@,
        "month"@ != "day"@,
        "month"@ != "value"@,
        "month"@ != "mobile"@,
        "month"@ != "voice"@,
        "month"@ != "work"@,
        "month"@ != "private"@,
        "day"@ != "value"@,
        "day"@ != "mobile"@,
        "day"@ != "voice"@,
        "day"@ != "work"@,
        "day"@ != "private"@,
        "value"@ != "mobile"@,
        "value"@ != "voice"@,
        "value"@ != "work"@,
        "value"@ != "private"@,
        "mobile"@ != "voice"@,
        "mobile"@ != "work"@,
        "mobile"@ != "private"@,
        "voice"@ != "work"@,
        "voice"@ != "private"@,
        "work"@ != "private"@,
{
    reveal_strlit("@type");
    reveal_strlit("full");
    reveal_strlit("components");
    reveal_strlit("contexts");
    reveal_strlit("number");
    reveal_strlit("features");
    reveal_strlit("address");
    reveal_strlit("pref");
    reveal_strlit("name");
    reveal_strlit("units");
    reveal_strlit("organizationId");
    reveal_strlit("note");
    reveal_strlit("date");
    reveal_strlit("uri");
    reveal_strlit("user");
    reveal_strlit("kind");
    reveal_strlit("year");
    reveal_strlit("month");
    reveal_strlit("day");
    reveal_strlit("value");
    reveal_strlit("mobile");
    reveal_strlit("voice");
    reveal_strlit("work");
    reveal_strlit("private");
    assert("@type"@.len() == 5);
    assert("full"@.len() == 4);
    assert("components"@.len() == 10);
    assert("contexts"@.len() == 8);
    assert("number"@.len() == 6);
    assert("features"@.len() == 8);
    assert("address"@.len() == 7);
    assert("pref"@.len() == 4);
    assert("name"@.len() == 4);
    assert("units"@.len() == 5);
    assert("organizationId"@.len() == 14);
    assert("note"@.len() == 4);
    assert("date"@.len() == 4);
    assert("uri"@.len() == 3);
    assert("user"@.len() == 4);
    assert("kind"@.len() == 4);
    assert("year"@.len() == 4);
    assert("month"@.len() == 5);
    assert("day"@.len() == 3);
    assert("value"@.len() == 5);
    assert("mobile"@.len() == 6);
    assert("voice"@.len() == 5);
    assert("work"@.len() == 4);
    assert("private"@.len() == 7);
    assert("@type"@[0] == '@');
    assert("units"@[0] == 'u');
    assert("month"@[0] == 'm');
    assert("value"@[0] == 'v');
    assert("voice"@[0] == 'v');
    assert("full"@[0] == 'f');
    assert("pref"@[0] == 'p');
    assert("name"@[0] == 'n');
    assert("note"@[0] == 'n');
    assert("date"@[0] == 'd');
    assert("user"@[0] == 'u');
    assert("kind"@[0] == 'k');
    assert("year"@[0] == 'y');
    assert("work"@[0] == 'w');
    assert("contexts"@[0] == 'c');
    assert("features"@[0] == 'f');
    assert("number"@[0] == 'n');
    assert("mobile"@[0] == 'm');
    assert("address"@[0] == 'a');
    assert("private"@[0] == 'p');
    assert("name"@[1] == 'a');
    assert("note"@[1] == 'o');
    assert("uri"@[0] == 'u');
    assert("day"@[0] == 'd');
    assert("value"@[1] == 'a');
    assert("voice"@[1] == 'o');
}

/// The card of a contact.
pub open spec fn card(c: Val, uid: Seq<char>) -> Val {
    Val::Object(contact_map::card_members(c, uid))
}

/// What an entry of a member of a value is.
pub open spec fn entry(v: Val, member: Seq<char>, key: Seq<char>) -> Option<Val> {
    match v.get(member) {
        Some(o) => o.get(key),
        None => None,
    }
}

/// Whether a text member of a contact says something.
pub open spec fn says(c: Val, key: Seq<char>, value: Seq<char>) -> bool {
    c.text_at(key) == Some(value) && value.len() > 0
}

/// Whether a list of parts has one of a kind with a value.
pub open spec fn has_part(list: Seq<Val>, kind: Seq<char>, value: Seq<char>) -> bool {
    exists|i: int|
        0 <= i < list.len() && (#[trigger] list[i]).text_at("kind"@) == Some(kind)
            && list[i].text_at("value"@) == Some(value)
}

/// The parts that a value is made of.
pub open spec fn parts_of(v: Option<Val>) -> Seq<Val> {
    match v {
        Some(x) => match x.list_at("components"@) {
            Some(l) => l,
            None => Seq::empty(),
        },
        None => Seq::empty(),
    }
}

proof fn lemma_component(of: Seq<char>, kind: Seq<char>, value: Seq<char>)
    ensures
        ({
            let x = contact_map::component(of, kind, Some(value))->0;
            &&& x.text_at("kind"@) == Some(kind)
            &&& x.text_at("value"@) == Some(value)
        }),
{
    lemma_part_names();
    let (a, b, d) = (Val::Text(of), Val::Text(kind), Val::Text(value));
    json::lemma_find3("@type"@, a, "kind"@, b, "value"@, d, "kind"@);
    json::lemma_find3("@type"@, a, "kind"@, b, "value"@, d, "value"@);
}

proof fn lemma_part_added(
    a: Seq<Val>,
    of: Seq<char>,
    own: Seq<char>,
    held: Option<Seq<char>>,
    kind: Seq<char>,
    value: Seq<char>,
)
    ensures
        has_part(a + json::item_if(contact_map::component(of, own, held)), kind, value) <==> (
        has_part(a, kind, value) || (kind == own && held == Some(value))),
{
    let b = json::item_if(contact_map::component(of, own, held));
    let all = a + b;
    if let Some(t) = held {
        lemma_component(of, own, t);
        assert(all[a.len() as int] == b[0]);
    }
    if has_part(a, kind, value) {
        let i = choose|i: int|
            0 <= i < a.len() && (#[trigger] a[i]).text_at("kind"@) == Some(kind) && a[i].text_at(
                "value"@,
            ) == Some(value);
        assert(all[i] == a[i]);
    }
    if has_part(all, kind, value) {
        let i = choose|i: int|
            0 <= i < all.len() && (#[trigger] all[i]).text_at("kind"@) == Some(kind)
                && all[i].text_at("value"@) == Some(value);
        if i < a.len() {
            assert(all[i] == a[i]);
        } else {
            assert(all[i] == b[0]);
        }
    }
}

proof fn lemma_name_parts(c: Val, kind: Seq<char>, value: Seq<char>)
    ensures
        has_part(contact_map::name_components(c), kind, value) <==> {
            ||| kind == "title"@ && contact_map::field(c, "title"@) == Some(value)
            ||| kind == "given"@ && contact_map::field(c, "givenName"@) == Some(value)
            ||| kind == "given2"@ && contact_map::field(c, "middleName"@) == Some(value)
            ||| kind == "surname"@ && contact_map::field(c, "surname"@) == Some(value)
            ||| kind == "generation"@ && contact_map::field(c, "generation"@) == Some(value)
        },
{
    let of = "NameComponent"@;
    let f1 = contact_map::field(c, "title"@);
    let f2 = contact_map::field(c, "givenName"@);
    let f3 = contact_map::field(c, "middleName"@);
    let f4 = contact_map::field(c, "surname"@);
    let f5 = contact_map::field(c, "generation"@);
    let m0 = Seq::<Val>::empty();
    let m1 = m0 + json::item_if(contact_map::component(of, "title"@, f1));
    let m2 = m1 + json::item_if(contact_map::component(of, "given"@, f2));
    let m3 = m2 + json::item_if(contact_map::component(of, "given2"@, f3));
    let m4 = m3 + json::item_if(contact_map::component(of, "surname"@, f4));
    lemma_part_added(m0, of, "title"@, f1, kind, value);
    lemma_part_added(m1, of, "given"@, f2, kind, value);
    lemma_part_added(m2, of, "given2"@, f3, kind, value);
    lemma_part_added(m3, of, "surname"@, f4, kind, value);
    lemma_part_added(m4, of, "generation"@, f5, kind, value);
}

proof fn lemma_name_at(c: Val, key: Seq<char>)
    ensures
        contact_map::name_of(c) is Some ==> contact_map::name_of(c)->0.get(key) == (if key
            == "@type"@ {
            Some(Val::Text("Name"@))
        } else if key == "full"@ {
            json::text_opt(contact_map::field(c, "displayName"@))
        } else if key == "components"@ {
            json::list_opt(contact_map::name_components(c))
        } else {
            None
        }),
        contact_map::name_of(c) is None ==> contact_map::field(c, "displayName"@) is None
            && contact_map::name_components(c).len() == 0,
{
    lemma_entry_names();
    let full = json::text_opt(contact_map::field(c, "displayName"@));
    let parts = json::list_opt(contact_map::name_components(c));
    let m0 = seq![("@type"@, Val::Text("Name"@))];
    json::lemma_find1("@type"@, Val::Text("Name"@), key);
    json::lemma_lookup_member_if(m0, "full"@, full, key);
    json::lemma_lookup_member_if(m0 + json::member_if("full"@, full), "components"@, parts, key);
}

/// The name of a card has the contact's title, given name, middle name, surname
/// and generation as its parts, each under its own kind, and no others; its full
/// text is the display name.
pub proof fn names_have_their_parts(c: Val, uid: Seq<char>, kind: Seq<char>, value: Seq<char>)
    ensures
        has_part(parts_of(card(c, uid).get("name"@)), kind, value) <==> {
            ||| kind == "title"@ && says(c, "title"@, value)
            ||| kind == "given"@ && says(c, "givenName"@, value)
            ||| kind == "given2"@ && says(c, "middleName"@, value)
            ||| kind == "surname"@ && says(c, "surname"@, value)
            ||| kind == "generation"@ && says(c, "generation"@, value)
        },
        entry(card(c, uid), "name"@, "full"@) == Some(Val::Text(value)) <==> says(
            c,
            "displayName"@,
            value,
        ),
{
    lemma_card(c, uid, "name"@);
    lemma_card_names();
    lemma_entry_names();
    lemma_name_at(c, "components"@);
    lemma_name_at(c, "full"@);
    lemma_name_parts(c, kind, value);
    if !(contact_map::name_of(c) is Some) {
        assert(!has_part(contact_map::name_components(c), kind, value));
    }
    assert(parts_of(card(c, uid).get("name"@)) =~= contact_map::name_components(c));
}

/// The Japanese readings of the given name and the surname are tied to the parts
/// of the name that they are readings of.
pub proof fn readings_point_at_their_parts(c: Val, uid: Seq<char>, reading: Seq<char>)
    ensures
        says(c, "yomiGivenName"@, reading) && (exists|v: Seq<char>| says(c, "givenName"@, v)) ==> (
        exists|i: int|
            0 <= i < parts_of(card(c, uid).get("name"@)).len() && (#[trigger] parts_of(
                card(c, uid).get("name"@),
            )[i]).text_at("kind"@) == Some("given"@) && reading_at(c, uid, i) == Some(
                Val::Text(reading),
            )),
        says(c, "yomiSurname"@, reading) && (exists|v: Seq<char>| says(c, "surname"@, v)) ==> (
        exists|i: int|
            0 <= i < parts_of(card(c, uid).get("name"@)).len() && (#[trigger] parts_of(
                card(c, uid).get("name"@),
            )[i]).text_at("kind"@) == Some("surname"@) && reading_at(c, uid, i) == Some(
                Val::Text(reading),
            )),
{
    lemma_card(c, uid, "name"@);
    lemma_card(c, uid, "localizations"@);
    lemma_card_names();
    lemma_entry_names();
    lemma_name_at(c, "components"@);
    let of = "NameComponent"@;
    let f1 = contact_map::field(c, "title"@);
    let f2 = contact_map::field(c, "givenName"@);
    let f3 = contact_map::field(c, "middleName"@);
    let f4 = contact_map::field(c, "surname"@);
    let f5 = contact_map::field(c, "generation"@);
    let m1 = Seq::<Val>::empty() + json::item_if(contact_map::component(of, "title"@, f1));
    let m2 = m1 + json::item_if(contact_map::component(of, "given"@, f2));
    let m3 = m2 + json::item_if(contact_map::component(of, "given2"@, f3));
    let m4 = m3 + json::item_if(contact_map::component(of, "surname"@, f4));
    let all = contact_map::name_components(c);
    assert(all == m4 + json::item_if(contact_map::component(of, "generation"@, f5)));
    assert(parts_of(card(c, uid).get("name"@)) =~= all);
    let j = contact_map::japanese_entries(c);
    json::lemma_find1("ja"@, Val::Object(j), "ja"@);
    let org = if contact_map::has_organization(c) {
        json::text_opt(contact_map::field(c, "yomiCompanyName"@))
    } else {
        None
    };
    let e1 = json::member_if("organizations/org-1/name"@, org);
    let gi = contact_map::given_index(c);
    let si = contact_map::surname_index(c);
    let gy = contact_map::field(c, "yomiGivenName"@);
    let sy = contact_map::field(c, "yomiSurname"@);
    let e2 = contact_map::localized_component(gi, gy);
    let e3 = contact_map::localized_component(si, sy);
    assert(j == e1 + e2 + e3);
    if gy == Some(reading) && f2 is Some {
        let i = gi->0 as int;
        lemma_component(of, "given"@, f2->0);
        assert(m2[i] == contact_map::component(of, "given"@, f2)->0);
        assert(all[i] == m2[i]);
        lemma_pointer(e1, org, gi->0);
        json::lemma_find1(contact_map::component_pointer(gi->0), Val::Text(reading), contact_map::component_pointer(gi->0));
        json::lemma_lookup_concat(e1, e2, contact_map::component_pointer(gi->0));
        json::lemma_lookup_concat(e1 + e2, e3, contact_map::component_pointer(gi->0));
        assert(reading_at(c, uid, i) == Some(Val::Text(reading)));
        assert(parts_of(card(c, uid).get("name"@))[i].text_at("kind"@) == Some("given"@));
    }
    if sy == Some(reading) && f4 is Some {
        let i = si->0 as int;
        let p = contact_map::component_pointer(si->0);
        lemma_component(of, "surname"@, f4->0);
        assert(m4[i] == contact_map::component(of, "surname"@, f4)->0);
        assert(all[i] == m4[i]);
        lemma_pointer(e1, org, si->0);
        if gi is Some && gy is Some {
            assert(gi->0 != si->0);
            lemma_pointers_differ(gi->0, si->0);
            json::lemma_find1(contact_map::component_pointer(gi->0), Val::Text(gy->0), p);
        }
        json::lemma_find1(p, Val::Text(reading), p);
        json::lemma_lookup_concat(e1, e2, p);
        json::lemma_lookup_concat(e1 + e2, e3, p);
        assert(reading_at(c, uid, i) == Some(Val::Text(reading)));
        assert(parts_of(card(c, uid).get("name"@))[i].text_at("kind"@) == Some("surname"@));
    }
}

/// The Japanese reading of the part of the name with a number.
pub open spec fn reading_at(c: Val, uid: Seq<char>, i: int) -> Option<Val> {
    match entry(card(c, uid), "localizations"@, "ja"@) {
        Some(ja) => ja.get("name/components/"@ + text::dec(i as nat) + "/value"@),
        None => None,
    }
}

proof fn lemma_pointers_differ(a: nat, b: nat)
    requires
        a != b,
    ensures
        contact_map::component_pointer(a) != contact_map::component_pointer(b),
{
    text::decimals_tell_numbers_apart(a, b);
    let (p, q) = (contact_map::component_pointer(a), contact_map::component_pointer(b));
    let h = "name/components/"@;
    let t = "/value"@;
    if p == q {
        assert(p.len() == h.len() + text::dec(a).len() + t.len());
        assert(q.len() == h.len() + text::dec(b).len() + t.len());
        assert(p.subrange(h.len() as int, (h.len() + text::dec(a).len()) as int) =~= text::dec(a));
        assert(q.subrange(h.len() as int, (h.len() + text::dec(b).len()) as int) =~= text::dec(b));
    }
}

proof fn lemma_pointer(e: Members, org: Option<Val>, n: nat)
    requires
        e == json::member_if("organizations/org-1/name"@, org),
    ensures
        json::lookup(e, contact_map::component_pointer(n)) is None,
{
    reveal_strlit("organizations/org-1/name");
    reveal_strlit("name/components/");
    let p = contact_map::component_pointer(n);
    assert(p[0] == 'n');
    assert("organizations/org-1/name"@[0] == 'o');
    if let Some(v) = org {
        json::lemma_find1("organizations/org-1/name"@, v, p);
    }
}

proof fn lemma_emails(v: Seq<Val>, i: int)
    requires
        0 <= i < v.len(),
    ensures
        json::lookup(contact_map::email_entries(v), "email-"@ + text::dec((i + 1) as nat)) == (
        match contact_map::field(v[i], "address"@) {
            Some(a) => Some(contact_map::email_entry(v[i], i as nat)[0].1),
            None => None,
        }),
        forall|k: nat|
            k > v.len() ==> json::lookup(
                contact_map::email_entries(v),
                "email-"@ + #[trigger] text::dec(k),
            ) is None,
    decreases v.len(),
{
    lemma_email_keys(v);
    let rest = v.drop_last();
    let key = "email-"@ + text::dec((i + 1) as nat);
    let last = contact_map::email_entry(v.last(), (v.len() - 1) as nat);
    json::lemma_lookup_concat(contact_map::email_entries(rest), last, key);
    if contact_map::field(v.last(), "address"@) is Some {
        json::lemma_find1(last[0].0, last[0].1, key);
        assert(last =~= seq![last[0]]);
    }
    if i < rest.len() {
        lemma_emails(rest, i);
        assert(rest[i] == v[i]);
        lemma_email_key((i + 1) as nat, v.len());
    } else {
        lemma_email_keys(rest);
        assert(json::lookup(contact_map::email_entries(rest), "email-"@ + text::dec(v.len()))
            is None);
    }
}

proof fn lemma_email_key(a: nat, b: nat)
    ensures
        "email-"@ + text::dec(a) == "email-"@ + text::dec(b) ==> a == b,
{
    text::decimals_tell_numbers_apart(a, b);
    let (p, q) = ("email-"@ + text::dec(a), "email-"@ + text::dec(b));
    assert(p.skip("email-"@.len() as int) =~= text::dec(a));
    assert(q.skip("email-"@.len() as int) =~= text::dec(b));
}

proof fn lemma_email_keys(v: Seq<Val>)
    ensures
        forall|k: nat|
            k > v.len() ==> json::lookup(
                contact_map::email_entries(v),
                "email-"@ + #[trigger] text::dec(k),
            ) is None,
    decreases v.len(),
{
    if v.len() > 0 {
        let rest = v.drop_last();
        lemma_email_keys(rest);
        assert forall|k: nat| k > v.len() implies json::lookup(
            contact_map::email_entries(v),
            "email-"@ + #[trigger] text::dec(k),
        ) is None by {
            let key = "email-"@ + text::dec(k);
            let last = contact_map::email_entry(v.last(), (v.len() - 1) as nat);
            json::lemma_lookup_concat(contact_map::email_entries(rest), last, key);
            if contact_map::field(v.last(), "address"@) is Some {
                json::lemma_find1(last[0].0, last[0].1, key);
                assert(last =~= seq![last[0]]);
                lemma_email_key(v.len(), k);
            }
        }
    }
}

/// Every mail address of a contact is one of the card, under its number, and the
/// first of the list is the preferred one.
pub proof fn mail_addresses_are_kept(c: Val, uid: Seq<char>, i: int)
    requires
        c.list_at("emailAddresses"@) is Some,
        0 <= i < c.list_at("emailAddresses"@)->0.len(),
    ensures
        ({
            let kept = entry(card(c, uid), "emails"@, "email-"@ + text::dec((i + 1) as nat));
            match c.list_at("emailAddresses"@)->0[i].text_at("address"@) {
                Some(a) => if a.len() > 0 {
                    &&& kept matches Some(e)
                    &&& e.text_at("address"@) == Some(a)
                    &&& (e.get("pref"@) == Some(Val::Number(NumberVal::Unsigned(1)))) == (i == 0)
                } else {
                    kept is None
                },
                None => kept is None,
            }
        }),
{
    let v = c.list_at("emailAddresses"@)->0;
    lemma_card(c, uid, "emails"@);
    lemma_card_names();
    lemma_entry_names();
    lemma_emails(v, i);
    if let Some(a) = contact_map::field(v[i], "address"@) {
        let m0 = seq![("@type"@, Val::Text("EmailAddress"@)), ("address"@, Val::Text(a))];
        let pref = if i == 0 {
            Some(Val::Number(NumberVal::Unsigned(1)))
        } else {
            None
        };
        let t = Val::Text("EmailAddress"@);
        json::lemma_find2("@type"@, t, "address"@, Val::Text(a), "address"@);
        json::lemma_find2("@type"@, t, "address"@, Val::Text(a), "pref"@);
        json::lemma_lookup_member_if(m0, "pref"@, pref, "address"@);
        json::lemma_lookup_member_if(m0, "pref"@, pref, "pref"@);
        assert(contact_map::email_entries(v).len() > 0);
    }
}

/// Whether a phone is used in a context.
pub open spec fn used_for(p: Val, context: Seq<char>) -> bool {
    p.get("contexts"@) matches Some(x) && x.get(context) == Some(Val::Bool(true))
}

/// Whether a list has a text that is not empty.
pub open spec fn lists(v: Option<Seq<Val>>, t: Seq<char>) -> bool {
    v matches Some(l) && t.len() > 0 && exists|i: int|
        0 <= i < l.len() && (#[trigger] l[i]).as_text() == Some(t)
}

proof fn lemma_phone_in(number: Seq<char>, context: Seq<char>, other: Seq<char>)
    ensures
        contact_map::phone_in(number, context).text_at("number"@) == Some(number),
        used_for(contact_map::phone_in(number, context), other) <==> other == context,
        contact_map::phone_in(number, context).get("features"@) is None,
{
    lemma_entry_names();
    let (a, b, d) = (Val::Text("Phone"@), Val::Text(number), contact_map::flag(context));
    json::lemma_find3("@type"@, a, "number"@, b, "contexts"@, d, "number"@);
    json::lemma_find3("@type"@, a, "number"@, b, "contexts"@, d, "contexts"@);
    json::lemma_find3("@type"@, a, "number"@, b, "contexts"@, d, "features"@);
    json::lemma_find1(context, Val::Bool(true), other);
}

proof fn lemma_mobile(number: Seq<char>, other: Seq<char>)
    ensures
        contact_map::mobile_phone(number).text_at("number"@) == Some(number),
        !used_for(contact_map::mobile_phone(number), other),
        contact_map::mobile_phone(number).get("features"@) matches Some(f) && f.get("mobile"@)
            == Some(Val::Bool(true)),
{
    lemma_entry_names();
    let t = Val::Bool(true);
    let f = json::obj2("mobile"@, t, "voice"@, t);
    let (a, b) = (Val::Text("Phone"@), Val::Text(number));
    json::lemma_find3("@type"@, a, "number"@, b, "features"@, f, "number"@);
    json::lemma_find3("@type"@, a, "number"@, b, "features"@, f, "contexts"@);
    json::lemma_find3("@type"@, a, "number"@, b, "features"@, f, "features"@);
    json::lemma_find2("mobile"@, t, "voice"@, t, "mobile"@);
}

spec fn is_numbered(e: Members) -> bool {
    forall|k: int| 0 <= k < e.len() ==> (#[trigger] e[k]).0 == contact_map::phone_key((k + 1) as nat)
}

spec fn holds(e: Members, v: Val) -> bool {
    exists|k: int| 0 <= k < e.len() && (#[trigger] e[k]).1 == v
}

proof fn lemma_phones(acc: Members, v: Seq<Val>, context: Seq<char>, x: Val)
    requires
        is_numbered(acc),
    ensures
        is_numbered(contact_map::phones_after(acc, v, context)),
        holds(contact_map::phones_after(acc, v, context), x) <==> (holds(acc, x) || exists|i: int|
            0 <= i < v.len() && json::filled((#[trigger] v[i]).as_text()) is Some
                && contact_map::phone_in(json::filled(v[i].as_text())->0, context) == x),
    decreases v.len(),
{
    if v.len() > 0 {
        let rest = v.drop_last();
        lemma_phones(acc, rest, context, x);
        let a = contact_map::phones_after(acc, rest, context);
        let b = contact_map::phones_after(acc, v, context);
        if holds(a, x) {
            let k = choose|k: int| 0 <= k < a.len() && (#[trigger] a[k]).1 == x;
            assert(b[k] == a[k]);
        }
        if json::filled(v.last().as_text()) is Some {
            assert(b[b.len() - 1].1 == contact_map::phone_in(
                json::filled(v.last().as_text())->0,
                context,
            ));
        }
        if holds(b, x) && !holds(a, x) {
            let k = choose|k: int| 0 <= k < b.len() && (#[trigger] b[k]).1 == x;
            if k < a.len() {
                assert(a[k] == b[k]);
            }
            assert(v[v.len() - 1] == v.last());
        }
        if exists|i: int|
            0 <= i < rest.len() && json::filled((#[trigger] rest[i]).as_text()) is Some
                && contact_map::phone_in(json::filled(rest[i].as_text())->0, context) == x {
            let i = choose|i: int|
                0 <= i < rest.len() && json::filled((#[trigger] rest[i]).as_text()) is Some
                    && contact_map::phone_in(json::filled(rest[i].as_text())->0, context) == x;
            assert(v[i] == rest[i]);
        }
        if exists|i: int|
            0 <= i < v.len() && json::filled((#[trigger] v[i]).as_text()) is Some
                && contact_map::phone_in(json::filled(v[i].as_text())->0, context) == x {
            let i = choose|i: int|
                0 <= i < v.len() && json::filled((#[trigger] v[i]).as_text()) is Some
                    && contact_map::phone_in(json::filled(v[i].as_text())->0, context) == x;
            if i < rest.len() {
                assert(rest[i] == v[i]);
            }
        }
    }
}

proof fn lemma_listed(v: Option<Seq<Val>>, n: Seq<char>, context: Seq<char>)
    ensures
        (exists|i: int|
            0 <= i < contact_map::items(v).len() && json::filled(
                (#[trigger] contact_map::items(v)[i]).as_text(),
            ) is Some && contact_map::phone_in(
                json::filled(contact_map::items(v)[i].as_text())->0,
                context,
            ) == contact_map::phone_in(n, context)) <==> lists(v, n),
{
    let l = contact_map::items(v);
    if exists|i: int|
        0 <= i < l.len() && json::filled((#[trigger] l[i]).as_text()) is Some
            && contact_map::phone_in(json::filled(l[i].as_text())->0, context)
            == contact_map::phone_in(n, context) {
        let i = choose|i: int|
            0 <= i < l.len() && json::filled((#[trigger] l[i]).as_text()) is Some
                && contact_map::phone_in(json::filled(l[i].as_text())->0, context)
                == contact_map::phone_in(n, context);
        lemma_phone_in(n, context, context);
        lemma_phone_in(json::filled(l[i].as_text())->0, context, context);
        assert(l[i].as_text() == Some(n));
    }
    if lists(v, n) {
        let i = choose|i: int| 0 <= i < l.len() && (#[trigger] l[i]).as_text() == Some(n);
        assert(json::filled(l[i].as_text()) == Some(n));
    }
}

proof fn lemma_phone_at(e: Members, k: int)
    requires
        is_numbered(e),
        0 <= k < e.len(),
    ensures
        json::lookup(e, contact_map::phone_key((k + 1) as nat)) == Some(e[k].1),
{
    assert forall|i: int| 0 <= i < k implies (#[trigger] e[i]).0 != contact_map::phone_key(
        (k + 1) as nat,
    ) by {
        text::decimals_tell_numbers_apart((i + 1) as nat, (k + 1) as nat);
        let (p, q) = (contact_map::phone_key((i + 1) as nat), contact_map::phone_key((k + 1) as nat));
        assert(p.skip("phone-"@.len() as int) =~= text::dec((i + 1) as nat));
        assert(q.skip("phone-"@.len() as int) =~= text::dec((k + 1) as nat));
    }
    json::lemma_position(e, contact_map::phone_key((k + 1) as nat), k);
}

proof fn lemma_all_phones(c: Val, x: Val)
    ensures
        is_numbered(contact_map::phone_entries(c)),
        holds(contact_map::phone_entries(c), x) <==> {
            ||| exists|i: int|
                0 <= i < contact_map::items(c.list_at("businessPhones"@)).len() && json::filled(
                    (#[trigger] contact_map::items(c.list_at("businessPhones"@))[i]).as_text(),
                ) is Some && contact_map::phone_in(
                    json::filled(contact_map::items(c.list_at("businessPhones"@))[i].as_text())->0,
                    "work"@,
                ) == x
            ||| exists|i: int|
                0 <= i < contact_map::items(c.list_at("homePhones"@)).len() && json::filled(
                    (#[trigger] contact_map::items(c.list_at("homePhones"@))[i]).as_text(),
                ) is Some && contact_map::phone_in(
                    json::filled(contact_map::items(c.list_at("homePhones"@))[i].as_text())->0,
                    "private"@,
                ) == x
            ||| contact_map::field(c, "mobilePhone"@) is Some && contact_map::mobile_phone(
                contact_map::field(c, "mobilePhone"@)->0,
            ) == x
        },
{
    let none = Seq::<(Seq<char>, Val)>::empty();
    let b = contact_map::items(c.list_at("businessPhones"@));
    let h = contact_map::items(c.list_at("homePhones"@));
    let work = contact_map::phones_after(none, b, "work"@);
    let home = contact_map::phones_after(work, h, "private"@);
    lemma_phones(none, b, "work"@, x);
    lemma_phones(work, h, "private"@, x);
    let all = contact_map::phone_entries(c);
    if holds(home, x) {
        let k = choose|k: int| 0 <= k < home.len() && (#[trigger] home[k]).1 == x;
        assert(all[k] == home[k]);
    }
    if let Some(m) = contact_map::field(c, "mobilePhone"@) {
        assert(all[all.len() - 1].1 == contact_map::mobile_phone(m));
    }
    if holds(all, x) && !holds(home, x) {
        let k = choose|k: int| 0 <= k < all.len() && (#[trigger] all[k]).1 == x;
        if k < home.len() {
            assert(all[k] == home[k]);
        }
    }
}

/// Whether a card has a phone with a number for a context, and for none where no
/// context is given: then it is a mobile one.
pub open spec fn has_phone(c: Val, uid: Seq<char>, number: Seq<char>, context: Option<Seq<char>>) -> bool {
    exists|k: nat|
        #![trigger text::dec(k)]
        entry(card(c, uid), "phones"@, "phone-"@ + text::dec(k)) matches Some(p) && p.text_at(
            "number"@,
        ) == Some(number) && match context {
            Some(x) => used_for(p, x),
            None => p.get("features"@) matches Some(f) && f.get("mobile"@) == Some(Val::Bool(true)),
        }
}

/// The business numbers of a contact are those of the card for work, the home
/// numbers those for private use, and the mobile number is a mobile one: each
/// is there, and no other under that head.
pub proof fn phones_are_kept_by_their_use(c: Val, uid: Seq<char>, number: Seq<char>)
    ensures
        has_phone(c, uid, number, Some("work"@)) <==> lists(c.list_at("businessPhones"@), number),
        has_phone(c, uid, number, Some("private"@)) <==> lists(c.list_at("homePhones"@), number),
        has_phone(c, uid, number, None) <==> says(c, "mobilePhone"@, number),
{
    lemma_card(c, uid, "phones"@);
    lemma_card_names();
    lemma_entry_names();
    let e = contact_map::phone_entries(c);
    lemma_listed(c.list_at("businessPhones"@), number, "work"@);
    lemma_listed(c.list_at("homePhones"@), number, "private"@);
    lemma_phone_in(number, "work"@, "work"@);
    lemma_phone_in(number, "private"@, "private"@);
    lemma_mobile(number, "work"@);
    lemma_all_phones(c, contact_map::phone_in(number, "work"@));
    lemma_all_phones(c, contact_map::phone_in(number, "private"@));
    lemma_all_phones(c, contact_map::mobile_phone(number));
    if lists(c.list_at("businessPhones"@), number) {
        let x = contact_map::phone_in(number, "work"@);
        let k = choose|k: int| 0 <= k < e.len() && (#[trigger] e[k]).1 == x;
        lemma_phone_at(e, k);
        assert(entry(card(c, uid), "phones"@, "phone-"@ + text::dec((k + 1) as nat)) == Some(x));
    }
    if lists(c.list_at("homePhones"@), number) {
        let x = contact_map::phone_in(number, "private"@);
        let k = choose|k: int| 0 <= k < e.len() && (#[trigger] e[k]).1 == x;
        lemma_phone_at(e, k);
        assert(entry(card(c, uid), "phones"@, "phone-"@ + text::dec((k + 1) as nat)) == Some(x));
    }
    if says(c, "mobilePhone"@, number) {
        let x = contact_map::mobile_phone(number);
        let k = choose|k: int| 0 <= k < e.len() && (#[trigger] e[k]).1 == x;
        lemma_phone_at(e, k);
        assert(entry(card(c, uid), "phones"@, "phone-"@ + text::dec((k + 1) as nat)) == Some(x));
    }
    assert forall|k: nat|
        entry(card(c, uid), "phones"@, "phone-"@ + #[trigger] text::dec(k)) is Some implies is_own_phone(
        c,
        entry(card(c, uid), "phones"@, "phone-"@ + text::dec(k))->0,
    ) by {
        let p = entry(card(c, uid), "phones"@, "phone-"@ + text::dec(k))->0;
        lemma_found(e, "phone-"@ + text::dec(k));
        lemma_all_phones(c, p);
        lemma_own_phone(c, p);
    }
}

/// Whether a phone is one of a contact, by its use.
spec fn is_own_phone(c: Val, p: Val) -> bool {
    p.text_at("number"@) matches Some(n) && {
        &&& used_for(p, "work"@) ==> lists(c.list_at("businessPhones"@), n)
        &&& used_for(p, "private"@) ==> lists(c.list_at("homePhones"@), n)
        &&& p.get("features"@) is Some ==> says(c, "mobilePhone"@, n)
    }
}

proof fn lemma_found(e: Members, key: Seq<char>)
    requires
        json::lookup(e, key) is Some,
    ensures
        holds(e, json::lookup(e, key)->0),
    decreases e.len(),
{
    if e[0].0 == key {
        assert(e[0].1 == json::lookup(e, key)->0);
    } else {
        let d = e.drop_first();
        lemma_found(d, key);
        let k = choose|k: int| 0 <= k < d.len() && (#[trigger] d[k]).1 == json::lookup(d, key)->0;
        assert(e[k + 1] == d[k]);
    }
}

proof fn lemma_own_phone(c: Val, p: Val)
    requires
        holds(contact_map::phone_entries(c), p),
    ensures
        is_own_phone(c, p),
{
    lemma_entry_names();
    lemma_all_phones(c, p);
    let b = contact_map::items(c.list_at("businessPhones"@));
    let h = contact_map::items(c.list_at("homePhones"@));
    if exists|i: int|
        0 <= i < b.len() && json::filled((#[trigger] b[i]).as_text()) is Some
            && contact_map::phone_in(json::filled(b[i].as_text())->0, "work"@) == p {
        let i = choose|i: int|
            0 <= i < b.len() && json::filled((#[trigger] b[i]).as_text()) is Some
                && contact_map::phone_in(json::filled(b[i].as_text())->0, "work"@) == p;
        let n = json::filled(b[i].as_text())->0;
        lemma_phone_in(n, "work"@, "work"@);
        lemma_phone_in(n, "work"@, "private"@);
        assert(b[i].as_text() == Some(n));
    } else if exists|i: int|
        0 <= i < h.len() && json::filled((#[trigger] h[i]).as_text()) is Some
            && contact_map::phone_in(json::filled(h[i].as_text())->0, "private"@) == p {
        let i = choose|i: int|
            0 <= i < h.len() && json::filled((#[trigger] h[i]).as_text()) is Some
                && contact_map::phone_in(json::filled(h[i].as_text())->0, "private"@) == p;
        let n = json::filled(h[i].as_text())->0;
        lemma_phone_in(n, "private"@, "work"@);
        lemma_phone_in(n, "private"@, "private"@);
        assert(h[i].as_text() == Some(n));
    } else {
        let n = contact_map::field(c, "mobilePhone"@)->0;
        lemma_mobile(n, "work"@);
        lemma_mobile(n, "private"@);
    }
}

proof fn lemma_place_parts(a: Val, kind: Seq<char>, value: Seq<char>)
    ensures
        has_part(contact_map::address_components(a), kind, value) <==> {
            ||| kind == "locality"@ && contact_map::field(a, "city"@) == Some(value)
            ||| kind == "region"@ && contact_map::field(a, "state"@) == Some(value)
            ||| kind == "postcode"@ && contact_map::field(a, "postalCode"@) == Some(value)
            ||| kind == "country"@ && contact_map::field(a, "countryOrRegion"@) == Some(value)
        },
{
    let of = "AddressComponent"@;
    let f1 = contact_map::field(a, "city"@);
    let f2 = contact_map::field(a, "state"@);
    let f3 = contact_map::field(a, "postalCode"@);
    let f4 = contact_map::field(a, "countryOrRegion"@);
    let m0 = Seq::<Val>::empty();
    let m1 = m0 + json::item_if(contact_map::component(of, "locality"@, f1));
    let m2 = m1 + json::item_if(contact_map::component(of, "region"@, f2));
    let m3 = m2 + json::item_if(contact_map::component(of, "postcode"@, f3));
    lemma_part_added(m0, of, "locality"@, f1, kind, value);
    lemma_part_added(m1, of, "region"@, f2, kind, value);
    lemma_part_added(m2, of, "postcode"@, f3, kind, value);
    lemma_part_added(m3, of, "country"@, f4, kind, value);
}

/// Whether an address of a card says what an address of a contact says: the
/// street, and the city, state, postal code and country as its parts.
pub open spec fn says_the_address(x: Val, a: Val) -> bool {
    &&& forall|t: Seq<char>|
        x.get("full"@) == Some(Val::Text(t)) <==> #[trigger] says(a, "street"@, t)
    &&& forall|kind: Seq<char>, t: Seq<char>| #[trigger]
        has_part(parts_of(Some(x)), kind, t) <==> {
            ||| kind == "locality"@ && says(a, "city"@, t)
            ||| kind == "region"@ && says(a, "state"@, t)
            ||| kind == "postcode"@ && says(a, "postalCode"@, t)
            ||| kind == "country"@ && says(a, "countryOrRegion"@, t)
        }
}

/// Whether a text is part of an address of a contact.
pub open spec fn tells(a: Val, t: Seq<char>) -> bool {
    says(a, "street"@, t) || says(a, "city"@, t) || says(a, "state"@, t) || says(
        a,
        "postalCode"@,
        t,
    ) || says(a, "countryOrRegion"@, t)
}

/// Whether an address of a contact says anything.
pub open spec fn is_address(a: Option<Val>) -> bool {
    a matches Some(x) && x is Object && exists|t: Seq<char>| #[trigger] tells(x, t)
}

spec fn address_value(a: Val, context: Option<Seq<char>>) -> Val {
    Val::Object(
        seq![("@type"@, Val::Text("Address"@))] + json::member_if(
            "contexts"@,
            match context {
                Some(x) => Some(contact_map::flag(x)),
                None => None,
            },
        ) + json::member_if("full"@, json::text_opt(contact_map::field(a, "street"@)))
            + json::member_if("components"@, json::list_opt(contact_map::address_components(a))),
    )
}

proof fn lemma_address_value(a: Val, context: Option<Seq<char>>)
    ensures
        says_the_address(address_value(a, context), a),
        match context {
            Some(x) => used_for(address_value(a, context), x),
            None => address_value(a, context).get("contexts"@) is None,
        },
{
    lemma_entry_names();
    let x = address_value(a, context);
    let used = match context {
        Some(k) => Some(contact_map::flag(k)),
        None => None,
    };
    let street = json::text_opt(contact_map::field(a, "street"@));
    let parts = json::list_opt(contact_map::address_components(a));
    let m0 = seq![("@type"@, Val::Text("Address"@))];
    let m1 = m0 + json::member_if("contexts"@, used);
    let m2 = m1 + json::member_if("full"@, street);
    assert forall|key: Seq<char>| #[trigger]
        x.get(key) == (if key == "@type"@ {
            Some(Val::Text("Address"@))
        } else if key == "contexts"@ {
            used
        } else if key == "full"@ {
            street
        } else if key == "components"@ {
            parts
        } else {
            None
        }) by {
        json::lemma_find1("@type"@, Val::Text("Address"@), key);
        json::lemma_lookup_member_if(m0, "contexts"@, used, key);
        json::lemma_lookup_member_if(m1, "full"@, street, key);
        json::lemma_lookup_member_if(m2, "components"@, parts, key);
    }
    if let Some(k) = context {
        json::lemma_find1(k, Val::Bool(true), k);
    }
    assert(x.get("components"@) == parts);
    assert(parts_of(Some(x)) =~= contact_map::address_components(a));
    assert forall|kind: Seq<char>, t: Seq<char>| #[trigger]
        has_part(parts_of(Some(x)), kind, t) <==> {
            ||| kind == "locality"@ && says(a, "city"@, t)
            ||| kind == "region"@ && says(a, "state"@, t)
            ||| kind == "postcode"@ && says(a, "postalCode"@, t)
            ||| kind == "country"@ && says(a, "countryOrRegion"@, t)
        } by {
        lemma_place_parts(a, kind, t);
    }
}

proof fn lemma_filled_parts(a: Val)
    ensures
        a is Object && (contact_map::field(a, "street"@) is Some || contact_map::address_components(
            a,
        ).len() > 0) <==> is_address(Some(a)),
{
    let l = contact_map::address_components(a);
    if a is Object && contact_map::field(a, "street"@) is Some {
        assert(tells(a, contact_map::field(a, "street"@)->0));
    }
    if a is Object && l.len() > 0 {
        let (c, s, p, r) = (
            contact_map::field(a, "city"@),
            contact_map::field(a, "state"@),
            contact_map::field(a, "postalCode"@),
            contact_map::field(a, "countryOrRegion"@),
        );
        if c is Some {
            assert(tells(a, c->0));
        } else if s is Some {
            assert(tells(a, s->0));
        } else if p is Some {
            assert(tells(a, p->0));
        } else {
            assert(tells(a, r->0));
        }
    }
    if is_address(Some(a)) {
        let t = choose|t: Seq<char>| #[trigger] tells(a, t);
        lemma_place_parts(a, "locality"@, t);
        lemma_place_parts(a, "region"@, t);
        lemma_place_parts(a, "postcode"@, t);
        lemma_place_parts(a, "country"@, t);
        assert(contact_map::field(a, "street"@) == Some(t) || has_part(l, "locality"@, t)
            || has_part(l, "region"@, t) || has_part(l, "postcode"@, t) || has_part(
            l,
            "country"@,
            t,
        ));
        assert(l.len() > 0 || contact_map::field(a, "street"@) is Some);
    }
}

proof fn lemma_addresses_after(acc: Members, source: Option<Val>, context: Option<Seq<char>>)
    ensures
        contact_map::addresses_after(acc, source, context) == (if is_address(source) {
            acc.push(("addr-"@ + text::dec(acc.len() + 1), address_value(source->0, context)))
        } else {
            acc
        }),
{
    if let Some(a) = source {
        lemma_filled_parts(a);
    }
}

proof fn lemma_address_key(a: nat, b: nat)
    ensures
        "addr-"@ + text::dec(a) == "addr-"@ + text::dec(b) ==> a == b,
{
    text::decimals_tell_numbers_apart(a, b);
    let (p, q) = ("addr-"@ + text::dec(a), "addr-"@ + text::dec(b));
    assert(p.skip("addr-"@.len() as int) =~= text::dec(a));
    assert(q.skip("addr-"@.len() as int) =~= text::dec(b));
}

/// The number under which an address of a contact is kept: home comes first,
/// then business, then any other, as far as they say anything.
pub open spec fn address_number(c: Val, key: Seq<char>) -> nat {
    let home = if is_address(c.get("homeAddress"@)) {
        1nat
    } else {
        0
    };
    let work = if is_address(c.get("businessAddress"@)) {
        1nat
    } else {
        0
    };
    if key == "homeAddress"@ {
        1
    } else if key == "businessAddress"@ {
        home + 1
    } else {
        home + work + 1
    }
}

/// The home address of a contact is kept for private use, the business address
/// for work and any other for no use in particular, each with its street and
/// parts.
pub proof fn addresses_are_kept_by_their_use(c: Val, uid: Seq<char>)
    ensures
        is_address(c.get("homeAddress"@)) ==> (entry(
            card(c, uid),
            "addresses"@,
            "addr-"@ + text::dec(address_number(c, "homeAddress"@)),
        ) matches Some(x) && used_for(x, "private"@) && says_the_address(
            x,
            c.get("homeAddress"@)->0,
        )),
        is_address(c.get("businessAddress"@)) ==> (entry(
            card(c, uid),
            "addresses"@,
            "addr-"@ + text::dec(address_number(c, "businessAddress"@)),
        ) matches Some(x) && used_for(x, "work"@) && says_the_address(
            x,
            c.get("businessAddress"@)->0,
        )),
        is_address(c.get("otherAddress"@)) ==> (entry(
            card(c, uid),
            "addresses"@,
            "addr-"@ + text::dec(address_number(c, "otherAddress"@)),
        ) matches Some(x) && x.get("contexts"@) is None && says_the_address(
            x,
            c.get("otherAddress"@)->0,
        )),
        !is_address(c.get("homeAddress"@)) && !is_address(c.get("businessAddress"@))
            && !is_address(c.get("otherAddress"@)) ==> card(c, uid).get("addresses"@) is None,
{
    lemma_card(c, uid, "addresses"@);
    lemma_card_names();
    reveal_strlit("homeAddress");
    reveal_strlit("businessAddress");
    reveal_strlit("otherAddress");
    assert("homeAddress"@.len() == 11 && "businessAddress"@.len() == 15 && "otherAddress"@.len()
        == 12);
    let (h, b, o) = (c.get("homeAddress"@), c.get("businessAddress"@), c.get("otherAddress"@));
    let none = Seq::<(Seq<char>, Val)>::empty();
    let a1 = contact_map::addresses_after(none, h, Some("private"@));
    let a2 = contact_map::addresses_after(a1, b, Some("work"@));
    let a3 = contact_map::addresses_after(a2, o, None);
    lemma_addresses_after(none, h, Some("private"@));
    lemma_addresses_after(a1, b, Some("work"@));
    lemma_addresses_after(a2, o, None);
    lemma_address_key(1, 2);
    lemma_address_key(1, 3);
    lemma_address_key(2, 3);
    if is_address(h) {
        lemma_address_value(h->0, Some("private"@));
        json::lemma_position(a3, "addr-"@ + text::dec(1), 0);
    }
    if is_address(b) {
        lemma_address_value(b->0, Some("work"@));
        let k = address_number(c, "businessAddress"@);
        json::lemma_position(a3, "addr-"@ + text::dec(k), k - 1);
    }
    if is_address(o) {
        lemma_address_value(o->0, None);
        let k = address_number(c, "otherAddress"@);
        json::lemma_position(a3, "addr-"@ + text::dec(k), k - 1);
    }
}

/// A card says the contact's nickname, job title, company, notes and home page,
/// each in its own place.
pub proof fn cards_say_what_their_contacts_say(c: Val, uid: Seq<char>, t: Seq<char>)
    ensures
        card(c, uid).get("uid"@) == Some(Val::Text(uid)),
        card(c, uid).get("@type"@) == Some(Val::Text("Card"@)),
        card(c, uid).get("kind"@) == Some(Val::Text("individual"@)),
        says(c, "nickName"@, t) <==> (entry(card(c, uid), "nicknames"@, "nick-1"@) matches Some(x)
            && x.text_at("name"@) == Some(t)),
        says(c, "jobTitle"@, t) <==> (entry(card(c, uid), "titles"@, "title-1"@) matches Some(x)
            && x.text_at("name"@) == Some(t)),
        says(c, "personalNotes"@, t) <==> (entry(card(c, uid), "notes"@, "note-1"@) matches Some(x)
            && x.text_at("note"@) == Some(t)),
        says(c, "businessHomePage"@, t) <==> (entry(
            card(c, uid),
            "links"@,
            "link-1"@,
        ) matches Some(x) && x.text_at("uri"@) == Some(t) && used_for(x, "work"@)),
        says(c, "companyName"@, t) <==> (entry(
            card(c, uid),
            "organizations"@,
            "org-1"@,
        ) matches Some(x) && x.text_at("name"@) == Some(t)),
{
    lemma_card_names();
    lemma_entry_names();
    lemma_card(c, uid, "uid"@);
    lemma_card(c, uid, "@type"@);
    lemma_card(c, uid, "kind"@);
    lemma_card(c, uid, "nicknames"@);
    lemma_card(c, uid, "titles"@);
    lemma_card(c, uid, "notes"@);
    lemma_card(c, uid, "links"@);
    lemma_card(c, uid, "organizations"@);
    lemma_simple(c);
    lemma_organization(c, "name"@);
}

proof fn lemma_simple(c: Val)
    ensures
        contact_map::field(c, "nickName"@) is Some ==> (contact_map::nicknames_of(
            c,
        ) matches Some(o) && o.get("nick-1"@) matches Some(x) && x.text_at("name"@)
            == contact_map::field(c, "nickName"@)),
        contact_map::field(c, "jobTitle"@) is Some ==> (contact_map::titles_of(c) matches Some(o)
            && o.get("title-1"@) matches Some(x) && x.text_at("name"@) == contact_map::field(
            c,
            "jobTitle"@,
        )),
        contact_map::field(c, "personalNotes"@) is Some ==> (contact_map::notes_of(
            c,
        ) matches Some(o) && o.get("note-1"@) matches Some(x) && x.text_at("note"@)
            == contact_map::field(c, "personalNotes"@)),
        contact_map::field(c, "businessHomePage"@) is Some ==> (contact_map::links_of(
            c,
        ) matches Some(o) && o.get("link-1"@) matches Some(x) && x.text_at("uri"@)
            == contact_map::field(c, "businessHomePage"@) && used_for(x, "work"@)),
{
    lemma_entry_names();
    if let Some(n) = contact_map::field(c, "nickName"@) {
        let v = json::obj2("@type"@, Val::Text("Nickname"@), "name"@, Val::Text(n));
        json::lemma_find1("nick-1"@, v, "nick-1"@);
        json::lemma_find2("@type"@, Val::Text("Nickname"@), "name"@, Val::Text(n), "name"@);
    }
    if let Some(n) = contact_map::field(c, "jobTitle"@) {
        let m0 = seq![("@type"@, Val::Text("Title"@)), ("name"@, Val::Text(n))];
        let org = if contact_map::has_organization(c) {
            Some(Val::Text("org-1"@))
        } else {
            None
        };
        let v = Val::Object(m0 + json::member_if("organizationId"@, org));
        json::lemma_find1("title-1"@, v, "title-1"@);
        json::lemma_find2("@type"@, Val::Text("Title"@), "name"@, Val::Text(n), "name"@);
        json::lemma_lookup_member_if(m0, "organizationId"@, org, "name"@);
    }
    if let Some(n) = contact_map::field(c, "personalNotes"@) {
        let v = json::obj2("@type"@, Val::Text("Note"@), "note"@, Val::Text(n));
        json::lemma_find1("note-1"@, v, "note-1"@);
        json::lemma_find2("@type"@, Val::Text("Note"@), "note"@, Val::Text(n), "note"@);
    }
    if let Some(n) = contact_map::field(c, "businessHomePage"@) {
        let w = contact_map::flag("work"@);
        let (a, b) = (Val::Text("Link"@), Val::Text(n));
        let v = json::obj3("@type"@, a, "uri"@, b, "contexts"@, w);
        json::lemma_find1("link-1"@, v, "link-1"@);
        json::lemma_find3("@type"@, a, "uri"@, b, "contexts"@, w, "uri"@);
        json::lemma_find3("@type"@, a, "uri"@, b, "contexts"@, w, "contexts"@);
        json::lemma_find1("work"@, Val::Bool(true), "work"@);
    }
}

proof fn lemma_organization(c: Val, key: Seq<char>)
    ensures
        match contact_map::organizations_of(c) {
            Some(o) => contact_map::has_organization(c) && (o.get("org-1"@) matches Some(x)
                && x.get(key) == (if key == "@type"@ {
                Some(Val::Text("Organization"@))
            } else if key == "name"@ {
                json::text_opt(contact_map::field(c, "companyName"@))
            } else if key == "units"@ {
                json::list_opt(unit_list(c))
            } else {
                None
            })),
            None => !contact_map::has_organization(c),
        },
{
    lemma_entry_names();
    if contact_map::has_organization(c) {
        let m0 = seq![("@type"@, Val::Text("Organization"@))];
        let name = json::text_opt(contact_map::field(c, "companyName"@));
        let units = json::list_opt(unit_list(c));
        let m1 = m0 + json::member_if("name"@, name);
        let v = Val::Object(m1 + json::member_if("units"@, units));
        json::lemma_find1("org-1"@, v, "org-1"@);
        json::lemma_find1("@type"@, Val::Text("Organization"@), key);
        json::lemma_lookup_member_if(m0, "name"@, name, key);
        json::lemma_lookup_member_if(m1, "units"@, units, key);
    }
}

spec fn unit_list(c: Val) -> Seq<Val> {
    Seq::<Val>::empty() + json::item_if(
        contact_map::org_unit(contact_map::field(c, "department"@)),
    ) + json::item_if(contact_map::org_unit(contact_map::field(c, "officeLocation"@)))
}

/// The department and the office of a contact are the units of its
/// organization, and a job title belongs to the organization where there is
/// one.
pub proof fn units_belong_to_the_organization(c: Val, uid: Seq<char>, t: Seq<char>)
    ensures
        (says(c, "department"@, t) || says(c, "officeLocation"@, t)) <==> (entry(
            card(c, uid),
            "organizations"@,
            "org-1"@,
        ) matches Some(x) && x.list_at("units"@) matches Some(l) && exists|i: int|
            0 <= i < l.len() && (#[trigger] l[i]).text_at("name"@) == Some(t)),
        entry(card(c, uid), "titles"@, "title-1"@) matches Some(x) ==> (x.text_at(
            "organizationId"@,
        ) == Some("org-1"@) <==> entry(card(c, uid), "organizations"@, "org-1"@) is Some),
{
    lemma_card_names();
    lemma_entry_names();
    lemma_card(c, uid, "titles"@);
    lemma_card(c, uid, "organizations"@);
    lemma_organization(c, "units"@);
    let l = unit_list(c);
    let (d, o) = (contact_map::field(c, "department"@), contact_map::field(c, "officeLocation"@));
    let unit = Val::Text("OrgUnit"@);
    if let Some(n) = d {
        json::lemma_find2("@type"@, unit, "name"@, Val::Text(n), "name"@);
        assert(l[0].text_at("name"@) == Some(n));
    }
    if let Some(n) = o {
        json::lemma_find2("@type"@, unit, "name"@, Val::Text(n), "name"@);
        assert(l[l.len() - 1].text_at("name"@) == Some(n));
    }
    if exists|i: int| 0 <= i < l.len() && (#[trigger] l[i]).text_at("name"@) == Some(t) {
        let i = choose|i: int| 0 <= i < l.len() && (#[trigger] l[i]).text_at("name"@) == Some(t);
        assert(l.len() <= 2);
        assert(d is Some && i == 0 ==> l[i].text_at("name"@) == d);
        assert(o is Some && i == l.len() - 1 ==> l[i].text_at("name"@) == o);
    }
    if let Some(n) = contact_map::field(c, "jobTitle"@) {
        let m0 = seq![("@type"@, Val::Text("Title"@)), ("name"@, Val::Text(n))];
        let org = if contact_map::has_organization(c) {
            Some(Val::Text("org-1"@))
        } else {
            None
        };
        let v = Val::Object(m0 + json::member_if("organizationId"@, org));
        json::lemma_find1("title-1"@, v, "title-1"@);
        json::lemma_find2(
            "@type"@,
            Val::Text("Title"@),
            "name"@,
            Val::Text(n),
            "organizationId"@,
        );
        json::lemma_lookup_member_if(m0, "organizationId"@, org, "organizationId"@);
    }
}

/// Whether one of several values is a text that is not blank and stands for a
/// keyword.
pub open spec fn has_category(v: Option<Seq<Val>>, k: Seq<char>) -> bool {
    v matches Some(l) && exists|i: int|
        0 <= i < l.len() && (#[trigger] l[i]).as_text() is Some && text::trimmed(
            l[i].as_text()->0,
        ).len() > 0 && text::lowered(l[i].as_text()->0) == k
}

proof fn lemma_categories(l: Seq<Val>, k: Seq<char>)
    ensures
        json::lookup(contact_map::keyword_entries(l), k) == (if has_category(Some(l), k) {
            Some(Val::Bool(true))
        } else {
            None
        }),
    decreases l.len(),
{
    if l.len() > 0 {
        let rest = l.drop_last();
        lemma_categories(rest, k);
        assert(l[l.len() - 1] == l.last());
        assert(forall|i: int| 0 <= i < rest.len() ==> #[trigger] rest[i] == l[i]);
        if let Some(t) = l.last().as_text() {
            json::lemma_with_member(
                contact_map::keyword_entries(rest),
                text::lowered(t),
                Val::Bool(true),
                k,
            );
        }
        if has_category(Some(rest), k) {
            let i = choose|i: int|
                0 <= i < rest.len() && (#[trigger] rest[i]).as_text() is Some && text::trimmed(
                    rest[i].as_text()->0,
                ).len() > 0 && text::lowered(rest[i].as_text()->0) == k;
            assert(l[i].as_text() is Some);
        }
        if has_category(Some(l), k) {
            let i = choose|i: int|
                0 <= i < l.len() && (#[trigger] l[i]).as_text() is Some && text::trimmed(
                    l[i].as_text()->0,
                ).len() > 0 && text::lowered(l[i].as_text()->0) == k;
            if i < rest.len() {
                assert(rest[i].as_text() is Some);
            }
        }
    }
}

/// The keywords of a card are the contact's categories, in small letters, and
/// no other.
pub proof fn categories_are_keywords(c: Val, uid: Seq<char>, k: Seq<char>)
    ensures
        entry(card(c, uid), "keywords"@, k) == (if has_category(c.list_at("categories"@), k) {
            Some(Val::Bool(true))
        } else {
            None
        }),
{
    lemma_card_names();
    lemma_card(c, uid, "keywords"@);
    let l = contact_map::items(c.list_at("categories"@));
    lemma_categories(l, k);
    if contact_map::keyword_entries(l).len() == 0 {
        assert(json::lookup(contact_map::keyword_entries(l), k) is None);
    }
}

/// Whether an online service is the one of an address: a URI where it looks like
/// one, else the name of a user.
pub open spec fn is_service(x: Val, address: Seq<char>) -> bool {
    if contact_map::looks_like_uri(address) {
        x.text_at("uri"@) == Some(address) && x.get("user"@) is None
    } else {
        x.text_at("user"@) == Some(address) && x.get("uri"@) is None
    }
}

spec fn numbered(e: Members) -> bool {
    forall|i: int| 0 <= i < e.len() ==> (#[trigger] e[i]).0 == text::dec((i + 1) as nat)
}

proof fn lemma_services(l: Seq<Val>, j: int)
    ensures
        numbered(contact_map::service_entries(l)),
        0 <= j < l.len() && l[j].as_text() is Some && text::trimmed(l[j].as_text()->0).len() > 0
            ==> exists|i: int|
            0 <= i < contact_map::service_entries(l).len() && is_service(
                (#[trigger] contact_map::service_entries(l)[i]).1,
                text::trimmed(l[j].as_text()->0),
            ),
    decreases l.len(),
{
    if l.len() > 0 {
        let rest = l.drop_last();
        lemma_services(rest, j);
        let a = contact_map::service_entries(rest);
        let b = contact_map::service_entries(l);
        if j < rest.len() {
            assert(0 <= j ==> rest[j] == l[j]);
            if 0 <= j && l[j].as_text() is Some && text::trimmed(l[j].as_text()->0).len() > 0 {
                let i = choose|i: int|
                    0 <= i < a.len() && is_service(
                        (#[trigger] a[i]).1,
                        text::trimmed(l[j].as_text()->0),
                    );
                assert(b[i] == a[i]);
            }
        } else if j == rest.len() {
            if let Some(t) = l[j].as_text() {
                let addr = text::trimmed(t);
                if addr.len() > 0 {
                    lemma_service_names();
                    let name = if contact_map::looks_like_uri(addr) {
                        "uri"@
                    } else {
                        "user"@
                    };
                    let own = Val::Text("OnlineService"@);
                    json::lemma_find2("@type"@, own, name, Val::Text(addr), "uri"@);
                    json::lemma_find2("@type"@, own, name, Val::Text(addr), "user"@);
                    assert(is_service(b[a.len() as int].1, addr));
                }
            }
        }
    }
}

proof fn lemma_service_names()
    ensures
        "@type"@ != "uri"@,
        "@type"@ != "user"@,
        "uri"@ != "user"@,
{
    reveal_strlit("@type");
    reveal_strlit("uri");
    reveal_strlit("user");
    assert("@type"@.len() == 5);
    assert("uri"@.len() == 3);
    assert("user"@.len() == 4);
}

/// Every address for messages of a contact is an online service of the card,
/// under some number.
pub proof fn message_addresses_are_services(c: Val, uid: Seq<char>, l: Seq<Val>, j: int)
    requires
        c.list_at("imAddresses"@) == Some(l),
        0 <= j < l.len(),
        l[j].as_text() is Some,
        text::trimmed(l[j].as_text()->0).len() > 0,
    ensures
        exists|n: nat|
            entry(card(c, uid), "onlineServices"@, #[trigger] text::dec(n)) is Some && is_service(
                entry(card(c, uid), "onlineServices"@, text::dec(n))->0,
                text::trimmed(l[j].as_text()->0),
            ),
{
    lemma_card_names();
    lemma_card(c, uid, "onlineServices"@);
    lemma_services(l, j);
    let e = contact_map::service_entries(l);
    let address = text::trimmed(l[j].as_text()->0);
    let i = choose|i: int| 0 <= i < e.len() && is_service((#[trigger] e[i]).1, address);
    let n = (i + 1) as nat;
    assert forall|k: int| 0 <= k < i implies (#[trigger] e[k]).0 != text::dec(n) by {
        text::decimals_tell_numbers_apart((k + 1) as nat, n);
    }
    json::lemma_position(e, text::dec(n), i);
    assert(entry(card(c, uid), "onlineServices"@, text::dec(n)) == Some(e[i].1));
}

proof fn lemma_no_z(s: Seq<char>)
    requires
        !s.contains('Z'),
    ensures
        contact_map::without_final_z(s) == s,
        contact_map::without_final_z(s + seq!['Z']) == s,
{
    if s.len() > 0 {
        assert(s.contains(s[s.len() - 1]));
    }
    let t = s + seq!['Z'];
    assert(t.last() == 'Z');
    assert(t.drop_last() =~= s);
}

/// A card says when its contact was made and when it was changed, in whole
/// seconds: what stands between the seconds and the final `Z` is dropped.
pub proof fn cards_tell_their_times(c: Val, uid: Seq<char>, base: Seq<char>, fraction: Seq<char>)
    requires
        !base.contains('Z'),
        !base.contains('.'),
        !fraction.contains('Z'),
    ensures
        ({
            let short = base + seq!['Z'];
            let long = base + seq!['.'] + fraction + seq!['Z'];
            &&& c.text_at("createdDateTime"@) == Some(short) || c.text_at("createdDateTime"@)
                == Some(long) ==> card(c, uid).text_at("created"@) == Some(short)
            &&& c.text_at("lastModifiedDateTime"@) == Some(short) || c.text_at(
                "lastModifiedDateTime"@,
            ) == Some(long) ==> card(c, uid).text_at("updated"@) == Some(short)
            &&& c.text_at("createdDateTime"@) is None ==> card(c, uid).get("created"@) is None
            &&& c.text_at("lastModifiedDateTime"@) is None ==> card(c, uid).get("updated"@) is None
        }),
{
    lemma_card_names();
    lemma_card(c, uid, "created"@);
    lemma_card(c, uid, "updated"@);
    reveal_strlit("Z");
    assert("Z"@ =~= seq!['Z']);
    let middle = base + seq!['.'] + fraction;
    assert(!middle.contains('Z')) by {
        if middle.contains('Z') {
            let i = choose|i: int| 0 <= i < middle.len() && middle[i] == 'Z';
            if i < base.len() {
                assert(base[i] == 'Z');
            } else if i > base.len() {
                assert(fraction[i - base.len() - 1] == 'Z');
            }
        }
    }
    lemma_no_z(base);
    lemma_no_z(middle);
    assert forall|k: int| 0 <= k < base.len() implies base[k] != '.' by {
        assert(base.contains(base[k]));
    }
    text::lemma_first_index(base, '.', base.len() as int);
    assert forall|k: int| 0 <= k < base.len() implies middle[k] != '.' by {
        assert(middle[k] == base[k]);
    }
    assert(middle[base.len() as int] == '.');
    text::lemma_first_index(middle, '.', base.len() as int);
    assert(base.take(base.len() as int) =~= base);
    assert(middle.take(base.len() as int) =~= base);
    assert((base + seq!['Z']).last() == 'Z');
    assert((middle + seq!['Z']).last() == 'Z');
}

proof fn lemma_split_front(a: Seq<char>, rest: Seq<char>, mark: char)
    requires
        !a.contains(mark),
    ensures
        text::split_by(a + seq![mark] + rest, mark) == seq![a] + text::split_by(rest, mark),
        text::split_by(a, mark) == seq![a],
{
    let s = a + seq![mark] + rest;
    assert forall|k: int| 0 <= k < a.len() implies s[k] != mark by {
        assert(a.contains(a[k]));
    }
    assert forall|k: int| 0 <= k < a.len() implies a[k] != mark by {
        assert(a.contains(a[k]));
    }
    text::lemma_first_index(s, mark, a.len() as int);
    text::lemma_first_index(a, mark, a.len() as int);
    assert(s.take(a.len() as int) =~= a);
    assert(s.skip(a.len() as int + 1) =~= rest);
}

proof fn lemma_digits_only(s: Seq<char>, mark: char)
    requires
        text::all_digits(s),
        !text::is_digit(mark),
    ensures
        !s.contains(mark),
{
    if s.contains(mark) {
        let i = choose|i: int| 0 <= i < s.len() && s[i] == mark;
        assert(text::is_digit(s[i]));
    }
}

/// Whether a value is a day of the calendar.
pub open spec fn is_day(v: Val, year: nat, month: nat, day: nat) -> bool {
    &&& v.get("year"@) matches Some(n) && n.as_u64() == Some(year as u64)
    &&& v.get("month"@) matches Some(n) && n.as_u64() == Some(month as u64)
    &&& v.get("day"@) matches Some(n) && n.as_u64() == Some(day as u64)
}

proof fn lemma_date_names()
    ensures
        "@type"@ != "year"@,
        "@type"@ != "month"@,
        "@type"@ != "day"@,
        "@type"@ != "kind"@,
        "@type"@ != "date"@,
        "year"@ != "month"@,
        "year"@ != "day"@,
        "year"@ != "kind"@,
        "year"@ != "date"@,
        "month"@ != "day"@,
        "month"@ != "kind"@,
        "month"@ != "date"@,
        "day"@ != "kind"@,
        "day"@ != "date"@,
        "kind"@ != "date"@,
{
    reveal_strlit("@type");
    reveal_strlit("year");
    reveal_strlit("month");
    reveal_strlit("day");
    reveal_strlit("kind");
    reveal_strlit("date");
    assert("@type"@.len() == 5);
    assert("year"@.len() == 4);
    assert("month"@.len() == 5);
    assert("day"@.len() == 3);
    assert("kind"@.len() == 4);
    assert("date"@.len() == 4);
    assert("@type"@[0] == '@');
    assert("month"@[0] == 'm');
    assert("year"@[0] == 'y');
    assert("kind"@[0] == 'k');
    assert("date"@[0] == 'd');
}

/// The birthday of a contact is an anniversary of the card, with the year, the
/// month and the day that it is written with; the time of day does not count.
pub proof fn birthdays_are_anniversaries(
    c: Val,
    uid: Seq<char>,
    y: Seq<char>,
    m: Seq<char>,
    d: Seq<char>,
    time: Seq<char>,
)
    requires
        text::all_digits(y) && y.len() > 0 && text::digits_value(y) <= u64::MAX,
        text::all_digits(m) && m.len() > 0 && 1 <= text::digits_value(m) <= 12,
        text::all_digits(d) && d.len() > 0 && 1 <= text::digits_value(d) <= 31,
        ({
            let date = y + seq!['-'] + (m + seq!['-'] + d);
            c.text_at("birthday"@) == Some(date) || c.text_at("birthday"@) == Some(
                date + seq!['T'] + time,
            )
        }),
    ensures
        entry(card(c, uid), "anniversaries"@, "anniversary-1"@) matches Some(x) && {
            &&& x.text_at("kind"@) == Some("birth"@)
            &&& x.get("date"@) matches Some(v) && is_day(
                v,
                text::digits_value(y),
                text::digits_value(m),
                text::digits_value(d),
            )
        },
{
    lemma_card_names();
    lemma_entry_names();
    lemma_date_names();
    lemma_card(c, uid, "anniversaries"@);
    let date = y + seq!['-'] + (m + seq!['-'] + d);
    let raw = c.text_at("birthday"@)->0;
    lemma_digits_only(y, '-');
    lemma_digits_only(m, '-');
    lemma_digits_only(d, '-');
    lemma_digits_only(y, 'T');
    lemma_digits_only(m, 'T');
    lemma_digits_only(d, 'T');
    assert(!date.contains('T')) by {
        if date.contains('T') {
            let i = choose|i: int| 0 <= i < date.len() && date[i] == 'T';
            if i < y.len() {
                assert(y[i] == 'T');
            } else if y.len() < i < y.len() + 1 + m.len() {
                assert(m[i - y.len() - 1] == 'T');
            } else if i > y.len() + 1 + m.len() {
                assert(d[i - y.len() - m.len() - 2] == 'T');
            }
        }
    }
    lemma_split_front(date, time, 'T');
    lemma_split_front(y, m + seq!['-'] + d, '-');
    lemma_split_front(m, d, '-');
    lemma_split_front(d, d, '-');
    let parts = text::split_by(date, '-');
    assert(parts =~= seq![y, m, d]);
    assert(y[0] != '+' && m[0] != '+' && d[0] != '+') by {
        assert(text::is_digit(y[0]) && text::is_digit(m[0]) && text::is_digit(d[0]));
    }
    let v = contact_map::partial_date(raw)->0;
    let year = contact_map::nat_val(text::digits_value(y));
    let month = contact_map::nat_opt(Some(text::digits_value(m)));
    let day = contact_map::nat_opt(Some(text::digits_value(d)));
    let own = Val::Text("PartialDate"@);
    let m0 = seq![("@type"@, own), ("year"@, year)];
    let m1 = m0 + json::member_if("month"@, month);
    assert(v == Val::Object(m1 + json::member_if("day"@, day)));
    json::lemma_find2("@type"@, own, "year"@, year, "year"@);
    json::lemma_find2("@type"@, own, "year"@, year, "month"@);
    json::lemma_find2("@type"@, own, "year"@, year, "day"@);
    json::lemma_lookup_member_if(m0, "month"@, month, "year"@);
    json::lemma_lookup_member_if(m0, "month"@, month, "month"@);
    json::lemma_lookup_member_if(m0, "month"@, month, "day"@);
    json::lemma_lookup_member_if(m1, "day"@, day, "year"@);
    json::lemma_lookup_member_if(m1, "day"@, day, "month"@);
    json::lemma_lookup_member_if(m1, "day"@, day, "day"@);
    let (a, b) = (Val::Text("Anniversary"@), Val::Text("birth"@));
    let x = json::obj3("@type"@, a, "kind"@, b, "date"@, v);
    json::lemma_find1("anniversary-1"@, x, "anniversary-1"@);
    json::lemma_find3("@type"@, a, "kind"@, b, "date"@, v, "kind"@);
    json::lemma_find3("@type"@, a, "kind"@, b, "date"@, v, "date"@);
}

} // verus!
