//! The kinds of objects that an archive holds.

use vstd::prelude::*;

verus! {

/// A kind of object.
#[derive(Clone, Copy, PartialEq, Eq, Structural, Debug)]
pub enum ObjectType {
    Mailbox,
    Email,
    Identity,
    SieveScript,
    AddressBook,
    ContactCard,
    Calendar,
    CalendarEvent,
    ParticipantIdentity,
    FileNode,
}

/// Every kind, in the order in which they are taken.
pub open spec fn all_types() -> Seq<ObjectType> {
    seq![
        ObjectType::Mailbox,
        ObjectType::Email,
        ObjectType::Identity,
        ObjectType::SieveScript,
        ObjectType::AddressBook,
        ObjectType::ContactCard,
        ObjectType::Calendar,
        ObjectType::CalendarEvent,
        ObjectType::ParticipantIdentity,
        ObjectType::FileNode,
    ]
}

/// The name of a kind in JMAP.
pub open spec fn name_of(ty: ObjectType) -> Seq<char> {
    match ty {
        ObjectType::Mailbox => "Mailbox"@,
        ObjectType::Email => "Email"@,
        ObjectType::Identity => "Identity"@,
        ObjectType::SieveScript => "SieveScript"@,
        ObjectType::AddressBook => "AddressBook"@,
        ObjectType::ContactCard => "ContactCard"@,
        ObjectType::Calendar => "Calendar"@,
        ObjectType::CalendarEvent => "CalendarEvent"@,
        ObjectType::ParticipantIdentity => "ParticipantIdentity"@,
        ObjectType::FileNode => "FileNode"@,
    }
}

/// The capability that an account needs for a kind.
pub open spec fn type_capability(ty: ObjectType) -> Seq<char> {
    match ty {
        ObjectType::Mailbox => "urn:ietf:params:jmap:mail"@,
        ObjectType::Email => "urn:ietf:params:jmap:mail"@,
        ObjectType::Identity => "urn:ietf:params:jmap:submission"@,
        ObjectType::SieveScript => "urn:ietf:params:jmap:sieve"@,
        ObjectType::AddressBook => "urn:ietf:params:jmap:contacts"@,
        ObjectType::ContactCard => "urn:ietf:params:jmap:contacts"@,
        ObjectType::Calendar => "urn:ietf:params:jmap:calendars"@,
        ObjectType::CalendarEvent => "urn:ietf:params:jmap:calendars"@,
        ObjectType::ParticipantIdentity => "urn:ietf:params:jmap:calendars"@,
        ObjectType::FileNode => "urn:ietf:params:jmap:filenode"@,
    }
}

impl ObjectType {
    /// Every kind.
    pub fn all() -> (r: Vec<ObjectType>)
        ensures
            r@ == all_types(),
    {
        let r: Vec<ObjectType> = vec![
            ObjectType::Mailbox,
            ObjectType::Email,
            ObjectType::Identity,
            ObjectType::SieveScript,
            ObjectType::AddressBook,
            ObjectType::ContactCard,
            ObjectType::Calendar,
            ObjectType::CalendarEvent,
            ObjectType::ParticipantIdentity,
            ObjectType::FileNode,
        ];
        assert(r@ =~= all_types());
        r
    }

    /// The name of the kind in JMAP.
    pub fn jmap_name(&self) -> (r: &'static str)
        ensures
            r@ == name_of(*self),
    {
        match self {
            ObjectType::Mailbox => "Mailbox",
            ObjectType::Email => "Email",
            ObjectType::Identity => "Identity",
            ObjectType::SieveScript => "SieveScript",
            ObjectType::AddressBook => "AddressBook",
            ObjectType::ContactCard => "ContactCard",
            ObjectType::Calendar => "Calendar",
            ObjectType::CalendarEvent => "CalendarEvent",
            ObjectType::ParticipantIdentity => "ParticipantIdentity",
            ObjectType::FileNode => "FileNode",
        }
    }

    /// The capability that an account needs for the kind.
    pub fn capability_urn(&self) -> (r: &'static str)
        ensures
            r@ == type_capability(*self),
    {
        match self {
            ObjectType::Mailbox => "urn:ietf:params:jmap:mail",
            ObjectType::Email => "urn:ietf:params:jmap:mail",
            ObjectType::Identity => "urn:ietf:params:jmap:submission",
            ObjectType::SieveScript => "urn:ietf:params:jmap:sieve",
            ObjectType::AddressBook => "urn:ietf:params:jmap:contacts",
            ObjectType::ContactCard => "urn:ietf:params:jmap:contacts",
            ObjectType::Calendar => "urn:ietf:params:jmap:calendars",
            ObjectType::CalendarEvent => "urn:ietf:params:jmap:calendars",
            ObjectType::ParticipantIdentity => "urn:ietf:params:jmap:calendars",
            ObjectType::FileNode => "urn:ietf:params:jmap:filenode",
        }
    }
}

} // verus!
