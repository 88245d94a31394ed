//! The objects of a JMAP account, as far as the archive keeps them. Those whose
//! shape is open keep their members in order; what JSON an object holds beside
//! its own fields stays JSON.

use crate::instant::Moment;
use crate::jmap::wire::JmapId;
use crate::json::Json;
use vstd::prelude::*;

verus! {

#[derive(Debug)]
pub struct Mailbox {
    pub id: Option<JmapId>,
    pub name: String,
    pub parent_id: Option<JmapId>,
    pub role: Option<String>,
    pub sort_order: u32,
    pub is_subscribed: bool,
}

/// A message. Its mailboxes and keywords stand in the order in which the
/// server names them.
#[derive(Debug)]
pub struct Email {
    pub mailbox_ids: Vec<JmapId>,
    pub keywords: Vec<String>,
    pub received_at: Option<Moment>,
}

#[derive(Debug)]
pub struct Identity {
    pub id: Option<JmapId>,
    pub name: String,
    pub email: String,
    pub reply_to: Option<Json>,
    pub bcc: Option<Json>,
    pub text_signature: String,
    pub html_signature: String,
}

#[derive(Debug)]
pub struct SieveScript {
    pub name: Option<String>,
    pub is_active: bool,
}

#[derive(Debug)]
pub struct AddressBook {
    pub id: Option<JmapId>,
    pub name: String,
    pub description: Option<String>,
    pub sort_order: u32,
    pub is_default: bool,
    pub is_subscribed: bool,
}

#[derive(Debug)]
pub struct Calendar {
    pub id: Option<JmapId>,
    pub name: String,
    pub description: Option<String>,
    pub color: Option<String>,
    pub sort_order: u32,
    pub is_subscribed: bool,
    pub is_visible: bool,
    pub is_default: bool,
    pub include_in_availability: String,
    pub default_alerts_with_time: Option<Json>,
    pub default_alerts_without_time: Option<Json>,
    pub time_zone: Option<String>,
}

#[derive(Debug)]
pub struct ParticipantIdentity {
    pub id: Option<JmapId>,
    pub name: String,
    pub calendar_address: String,
    pub is_default: bool,
}

/// What a file node is.
#[derive(Clone, Copy, PartialEq, Eq, Structural, Debug)]
pub enum NodeType {
    File,
    Directory,
    Symlink,
}

/// The name of a node type in JSON.
pub open spec fn node_name(t: NodeType) -> Seq<char> {
    match t {
        NodeType::File => "file"@,
        NodeType::Directory => "directory"@,
        NodeType::Symlink => "symlink"@,
    }
}

impl NodeType {
    /// The name of the node type in JSON.
    pub fn name(&self) -> (r: &'static str)
        ensures
            r@ == node_name(*self),
    {
        match self {
            NodeType::File => "file",
            NodeType::Directory => "directory",
            NodeType::Symlink => "symlink",
        }
    }
}

#[derive(Debug)]
pub struct FileNode {
    pub id: Option<JmapId>,
    pub parent_id: Option<JmapId>,
    pub node_type: NodeType,
    pub target: Option<Vec<String>>,
    pub name: String,
    pub media_type: Option<String>,
    pub created: Moment,
    pub modified: Option<Moment>,
    pub is_subscribed: bool,
    pub role: Option<String>,
}

/// A contact card: its address books, and all else.
#[derive(Debug)]
pub struct ContactCard {
    pub address_book_ids: Vec<JmapId>,
    pub rest: Vec<(String, Json)>,
}

/// An event: its calendars, two flags, and all else.
#[derive(Debug)]
pub struct CalendarEvent {
    pub calendar_ids: Vec<JmapId>,
    pub is_draft: bool,
    pub use_default_alerts: bool,
    pub rest: Vec<(String, Json)>,
}

} // verus!
