//! The bodies of PROPFIND requests.

use vstd::prelude::*;

verus! {

pub const CURRENT_USER_PRINCIPAL: &'static str =
    "<?xml version=\"1.0\" encoding=\"utf-8\"?><d:propfind xmlns:d=\"DAV:\"><d:prop><d:current-user-principal/></d:prop></d:propfind>";

pub const CALENDAR_HOME_SET: &'static str =
    "<?xml version=\"1.0\" encoding=\"utf-8\"?><d:propfind xmlns:d=\"DAV:\" xmlns:c=\"urn:ietf:params:xml:ns:caldav\"><d:prop><c:calendar-home-set/></d:prop></d:propfind>";

pub const ADDRESSBOOK_HOME_SET: &'static str =
    "<?xml version=\"1.0\" encoding=\"utf-8\"?><d:propfind xmlns:d=\"DAV:\" xmlns:c=\"urn:ietf:params:xml:ns:carddav\"><d:prop><c:addressbook-home-set/></d:prop></d:propfind>";

pub const PRINCIPAL_AND_CALENDAR_HOME_SET: &'static str =
    "<?xml version=\"1.0\" encoding=\"utf-8\"?><d:propfind xmlns:d=\"DAV:\" xmlns:c=\"urn:ietf:params:xml:ns:caldav\"><d:prop><d:current-user-principal/><c:calendar-home-set/></d:prop></d:propfind>";

pub const PRINCIPAL_AND_ADDRESSBOOK_HOME_SET: &'static str =
    "<?xml version=\"1.0\" encoding=\"utf-8\"?><d:propfind xmlns:d=\"DAV:\" xmlns:c=\"urn:ietf:params:xml:ns:carddav\"><d:prop><d:current-user-principal/><c:addressbook-home-set/></d:prop></d:propfind>";

pub const CALENDAR_COLLECTIONS: &'static str =
    "<?xml version=\"1.0\" encoding=\"utf-8\"?><d:propfind xmlns:d=\"DAV:\" xmlns:c=\"urn:ietf:params:xml:ns:caldav\"><d:prop><d:resourcetype/><d:displayname/><c:calendar-description/><c:supported-calendar-component-set/></d:prop></d:propfind>";

pub const ADDRESSBOOK_COLLECTIONS: &'static str =
    "<?xml version=\"1.0\" encoding=\"utf-8\"?><d:propfind xmlns:d=\"DAV:\" xmlns:c=\"urn:ietf:params:xml:ns:carddav\"><d:prop><d:resourcetype/><d:displayname/><c:addressbook-description/></d:prop></d:propfind>";

pub const WEBDAV_LISTING: &'static str =
    "<?xml version=\"1.0\" encoding=\"utf-8\"?><d:propfind xmlns:d=\"DAV:\"><d:prop><d:resourcetype/><d:displayname/><d:getcontentlength/><d:getlastmodified/></d:prop></d:propfind>";

} // verus!
