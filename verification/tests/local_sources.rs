use vandelay::db::cell::Cell;
use vandelay::error::Error;
use vandelay::instant::Moment;
use vandelay::sync::import_maildir::coordinator as maildir;
use vandelay::sync::import_maildir::coordinator::{
    after_folder, check_filters, count_look, count_mailbox, delete_vanished_folder,
    look_at_folder, look_at_mailboxes, map_discover_error, plan_mailbox, vanished_folders,
    warn_if_looks_like_subfolder, DiscoverError, FolderId, MaildirImportConfig, ResolvedFolder,
};
use vandelay::sync::import_maildir::keywords::{translate_flags, Flag};
use vandelay::sync::import_maildir::messages::{
    apply_folder, delivery_time_from_filename, diff, list_folder, new_email_row, pick_received_at,
    refresh_flags, work_warning, DiskEntry, DiskListing, Done, FoundFile, InsertContext,
    InsertError, LocalMail, PresentOutcome, Work,
};
use vandelay::sync::import_takeout::coordinator as takeout;
use vandelay::sync::import_takeout::coordinator::{
    after_file, collects_garbage, dry_run_summary, mailbox_name_from_filename, nothing_found,
    FileKind, TakeoutCounts,
};
use vandelay::sync::TypeCounts;

const NOW: Moment = Moment { secs: 1_780_000_000, nanos: 0, offset: 0 };

fn found(filename: &str) -> FoundFile {
    FoundFile { filename: filename.to_owned(), mtime_unix: 0 }
}

fn listing(names: &[&str]) -> DiskListing {
    list_folder(&names.iter().map(|n| found(n)).collect(), 0)
}

#[test]
fn list_folder_returns_cur_and_new_skipping_tmp() {
    let listing = listing(&["1.M0.host:2,S", "2.M0.host"]);
    assert_eq!(listing.entries.len(), 2);
    assert!(listing.entries.iter().any(|e| e.unique_id == "1.M0.host"));
    assert!(listing.entries.iter().any(|e| e.unique_id == "2.M0.host"));
}

#[test]
fn list_folder_skips_dotfiles() {
    let listing = listing(&[".uidvalidity", ".dovecot-uidlist", "1.M0.host:2,S"]);
    assert_eq!(listing.entries.len(), 1);
    assert_eq!(listing.entries[0].unique_id, "1.M0.host");
}

#[test]
fn list_folder_parses_dovecot_extension_filename() {
    let listing = listing(&["1739471123.M001P01234V0000I0000abcd.host,S=42,W=44:2,RS"]);
    assert_eq!(listing.entries.len(), 1);
    let e = &listing.entries[0];
    assert_eq!(e.unique_id, "1739471123.M001P01234V0000I0000abcd.host,S=42,W=44");
    assert!(e.flags.contains(&Flag::Replied));
    assert!(e.flags.contains(&Flag::Seen));
}

#[test]
fn list_folder_renders_non_utf8_filename_lossy() {
    let name = String::from_utf8_lossy(b"1.M0.host\xff\xfe:2,S").into_owned();
    let listing = listing(&[&name]);
    assert_eq!(listing.entries.len(), 1);
    let e = &listing.entries[0];
    assert!(e.unique_id.contains('\u{FFFD}'), "lossy substitution: {:?}", e.unique_id);
    assert!(e.unique_id.starts_with("1.M0.host"));
    assert!(e.flags.contains(&Flag::Seen));
}

#[test]
fn a_message_in_two_places_is_listed_once() {
    let listing = listing(&["1.host:2,S", "1.host", ":2,S"]);
    assert_eq!(listing.entries.len(), 1);
    assert_eq!(listing.entries[0].file, 0);
}

fn entry(id: &str, flags: Vec<Flag>) -> DiskEntry {
    DiskEntry {
        unique_id: id.to_owned(),
        filename: id.to_owned(),
        file: 0,
        flags,
        mtime_unix: 0,
    }
}

fn local(id: &str, local_id: i64) -> LocalMail {
    LocalMail { unique_id: id.to_owned(), local_id }
}

#[test]
fn diff_partitions_new_present_vanished() {
    let entries = vec![entry("a", vec![]), entry("b", vec![])];
    let local = vec![local("b", 10), local("c", 11)];
    let d = diff(&entries, &local);
    assert_eq!(d.new.len(), 1);
    assert_eq!(d.new[0].unique_id, "a");
    assert_eq!(d.present.len(), 1);
    assert_eq!(d.present[0].0.unique_id, "b");
    assert_eq!(d.present[0].1, 10);
    assert_eq!(d.vanished, vec![("c".to_owned(), 11)]);
}

#[test]
fn vanished_messages_come_in_the_order_of_their_ids() {
    let d = diff(&Vec::new(), &vec![local("z", 1), local("a", 2), local("m", 3)]);
    assert_eq!(
        d.vanished,
        vec![("a".to_owned(), 2), ("m".to_owned(), 3), ("z".to_owned(), 1)]
    );
}

fn ctx(include_deleted: bool) -> InsertContext<'static> {
    InsertContext { source_id: 1, folder: "INBOX", mailbox_local: 4, include_deleted }
}

#[test]
fn insert_new_writes_blob_email_and_sync_row() {
    let entry = listing(&["uid1.M0.host:2,S"]).entries.remove(0);
    assert_eq!(entry.unique_id, "uid1.M0.host");
    let row = new_email_row(&entry, &ctx(false), 9, "2025-11-13T20:20:33Z", "{}").unwrap();
    assert!(matches!(row[0], Cell::Int(9)));
    assert!(matches!(&row[2], Cell::Text(t) if t == "[4]"));
    assert!(matches!(&row[3], Cell::Text(t) if t.contains("$seen")));
}

#[test]
fn insert_new_skips_trashed_without_include_deleted() {
    let entry = listing(&["uid.host:2,T"]).entries.remove(0);
    assert!(new_email_row(&entry, &ctx(false), 9, "", "{}").is_none());
}

#[test]
fn refresh_flags_updates_only_when_changed() {
    let entry = listing(&["u.host:2,"]).entries.remove(0);
    let kept = "[]";
    assert_eq!(refresh_flags(&entry, kept, false).0, PresentOutcome::Unchanged);
    let entry2 = listing(&["u.host:2,S"]).entries.remove(0);
    let (outcome, keywords) = refresh_flags(&entry2, kept, false);
    assert_eq!(outcome, PresentOutcome::KeywordsUpdated);
    let keywords = keywords.unwrap();
    assert!(keywords.contains("$seen"));
    assert_eq!(refresh_flags(&entry2, &keywords, false).0, PresentOutcome::Unchanged);
}

#[test]
fn refresh_flags_returns_delete_when_trashed_added_and_include_deleted_off() {
    let entry2 = listing(&["u.host:2,T"]).entries.remove(0);
    assert_eq!(refresh_flags(&entry2, "[]", false).0, PresentOutcome::DeleteRequested);
}

#[test]
fn refresh_flags_keeps_trashed_with_include_deleted_on() {
    let entry = listing(&["u.host:2,T"]).entries.remove(0);
    let row = new_email_row(&entry, &ctx(true), 1, "", "{}").unwrap();
    let Cell::Text(kept) = &row[3] else { panic!("keywords") };
    assert_eq!(refresh_flags(&entry, kept, true).0, PresentOutcome::Unchanged);
}

#[test]
fn filename_delivery_time_wins_over_mtime() {
    let got = pick_received_at(
        "1763065233.M12345P678.host,S=1234:2,S",
        99,
        Some("2025-05-12T10:00:00+02:00"),
        NOW,
    );
    assert_eq!(got, "2025-11-13T20:20:33Z");
}

#[test]
fn date_header_used_when_the_filename_carries_no_timestamp() {
    let got = pick_received_at(
        "M12345P678.host:2,S",
        1763065233,
        Some("2025-05-12T10:00:00+02:00"),
        NOW,
    );
    assert_eq!(got, "2025-05-12T10:00:00+02:00");
}

#[test]
fn mtime_is_the_last_resort_before_now() {
    let got = pick_received_at("M12345P678.host:2,S", 1763065233, None, NOW);
    assert_eq!(got, "2025-11-13T20:20:33Z");
    let now = Moment { secs: 1763065233, nanos: 0, offset: 0 };
    assert_eq!(pick_received_at("M1.host", 0, None, now), "2025-11-13T20:20:33Z");
}

#[test]
fn implausible_filename_timestamps_are_rejected() {
    assert_eq!(delivery_time_from_filename("0.M1P1.host", NOW.secs), None);
    assert_eq!(delivery_time_from_filename("M1P1.host", NOW.secs), None);
    assert_eq!(delivery_time_from_filename("99999999999999.M1P1.host", NOW.secs), None);
    let far_future = NOW.secs + 400_000;
    assert_eq!(delivery_time_from_filename(&format!("{far_future}.M1P1.host"), NOW.secs), None);
    assert_eq!(
        delivery_time_from_filename("1763065233.M12345P678.host", NOW.secs),
        Some(1763065233)
    );
}

#[test]
fn what_was_done_for_messages_is_counted() {
    let mut counts = TypeCounts::default();
    let done = vec![
        Done::Inserted,
        Done::LeftOut,
        Done::Unchanged,
        Done::KeywordsUpdated,
        Done::Deleted,
        Done::Failed,
    ];
    apply_folder(&done, &mut counts);
    assert_eq!(
        counts,
        TypeCounts { created: 1, fetched: 2, updated: 0, deleted: 1, skipped: 2, failed: 1 }
    );
}

#[test]
fn every_flag_has_its_keyword() {
    let flags =
        vec![Flag::Passed, Flag::Replied, Flag::Seen, Flag::Trashed, Flag::Draft, Flag::Flagged];
    let t = translate_flags(&flags, true);
    assert!(t.has_trashed_flag);
    assert_eq!(
        t.keywords,
        ["$forwarded", "$answered", "$seen", "$deleted", "$draft", "$flagged"]
    );
    assert_eq!(translate_flags(&flags, false).keywords.len(), 5);
}

#[test]
fn failed_work_is_told() {
    let e = InsertError::Io("gone".to_owned());
    assert_eq!(
        work_warning("INBOX", "1.host", Work::Insert, &e.message()),
        "maildir \"INBOX\"/1.host: io: gone"
    );
    assert_eq!(InsertError::Db("locked".to_owned()).message(), "db: locked");
    assert_eq!(
        work_warning("A", "1", Work::TrashDelete, "x"),
        "maildir \"A\"/1: T-flag delete failed: x"
    );
}

#[test]
fn file_url_for_ascii_path_is_passthrough() {
    let url = maildir::file_url_for("/home/alice/Maildir").unwrap();
    assert_eq!(url, "file:///home/alice/Maildir");
}

#[test]
fn file_url_for_percent_encodes_spaces_and_unicode() {
    let url = maildir::file_url_for("/home/alice/My Maildir/Sübfolder").unwrap();
    assert!(url.starts_with("file:///home/alice/My%20Maildir/"));
    assert!(url.contains("S%C3%BCbfolder"));
}

#[test]
fn file_url_for_rejects_relative_paths() {
    let err = maildir::file_url_for("./relative").unwrap_err();
    assert!(matches!(err, Error::Usage(_)));
}

#[test]
fn file_url_encodes_unicode_path() {
    let u = takeout::file_url_for("/tmp/Año").unwrap();
    assert!(u.starts_with("file://"));
    assert!(u.contains("A%C3%B1o"));
}

#[test]
fn file_url_rejects_relative_path() {
    let err = takeout::file_url_for("./relative").unwrap_err();
    assert!(matches!(err, Error::Usage(_)));
}

#[test]
fn mailbox_name_from_filename_strips_extension() {
    assert_eq!(mailbox_name_from_filename("/some/dir/Github.mbox"), "Github");
}

#[test]
fn mailbox_name_from_filename_handles_dotted_basename() {
    assert_eq!(
        mailbox_name_from_filename("/x/All mail Including Spam and Trash.mbox"),
        "All mail Including Spam and Trash"
    );
}

#[test]
fn a_name_without_an_extension_is_kept_and_no_name_is_replaced() {
    assert_eq!(mailbox_name_from_filename("/x/.mbox"), ".mbox");
    assert_eq!(mailbox_name_from_filename("/x/a.b.mbox"), "a.b");
    assert_eq!(mailbox_name_from_filename("/x/plain"), "plain");
    assert_eq!(mailbox_name_from_filename("/.."), "Imported");
}

#[test]
fn a_broken_file_is_a_failure_and_a_broken_archive_ends_the_run() {
    let mut counts = TakeoutCounts::new();
    let partial = Err(Error::Partial("bad".to_owned()));
    let w = after_file(&mut counts, FileKind::Ics, "/x/a.ics", partial).unwrap();
    assert_eq!(w.unwrap(), "ics \"/x/a.ics\": partial failure: bad");
    assert_eq!(counts.event.failed, 1);
    assert!(!collects_garbage(&counts, false));
    let broken = Err(Error::Db("locked".to_owned()));
    let e = after_file(&mut counts, FileKind::Mbox, "/x/a.mbox", broken).unwrap_err();
    assert_eq!(e.exit_code(), 7);
    assert_eq!(counts.email.failed, 0);
    let outcome = takeout::outcome(&counts, Some(e));
    assert_eq!(outcome.summary.per_type.len(), 6);
    assert_eq!(outcome.exit_code(), 7);
    assert_eq!(dry_run_summary().per_type[5].0, "contactcard");
    assert!(nothing_found("/x").message().contains("no .mbox / .ics / .vcf files found"));
}

fn folder(name: &str, parent: Option<&str>, ephemeral: bool) -> ResolvedFolder {
    ResolvedFolder {
        name: name.to_owned(),
        leaf: name.to_owned(),
        parent_path: parent.map(str::to_owned),
        role: None,
        ephemeral,
    }
}

fn folder_id(name: &str, local_id: i64) -> FolderId {
    FolderId { name: name.to_owned(), local_id }
}

#[test]
fn a_folder_finds_its_parent_among_the_written_ones_first() {
    let written = vec![folder_id("A", 10)];
    let kept = vec![folder_id("A", 1), folder_id("A/B", 2)];
    let plan = plan_mailbox(&folder("A/B", Some("A"), false), &written, &kept);
    assert_eq!(plan.parent, Some(10));
    assert_eq!(plan.existing, Some(2));
    assert!(plan.is_subscribed);
    let plan = plan_mailbox(&folder("A/C", Some("A"), true), &Vec::new(), &kept);
    assert_eq!(plan.parent, Some(1));
    assert_eq!(plan.existing, None);
    assert!(!plan.is_subscribed);
    let mut counts = TypeCounts::default();
    count_mailbox(&plan, &mut counts);
    assert_eq!((counts.created, counts.fetched), (1, 1));
}

#[test]
fn a_vanished_folder_goes_unless_something_is_in_it() {
    let gone = vanished_folders(
        &vec![folder_id("A", 1), folder_id("B", 2)],
        &vec![folder("A", None, false)],
    );
    assert_eq!(gone, ["B"]);
    let mut mailboxes = TypeCounts::default();
    let mut emails = TypeCounts::default();
    let w = delete_vanished_folder("B", true, 3, &mut mailboxes, &mut emails);
    assert!(w.unwrap().starts_with("folder \"B\": vanished from disk"));
    assert_eq!((mailboxes.failed, emails.deleted), (1, 0));
    assert!(delete_vanished_folder("B", false, 3, &mut mailboxes, &mut emails).is_none());
    assert_eq!((mailboxes.deleted, emails.deleted), (1, 3));
}

#[test]
fn a_dry_run_of_a_maildir_counts_what_would_be_done() {
    let counts = look_at_mailboxes(
        &vec![folder("A", None, false), folder("B", None, false)],
        &vec![folder_id("B", 1), folder_id("C", 2)],
    );
    assert_eq!((counts.created, counts.fetched, counts.deleted), (1, 1, 1));
    let mut l = listing(&["a", "b"]);
    l.io_failures = 2;
    let look = look_at_folder(Some(&l), &vec![local("b", 1), local("c", 2)]);
    assert_eq!((look.new, look.present, look.vanished, look.failed), (1, 1, 1, 2));
    assert_eq!(look_at_folder(None, &Vec::new()).failed, 1);
    let mut email = TypeCounts::default();
    count_look(&look, &mut email);
    assert_eq!((email.created, email.fetched, email.skipped, email.failed), (1, 1, 1, 2));
}

#[test]
fn a_folder_that_fails_does_not_end_the_run() {
    let mut emails = TypeCounts::default();
    let partial = Err(Error::Partial("list".to_owned()));
    let w = after_folder("A", partial, &mut emails).unwrap();
    assert_eq!(w.unwrap(), "folder \"A\": partial failure: list");
    assert_eq!(emails.failed, 1);
    assert!(after_folder("A", Err(Error::Io("x".to_owned())), &mut emails).is_err());
    assert!(!maildir::collects_garbage(&TypeCounts::default(), &emails));
    let outcome = maildir::outcome(TypeCounts::default(), emails, None);
    assert_eq!(outcome.exit_code(), 5);
}

fn maildir_config(folder: &[&str], wanted: &[&str]) -> MaildirImportConfig {
    MaildirImportConfig {
        maildir: "/m".to_owned(),
        include_folders: wanted.iter().map(|s| (*s).to_owned()).collect(),
        exclude_folders: Vec::new(),
        folder: folder.iter().map(|s| (*s).to_owned()).collect(),
        automap: false,
        include_deleted: false,
        allow_source_change: false,
    }
}

#[test]
fn named_folders_and_patterns_exclude_each_other() {
    assert!(check_filters(&maildir_config(&["A"], &[])).is_ok());
    assert!(check_filters(&maildir_config(&[], &["A.*"])).is_ok());
    let e = check_filters(&maildir_config(&["A"], &["A.*"])).unwrap_err();
    assert_eq!(
        e.message(),
        "usage error: --folder is mutually exclusive with --include/--exclude"
    );
}

#[test]
fn a_path_that_is_no_maildir_is_a_usage_error() {
    let said = |e: DiscoverError| map_discover_error(&e).message();
    assert_eq!(
        said(DiscoverError::NotFound("/m".to_owned())),
        "usage error: maildir path does not exist: \"/m\""
    );
    assert_eq!(
        said(DiscoverError::NotADirectory("/m".to_owned())),
        "usage error: not a directory: \"/m\""
    );
    assert_eq!(
        said(DiscoverError::NotAMaildir("/m".to_owned())),
        "usage error: not a Maildir: \"/m\" (missing cur/ subdirectory)"
    );
    assert!(said(DiscoverError::NotMaildirPlus("Sent".to_owned())).contains("'.Sent'"));
    assert_eq!(
        said(DiscoverError::Io("/m".to_owned(), "denied".to_owned())),
        "usage error: walking \"/m\": denied"
    );
}

#[test]
fn a_subfolder_given_as_a_maildir_is_warned_about() {
    let w = warn_if_looks_like_subfolder(Some(".Sent"), "/m/.Sent", Some("/m"), true);
    assert!(w.unwrap().contains("looks like a Maildir++ subfolder of \"/m\""));
    assert!(warn_if_looks_like_subfolder(Some("Sent"), "/m/Sent", Some("/m"), true).is_none());
    assert!(warn_if_looks_like_subfolder(Some(".Sent"), "/m/.Sent", Some("/m"), false).is_none());
}

#[test]
fn another_maildir_or_export_is_refused() {
    let known = || Some(("file:///a".to_owned(), "/a".to_owned()));
    assert_eq!(maildir::source_change(known(), false).unwrap_err().exit_code(), 4);
    assert_eq!(takeout::source_change(known(), false).unwrap_err().exit_code(), 4);
    assert!(takeout::source_change(known(), true).is_ok());
}
