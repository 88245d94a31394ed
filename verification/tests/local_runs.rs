use vandelay::error::Error;
use vandelay::sync::import_maildir::coordinator::{
    order_for_deletion, Deletion, FolderId, MaildirRun, MaildirStep, ResolvedFolder,
};
use vandelay::sync::import_maildir::messages::Done;
use vandelay::sync::import_takeout::coordinator::{FileKind, TakeoutRun};

fn folder(name: &str, parent: Option<&str>, ephemeral: bool) -> ResolvedFolder {
    ResolvedFolder {
        name: name.to_owned(),
        leaf: name.to_owned(),
        parent_path: parent.map(str::to_owned),
        role: None,
        ephemeral,
    }
}

fn folder_id(name: &str, local_id: i64) -> FolderId {
    FolderId { name: name.to_owned(), local_id }
}

#[test]
fn folders_that_are_gone_go_before_those_they_lie_in() {
    let names = vec!["Work".to_owned(), "Work.Old".to_owned(), "Work.Old.2001".to_owned()];
    assert_eq!(order_for_deletion(&names), ["Work.Old.2001", "Work.Old", "Work"]);
}

#[test]
fn a_maildir_run_writes_deletes_and_then_reads() {
    let folders = vec![folder("Up", None, true), folder("Up.In", Some("Up"), false)];
    let stored = vec![folder_id("Up.In", 5), folder_id("X", 6), folder_id("X.Y", 7)];
    let mut run = MaildirRun::begin(folders, stored);

    let plan = match run.next() {
        MaildirStep::WriteMailbox { folder: 0, plan } => plan,
        other => panic!("{other:?}"),
    };
    assert_eq!((plan.existing, plan.parent, plan.is_subscribed), (None, None, false));
    run.after_mailbox(&plan, Ok(1)).expect("goes on");
    let plan = match run.next() {
        MaildirStep::WriteMailbox { folder: 1, plan } => plan,
        other => panic!("{other:?}"),
    };
    assert_eq!((plan.existing, plan.parent, plan.is_subscribed), (Some(5), Some(1), true));
    run.after_mailbox(&plan, Ok(5)).expect("goes on");
    assert_eq!(run.mailbox_counts.created, 1);

    match run.next() {
        MaildirStep::DeleteFolder { name } => assert_eq!(name, "X.Y"),
        other => panic!("{other:?}"),
    }
    assert_eq!(run.after_delete(Ok(Deletion::Deleted(3))).expect("goes on"), None);
    match run.next() {
        MaildirStep::DeleteFolder { name } => assert_eq!(name, "X"),
        other => panic!("{other:?}"),
    }
    assert!(run.after_delete(Ok(Deletion::HasChild)).expect("goes on").is_some());
    assert_eq!(run.mailbox_counts.deleted, 1);
    assert_eq!(run.mailbox_counts.failed, 1);
    assert_eq!(run.email_counts.deleted, 3);

    match run.next() {
        MaildirStep::Messages { folder: 1, mailbox: 5 } => {}
        other => panic!("{other:?}"),
    }
    let told = run
        .after_messages(1, &vec![Done::Inserted], Err(Error::Partial("half".to_owned())))
        .expect("goes on");
    assert_eq!(told.as_deref(), Some("folder \"Up.In\": partial failure: half"));
    assert_eq!(run.email_counts.created, 1);
    assert_eq!(run.email_counts.failed, 2);
    assert!(matches!(run.next(), MaildirStep::Finish));
    let (outcome, clean) = run.finish(None);
    assert!(!clean);
    assert_eq!(outcome.summary.per_type[0].0, "mailbox");
    assert_eq!(outcome.summary.per_type[1].1.created, 1);
}

#[test]
fn a_maildir_run_ends_with_its_archive() {
    let mut run = MaildirRun::begin(vec![folder("In", None, false)], vec![]);
    let plan = match run.next() {
        MaildirStep::WriteMailbox { plan, .. } => plan,
        other => panic!("{other:?}"),
    };
    assert!(run.after_mailbox(&plan, Err(Error::Db("full".to_owned()))).is_err());
    run.after_mailbox(&plan, Ok(1)).expect("goes on");
    assert!(run.after_messages(0, &vec![], Err(Error::Db("full".to_owned()))).is_err());
    let (outcome, clean) = run.finish(Some(Error::Db("full".to_owned())));
    assert!(!clean);
    assert!(outcome.error.is_some());
}

#[test]
fn a_maildir_without_trouble_is_cleaned_up() {
    let mut run = MaildirRun::begin(vec![], vec![folder_id("X", 1)]);
    assert!(matches!(run.next(), MaildirStep::DeleteFolder { .. }));
    assert_eq!(run.after_delete(Ok(Deletion::Unknown)).expect("goes on"), None);
    assert!(matches!(run.next(), MaildirStep::Finish));
    assert!(run.finish(None).1);
}

#[test]
fn an_export_is_read_kind_by_kind() {
    let mut run = TakeoutRun::begin(1, 0, 2);
    assert_eq!(run.next(), Some((FileKind::Mbox, 0)));
    assert_eq!(run.after("a.mbox", Ok(())), None);
    assert_eq!(run.next(), Some((FileKind::Vcf, 0)));
    assert_eq!(
        run.after("b.vcf", Err(Error::Partial("odd".to_owned()))).as_deref(),
        Some("vcf \"b.vcf\": partial failure: odd")
    );
    assert_eq!(run.next(), Some((FileKind::Vcf, 1)));
    assert_eq!(run.after("c.vcf", Ok(())), None);
    assert_eq!(run.next(), None);
    let (outcome, clean) = run.finish();
    assert!(!clean);
    assert!(outcome.error.is_none());
    assert_eq!(outcome.summary.per_type[5].1.failed, 1);
}

#[test]
fn a_broken_archive_ends_the_reading_of_an_export() {
    let mut run = TakeoutRun::begin(2, 1, 1);
    assert_eq!(run.after("a.mbox", Err(Error::Db("full".to_owned()))), None);
    assert_eq!(run.next(), None);
    let (outcome, clean) = run.finish();
    assert!(!clean);
    assert!(matches!(outcome.error, Some(Error::Db(_))));
}
