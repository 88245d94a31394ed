use vandelay::db::cell::{int_at, opt_int_at, opt_text_at, rewrite, text_at, Cell};
use vandelay::db::defaults::{table_for, unique_default, DefaultRow};
use vandelay::db::exchange_graph_ids::{local_for_graph_id, IdRow};
use vandelay::db::init::{needs_data_type_column, needs_file_nodes};
use vandelay::db::roles::{unique_role, RoleRow};
use vandelay::error::Error;
use vandelay::jmap::error::JmapError;
use vandelay::types::ObjectType;

fn book(rows: &mut Vec<DefaultRow>, is_default: bool) -> i64 {
    let id = rows.len() as i64 + 1;
    rows.push(DefaultRow { id, is_default });
    id
}

#[test]
fn first_claimant_keeps_the_default_second_is_dropped() {
    let mut books = Vec::new();
    let first = unique_default(&books, ObjectType::AddressBook, true, None);
    assert!(first);
    book(&mut books, first);
    assert!(
        !unique_default(&books, ObjectType::AddressBook, true, None),
        "an archive must never hold two default address books"
    );
}

#[test]
fn non_default_stays_non_default() {
    assert!(!unique_default(&Vec::new(), ObjectType::AddressBook, false, None));
}

#[test]
fn each_type_has_its_own_default() {
    let mut books = Vec::new();
    book(&mut books, true);
    let calendars = Vec::new();
    assert!(
        unique_default(&calendars, ObjectType::Calendar, true, None),
        "a default address book must not block a default calendar"
    );
    assert_eq!(table_for(ObjectType::AddressBook), Some("address_books"));
    assert_eq!(table_for(ObjectType::Calendar), Some("calendars"));
}

#[test]
fn update_excludes_its_own_row() {
    let mut books = Vec::new();
    let id = book(&mut books, true);
    assert!(unique_default(&books, ObjectType::AddressBook, true, Some(id)));
}

#[test]
fn update_detects_another_holder() {
    let mut books = Vec::new();
    book(&mut books, true);
    let other = book(&mut books, false);
    assert!(!unique_default(&books, ObjectType::AddressBook, true, Some(other)));
}

#[test]
fn types_without_a_default_column_are_never_default() {
    assert!(!unique_default(&Vec::new(), ObjectType::Mailbox, true, None));
    assert_eq!(table_for(ObjectType::Mailbox), None);
}

fn mailbox(rows: &mut Vec<RoleRow>, role: Option<&str>) -> i64 {
    let id = rows.len() as i64 + 1;
    rows.push(RoleRow { id, role: role.map(str::to_owned) });
    id
}

#[test]
fn first_claimant_keeps_role_second_is_dropped() {
    let mut rows = Vec::new();
    let first = unique_role(&rows, Some("sent"), None);
    assert_eq!(first.as_deref(), Some("sent"));
    mailbox(&mut rows, first.as_deref());
    let second = unique_role(&rows, Some("sent"), None);
    assert_eq!(second, None);
}

#[test]
fn null_role_stays_null() {
    assert_eq!(unique_role(&Vec::new(), None, None), None);
}

#[test]
fn distinct_roles_are_independent() {
    let mut rows = Vec::new();
    mailbox(&mut rows, Some("sent"));
    assert_eq!(unique_role(&rows, Some("trash"), None).as_deref(), Some("trash"));
}

#[test]
fn update_excludes_own_row() {
    let mut rows = Vec::new();
    let id = mailbox(&mut rows, Some("sent"));
    assert_eq!(unique_role(&rows, Some("sent"), Some(id)).as_deref(), Some("sent"));
}

#[test]
fn update_detects_other_holder() {
    let mut rows = Vec::new();
    mailbox(&mut rows, Some("sent"));
    let other = mailbox(&mut rows, None);
    assert_eq!(unique_role(&rows, Some("sent"), Some(other)), None);
}

fn id_row(graph_id: &str, local_id: i64) -> IdRow {
    IdRow { graph_id: graph_id.to_owned(), local_id }
}

#[test]
fn insert_and_lookup_round_trip() {
    let rows = vec![id_row("AAkA-base64==", 17)];
    assert_eq!(local_for_graph_id(&rows, "AAkA-base64=="), Some(17));
}

#[test]
fn graph_id_is_case_sensitive() {
    let rows = vec![id_row("AaBb", 1)];
    assert!(local_for_graph_id(&rows, "aabb").is_none());
    assert!(local_for_graph_id(&rows, "AaBb").is_some());
}

#[test]
fn exit_codes_match_cli_md_table() {
    assert_eq!(Error::Usage("x".into()).exit_code(), 1);
    assert_eq!(Error::Unimplemented("x".into()).exit_code(), 1);
    assert_eq!(Error::Connection("x".into()).exit_code(), 2);
    assert_eq!(Error::Account("x".into()).exit_code(), 3);
    assert_eq!(Error::SourceChange("x".into()).exit_code(), 4);
    assert_eq!(Error::Partial("x".into()).exit_code(), 5);
    assert_eq!(Error::PruneAborted.exit_code(), 6);
    let io = Error::Io("disk".into());
    assert_eq!(io.exit_code(), 7);
}

#[test]
fn only_partial_is_a_per_unit_failure() {
    assert!(!Error::Partial("one object".into()).aborts_run());
}

#[test]
fn whole_run_conditions_abort() {
    assert!(Error::Connection("http status 404".into()).aborts_run());
    assert!(Error::Account("ambiguous".into()).aborts_run());
    assert!(Error::SourceChange("other account".into()).aborts_run());
    assert!(Error::Usage("bad flag".into()).aborts_run());
    assert!(Error::Unimplemented("x".into()).aborts_run());
    assert!(Error::PruneAborted.aborts_run());
    assert!(Error::Db("Query returned no rows".into()).aborts_run());
    assert!(Error::Io("disk".into()).aborts_run());
}

#[test]
fn aborting_errors_do_not_map_to_the_partial_exit_code() {
    for e in [
        Error::Connection("x".into()),
        Error::Account("x".into()),
        Error::SourceChange("x".into()),
        Error::Db("Query returned no rows".into()),
        Error::Io("disk".into()),
    ] {
        assert!(e.aborts_run(), "{} must abort the run", e.message());
        assert_ne!(e.exit_code(), 5, "{} must not report a partial failure", e.message());
    }
    assert_eq!(Error::Connection("x".into()).exit_code(), 2);
    assert_eq!(Error::Partial("x".into()).exit_code(), 5);
}

#[test]
fn an_error_says_what_it_is() {
    assert_eq!(Error::Usage("bad flag".into()).message(), "usage error: bad flag");
    assert_eq!(Error::PruneAborted.message(), "aborted at prune confirmation");
    assert_eq!(Error::Io("disk".into()).message(), "i/o error: disk");
}

#[test]
fn old_archives_are_brought_up_to_date() {
    assert!(needs_data_type_column(&vec!["id".to_owned(), "data".to_owned()]));
    assert!(!needs_data_type_column(&vec!["id".to_owned(), "data_type".to_owned()]));
    assert!(!needs_file_nodes(None));
}

#[test]
fn a_column_of_another_type_is_refused() {
    let row = vec![
        Cell::Int(7),
        Cell::Text("a".to_owned()),
        Cell::Null,
        Cell::Real,
        Cell::Blob,
    ];
    let said = |e: JmapError| match e {
        JmapError::Sqlite(m) => m,
        other => panic!("{other:?}"),
    };
    assert_eq!(int_at(&row, 0, "id").ok(), Some(7));
    assert_eq!(
        said(int_at(&row, 1, "role").unwrap_err()),
        "Invalid column type Text at index: 1, name: role"
    );
    assert_eq!(text_at(&row, 1, "name").ok(), Some("a".to_owned()));
    assert_eq!(
        said(text_at(&row, 2, "name").unwrap_err()),
        "Invalid column type Null at index: 2, name: name"
    );
    assert_eq!(
        said(text_at(&row, 0, "name").unwrap_err()),
        "Invalid column type Integer at index: 0, name: name"
    );
    assert_eq!(opt_int_at(&row, 2, "n").ok(), Some(None));
    assert_eq!(opt_text_at(&row, 2, "t").ok(), Some(None));
    assert_eq!(
        said(opt_text_at(&row, 3, "t").unwrap_err()),
        "Invalid column type Real at index: 3, name: t"
    );
    assert_eq!(
        said(opt_int_at(&row, 4, "t").unwrap_err()),
        "Invalid column type Blob at index: 4, name: t"
    );
    assert_eq!(said(int_at(&row, 9, "n").unwrap_err()), "Invalid column index: 9");
}

#[test]
fn a_refused_column_is_told_as_the_database_tells_it() {
    let conn = rusqlite::Connection::open_in_memory().unwrap();
    let told = conn
        .query_row("SELECT 1 AS id, NULL AS name, x'00' AS blob_id", [], |row| {
            Ok([
                row.get::<_, String>(1).unwrap_err().to_string(),
                row.get::<_, Option<i64>>(2).unwrap_err().to_string(),
                row.get::<_, i64>(3).unwrap_err().to_string(),
            ])
        })
        .unwrap();
    let row = vec![Cell::Int(1), Cell::Null, Cell::Blob];
    let ours = [
        text_at(&row, 1, "name").unwrap_err(),
        opt_int_at(&row, 2, "blob_id").unwrap_err(),
        int_at(&row, 3, "gone").unwrap_err(),
    ];
    for (mine, theirs) in ours.into_iter().zip(told) {
        assert_eq!(mine.message(), format!("sqlite error: {theirs}"));
    }
}

#[test]
fn a_row_is_written_only_where_it_changes() {
    let old_row = vec![Cell::Int(1), Cell::Text("a".to_owned())];
    assert!(rewrite(Some(&old_row), vec![Cell::Int(1), Cell::Text("a".to_owned())]).is_none());
    assert!(rewrite(Some(&old_row), vec![Cell::Int(1), Cell::Null]).is_some());
    assert!(rewrite(None, vec![Cell::Int(1)]).is_none());
}
