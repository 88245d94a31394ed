//! File nodes as rows of the archive, and back.

use crate::db::cell;
use crate::db::cell::{Cell, CellVal};
use crate::instant::Moment;
use crate::jmap::error::JmapError;
use crate::jmap::objects;
use crate::jmap::objects::{FileNode, NodeType};
use crate::jmap::wire::JmapId;
use crate::json;
use crate::sync::import_jmap::mapping;
use crate::sync::import_jmap::mapping::{Fault, LocalResolver, TargetResolver};
use crate::text;
use crate::types::ObjectType;
use vstd::prelude::*;

verus! {

/// A stored file node, and its blob.
#[derive(Debug)]
pub struct FileNodeRow {
    pub wire: FileNode,
    pub blob_local_id: Option<i64>,
}

/// The path that a symlink leads to, as a column holds it.
pub open spec fn target_column(target: Option<Seq<Seq<char>>>) -> CellVal {
    match target {
        Some(t) => CellVal::Text(json::json_text(mapping::texts_val(t))),
        None => CellVal::Null,
    }
}

pub open spec fn path_view(target: Option<Vec<String>>) -> Option<Seq<Seq<char>>> {
    match target {
        Some(t) => Some(text::texts(t@)),
        None => None,
    }
}

/// A moment that there may be, as a column holds it.
pub open spec fn opt_date_column(m: Option<Moment>) -> Result<Option<Seq<char>>, Fault> {
    match m {
        Some(t) => match mapping::date_column(t) {
            Ok(s) => Ok(Some(s)),
            Err(f) => Err(f),
        },
        None => Ok(None),
    }
}

/// The columns of a file node: parent, type, blob, target, name, media type,
/// the moments of its creation and last change, subscription, role.
pub open spec fn node_cells<R: LocalResolver>(
    wire: FileNode,
    blob_local_id: Option<i64>,
    resolver: &R,
) -> Result<Seq<CellVal>, Fault> {
    match mapping::date_column(wire.created) {
        Err(f) => Err(f),
        Ok(created) => match opt_date_column(wire.modified) {
            Err(f) => Err(f),
            Ok(modified) => Ok(
                seq![
                    cell::opt_int(
                        mapping::parent_local(
                            mapping::id_view(wire.parent_id),
                            ObjectType::FileNode,
                            resolver,
                        ),
                    ),
                    CellVal::Text(objects::node_name(wire.node_type)),
                    cell::opt_int(blob_local_id),
                    target_column(path_view(wire.target)),
                    CellVal::Text(wire.name@),
                    cell::opt_text(json::text_view(wire.media_type)),
                    CellVal::Text(created),
                    cell::opt_text(modified),
                    cell::flag(wire.is_subscribed),
                    cell::opt_text(json::text_view(wire.role)),
                ],
            ),
        },
    }
}

/// The columns of a new file node. Its moments read back.
pub fn insert_file_node<R: LocalResolver>(
    wire: &FileNode,
    blob_local_id: Option<i64>,
    resolver: &R,
) -> (r: Result<Vec<Cell>, JmapError>)
    ensures
        match r {
            Ok(row) => {
                &&& node_cells(*wire, blob_local_id, resolver) == Ok::<Seq<CellVal>, Fault>(
                    cell::cells(row@),
                )
                &&& mapping::column_date(cell::text_of(cell::cells(row@)[6])->0) == Ok::<
                    Moment,
                    Fault,
                >(wire.created)
                &&& column_opt_date(cell::cells(row@)[7]) == Ok::<Option<Moment>, Fault>(
                    wire.modified,
                )
            },
            Err(e) => node_cells(*wire, blob_local_id, resolver) matches Err(f)
                && mapping::is_fault(e, f),
        },
{
    let parent: Option<i64> = mapping::opt_parent(
        resolver,
        ObjectType::FileNode,
        &wire.parent_id,
    );
    let target: Cell = match &wire.target {
        Some(t) => Cell::Text(mapping::text_array_json(t)),
        None => Cell::Null,
    };
    let created: String = match mapping::format_utc(wire.created) {
        Ok(t) => t,
        Err(e) => {
            return Err(e);
        },
    };
    let modified: Option<String> = match wire.modified {
        Some(m) => match mapping::format_utc(m) {
            Ok(t) => Some(t),
            Err(e) => {
                return Err(e);
            },
        },
        None => None,
    };
    let mut row: Vec<Cell> = Vec::new();
    row.push(cell::int_cell(parent));
    row.push(Cell::Text(wire.node_type.name().to_owned()));
    row.push(cell::int_cell(blob_local_id));
    row.push(target);
    row.push(Cell::Text(wire.name.clone()));
    row.push(cell::text_cell(json::str_of(&wire.media_type)));
    row.push(Cell::Text(created));
    row.push(cell::text_cell(json::str_of(&modified)));
    row.push(cell::flag_cell(wire.is_subscribed));
    row.push(cell::text_cell(json::str_of(&wire.role)));
    assert(cell::cells(row@) =~= node_cells(*wire, blob_local_id, resolver)->Ok_0);
    Ok(row)
}

/// The columns of a file node that changed; nothing where it did not.
pub fn update_file_node<R: LocalResolver>(
    stored: Option<&Vec<Cell>>,
    wire: &FileNode,
    blob_local_id: Option<i64>,
    resolver: &R,
) -> (r: Result<Option<Vec<Cell>>, JmapError>)
    ensures
        match r {
            Ok(row) => node_cells(*wire, blob_local_id, resolver) matches Ok(columns)
                && cell::written_cells(row) == cell::rewritten(cell::opt_cells(stored), columns),
            Err(e) => node_cells(*wire, blob_local_id, resolver) matches Err(f)
                && mapping::is_fault(e, f),
        },
{
    match insert_file_node(wire, blob_local_id, resolver) {
        Ok(row) => Ok(cell::rewrite(stored, row)),
        Err(e) => Err(e),
    }
}

/// The node type with a name.
pub open spec fn node_type_of(name: Seq<char>) -> Option<NodeType> {
    if name == "file"@ {
        Some(NodeType::File)
    } else if name == "directory"@ {
        Some(NodeType::Directory)
    } else if name == "symlink"@ {
        Some(NodeType::Symlink)
    } else {
        None
    }
}

/// The names of node types read back.
pub proof fn node_names_read_back(t: NodeType)
    ensures
        node_type_of(objects::node_name(t)) == Some(t),
{
    reveal_strlit("file");
    reveal_strlit("directory");
    reveal_strlit("symlink");
    assert("file"@.len() == 4 && "directory"@.len() == 9 && "symlink"@.len() == 7);
}

fn read_node_type(name: &str) -> (r: Option<NodeType>)
    ensures
        r == node_type_of(name@),
{
    if text::same(name, "file") {
        Some(NodeType::File)
    } else if text::same(name, "directory") {
        Some(NodeType::Directory)
    } else if text::same(name, "symlink") {
        Some(NodeType::Symlink)
    } else {
        None
    }
}

/// The path that a column holds, if it holds one.
pub open spec fn column_path(c: CellVal) -> Result<Option<Seq<Seq<char>>>, Fault> {
    match cell::text_of(c) {
        None => Ok(None),
        Some(t) => match mapping::column_texts(t) {
            Ok(v) => Ok(Some(v)),
            Err(f) => Err(f),
        },
    }
}

/// The moment that a column holds, if it holds one.
pub open spec fn column_opt_date(c: CellVal) -> Result<Option<Moment>, Fault> {
    match cell::text_of(c) {
        None => Ok(None),
        Some(t) => match mapping::column_date(t) {
            Ok(m) => Ok(Some(m)),
            Err(f) => Err(f),
        },
    }
}

/// Why a column holds neither a path nor nothing.
pub open spec fn path_fault(row: Seq<CellVal>, i: int, name: Seq<char>) -> Option<Fault> {
    if !cell::is_opt_text(cell::cell(row, i)) {
        mapping::column_fault(row, i, name)
    } else {
        match column_path(cell::cell(row, i)) {
            Err(f) => Some(f),
            Ok(_) => None,
        }
    }
}

/// Why a column holds neither a moment nor nothing.
pub open spec fn date_fault(row: Seq<CellVal>, i: int, name: Seq<char>) -> Option<Fault> {
    if !cell::is_opt_text(cell::cell(row, i)) {
        mapping::column_fault(row, i, name)
    } else {
        match column_opt_date(cell::cell(row, i)) {
            Err(f) => Some(f),
            Ok(_) => None,
        }
    }
}

/// What is said of a text that names no type of node.
pub open spec fn unknown_type_text(name: Seq<char>) -> Seq<char> {
    "unknown variant `"@ + name + "`, expected one of `file`, `directory`, `symlink`"@
}

/// Why a row, led by its id, is no file node.
pub open spec fn node_fault<R: TargetResolver>(row: Seq<CellVal>, resolver: &R) -> Option<Fault> {
    if !cell::is_opt_int(cell::cell(row, 1)) {
        mapping::column_fault(row, 1, "parent_id"@)
    } else if mapping::lacks_parent(cell::cell(row, 1), ObjectType::FileNode, resolver) {
        Some(Fault::Malformed("unresolved file_node parent on export"@))
    } else if !cell::is_text(cell::cell(row, 2)) {
        mapping::column_fault(row, 2, "node_type"@)
    } else if node_type_of(cell::text_of(cell::cell(row, 2))->0) is None {
        Some(Fault::Unreadable(unknown_type_text(cell::text_of(cell::cell(row, 2))->0)))
    } else if path_fault(row, 4, "target"@) is Some {
        path_fault(row, 4, "target"@)
    } else if !cell::is_opt_int(cell::cell(row, 3)) {
        mapping::column_fault(row, 3, "blob_id"@)
    } else if !cell::is_text(cell::cell(row, 5)) {
        mapping::column_fault(row, 5, "name"@)
    } else if !cell::is_opt_text(cell::cell(row, 6)) {
        mapping::column_fault(row, 6, "media_type"@)
    } else if !cell::is_text(cell::cell(row, 7)) {
        mapping::column_fault(row, 7, "created"@)
    } else {
        match mapping::column_date(cell::text_of(cell::cell(row, 7))->0) {
            Err(f) => Some(f),
            Ok(_) => if date_fault(row, 8, "modified"@) is Some {
                date_fault(row, 8, "modified"@)
            } else if !cell::is_int(cell::cell(row, 9)) {
                mapping::column_fault(row, 9, "is_subscribed"@)
            } else if !cell::is_opt_text(cell::cell(row, 10)) {
                mapping::column_fault(row, 10, "role"@)
            } else {
                None
            },
        }
    }
}

/// Whether a path is the one that was written to a column, if one was.
pub open spec fn is_path_from(path: Option<Seq<Seq<char>>>, c: CellVal) -> bool {
    forall|t: Seq<Seq<char>>|
        c == CellVal::Text(json::json_text(#[trigger] mapping::texts_val(t))) ==> path == Some(t)
}

/// Whether a file node is what a row, led by its id, holds.
pub open spec fn is_node_of<R: TargetResolver>(
    n: FileNodeRow,
    row: Seq<CellVal>,
    resolver: &R,
) -> bool {
    &&& n.wire.id is None
    &&& mapping::id_view(n.wire.parent_id) == mapping::parent_target(
        cell::cell(row, 1),
        ObjectType::FileNode,
        resolver,
    )
    &&& node_type_of(cell::text_of(cell::cell(row, 2))->0) == Some(n.wire.node_type)
    &&& n.blob_local_id == cell::int_of(cell::cell(row, 3))
    &&& column_path(cell::cell(row, 4)) == Ok::<Option<Seq<Seq<char>>>, Fault>(
        path_view(n.wire.target),
    )
    &&& is_path_from(path_view(n.wire.target), cell::cell(row, 4))
    &&& cell::cell(row, 5) == CellVal::Text(n.wire.name@)
    &&& json::text_view(n.wire.media_type) == cell::text_of(cell::cell(row, 6))
    &&& mapping::column_date(cell::text_of(cell::cell(row, 7))->0) == Ok::<Moment, Fault>(
        n.wire.created,
    )
    &&& column_opt_date(cell::cell(row, 8)) == Ok::<Option<Moment>, Fault>(n.wire.modified)
    &&& n.wire.is_subscribed == (cell::int_of(cell::cell(row, 9))->0 != 0)
    &&& json::text_view(n.wire.role) == cell::text_of(cell::cell(row, 10))
}

fn path_at(row: &Vec<Cell>, i: usize, name: &str) -> (r: Result<Option<Vec<String>>, JmapError>)
    ensures
        match r {
            Ok(p) => path_fault(cell::cells(row@), i as int, name@) is None && column_path(
                cell::cell(cell::cells(row@), i as int),
            ) == Ok::<Option<Seq<Seq<char>>>, Fault>(path_view(p)),
            Err(e) => path_fault(cell::cells(row@), i as int, name@) matches Some(f)
                && mapping::is_fault(e, f),
        },
        forall|t: Seq<Seq<char>>|
            cell::cell(cell::cells(row@), i as int) == CellVal::Text(
                json::json_text(#[trigger] mapping::texts_val(t)),
            ) ==> (r matches Ok(p) && path_view(p) == Some(t)),
{
    match cell::opt_text_at(row, i, name) {
        Err(e) => Err(e),
        Ok(None) => Ok(None),
        Ok(Some(t)) => match mapping::parse_text_array(t.as_str()) {
            Ok(p) => Ok(Some(p)),
            Err(e) => Err(e),
        },
    }
}

fn date_at(row: &Vec<Cell>, i: usize, name: &str) -> (r: Result<Option<Moment>, JmapError>)
    ensures
        match r {
            Ok(m) => date_fault(cell::cells(row@), i as int, name@) is None && column_opt_date(
                cell::cell(cell::cells(row@), i as int),
            ) == Ok::<Option<Moment>, Fault>(m),
            Err(e) => date_fault(cell::cells(row@), i as int, name@) matches Some(f)
                && mapping::is_fault(e, f),
        },
{
    match cell::opt_text_at(row, i, name) {
        Err(e) => Err(e),
        Ok(None) => Ok(None),
        Ok(Some(t)) => match mapping::parse_utc(t.as_str()) {
            Ok(m) => Ok(Some(m)),
            Err(e) => Err(e),
        },
    }
}

/// What selects the rows of file nodes.
pub const FILE_NODE_SELECT: &'static str =
    "SELECT id, parent_id, node_type, blob_id, target, name, media_type, created, modified, is_subscribed, role FROM file_nodes";

/// Reads a file node from its row, led by its id. The path of a symlink that
/// was written reads back.
pub fn row_to_file_node<R: TargetResolver>(row: &Vec<Cell>, resolver: &R) -> (r: Result<
    FileNodeRow,
    JmapError,
>)
    ensures
        match r {
            Ok(n) => node_fault(cell::cells(row@), resolver) is None && is_node_of(
                n,
                cell::cells(row@),
                resolver,
            ),
            Err(e) => node_fault(cell::cells(row@), resolver) matches Some(f)
                && mapping::is_fault(e, f),
        },
{
    let parent: Option<i64> = match cell::opt_int_at(row, 1, "parent_id") {
        Ok(p) => p,
        Err(e) => {
            return Err(e);
        },
    };
    let parent_id: Option<JmapId> = match parent {
        Some(p) => match resolver.target(ObjectType::FileNode, p) {
            Some(t) => Some(t),
            None => {
                return Err(JmapError::malformed("unresolved file_node parent on export"));
            },
        },
        None => None,
    };
    let type_text: String = match cell::text_at(row, 2, "node_type") {
        Ok(t) => t,
        Err(e) => {
            return Err(e);
        },
    };
    let node_type: NodeType = match read_node_type(type_text.as_str()) {
        Some(t) => t,
        None => {
            let mut m: String = text::joined("unknown variant `", type_text.as_str());
            m.append("`, expected one of `file`, `directory`, `symlink`");
            return Err(JmapError::Json(m));
        },
    };
    let target: Option<Vec<String>> = match path_at(row, 4, "target") {
        Ok(p) => p,
        Err(e) => {
            return Err(e);
        },
    };
    let blob_local_id: Option<i64> = match cell::opt_int_at(row, 3, "blob_id") {
        Ok(n) => n,
        Err(e) => {
            return Err(e);
        },
    };
    let name: String = match cell::text_at(row, 5, "name") {
        Ok(t) => t,
        Err(e) => {
            return Err(e);
        },
    };
    let media_type: Option<String> = match cell::opt_text_at(row, 6, "media_type") {
        Ok(t) => t,
        Err(e) => {
            return Err(e);
        },
    };
    let created_text: String = match cell::text_at(row, 7, "created") {
        Ok(t) => t,
        Err(e) => {
            return Err(e);
        },
    };
    let created: Moment = match mapping::parse_utc(created_text.as_str()) {
        Ok(m) => m,
        Err(e) => {
            return Err(e);
        },
    };
    let modified: Option<Moment> = match date_at(row, 8, "modified") {
        Ok(m) => m,
        Err(e) => {
            return Err(e);
        },
    };
    let is_subscribed: i64 = match cell::int_at(row, 9, "is_subscribed") {
        Ok(n) => n,
        Err(e) => {
            return Err(e);
        },
    };
    let role: Option<String> = match cell::opt_text_at(row, 10, "role") {
        Ok(t) => t,
        Err(e) => {
            return Err(e);
        },
    };
    Ok(
        FileNodeRow {
            wire: FileNode {
                id: None,
                parent_id,
                node_type,
                target,
                name,
                media_type,
                created,
                modified,
                is_subscribed: is_subscribed != 0,
                role,
            },
            blob_local_id,
        },
    )
}

/// A stored file node reads back, with the parent that the target has for its
/// own. Its moments do where the columns hold them as they were written.
pub proof fn stored_file_nodes_read_back<R: LocalResolver, T: TargetResolver>(
    wire: FileNode,
    blob_local_id: Option<i64>,
    id: i64,
    resolver: &R,
    targets: &T,
    columns: Seq<CellVal>,
    n: FileNodeRow,
)
    requires
        node_cells(wire, blob_local_id, resolver) == Ok::<Seq<CellVal>, Fault>(columns),
        is_node_of(n, cell::stored(id, columns), targets),
        mapping::column_date(cell::text_of(columns[6])->0) == Ok::<Moment, Fault>(wire.created),
        column_opt_date(columns[7]) == Ok::<Option<Moment>, Fault>(wire.modified),
    ensures
        n.wire.node_type == wire.node_type,
        n.blob_local_id == blob_local_id,
        n.wire.name@ == wire.name@,
        json::text_view(n.wire.media_type) == json::text_view(wire.media_type),
        n.wire.is_subscribed == wire.is_subscribed,
        json::text_view(n.wire.role) == json::text_view(wire.role),
        path_view(n.wire.target) == path_view(wire.target),
        n.wire.created == wire.created,
        n.wire.modified == wire.modified,
        mapping::id_view(n.wire.parent_id) == (match mapping::parent_local(
            mapping::id_view(wire.parent_id),
            ObjectType::FileNode,
            resolver,
        ) {
            Some(p) => targets.target_of(ObjectType::FileNode, p),
            None => None,
        }),
{
    node_names_read_back(wire.node_type);
    let row = cell::stored(id, columns);
    assert(cell::cell(row, 4) == columns[3]);
    assert(cell::cell(row, 7) == columns[6]);
    assert(cell::cell(row, 8) == columns[7]);
}

} // verus!
