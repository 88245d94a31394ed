//! The rules that the archive's tables keep.

pub mod cell;
pub mod defaults;
pub mod exchange_graph_ids;
pub mod init;
pub mod roles;
