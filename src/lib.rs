//! Process inspection and control engine: snapshots of processes, name and
//! owner queries, stable sorting, parent/child forests, resource alerts,
//! control actions and their audit history.

pub mod record;
pub mod sort;
pub mod query;
pub mod tree;
pub mod alert;
pub mod history;
pub mod manager;
pub mod text;
