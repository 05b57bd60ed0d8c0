//! A kanban-style hierarchy: a board owns an ordered chain of columns, each
//! column an ordered chain of tasks, and each task an ordered chain of
//! subtasks, nested arbitrarily deep.  Nodes are addressed by opaque
//! identifiers; commands create, rename, delete (cascading to descendants),
//! and relocate columns and tasks while preserving the structural invariants.

pub mod arena;
pub mod dispatch;
pub mod id;
pub mod laws;
pub mod locate;
pub mod mutate;
pub mod store;
pub mod view;
