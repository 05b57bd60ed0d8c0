//! Node store: the entity definitions.  A board owns a chain of columns
//! through `child`; every column and task is a member of two chains at once,
//! a sibling chain through `after` and a child chain through `child`, so the
//! whole forest hangs off one owning reference per level.

use vstd::prelude::*;
use crate::id::Id;
use crate::view::{BoardView, ColumnView, TaskView};

verus! {

/// A work item; may own an ordered chain of subtasks.
#[derive(Debug)]
pub struct Task {
    pub id: Id,
    pub content: String,
    pub after: Option<Box<Task>>,
    pub child: Option<Box<Task>>,
}

/// An ordered container of tasks within a board.
#[derive(Debug)]
pub struct Column {
    pub id: Id,
    pub title: String,
    pub child: Option<Box<Task>>,
    pub after: Option<Box<Column>>,
}

/// The root entity, owning the ordered chain of columns.
#[derive(Debug)]
pub struct Board {
    pub id: Id,
    pub title: String,
    pub child: Option<Box<Column>>,
}

/// The forest hanging off an owning task slot: the slot's occupant together
/// with its whole sibling chain, each as a node view.
pub open spec fn task_forest(p: Option<Box<Task>>) -> Seq<TaskView>
    decreases p,
{
    match p {
        None => Seq::empty(),
        Some(t) => task_forest(t.after).insert(0, t.node_view()),
    }
}

impl Task {
    /// The node view of one task: its own fields and subtask forest,
    /// independent of whatever its sibling chain holds.
    pub open spec fn node_view(self) -> TaskView
        decreases self,
    {
        TaskView { id: self.id, content: self.content@, subtasks: task_forest(self.child) }
    }

    /// The task itself and the siblings after it, as a forest.
    pub open spec fn chain_view(self) -> Seq<TaskView> {
        task_forest(self.after).insert(0, self.node_view())
    }
}

/// The column chain hanging off an owning column slot.
pub open spec fn column_forest(p: Option<Box<Column>>) -> Seq<ColumnView>
    decreases p,
{
    match p {
        None => Seq::empty(),
        Some(c) => column_forest(c.after).insert(0, c.node_view()),
    }
}

impl Column {
    /// The node view of one column, independent of its sibling chain.
    pub open spec fn node_view(self) -> ColumnView
        decreases self,
    {
        ColumnView { id: self.id, title: self.title@, tasks: task_forest(self.child) }
    }

    /// The column itself and the columns after it.
    pub open spec fn chain_view(self) -> Seq<ColumnView> {
        column_forest(self.after).insert(0, self.node_view())
    }
}

impl View for Board {
    type V = BoardView;

    open spec fn view(&self) -> BoardView {
        BoardView { id: self.id, title: self.title@, columns: column_forest(self.child) }
    }
}

impl Board {
    /// A new board with the given identity and title and no columns.
    pub fn new(id: Id, title: String) -> (r: Self)
        ensures
            r@ == (BoardView { id, title: title@, columns: Seq::empty() }),
    {
        Self { id, title, child: None }
    }
}

} // verus!
