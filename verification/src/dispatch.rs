//! Action dispatcher: translates the nine commands into locator and mutator
//! calls.  Each call is one atomic command against the current tree; a
//! command naming an identifier absent from the tree is rejected with
//! `NotFound` and leaves the tree exactly as it was.
//!
//! A move resolves its destination against the tree as it stands after the
//! detach of the moved node, never before.  In particular a move whose
//! destination lies inside the moved subtree (or is the moved node itself)
//! finds no destination there and is rejected with `NotFound`, the tree
//! unchanged.

use vstd::prelude::*;
use crate::id::{Id, IdGen};
use crate::locate::{
    column_exists, probe_columns_after_col_remove, probe_columns_after_task_remove, task_exists,
};
use crate::mutate::{
    add_column_after, add_task_after_in_columns, add_task_first_to_column,
    add_task_first_to_task_in_columns, add_task_last_to_column, add_task_last_to_task_in_columns,
    edit_column_in_chain, edit_task_in_columns, remove_column_from_chain, remove_task_in_columns,
};
use crate::store::{Board, Column, Task, task_forest};
use crate::view::{
    BoardView, ColumnView, TaskView, cols_add_task_first, cols_add_task_last, cols_contain,
    cols_edit, cols_insert_after, cols_remove, cols_task_contains, cols_task_edit,
    cols_task_insert_after, cols_task_insert_first, cols_task_insert_last, cols_task_remove,
    lemma_cols_ops_some, lemma_cols_task_ops_some, lemma_cols_task_remove_keeps_cols,
};

verus! {

/// Where a moved or added task is spliced in.
pub enum TaskPosition {
    FirstChildOf(Id),
    After(Id),
}

/// Where a moved column is spliced in.
pub enum ColumnPosition {
    FirstChild,
    After(Id),
}

/// The nine commands of the dispatcher.
pub enum Action {
    AddColumn { title: String },
    AddTask { dest: Id, content: String },
    DeleteColumn { dest: Id },
    DeleteTask { dest: Id },
    MoveTask { src: Id, dest: TaskPosition },
    MoveColumn { src: Id, dest: ColumnPosition },
    EditTask { dest: Id, content: String },
    EditColumn { dest: Id, title: String },
    EditBoard { title: String },
}

/// A command as a model value: texts as character sequences.
pub enum ActionV {
    AddColumn { title: Seq<char> },
    AddTask { dest: Id, content: Seq<char> },
    DeleteColumn { dest: Id },
    DeleteTask { dest: Id },
    MoveTask { src: Id, dest: TaskPosition },
    MoveColumn { src: Id, dest: ColumnPosition },
    EditTask { dest: Id, content: Seq<char> },
    EditColumn { dest: Id, title: Seq<char> },
    EditBoard { title: Seq<char> },
}

impl View for Action {
    type V = ActionV;

    open spec fn view(&self) -> ActionV {
        match self {
            Action::AddColumn { title } => ActionV::AddColumn { title: title@ },
            Action::AddTask { dest, content } => ActionV::AddTask {
                dest: *dest,
                content: content@,
            },
            Action::DeleteColumn { dest } => ActionV::DeleteColumn { dest: *dest },
            Action::DeleteTask { dest } => ActionV::DeleteTask { dest: *dest },
            Action::MoveTask { src, dest } => ActionV::MoveTask { src: *src, dest: *dest },
            Action::MoveColumn { src, dest } => ActionV::MoveColumn { src: *src, dest: *dest },
            Action::EditTask { dest, content } => ActionV::EditTask {
                dest: *dest,
                content: content@,
            },
            Action::EditColumn { dest, title } => ActionV::EditColumn {
                dest: *dest,
                title: title@,
            },
            Action::EditBoard { title } => ActionV::EditBoard { title: title@ },
        }
    }
}

/// A command that creates a node draws one fresh identifier.
pub open spec fn creates_node(a: ActionV) -> bool {
    a is AddColumn || a is AddTask
}

/// The rejection of a command: the named identifier is absent from the tree
/// (for a move: absent from the tree as it stands after the detach).
#[derive(Debug, PartialEq, Eq, Structural, Clone, Copy)]
pub enum ActionError {
    NotFound,
}

/// What one command does to the board, as a function on models.  `fresh` is
/// the identifier the identity service would hand out next; `None` is the
/// rejected command, which changes nothing.
pub open spec fn step(b: BoardView, fresh: Id, a: ActionV) -> Option<BoardView> {
    match a {
        ActionV::AddColumn { title } => Some(
            BoardView {
                columns: b.columns.push(ColumnView { id: fresh, title, tasks: Seq::empty() }),
                ..b
            },
        ),
        ActionV::AddTask { dest, content } => {
            let t = TaskView { id: fresh, content, subtasks: Seq::empty() };
            if cols_contain(b.columns, dest) {
                match cols_add_task_last(b.columns, dest, t) {
                    Some(cs) => Some(BoardView { columns: cs, ..b }),
                    None => None,
                }
            } else {
                match cols_task_insert_last(b.columns, dest, t) {
                    Some(cs) => Some(BoardView { columns: cs, ..b }),
                    None => None,
                }
            }
        },
        ActionV::DeleteColumn { dest } => match cols_remove(b.columns, dest) {
            Some((c, cs)) => Some(BoardView { columns: cs, ..b }),
            None => None,
        },
        ActionV::DeleteTask { dest } => match cols_task_remove(b.columns, dest) {
            Some((t, cs)) => Some(BoardView { columns: cs, ..b }),
            None => None,
        },
        ActionV::MoveTask { src, dest } => match cols_task_remove(b.columns, src) {
            None => None,
            Some((t, cs)) => match dest {
                TaskPosition::FirstChildOf(id) => if cols_contain(cs, id) {
                    match cols_add_task_first(cs, id, t) {
                        Some(cs2) => Some(BoardView { columns: cs2, ..b }),
                        None => None,
                    }
                } else {
                    match cols_task_insert_first(cs, id, t) {
                        Some(cs2) => Some(BoardView { columns: cs2, ..b }),
                        None => None,
                    }
                },
                TaskPosition::After(id) => match cols_task_insert_after(cs, id, t) {
                    Some(cs2) => Some(BoardView { columns: cs2, ..b }),
                    None => None,
                },
            },
        },
        ActionV::MoveColumn { src, dest } => match cols_remove(b.columns, src) {
            None => None,
            Some((c, cs)) => match dest {
                ColumnPosition::FirstChild => Some(BoardView { columns: cs.insert(0, c), ..b }),
                ColumnPosition::After(id) => match cols_insert_after(cs, id, c) {
                    Some(cs2) => Some(BoardView { columns: cs2, ..b }),
                    None => None,
                },
            },
        },
        ActionV::EditTask { dest, content } => match cols_task_edit(b.columns, dest, content) {
            Some(cs) => Some(BoardView { columns: cs, ..b }),
            None => None,
        },
        ActionV::EditColumn { dest, title } => match cols_edit(b.columns, dest, title) {
            Some(cs) => Some(BoardView { columns: cs, ..b }),
            None => None,
        },
        ActionV::EditBoard { title } => Some(BoardView { title, ..b }),
    }
}

impl Board {
    /// Apply one command.  On success the new board is exactly `step` of the
    /// old one; on `NotFound` the board is unchanged, and no identifier has
    /// been drawn.
    pub fn feed_action(&mut self, id_gen: &mut IdGen, action: Action) -> (r: Result<
        (),
        ActionError,
    >)
        requires
            creates_node(action@) ==> old(id_gen).0 < usize::MAX,
        ensures
            ({
                let fresh = Id { value: old(id_gen).0 };
                match r {
                    Ok(_) => {
                        &&& step(old(self)@, fresh, action@) == Some(final(self)@)
                        &&& (creates_node(action@) ==> final(id_gen).0 == old(id_gen).0 + 1)
                        &&& (!creates_node(action@) ==> final(id_gen).0 == old(id_gen).0)
                    },
                    Err(e) => {
                        &&& e is NotFound
                        &&& step(old(self)@, fresh, action@) is None
                        &&& final(self)@ == old(self)@
                        &&& final(id_gen).0 == old(id_gen).0
                    },
                }
            }),
    {
        let ghost b0 = self@;
        match action {
            Action::AddColumn { title } => {
                let ghost tv = title@;
                let column = Column { id: id_gen.gen(), title, child: None, after: None };
                let ghost cv = column.node_view();
                Self::add_column_to_board_last_child(self, column);
                proof {
                    assert(task_forest(None::<Box<Task>>) == Seq::<TaskView>::empty());
                    assert(cv =~= (ColumnView {
                        id: Id { value: old(id_gen).0 },
                        title: tv,
                        tasks: Seq::empty(),
                    }));
                }
                Ok(())
            },
            Action::AddTask { dest, content } => {
                let in_col = column_exists(&self.child, dest);
                let in_task = if in_col {
                    false
                } else {
                    task_exists(&self.child, dest)
                };
                let ghost t_spec = TaskView {
                    id: Id { value: old(id_gen).0 },
                    content: content@,
                    subtasks: Seq::empty(),
                };
                if !in_col && !in_task {
                    proof {
                        lemma_cols_ops_some(b0.columns, dest, t_spec, arbitrary(), arbitrary());
                        lemma_cols_task_ops_some(b0.columns, dest, t_spec, arbitrary());
                    }
                    return Err(ActionError::NotFound);
                }
                let task = Task { id: id_gen.gen(), content, after: None, child: None };
                proof {
                    assert(task_forest(None::<Box<Task>>) == Seq::<TaskView>::empty());
                    assert(task.node_view() =~= t_spec);
                }
                if in_col {
                    match add_task_last_to_column(&mut self.child, dest, task) {
                        None => Ok(()),
                        Some(_) => {
                            proof {
                                lemma_cols_ops_some(
                                    b0.columns,
                                    dest,
                                    t_spec,
                                    arbitrary(),
                                    arbitrary(),
                                );
                            }
                            vstd::pervasive::unreached()
                        },
                    }
                } else {
                    match add_task_last_to_task_in_columns(&mut self.child, dest, task) {
                        None => Ok(()),
                        Some(_) => {
                            proof {
                                lemma_cols_task_ops_some(b0.columns, dest, t_spec, arbitrary());
                            }
                            vstd::pervasive::unreached()
                        },
                    }
                }
            },
            Action::DeleteColumn { dest } => {
                match remove_column_from_chain(&mut self.child, dest) {
                    Some(_) => Ok(()),
                    None => Err(ActionError::NotFound),
                }
            },
            Action::DeleteTask { dest } => {
                match remove_task_in_columns(&mut self.child, dest) {
                    Some(_) => Ok(()),
                    None => Err(ActionError::NotFound),
                }
            },
            Action::MoveTask { src, dest } => {
                match dest {
                    TaskPosition::FirstChildOf(id) => {
                        let probed = probe_columns_after_task_remove(&self.child, src, id);
                        let dest_col = column_exists(&self.child, id);
                        proof {
                            if probed.0 {
                                lemma_cols_task_remove_keeps_cols(b0.columns, src, id);
                            }
                        }
                        if !probed.0 || (!dest_col && !probed.1) {
                            proof {
                                if probed.0 {
                                    let (t, cs) = cols_task_remove(b0.columns, src).unwrap();
                                    lemma_cols_ops_some(cs, id, t, arbitrary(), arbitrary());
                                    lemma_cols_task_ops_some(cs, id, t, arbitrary());
                                }
                            }
                            return Err(ActionError::NotFound);
                        }
                        let task = match remove_task_in_columns(&mut self.child, src) {
                            Some(t) => t,
                            None => vstd::pervasive::unreached(),
                        };
                        if dest_col {
                            match add_task_first_to_column(&mut self.child, id, task) {
                                None => Ok(()),
                                Some(_) => {
                                    proof {
                                        let (t, cs) = cols_task_remove(b0.columns, src).unwrap();
                                        lemma_cols_ops_some(cs, id, t, arbitrary(), arbitrary());
                                    }
                                    vstd::pervasive::unreached()
                                },
                            }
                        } else {
                            match add_task_first_to_task_in_columns(&mut self.child, id, task) {
                                None => Ok(()),
                                Some(_) => {
                                    proof {
                                        let (t, cs) = cols_task_remove(b0.columns, src).unwrap();
                                        lemma_cols_task_ops_some(cs, id, t, arbitrary());
                                    }
                                    vstd::pervasive::unreached()
                                },
                            }
                        }
                    },
                    TaskPosition::After(id) => {
                        let probed = probe_columns_after_task_remove(&self.child, src, id);
                        if !probed.0 || !probed.1 {
                            proof {
                                if probed.0 {
                                    let (t, cs) = cols_task_remove(b0.columns, src).unwrap();
                                    lemma_cols_task_ops_some(cs, id, t, arbitrary());
                                }
                            }
                            return Err(ActionError::NotFound);
                        }
                        let task = match remove_task_in_columns(&mut self.child, src) {
                            Some(t) => t,
                            None => vstd::pervasive::unreached(),
                        };
                        match add_task_after_in_columns(&mut self.child, id, task) {
                            None => Ok(()),
                            Some(_) => {
                                proof {
                                    let (t, cs) = cols_task_remove(b0.columns, src).unwrap();
                                    lemma_cols_task_ops_some(cs, id, t, arbitrary());
                                }
                                vstd::pervasive::unreached()
                            },
                        }
                    },
                }
            },
            Action::MoveColumn { src, dest } => {
                match dest {
                    ColumnPosition::FirstChild => {
                        match remove_column_from_chain(&mut self.child, src) {
                            None => Err(ActionError::NotFound),
                            Some(col) => {
                                Self::add_column_to_board_first_child(self, col);
                                Ok(())
                            },
                        }
                    },
                    ColumnPosition::After(id) => {
                        let probed = probe_columns_after_col_remove(&self.child, src, id);
                        if !probed.0 || !probed.1 {
                            proof {
                                if probed.0 {
                                    let (c, cs) = cols_remove(b0.columns, src).unwrap();
                                    lemma_cols_ops_some(cs, id, arbitrary(), c, arbitrary());
                                }
                            }
                            return Err(ActionError::NotFound);
                        }
                        let col = match remove_column_from_chain(&mut self.child, src) {
                            Some(c) => c,
                            None => vstd::pervasive::unreached(),
                        };
                        match add_column_after(&mut self.child, id, col) {
                            None => Ok(()),
                            Some(_) => {
                                proof {
                                    let (c, cs) = cols_remove(b0.columns, src).unwrap();
                                    lemma_cols_ops_some(cs, id, arbitrary(), c, arbitrary());
                                }
                                vstd::pervasive::unreached()
                            },
                        }
                    },
                }
            },
            Action::EditTask { dest, content } => {
                match edit_task_in_columns(&mut self.child, dest, content) {
                    None => Ok(()),
                    Some(_) => Err(ActionError::NotFound),
                }
            },
            Action::EditColumn { dest, title } => {
                match edit_column_in_chain(&mut self.child, dest, title) {
                    None => Ok(()),
                    Some(_) => Err(ActionError::NotFound),
                }
            },
            Action::EditBoard { title } => {
                self.title = title;
                Ok(())
            },
        }
    }
}

} // verus!
