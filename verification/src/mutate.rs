//! Mutator: the splice primitives, the only functions that touch ownership
//! edges.  Each searches depth-first, children before siblings, exactly as
//! the locator does, and either performs its splice at the first match or
//! puts every owning slot back as it was, so a failed probe leaks no partial
//! mutation.

use vstd::prelude::*;
use crate::id::Id;
use crate::store::{Board, Column, Task, column_forest, task_forest};
use crate::view::{TaskView, ColumnView, forest_remove, lemma_cons};
use crate::view::{
    cols_add_task_first, cols_add_task_last, cols_contain, cols_edit, cols_insert_after,
    cols_remove, cols_task_contains, cols_task_edit, cols_task_insert_after,
    cols_task_insert_first, cols_task_insert_last, cols_task_remove, forest_edit,
    forest_insert_after, forest_insert_first, forest_insert_last,
    lemma_cols_remove_some, lemma_cols_task_ops_some,
};

verus! {

broadcast use lemma_cons;

/// Append `task` (a detached node) at the end of the sibling chain rooted at
/// `slot`.
pub fn push_task_last(slot: &mut Option<Box<Task>>, task: Task)
    requires
        task.after is None,
    ensures
        task_forest(*final(slot)) == task_forest(*old(slot)).push(task.node_view()),
    decreases *old(slot),
{
    match slot.take() {
        None => {
            let ghost tv = task.node_view();
            *slot = Some(Box::new(task));
            proof {
                assert(task_forest(*slot) == Seq::<TaskView>::empty().insert(0, tv));
                assert(Seq::<TaskView>::empty().insert(0, tv) =~= Seq::<TaskView>::empty().push(
                    tv,
                ));
            }
        },
        Some(mut head) => {
            let ghost ts = task_forest(*old(slot));
            proof {
                assert(ts[0] == (*old(slot)).unwrap().node_view());
                assert(ts.drop_first() == task_forest((*old(slot)).unwrap().after));
            }
            push_task_last(&mut head.after, task);
            proof {
                assert(head.node_view() =~= ts[0]);
                assert(task_forest(Some(head)) == task_forest(head.after).insert(0, ts[0]));
                assert(ts.drop_first().push(task.node_view()).insert(0, ts[0]) =~= ts.push(
                    task.node_view(),
                ));
            }
            *slot = Some(head);
        },
    }
}

/// Append `column` (a detached node) at the end of the column chain rooted
/// at `slot`.
pub fn push_column_last(slot: &mut Option<Box<Column>>, column: Column)
    requires
        column.after is None,
    ensures
        column_forest(*final(slot)) == column_forest(*old(slot)).push(column.node_view()),
    decreases *old(slot),
{
    match slot.take() {
        None => {
            let ghost cv = column.node_view();
            *slot = Some(Box::new(column));
            proof {
                assert((*slot).unwrap().node_view() =~= cv);
                assert((*slot).unwrap().after is None);
                assert(column_forest((*slot).unwrap().after) == Seq::<ColumnView>::empty());
                assert(column_forest(*slot) == Seq::<ColumnView>::empty().insert(0, cv));
                assert(Seq::<ColumnView>::empty().insert(0, cv)
                    =~= Seq::<ColumnView>::empty().push(cv));
            }
        },
        Some(mut head) => {
            let ghost cs = column_forest(*old(slot));
            proof {
                assert(cs[0] == (*old(slot)).unwrap().node_view());
                assert(cs.drop_first() == column_forest((*old(slot)).unwrap().after));
            }
            push_column_last(&mut head.after, column);
            proof {
                assert(head.node_view() =~= cs[0]);
                assert(column_forest(Some(head)) == column_forest(head.after).insert(0, cs[0]));
                assert(cs.drop_first().push(column.node_view()).insert(0, cs[0]) =~= cs.push(
                    column.node_view(),
                ));
            }
            *slot = Some(head);
        },
    }
}

impl Board {
    /// Splice `column` in as the next sibling of `dest`, between `dest` and
    /// whatever followed it.
    pub fn add_column_after_column(dest: &mut Column, mut column: Column)
        requires
            column.after is None,
        ensures
            final(dest).id == old(dest).id,
            final(dest).title == old(dest).title,
            final(dest).child == old(dest).child,
            final(dest).node_view() == old(dest).node_view(),
            column_forest(final(dest).after) == column_forest(old(dest).after).insert(
                0,
                column.node_view(),
            ),
    {
        let ghost after0 = old(dest).after;
        let ghost cv = column.node_view();
        match dest.after.take() {
            Some(after) => {
                column.after = Some(after);
            },
            None => {},
        }
        dest.after = Some(Box::new(column));
        proof {
            assert(dest.after.unwrap().node_view() =~= cv);
            assert(column_forest(dest.after) == column_forest(after0).insert(0, cv));
        }
    }

    /// Splice `task` in as the next sibling of `dest`.
    pub fn add_task_after_task(dest: &mut Task, mut task: Task)
        requires
            task.after is None,
        ensures
            final(dest).id == old(dest).id,
            final(dest).content == old(dest).content,
            final(dest).child == old(dest).child,
            final(dest).node_view() == old(dest).node_view(),
            task_forest(final(dest).after) == task_forest(old(dest).after).insert(
                0,
                task.node_view(),
            ),
    {
        let ghost after0 = old(dest).after;
        let ghost tv = task.node_view();
        match dest.after.take() {
            Some(after) => {
                task.after = Some(after);
            },
            None => {},
        }
        dest.after = Some(Box::new(task));
        proof {
            assert(dest.after.unwrap().node_view() =~= tv);
            assert(task_forest(dest.after) == task_forest(after0).insert(0, tv));
        }
    }

    /// Append `task` as the last task of column `dest`.
    pub fn add_task_to_column_last_child(dest: &mut Column, task: Task)
        requires
            task.after is None,
        ensures
            final(dest).id == old(dest).id,
            final(dest).title == old(dest).title,
            final(dest).after == old(dest).after,
            task_forest(final(dest).child) == task_forest(old(dest).child).push(task.node_view()),
    {
        push_task_last(&mut dest.child, task);
    }

    /// Make `task` the first task of column `dest`; the former first task
    /// becomes its next sibling.
    pub fn add_task_to_column_first_child(dest: &mut Column, mut task: Task)
        requires
            task.after is None,
        ensures
            final(dest).id == old(dest).id,
            final(dest).title == old(dest).title,
            final(dest).after == old(dest).after,
            task_forest(final(dest).child) == task_forest(old(dest).child).insert(
                0,
                task.node_view(),
            ),
    {
        let ghost child0 = old(dest).child;
        let ghost tv = task.node_view();
        match dest.child.take() {
            Some(child) => {
                task.after = Some(child);
            },
            None => {},
        }
        dest.child = Some(Box::new(task));
        proof {
            assert(dest.child.unwrap().node_view() =~= tv);
            assert(task_forest(dest.child) == task_forest(child0).insert(0, tv));
        }
    }

    /// Make `task` the first subtask of task `dest`.
    pub fn add_task_to_task_first_child(dest: &mut Task, mut task: Task)
        requires
            task.after is None,
        ensures
            final(dest).id == old(dest).id,
            final(dest).content == old(dest).content,
            final(dest).after == old(dest).after,
            task_forest(final(dest).child) == task_forest(old(dest).child).insert(
                0,
                task.node_view(),
            ),
    {
        let ghost child0 = old(dest).child;
        let ghost tv = task.node_view();
        match dest.child.take() {
            Some(child) => {
                task.after = Some(child);
            },
            None => {},
        }
        dest.child = Some(Box::new(task));
        proof {
            assert(dest.child.unwrap().node_view() =~= tv);
            assert(task_forest(dest.child) == task_forest(child0).insert(0, tv));
        }
    }

    /// Append `task` as the last subtask of task `dest`.
    pub fn add_task_to_task_last_child(dest: &mut Task, task: Task)
        requires
            task.after is None,
        ensures
            final(dest).id == old(dest).id,
            final(dest).content == old(dest).content,
            final(dest).after == old(dest).after,
            task_forest(final(dest).child) == task_forest(old(dest).child).push(task.node_view()),
    {
        push_task_last(&mut dest.child, task);
    }

    /// Make `column` the board's first column; the former first column
    /// becomes its next sibling.
    pub fn add_column_to_board_first_child(dest: &mut Self, mut column: Column)
        requires
            column.after is None,
        ensures
            final(dest)@.id == old(dest)@.id,
            final(dest)@.title == old(dest)@.title,
            final(dest)@.columns == old(dest)@.columns.insert(0, column.node_view()),
    {
        let ghost child0 = old(dest).child;
        let ghost cv = column.node_view();
        match dest.child.take() {
            Some(child) => {
                column.after = Some(child);
            },
            None => {},
        }
        dest.child = Some(Box::new(column));
        proof {
            assert(dest.child.unwrap().node_view() =~= cv);
            assert(column_forest(dest.child) == column_forest(child0).insert(0, cv));
        }
    }

    /// Append `column` as the board's last column.
    pub fn add_column_to_board_last_child(dest: &mut Self, column: Column)
        requires
            column.after is None,
        ensures
            final(dest)@.id == old(dest)@.id,
            final(dest)@.title == old(dest)@.title,
            final(dest)@.columns == old(dest)@.columns.push(column.node_view()),
    {
        push_column_last(&mut dest.child, column);
    }
    /// Detach the first task carrying `target` from the chain rooted at
    /// `position`, returning it with its subtree still attached; on a miss
    /// the chain is exactly as it was.
    pub fn remove_task_from_task(position: &mut Option<Box<Task>>, target: Id) -> (r: Option<Task>)
        ensures
            match r {
                None => {
                    &&& task_forest(*final(position)) == task_forest(*old(position))
                    &&& forest_remove(task_forest(*old(position)), target) is None
                },
                Some(t) => {
                    &&& t.after is None
                    &&& forest_remove(task_forest(*old(position)), target) == Some(
                        (t.node_view(), task_forest(*final(position))),
                    )
                },
            },
        decreases *old(position),
    {
        match position.take() {
            None => None,
            Some(mut task) => {
                let ghost ts = task_forest(*old(position));
                proof {
                    assert(ts[0] == (*old(position)).unwrap().node_view());
                    assert(ts.drop_first() == task_forest((*old(position)).unwrap().after));
                }
                if task.id == target {
                    *position = task.after.take();
                    let removed = *task;
                    proof {
                        assert(removed.node_view() =~= ts[0]);
                        assert(forest_remove(ts, target) == Some((ts[0], ts.drop_first())));
                    }
                    Some(removed)
                } else {
                    let found_child = Self::remove_task_from_task(&mut task.child, target);
                    match found_child {
                        Some(child) => {
                            proof {
                                assert(TaskView {
                                    subtasks: task_forest(task.child),
                                    ..ts[0]
                                } =~= task.node_view());
                                assert(forest_remove(ts, target) == Some(
                                    (
                                        child.node_view(),
                                        ts.drop_first().insert(0, task.node_view()),
                                    ),
                                ));
                                assert(task_forest(Some(task)) == ts.drop_first().insert(
                                    0,
                                    task.node_view(),
                                ));
                            }
                            *position = Some(task);
                            Some(child)
                        },
                        None => {
                            let found_after = Self::remove_task_from_task(&mut task.after, target);
                            proof {
                                assert(task.node_view() =~= ts[0]);
                                if found_after is None {
                                    assert(task_forest(Some(task)) == task_forest(*old(position)));
                                    assert(forest_remove(ts, target) is None);
                                } else {
                                    let t = found_after.unwrap();
                                    assert(forest_remove(ts, target) == Some(
                                        (t.node_view(), task_forest(task.after).insert(0, ts[0])),
                                    ));
                                    assert(task_forest(Some(task)) == task_forest(task.after).insert(
                                        0,
                                        ts[0],
                                    ));
                                }
                            }
                            *position = Some(task);
                            found_after
                        },
                    }
                }
            },
        }
    }
}

/// Splice `column` in as the next sibling of the column carrying `dest`;
/// on a miss the chain is untouched and `column` is handed back.
pub fn add_column_after(chain: &mut Option<Box<Column>>, dest: Id, column: Column) -> (r: Option<
    Column,
>)
    requires
        column.after is None,
    ensures
        match r {
            None => Some(column_forest(*final(chain))) == cols_insert_after(
                column_forest(*old(chain)),
                dest,
                column.node_view(),
            ),
            Some(c) => {
                &&& c == column
                &&& column_forest(*final(chain)) == column_forest(*old(chain))
                &&& cols_insert_after(column_forest(*old(chain)), dest, column.node_view())
                    is None
            },
        },
    decreases *old(chain),
{
    let ghost cv = column.node_view();
    match chain.take() {
        None => Some(column),
        Some(mut col) => {
            let ghost cs = column_forest(*old(chain));
            proof {
                assert(cs[0] == (*old(chain)).unwrap().node_view());
                assert(cs.drop_first() == column_forest((*old(chain)).unwrap().after));
            }
            if col.id == dest {
                Board::add_column_after_column(&mut col, column);
                proof {
                    assert(col.node_view() =~= cs[0]);
                    assert(column_forest(Some(col)) == cs.drop_first().insert(0, cv).insert(
                        0,
                        cs[0],
                    ));
                }
                *chain = Some(col);
                None
            } else {
                let r = add_column_after(&mut col.after, dest, column);
                proof {
                    assert(col.node_view() =~= cs[0]);
                    assert(column_forest(Some(col)) == column_forest(col.after).insert(0, cs[0]));
                }
                *chain = Some(col);
                r
            }
        },
    }
}

/// Replace the title of the column carrying `dest`; on a miss the chain is
/// untouched and the title is handed back.
pub fn edit_column_in_chain(chain: &mut Option<Box<Column>>, dest: Id, title: String) -> (r:
    Option<String>)
    ensures
        match r {
            None => Some(column_forest(*final(chain))) == cols_edit(
                column_forest(*old(chain)),
                dest,
                title@,
            ),
            Some(s) => {
                &&& s == title
                &&& column_forest(*final(chain)) == column_forest(*old(chain))
                &&& cols_edit(column_forest(*old(chain)), dest, title@) is None
            },
        },
    decreases *old(chain),
{
    match chain.take() {
        None => Some(title),
        Some(mut col) => {
            let ghost cs = column_forest(*old(chain));
            proof {
                assert(cs[0] == (*old(chain)).unwrap().node_view());
                assert(cs.drop_first() == column_forest((*old(chain)).unwrap().after));
            }
            if col.id == dest {
                col.title = title;
                proof {
                    assert(col.node_view() =~= (ColumnView { title: title@, ..cs[0] }));
                    assert(column_forest(Some(col)) == cs.drop_first().insert(
                        0,
                        (ColumnView { title: title@, ..cs[0] }),
                    ));
                }
                *chain = Some(col);
                None
            } else {
                let r = edit_column_in_chain(&mut col.after, dest, title);
                proof {
                    assert(col.node_view() =~= cs[0]);
                    assert(column_forest(Some(col)) == column_forest(col.after).insert(0, cs[0]));
                }
                *chain = Some(col);
                r
            }
        },
    }
}

/// Detach the column carrying `target`, returning it with its tasks; on a
/// miss the chain is untouched.
pub fn remove_column_from_chain(chain: &mut Option<Box<Column>>, target: Id) -> (r: Option<Column>)
    ensures
        match r {
            None => {
                &&& column_forest(*final(chain)) == column_forest(*old(chain))
                &&& cols_remove(column_forest(*old(chain)), target) is None
            },
            Some(c) => {
                &&& c.after is None
                &&& cols_remove(column_forest(*old(chain)), target) == Some(
                    (c.node_view(), column_forest(*final(chain))),
                )
            },
        },
    decreases *old(chain),
{
    match chain.take() {
        None => None,
        Some(mut col) => {
            let ghost cs = column_forest(*old(chain));
            proof {
                assert(cs[0] == (*old(chain)).unwrap().node_view());
                assert(cs.drop_first() == column_forest((*old(chain)).unwrap().after));
            }
            if col.id == target {
                *chain = col.after.take();
                let removed = *col;
                proof {
                    assert(removed.node_view() =~= cs[0]);
                }
                Some(removed)
            } else {
                let r = remove_column_from_chain(&mut col.after, target);
                proof {
                    assert(col.node_view() =~= cs[0]);
                    assert(column_forest(Some(col)) == column_forest(col.after).insert(0, cs[0]));
                }
                *chain = Some(col);
                r
            }
        },
    }
}

/// Append `task` as the last subtask of the first task carrying `dest`
/// (depth-first order); on a miss the forest is untouched and `task` is
/// handed back.
pub fn add_task_last_to_task(slot: &mut Option<Box<Task>>, dest: Id, task: Task) -> (r: Option<
    Task,
>)
    requires
        task.after is None,
    ensures
        match r {
            None => Some(task_forest(*final(slot))) == forest_insert_last(
                task_forest(*old(slot)),
                dest,
                task.node_view(),
            ),
            Some(t) => {
                &&& t == task
                &&& task_forest(*final(slot)) == task_forest(*old(slot))
                &&& forest_insert_last(task_forest(*old(slot)), dest, task.node_view()) is None
            },
        },
    decreases *old(slot),
{
    let ghost tv = task.node_view();
    match slot.take() {
        None => Some(task),
        Some(mut node) => {
            let ghost ts = task_forest(*old(slot));
            proof {
                assert(ts[0] == (*old(slot)).unwrap().node_view());
                assert(ts.drop_first() == task_forest((*old(slot)).unwrap().after));
            }
            if node.id == dest {
                Board::add_task_to_task_last_child(&mut *node, task);
                proof {
                    assert(node.node_view() =~= (TaskView {
                        subtasks: ts[0].subtasks.push(tv),
                        ..ts[0]
                    }));
                    assert(task_forest(Some(node)) == ts.drop_first().insert(0, node.node_view()));
                }
                *slot = Some(node);
                None
            } else {
                let found_child = add_task_last_to_task(&mut node.child, dest, task);
                match found_child {
                    None => {
                        proof {
                            assert(node.node_view() =~= (TaskView {
                                subtasks: task_forest(node.child),
                                ..ts[0]
                            }));
                            assert(task_forest(Some(node)) == ts.drop_first().insert(
                                0,
                                node.node_view(),
                            ));
                        }
                        *slot = Some(node);
                        None
                    },
                    Some(given_back) => {
                        let r2 = add_task_last_to_task(&mut node.after, dest, given_back);
                        proof {
                            assert(node.node_view() =~= ts[0]);
                            assert(task_forest(Some(node)) == task_forest(node.after).insert(
                                0,
                                ts[0],
                            ));
                        }
                        *slot = Some(node);
                        r2
                    },
                }
            }
        },
    }
}

/// Make `task` the first subtask of the first task carrying `dest`.
pub fn add_task_first_to_task(slot: &mut Option<Box<Task>>, dest: Id, task: Task) -> (r: Option<
    Task,
>)
    requires
        task.after is None,
    ensures
        match r {
            None => Some(task_forest(*final(slot))) == forest_insert_first(
                task_forest(*old(slot)),
                dest,
                task.node_view(),
            ),
            Some(t) => {
                &&& t == task
                &&& task_forest(*final(slot)) == task_forest(*old(slot))
                &&& forest_insert_first(task_forest(*old(slot)), dest, task.node_view()) is None
            },
        },
    decreases *old(slot),
{
    let ghost tv = task.node_view();
    match slot.take() {
        None => Some(task),
        Some(mut node) => {
            let ghost ts = task_forest(*old(slot));
            proof {
                assert(ts[0] == (*old(slot)).unwrap().node_view());
                assert(ts.drop_first() == task_forest((*old(slot)).unwrap().after));
            }
            if node.id == dest {
                Board::add_task_to_task_first_child(&mut *node, task);
                proof {
                    assert(node.node_view() =~= (TaskView {
                        subtasks: ts[0].subtasks.insert(0, tv),
                        ..ts[0]
                    }));
                    assert(task_forest(Some(node)) == ts.drop_first().insert(0, node.node_view()));
                }
                *slot = Some(node);
                None
            } else {
                let found_child = add_task_first_to_task(&mut node.child, dest, task);
                match found_child {
                    None => {
                        proof {
                            assert(node.node_view() =~= (TaskView {
                                subtasks: task_forest(node.child),
                                ..ts[0]
                            }));
                            assert(task_forest(Some(node)) == ts.drop_first().insert(
                                0,
                                node.node_view(),
                            ));
                        }
                        *slot = Some(node);
                        None
                    },
                    Some(given_back) => {
                        let r2 = add_task_first_to_task(&mut node.after, dest, given_back);
                        proof {
                            assert(node.node_view() =~= ts[0]);
                            assert(task_forest(Some(node)) == task_forest(node.after).insert(
                                0,
                                ts[0],
                            ));
                        }
                        *slot = Some(node);
                        r2
                    },
                }
            }
        },
    }
}

/// Make `task` the next sibling of the first task carrying `dest`.
pub fn add_task_after_by_id(slot: &mut Option<Box<Task>>, dest: Id, task: Task) -> (r: Option<
    Task,
>)
    requires
        task.after is None,
    ensures
        match r {
            None => Some(task_forest(*final(slot))) == forest_insert_after(
                task_forest(*old(slot)),
                dest,
                task.node_view(),
            ),
            Some(t) => {
                &&& t == task
                &&& task_forest(*final(slot)) == task_forest(*old(slot))
                &&& forest_insert_after(task_forest(*old(slot)), dest, task.node_view()) is None
            },
        },
    decreases *old(slot),
{
    let ghost tv = task.node_view();
    match slot.take() {
        None => Some(task),
        Some(mut node) => {
            let ghost ts = task_forest(*old(slot));
            proof {
                assert(ts[0] == (*old(slot)).unwrap().node_view());
                assert(ts.drop_first() == task_forest((*old(slot)).unwrap().after));
            }
            if node.id == dest {
                Board::add_task_after_task(&mut *node, task);
                proof {
                    assert(node.node_view() =~= ts[0]);
                    assert(task_forest(Some(node)) == ts.drop_first().insert(0, tv).insert(
                        0,
                        ts[0],
                    ));
                }
                *slot = Some(node);
                None
            } else {
                let found_child = add_task_after_by_id(&mut node.child, dest, task);
                match found_child {
                    None => {
                        proof {
                            assert(node.node_view() =~= (TaskView {
                                subtasks: task_forest(node.child),
                                ..ts[0]
                            }));
                            assert(task_forest(Some(node)) == ts.drop_first().insert(
                                0,
                                node.node_view(),
                            ));
                        }
                        *slot = Some(node);
                        None
                    },
                    Some(given_back) => {
                        let r2 = add_task_after_by_id(&mut node.after, dest, given_back);
                        proof {
                            assert(node.node_view() =~= ts[0]);
                            assert(task_forest(Some(node)) == task_forest(node.after).insert(
                                0,
                                ts[0],
                            ));
                        }
                        *slot = Some(node);
                        r2
                    },
                }
            }
        },
    }
}

/// Replace the content of the first task carrying `dest`.
pub fn edit_task_in_forest(slot: &mut Option<Box<Task>>, dest: Id, content: String) -> (r: Option<
    String,
>)
    ensures
        match r {
            None => Some(task_forest(*final(slot))) == forest_edit(
                task_forest(*old(slot)),
                dest,
                content@,
            ),
            Some(s) => {
                &&& s == content
                &&& task_forest(*final(slot)) == task_forest(*old(slot))
                &&& forest_edit(task_forest(*old(slot)), dest, content@) is None
            },
        },
    decreases *old(slot),
{
    match slot.take() {
        None => Some(content),
        Some(mut node) => {
            let ghost ts = task_forest(*old(slot));
            proof {
                assert(ts[0] == (*old(slot)).unwrap().node_view());
                assert(ts.drop_first() == task_forest((*old(slot)).unwrap().after));
            }
            if node.id == dest {
                node.content = content;
                proof {
                    assert(node.node_view() =~= (TaskView { content: content@, ..ts[0] }));
                    assert(task_forest(Some(node)) == ts.drop_first().insert(0, node.node_view()));
                }
                *slot = Some(node);
                None
            } else {
                let found_child = edit_task_in_forest(&mut node.child, dest, content);
                match found_child {
                    None => {
                        proof {
                            assert(node.node_view() =~= (TaskView {
                                subtasks: task_forest(node.child),
                                ..ts[0]
                            }));
                            assert(task_forest(Some(node)) == ts.drop_first().insert(
                                0,
                                node.node_view(),
                            ));
                        }
                        *slot = Some(node);
                        None
                    },
                    Some(given_back) => {
                        let r2 = edit_task_in_forest(&mut node.after, dest, given_back);
                        proof {
                            assert(node.node_view() =~= ts[0]);
                            assert(task_forest(Some(node)) == task_forest(node.after).insert(
                                0,
                                ts[0],
                            ));
                        }
                        *slot = Some(node);
                        r2
                    },
                }
            }
        },
    }
}

/// Append `task` as the last task of the column carrying `dest`.
pub fn add_task_last_to_column(chain: &mut Option<Box<Column>>, dest: Id, task: Task) -> (r:
    Option<Task>)
    requires
        task.after is None,
    ensures
        match r {
            None => Some(column_forest(*final(chain))) == cols_add_task_last(
                column_forest(*old(chain)),
                dest,
                task.node_view(),
            ),
            Some(t) => {
                &&& t == task
                &&& column_forest(*final(chain)) == column_forest(*old(chain))
                &&& cols_add_task_last(column_forest(*old(chain)), dest, task.node_view())
                    is None
            },
        },
    decreases *old(chain),
{
    let ghost tv = task.node_view();
    match chain.take() {
        None => Some(task),
        Some(mut col) => {
            let ghost cs = column_forest(*old(chain));
            proof {
                assert(cs[0] == (*old(chain)).unwrap().node_view());
                assert(cs.drop_first() == column_forest((*old(chain)).unwrap().after));
            }
            if col.id == dest {
                Board::add_task_to_column_last_child(&mut *col, task);
                proof {
                    assert(col.node_view() =~= (ColumnView {
                        tasks: cs[0].tasks.push(tv),
                        ..cs[0]
                    }));
                    assert(column_forest(Some(col)) == cs.drop_first().insert(
                        0,
                        col.node_view(),
                    ));
                }
                *chain = Some(col);
                None
            } else {
                let r = add_task_last_to_column(&mut col.after, dest, task);
                proof {
                    assert(col.node_view() =~= cs[0]);
                    assert(column_forest(Some(col)) == column_forest(col.after).insert(0, cs[0]));
                }
                *chain = Some(col);
                r
            }
        },
    }
}

/// Make `task` the first task of the column carrying `dest`.
pub fn add_task_first_to_column(chain: &mut Option<Box<Column>>, dest: Id, task: Task) -> (r:
    Option<Task>)
    requires
        task.after is None,
    ensures
        match r {
            None => Some(column_forest(*final(chain))) == cols_add_task_first(
                column_forest(*old(chain)),
                dest,
                task.node_view(),
            ),
            Some(t) => {
                &&& t == task
                &&& column_forest(*final(chain)) == column_forest(*old(chain))
                &&& cols_add_task_first(column_forest(*old(chain)), dest, task.node_view())
                    is None
            },
        },
    decreases *old(chain),
{
    let ghost tv = task.node_view();
    match chain.take() {
        None => Some(task),
        Some(mut col) => {
            let ghost cs = column_forest(*old(chain));
            proof {
                assert(cs[0] == (*old(chain)).unwrap().node_view());
                assert(cs.drop_first() == column_forest((*old(chain)).unwrap().after));
            }
            if col.id == dest {
                Board::add_task_to_column_first_child(&mut *col, task);
                proof {
                    assert(col.node_view() =~= (ColumnView {
                        tasks: cs[0].tasks.insert(0, tv),
                        ..cs[0]
                    }));
                    assert(column_forest(Some(col)) == cs.drop_first().insert(
                        0,
                        col.node_view(),
                    ));
                }
                *chain = Some(col);
                None
            } else {
                let r = add_task_first_to_column(&mut col.after, dest, task);
                proof {
                    assert(col.node_view() =~= cs[0]);
                    assert(column_forest(Some(col)) == column_forest(col.after).insert(0, cs[0]));
                }
                *chain = Some(col);
                r
            }
        },
    }
}

/// Append `task` as the last subtask of the first task carrying `dest`,
/// searching every column's forest in order.
pub fn add_task_last_to_task_in_columns(chain: &mut Option<Box<Column>>, dest: Id, task: Task) -> (
    r: Option<Task>)
    requires
        task.after is None,
    ensures
        match r {
            None => Some(column_forest(*final(chain))) == cols_task_insert_last(
                column_forest(*old(chain)),
                dest,
                task.node_view(),
            ),
            Some(t) => {
                &&& t == task
                &&& column_forest(*final(chain)) == column_forest(*old(chain))
                &&& cols_task_insert_last(column_forest(*old(chain)), dest, task.node_view())
                    is None
            },
        },
    decreases *old(chain),
{
    match chain.take() {
        None => Some(task),
        Some(mut col) => {
            let ghost cs = column_forest(*old(chain));
            proof {
                assert(cs[0] == (*old(chain)).unwrap().node_view());
                assert(cs.drop_first() == column_forest((*old(chain)).unwrap().after));
            }
            let found_here = add_task_last_to_task(&mut col.child, dest, task);
            match found_here {
                None => {
                    proof {
                        assert(col.node_view() =~= (ColumnView {
                            tasks: task_forest(col.child),
                            ..cs[0]
                        }));
                        assert(column_forest(Some(col)) == cs.drop_first().insert(
                            0,
                            col.node_view(),
                        ));
                    }
                    *chain = Some(col);
                    None
                },
                Some(given_back) => {
                    let r2 = add_task_last_to_task_in_columns(&mut col.after, dest, given_back);
                    proof {
                        assert(col.node_view() =~= cs[0]);
                        assert(column_forest(Some(col)) == column_forest(col.after).insert(
                            0,
                            cs[0],
                        ));
                    }
                    *chain = Some(col);
                    r2
                },
            }
        },
    }
}

/// Make `task` the first subtask of the first task carrying `dest`,
/// searching every column's forest in order.
pub fn add_task_first_to_task_in_columns(chain: &mut Option<Box<Column>>, dest: Id, task: Task) -> (
    r: Option<Task>)
    requires
        task.after is None,
    ensures
        match r {
            None => Some(column_forest(*final(chain))) == cols_task_insert_first(
                column_forest(*old(chain)),
                dest,
                task.node_view(),
            ),
            Some(t) => {
                &&& t == task
                &&& column_forest(*final(chain)) == column_forest(*old(chain))
                &&& cols_task_insert_first(column_forest(*old(chain)), dest, task.node_view())
                    is None
            },
        },
    decreases *old(chain),
{
    match chain.take() {
        None => Some(task),
        Some(mut col) => {
            let ghost cs = column_forest(*old(chain));
            proof {
                assert(cs[0] == (*old(chain)).unwrap().node_view());
                assert(cs.drop_first() == column_forest((*old(chain)).unwrap().after));
            }
            let found_here = add_task_first_to_task(&mut col.child, dest, task);
            match found_here {
                None => {
                    proof {
                        assert(col.node_view() =~= (ColumnView {
                            tasks: task_forest(col.child),
                            ..cs[0]
                        }));
                        assert(column_forest(Some(col)) == cs.drop_first().insert(
                            0,
                            col.node_view(),
                        ));
                    }
                    *chain = Some(col);
                    None
                },
                Some(given_back) => {
                    let r2 = add_task_first_to_task_in_columns(&mut col.after, dest, given_back);
                    proof {
                        assert(col.node_view() =~= cs[0]);
                        assert(column_forest(Some(col)) == column_forest(col.after).insert(
                            0,
                            cs[0],
                        ));
                    }
                    *chain = Some(col);
                    r2
                },
            }
        },
    }
}

/// Make `task` the next sibling of the first task carrying `dest`,
/// searching every column's forest in order.
pub fn add_task_after_in_columns(chain: &mut Option<Box<Column>>, dest: Id, task: Task) -> (r:
    Option<Task>)
    requires
        task.after is None,
    ensures
        match r {
            None => Some(column_forest(*final(chain))) == cols_task_insert_after(
                column_forest(*old(chain)),
                dest,
                task.node_view(),
            ),
            Some(t) => {
                &&& t == task
                &&& column_forest(*final(chain)) == column_forest(*old(chain))
                &&& cols_task_insert_after(column_forest(*old(chain)), dest, task.node_view())
                    is None
            },
        },
    decreases *old(chain),
{
    match chain.take() {
        None => Some(task),
        Some(mut col) => {
            let ghost cs = column_forest(*old(chain));
            proof {
                assert(cs[0] == (*old(chain)).unwrap().node_view());
                assert(cs.drop_first() == column_forest((*old(chain)).unwrap().after));
            }
            let found_here = add_task_after_by_id(&mut col.child, dest, task);
            match found_here {
                None => {
                    proof {
                        assert(col.node_view() =~= (ColumnView {
                            tasks: task_forest(col.child),
                            ..cs[0]
                        }));
                        assert(column_forest(Some(col)) == cs.drop_first().insert(
                            0,
                            col.node_view(),
                        ));
                    }
                    *chain = Some(col);
                    None
                },
                Some(given_back) => {
                    let r2 = add_task_after_in_columns(&mut col.after, dest, given_back);
                    proof {
                        assert(col.node_view() =~= cs[0]);
                        assert(column_forest(Some(col)) == column_forest(col.after).insert(
                            0,
                            cs[0],
                        ));
                    }
                    *chain = Some(col);
                    r2
                },
            }
        },
    }
}

/// Replace the content of the first task carrying `dest`, searching every
/// column's forest in order.
pub fn edit_task_in_columns(chain: &mut Option<Box<Column>>, dest: Id, content: String) -> (r:
    Option<String>)
    ensures
        match r {
            None => Some(column_forest(*final(chain))) == cols_task_edit(
                column_forest(*old(chain)),
                dest,
                content@,
            ),
            Some(s) => {
                &&& s == content
                &&& column_forest(*final(chain)) == column_forest(*old(chain))
                &&& cols_task_edit(column_forest(*old(chain)), dest, content@) is None
            },
        },
    decreases *old(chain),
{
    match chain.take() {
        None => Some(content),
        Some(mut col) => {
            let ghost cs = column_forest(*old(chain));
            proof {
                assert(cs[0] == (*old(chain)).unwrap().node_view());
                assert(cs.drop_first() == column_forest((*old(chain)).unwrap().after));
            }
            let found_here = edit_task_in_forest(&mut col.child, dest, content);
            match found_here {
                None => {
                    proof {
                        assert(col.node_view() =~= (ColumnView {
                            tasks: task_forest(col.child),
                            ..cs[0]
                        }));
                        assert(column_forest(Some(col)) == cs.drop_first().insert(
                            0,
                            col.node_view(),
                        ));
                    }
                    *chain = Some(col);
                    None
                },
                Some(given_back) => {
                    let r2 = edit_task_in_columns(&mut col.after, dest, given_back);
                    proof {
                        assert(col.node_view() =~= cs[0]);
                        assert(column_forest(Some(col)) == column_forest(col.after).insert(
                            0,
                            cs[0],
                        ));
                    }
                    *chain = Some(col);
                    r2
                },
            }
        },
    }
}

/// Detach the first task carrying `target` from whichever column holds it.
pub fn remove_task_in_columns(chain: &mut Option<Box<Column>>, target: Id) -> (r: Option<Task>)
    ensures
        match r {
            None => {
                &&& column_forest(*final(chain)) == column_forest(*old(chain))
                &&& cols_task_remove(column_forest(*old(chain)), target) is None
            },
            Some(t) => {
                &&& t.after is None
                &&& cols_task_remove(column_forest(*old(chain)), target) == Some(
                    (t.node_view(), column_forest(*final(chain))),
                )
            },
        },
    decreases *old(chain),
{
    match chain.take() {
        None => None,
        Some(mut col) => {
            let ghost cs = column_forest(*old(chain));
            proof {
                assert(cs[0] == (*old(chain)).unwrap().node_view());
                assert(cs.drop_first() == column_forest((*old(chain)).unwrap().after));
            }
            let found_here = Board::remove_task_from_task(&mut col.child, target);
            match found_here {
                Some(t) => {
                    proof {
                        assert(col.node_view() =~= (ColumnView {
                            tasks: task_forest(col.child),
                            ..cs[0]
                        }));
                        assert(column_forest(Some(col)) == cs.drop_first().insert(
                            0,
                            col.node_view(),
                        ));
                    }
                    *chain = Some(col);
                    Some(t)
                },
                None => {
                    let r2 = remove_task_in_columns(&mut col.after, target);
                    proof {
                        assert(col.node_view() =~= cs[0]);
                        assert(column_forest(Some(col)) == column_forest(col.after).insert(
                            0,
                            cs[0],
                        ));
                    }
                    *chain = Some(col);
                    r2
                },
            }
        },
    }
}

impl Board {
    /// Detach and return the first task carrying `target`, which must exist
    /// somewhere in the board.
    pub fn remove_task(board: &mut Self, target: Id) -> (r: Task)
        requires
            cols_task_contains(old(board)@.columns, target),
        ensures
            r.after is None,
            cols_task_remove(old(board)@.columns, target) == Some(
                (r.node_view(), final(board)@.columns),
            ),
            final(board)@.id == old(board)@.id,
            final(board)@.title == old(board)@.title,
    {
        proof {
            lemma_cols_task_ops_some(
                old(board)@.columns,
                target,
                arbitrary(),
                arbitrary(),
            );
        }
        let removed = remove_task_in_columns(&mut board.child, target);
        match removed {
            Some(t) => t,
            None => vstd::pervasive::unreached(),
        }
    }

    /// Detach and return the column carrying `target`, which must exist.
    pub fn remove_column(board: &mut Self, target: Id) -> (r: Column)
        requires
            cols_contain(old(board)@.columns, target),
        ensures
            r.after is None,
            cols_remove(old(board)@.columns, target) == Some(
                (r.node_view(), final(board)@.columns),
            ),
            final(board)@.id == old(board)@.id,
            final(board)@.title == old(board)@.title,
    {
        proof {
            lemma_cols_remove_some(old(board)@.columns, target);
        }
        let removed = remove_column_from_chain(&mut board.child, target);
        match removed {
            Some(c) => c,
            None => vstd::pervasive::unreached(),
        }
    }
}

} // verus!
