//! Locator: read-only traversals that find a column or task by identifier.
//! The search order is fixed: columns left to right; within a column's task
//! forest depth-first, a task before its subtasks, a task's whole subtree
//! before its next sibling.  The first match is returned.

use vstd::prelude::*;
use crate::id::Id;
use crate::store::{Board, Column, Task, column_forest, task_forest};
use crate::view::{
    ColumnView, TaskView, cols_contain, cols_find, cols_remove, cols_task_contains,
    cols_task_find, cols_task_remove, forest_contains, forest_find, forest_remove, lemma_cons,
};

verus! {

broadcast use lemma_cons;

impl Board {
    /// Walk the sibling chain from `column` and return the first column
    /// carrying `target`.
    pub fn column_from_id(column: &Column, target: Id) -> (r: Option<&Column>)
        ensures
            match r {
                Some(c) => cols_find(column.chain_view(), target) == Some(c.node_view()),
                None => cols_find(column.chain_view(), target) is None,
            },
        decreases *column,
    {
        proof {
            assert(column.chain_view()[0] == column.node_view());
            assert(column.chain_view().drop_first() == column_forest(column.after));
        }
        if column.id == target {
            proof {
                assert(cols_find(column.chain_view(), target) =~= Some(column.node_view()));
            }
            Some(column)
        } else {
            match &column.after {
                Some(next) => {
                    proof {
                        assert(next.chain_view() == column_forest(column.after));
                    }
                    let r = Self::column_from_id(next, target);
                    proof {
                        if let Some(c) = r {
                            assert(cols_find(column.chain_view(), target) =~= Some(c.node_view()));
                        }
                    }
                    r
                },
                None => {
                    proof {
                        assert(column_forest(column.after) == Seq::<ColumnView>::empty());
                        assert(cols_find(Seq::<ColumnView>::empty(), target) is None);
                        assert(cols_find(column.chain_view(), target) is None);
                    }
                    None
                },
            }
        }
    }

    /// Depth-first search from `task` (the task itself, then its subtasks,
    /// then its following siblings) for the first task carrying `target`.
    pub fn task_from_id_and_task(task: &Task, target: Id) -> (r: Option<&Task>)
        ensures
            match r {
                Some(t) => forest_find(task.chain_view(), target) == Some(t.node_view()),
                None => forest_find(task.chain_view(), target) is None,
            },
        decreases *task,
    {
        proof {
            assert(task.chain_view()[0] == task.node_view());
            assert(task.chain_view().drop_first() == task_forest(task.after));
        }
        if task.id == target {
            proof {
                assert(forest_find(task.chain_view(), target) =~= Some(task.node_view()));
            }
            return Some(task);
        }
        let found_child = match &task.child {
            Some(child) => {
                proof {
                    assert(child.chain_view() == task_forest(task.child));
                }
                Self::task_from_id_and_task(child, target)
            },
            None => {
                proof {
                    assert(task_forest(task.child) == Seq::<TaskView>::empty());
                    assert(forest_find(task_forest(task.child), target) is None);
                }
                None
            },
        };
        if let Some(found) = found_child {
            proof {
                assert(forest_find(task.chain_view(), target) =~= Some(found.node_view()));
            }
            return Some(found);
        }
        match &task.after {
            Some(next) => {
                proof {
                    assert(next.chain_view() == task_forest(task.after));
                }
                let r = Self::task_from_id_and_task(next, target);
                proof {
                    if let Some(t) = r {
                        assert(forest_find(task.chain_view(), target) =~= Some(t.node_view()));
                    }
                }
                r
            },
            None => {
                proof {
                    assert(task_forest(task.after) == Seq::<TaskView>::empty());
                    assert(forest_find(Seq::<TaskView>::empty(), target) is None);
                    assert(forest_find(task.chain_view(), target) is None);
                }
                None
            },
        }
    }

    /// Search every column from `column` onward, in order, for the first
    /// task carrying `target`.
    pub fn task_from_id(column: &Column, target: Id) -> (r: Option<&Task>)
        ensures
            match r {
                Some(t) => cols_task_find(column.chain_view(), target) == Some(t.node_view()),
                None => cols_task_find(column.chain_view(), target) is None,
            },
        decreases *column,
    {
        proof {
            assert(column.chain_view()[0] == column.node_view());
            assert(column.chain_view().drop_first() == column_forest(column.after));
        }
        let found_here = match &column.child {
            Some(task) => {
                proof {
                    assert(task.chain_view() == task_forest(column.child));
                }
                Self::task_from_id_and_task(task, target)
            },
            None => {
                proof {
                    assert(task_forest(column.child) == Seq::<TaskView>::empty());
                    assert(forest_find(task_forest(column.child), target) is None);
                }
                None
            },
        };
        if let Some(found) = found_here {
            proof {
                assert(cols_task_find(column.chain_view(), target) =~= Some(found.node_view()));
            }
            return Some(found);
        }
        match &column.after {
            Some(next) => {
                proof {
                    assert(next.chain_view() == column_forest(column.after));
                }
                let r = Self::task_from_id(next, target);
                proof {
                    if let Some(t) = r {
                        assert(cols_task_find(column.chain_view(), target) =~= Some(t.node_view()));
                    }
                }
                r
            },
            None => {
                proof {
                    assert(column_forest(column.after) == Seq::<ColumnView>::empty());
                    assert(cols_task_find(Seq::<ColumnView>::empty(), target) is None);
                    assert(cols_task_find(column.chain_view(), target) is None);
                }
                None
            },
        }
    }
}

/// Does the chain hold a column carrying `target`?
pub fn column_exists(chain: &Option<Box<Column>>, target: Id) -> (r: bool)
    ensures
        r == cols_contain(column_forest(*chain), target),
    decreases *chain,
{
    match chain {
        None => false,
        Some(col) => {
            proof {
                assert(column_forest(*chain)[0] == col.node_view());
                assert(column_forest(*chain).drop_first() == column_forest(col.after));
            }
            if col.id == target {
                true
            } else {
                column_exists(&col.after, target)
            }
        },
    }
}

/// Does the forest rooted at `slot` hold a task carrying `target`?
pub fn task_exists_in_forest(slot: &Option<Box<Task>>, target: Id) -> (r: bool)
    ensures
        r == forest_contains(task_forest(*slot), target),
    decreases *slot,
{
    match slot {
        None => false,
        Some(task) => {
            proof {
                assert(task_forest(*slot)[0] == task.node_view());
                assert(task_forest(*slot).drop_first() == task_forest(task.after));
            }
            if task.id == target {
                true
            } else if task_exists_in_forest(&task.child, target) {
                true
            } else {
                task_exists_in_forest(&task.after, target)
            }
        },
    }
}

/// Does any column of the chain hold a task carrying `target`?
pub fn task_exists(chain: &Option<Box<Column>>, target: Id) -> (r: bool)
    ensures
        r == cols_task_contains(column_forest(*chain), target),
    decreases *chain,
{
    match chain {
        None => false,
        Some(col) => {
            proof {
                assert(column_forest(*chain)[0] == col.node_view());
                assert(column_forest(*chain).drop_first() == column_forest(col.after));
            }
            if task_exists_in_forest(&col.child, target) {
                true
            } else {
                task_exists(&col.after, target)
            }
        },
    }
}

/// One read-only pass answering two questions about the forest at `slot`:
/// would a detach of `src` find a task, and, in the forest as it would stand
/// after that detach (or as it stands, if `src` is absent), is there a task
/// carrying `dest`?  A move must resolve its destination against the
/// post-detach shape, and this probe decides that without mutating anything.
pub fn probe_forest_after_remove(slot: &Option<Box<Task>>, src: Id, dest: Id) -> (r: (bool, bool))
    ensures
        match forest_remove(task_forest(*slot), src) {
            None => !r.0 && r.1 == forest_contains(task_forest(*slot), dest),
            Some((t, rest)) => r.0 && r.1 == forest_contains(rest, dest),
        },
    decreases *slot,
{
    match slot {
        None => (false, false),
        Some(node) => {
            let ghost ts = task_forest(*slot);
            proof {
                assert(ts[0] == node.node_view());
                assert(ts.drop_first() == task_forest(node.after));
            }
            if node.id == src {
                let found_dest = task_exists_in_forest(&node.after, dest);
                (true, found_dest)
            } else {
                let (src_in_child, dest_c) = probe_forest_after_remove(&node.child, src, dest);
                if src_in_child {
                    let dest_here = if node.id == dest {
                        true
                    } else if dest_c {
                        true
                    } else {
                        task_exists_in_forest(&node.after, dest)
                    };
                    proof {
                        let (t, subs) = forest_remove(task_forest(node.child), src).unwrap();
                        let head = TaskView { subtasks: subs, ..ts[0] };
                        let rest = ts.drop_first().insert(0, head);
                        assert(forest_remove(ts, src) == Some((t, rest)));
                        assert(forest_contains(rest, dest) == (head.id == dest
                            || forest_contains(subs, dest) || forest_contains(
                            ts.drop_first(),
                            dest,
                        )));
                    }
                    (true, dest_here)
                } else {
                    let (src_in_after, dest_a) = probe_forest_after_remove(&node.after, src, dest);
                    let dest_here = if node.id == dest {
                        true
                    } else if dest_c {
                        true
                    } else {
                        dest_a
                    };
                    proof {
                        if src_in_after {
                            let (t, tail) = forest_remove(task_forest(node.after), src).unwrap();
                            let rest = tail.insert(0, ts[0]);
                            assert(forest_remove(ts, src) == Some((t, rest)));
                            assert(forest_contains(rest, dest) == (ts[0].id == dest
                                || forest_contains(ts[0].subtasks, dest) || forest_contains(
                                tail,
                                dest,
                            )));
                        } else {
                            assert(forest_remove(ts, src) is None);
                            assert(forest_contains(ts, dest) == (ts[0].id == dest
                                || forest_contains(ts[0].subtasks, dest) || forest_contains(
                                ts.drop_first(),
                                dest,
                            )));
                        }
                    }
                    (src_in_after, dest_here)
                }
            }
        },
    }
}

/// The same probe across the whole column chain: would a detach of task
/// `src` succeed, and does task `dest` exist in the post-detach tree?
pub fn probe_columns_after_task_remove(chain: &Option<Box<Column>>, src: Id, dest: Id) -> (r: (
    bool,
    bool,
))
    ensures
        match cols_task_remove(column_forest(*chain), src) {
            None => !r.0 && r.1 == cols_task_contains(column_forest(*chain), dest),
            Some((t, cs)) => r.0 && r.1 == cols_task_contains(cs, dest),
        },
    decreases *chain,
{
    match chain {
        None => (false, false),
        Some(col) => {
            let ghost cs = column_forest(*chain);
            proof {
                assert(cs[0] == col.node_view());
                assert(cs.drop_first() == column_forest(col.after));
            }
            let (src_here, dest_here) = probe_forest_after_remove(&col.child, src, dest);
            if src_here {
                let dest_rest = task_exists(&col.after, dest);
                proof {
                    let (t, subs) = forest_remove(task_forest(col.child), src).unwrap();
                    let head = ColumnView { tasks: subs, ..cs[0] };
                    let rest = cs.drop_first().insert(0, head);
                    assert(cols_task_remove(cs, src) == Some((t, rest)));
                    assert(cols_task_contains(rest, dest) == (forest_contains(subs, dest)
                        || cols_task_contains(cs.drop_first(), dest)));
                }
                (true, dest_here || dest_rest)
            } else {
                let (src_rest, dest_rest) = probe_columns_after_task_remove(&col.after, src, dest);
                proof {
                    if src_rest {
                        let (t, tail) = cols_task_remove(column_forest(col.after), src).unwrap();
                        let rest = tail.insert(0, cs[0]);
                        assert(cols_task_remove(cs, src) == Some((t, rest)));
                        assert(cols_task_contains(rest, dest) == (forest_contains(
                            cs[0].tasks,
                            dest,
                        ) || cols_task_contains(tail, dest)));
                    } else {
                        assert(cols_task_remove(cs, src) is None);
                    }
                }
                (src_rest, dest_here || dest_rest)
            }
        },
    }
}

/// The column-space probe: would a detach of column `src` succeed, and does
/// column `dest` exist in the post-detach chain?
pub fn probe_columns_after_col_remove(chain: &Option<Box<Column>>, src: Id, dest: Id) -> (r: (
    bool,
    bool,
))
    ensures
        match cols_remove(column_forest(*chain), src) {
            None => !r.0 && r.1 == cols_contain(column_forest(*chain), dest),
            Some((c, cs)) => r.0 && r.1 == cols_contain(cs, dest),
        },
    decreases *chain,
{
    match chain {
        None => (false, false),
        Some(col) => {
            let ghost cs = column_forest(*chain);
            proof {
                assert(cs[0] == col.node_view());
                assert(cs.drop_first() == column_forest(col.after));
            }
            if col.id == src {
                let found_dest = column_exists(&col.after, dest);
                (true, found_dest)
            } else {
                let (src_rest, dest_rest) = probe_columns_after_col_remove(&col.after, src, dest);
                proof {
                    if src_rest {
                        let (c, tail) = cols_remove(column_forest(col.after), src).unwrap();
                        let rest = tail.insert(0, cs[0]);
                        assert(cols_remove(cs, src) == Some((c, rest)));
                        assert(cols_contain(rest, dest) == (cs[0].id == dest || cols_contain(
                            tail,
                            dest,
                        )));
                    } else {
                        assert(cols_remove(cs, src) is None);
                    }
                }
                let dest_here = if col.id == dest {
                    true
                } else {
                    dest_rest
                };
                (src_rest, dest_here)
            }
        },
    }
}

} // verus!
