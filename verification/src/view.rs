//! The mathematical model of the tree: each column and task is viewed as a
//! node carrying its identifier, its text and the ordered sequence of its
//! children.  All contracts of the executable tree operations are stated over
//! these views and the spec operations defined here.
//!
//! Every search and removal follows one fixed order: within a task forest,
//! a node is visited before its subtasks, and a node's whole subtree before
//! its next sibling (depth-first, children before siblings); columns are
//! visited left to right.  The first match in that order wins.

use vstd::prelude::*;
use crate::id::Id;

verus! {

/// A task together with its subtask forest.
#[verifier::ext_equal]
pub struct TaskView {
    pub id: Id,
    pub content: Seq<char>,
    pub subtasks: Seq<TaskView>,
}

/// A column together with its task forest.
#[verifier::ext_equal]
pub struct ColumnView {
    pub id: Id,
    pub title: Seq<char>,
    pub tasks: Seq<TaskView>,
}

/// The whole board: its own identity and title, and its columns in order.
#[verifier::ext_equal]
pub struct BoardView {
    pub id: Id,
    pub title: Seq<char>,
    pub columns: Seq<ColumnView>,
}

/// Prepending one element: length, head, tail and the shifted elements.
/// Every operation of this module builds and takes chains apart this way.
pub broadcast proof fn lemma_cons<A>(s: Seq<A>, a: A)
    ensures
        (#[trigger] s.insert(0, a)).len() == s.len() + 1,
        s.insert(0, a)[0] == a,
        s.insert(0, a).drop_first() == s,
        forall|i: int| 0 < i <= s.len() ==> s.insert(0, a)[i] == s[i - 1],
{
    s.insert_ensures(0, a);
    assert(s.insert(0, a).drop_first() =~= s);
}

// ---------------------------------------------------------------------------
// Membership
// ---------------------------------------------------------------------------

/// Does some task in the forest (at any depth) carry `target`?
pub open spec fn forest_contains(ts: Seq<TaskView>, target: Id) -> bool
    decreases ts,
{
    if ts.len() == 0 {
        false
    } else {
        ||| ts[0].id == target
        ||| forest_contains(ts[0].subtasks, target)
        ||| forest_contains(ts.drop_first(), target)
    }
}

/// Does the tree rooted at `t` (the task itself or any descendant) carry
/// `target`?
pub open spec fn tree_contains(t: TaskView, target: Id) -> bool {
    t.id == target || forest_contains(t.subtasks, target)
}

/// Does some column of the chain carry `target`?
pub open spec fn cols_contain(cs: Seq<ColumnView>, target: Id) -> bool
    decreases cs,
{
    if cs.len() == 0 {
        false
    } else {
        cs[0].id == target || cols_contain(cs.drop_first(), target)
    }
}

/// Does some task of some column carry `target`?
pub open spec fn cols_task_contains(cs: Seq<ColumnView>, target: Id) -> bool
    decreases cs,
{
    if cs.len() == 0 {
        false
    } else {
        forest_contains(cs[0].tasks, target) || cols_task_contains(cs.drop_first(), target)
    }
}

// ---------------------------------------------------------------------------
// Lookup: first match in depth-first, child-before-sibling order
// ---------------------------------------------------------------------------

/// The first task in depth-first order whose identifier is `target`,
/// returned with its whole subtree.
pub open spec fn forest_find(ts: Seq<TaskView>, target: Id) -> Option<TaskView>
    decreases ts,
{
    if ts.len() == 0 {
        None
    } else if ts[0].id == target {
        Some(ts[0])
    } else {
        match forest_find(ts[0].subtasks, target) {
            Some(t) => Some(t),
            None => forest_find(ts.drop_first(), target),
        }
    }
}

/// The first column of the chain whose identifier is `target`.
pub open spec fn cols_find(cs: Seq<ColumnView>, target: Id) -> Option<ColumnView>
    decreases cs,
{
    if cs.len() == 0 {
        None
    } else if cs[0].id == target {
        Some(cs[0])
    } else {
        cols_find(cs.drop_first(), target)
    }
}

/// The first task of any column (columns left to right, tasks depth-first)
/// whose identifier is `target`.
pub open spec fn cols_task_find(cs: Seq<ColumnView>, target: Id) -> Option<TaskView>
    decreases cs,
{
    if cs.len() == 0 {
        None
    } else {
        match forest_find(cs[0].tasks, target) {
            Some(t) => Some(t),
            None => cols_task_find(cs.drop_first(), target),
        }
    }
}

// ---------------------------------------------------------------------------
// Detach: remove the first match together with its whole subtree
// ---------------------------------------------------------------------------

/// Remove the first task (depth-first order) carrying `target`; the removed
/// task keeps its subtree, its former siblings close ranks.  `None` when no
/// task of the forest carries `target`.
pub open spec fn forest_remove(ts: Seq<TaskView>, target: Id) -> Option<(TaskView, Seq<TaskView>)>
    decreases ts,
{
    if ts.len() == 0 {
        None
    } else if ts[0].id == target {
        Some((ts[0], ts.drop_first()))
    } else {
        match forest_remove(ts[0].subtasks, target) {
            Some((t, subs)) => Some(
                (t, ts.drop_first().insert(0, TaskView { subtasks: subs, ..ts[0] })),
            ),
            None => match forest_remove(ts.drop_first(), target) {
                Some((t, rest)) => Some((t, rest.insert(0, ts[0]))),
                None => None,
            },
        }
    }
}

/// Remove the column carrying `target` together with its tasks.
pub open spec fn cols_remove(cs: Seq<ColumnView>, target: Id) -> Option<(ColumnView, Seq<ColumnView>)>
    decreases cs,
{
    if cs.len() == 0 {
        None
    } else if cs[0].id == target {
        Some((cs[0], cs.drop_first()))
    } else {
        match cols_remove(cs.drop_first(), target) {
            Some((c, rest)) => Some((c, rest.insert(0, cs[0]))),
            None => None,
        }
    }
}

/// Remove the first task carrying `target` from whichever column holds it.
pub open spec fn cols_task_remove(cs: Seq<ColumnView>, target: Id) -> Option<(TaskView, Seq<ColumnView>)>
    decreases cs,
{
    if cs.len() == 0 {
        None
    } else {
        match forest_remove(cs[0].tasks, target) {
            Some((t, rest_tasks)) => Some(
                (t, cs.drop_first().insert(0, ColumnView { tasks: rest_tasks, ..cs[0] })),
            ),
            None => match cols_task_remove(cs.drop_first(), target) {
                Some((t, rest)) => Some((t, rest.insert(0, cs[0]))),
                None => None,
            },
        }
    }
}

// ---------------------------------------------------------------------------
// Splice: insert a detached task or column at a named position
// ---------------------------------------------------------------------------

/// Make `t` the first subtask of the first task carrying `dest`.
pub open spec fn forest_insert_first(ts: Seq<TaskView>, dest: Id, t: TaskView) -> Option<Seq<TaskView>>
    decreases ts,
{
    if ts.len() == 0 {
        None
    } else if ts[0].id == dest {
        Some(ts.drop_first().insert(0, TaskView { subtasks: ts[0].subtasks.insert(0, t), ..ts[0] }))
    } else {
        match forest_insert_first(ts[0].subtasks, dest, t) {
            Some(subs) => Some(ts.drop_first().insert(0, TaskView { subtasks: subs, ..ts[0] })),
            None => match forest_insert_first(ts.drop_first(), dest, t) {
                Some(rest) => Some(rest.insert(0, ts[0])),
                None => None,
            },
        }
    }
}

/// Make `t` the last subtask of the first task carrying `dest`.
pub open spec fn forest_insert_last(ts: Seq<TaskView>, dest: Id, t: TaskView) -> Option<Seq<TaskView>>
    decreases ts,
{
    if ts.len() == 0 {
        None
    } else if ts[0].id == dest {
        Some(ts.drop_first().insert(0, TaskView { subtasks: ts[0].subtasks.push(t), ..ts[0] }))
    } else {
        match forest_insert_last(ts[0].subtasks, dest, t) {
            Some(subs) => Some(ts.drop_first().insert(0, TaskView { subtasks: subs, ..ts[0] })),
            None => match forest_insert_last(ts.drop_first(), dest, t) {
                Some(rest) => Some(rest.insert(0, ts[0])),
                None => None,
            },
        }
    }
}

/// Make `t` the next sibling of the first task carrying `dest`.
pub open spec fn forest_insert_after(ts: Seq<TaskView>, dest: Id, t: TaskView) -> Option<Seq<TaskView>>
    decreases ts,
{
    if ts.len() == 0 {
        None
    } else if ts[0].id == dest {
        Some(ts.drop_first().insert(0, t).insert(0, ts[0]))
    } else {
        match forest_insert_after(ts[0].subtasks, dest, t) {
            Some(subs) => Some(ts.drop_first().insert(0, TaskView { subtasks: subs, ..ts[0] })),
            None => match forest_insert_after(ts.drop_first(), dest, t) {
                Some(rest) => Some(rest.insert(0, ts[0])),
                None => None,
            },
        }
    }
}

/// Make `t` the first task of the column carrying `dest`.
pub open spec fn cols_add_task_first(cs: Seq<ColumnView>, dest: Id, t: TaskView) -> Option<Seq<ColumnView>>
    decreases cs,
{
    if cs.len() == 0 {
        None
    } else if cs[0].id == dest {
        Some(cs.drop_first().insert(0, ColumnView { tasks: cs[0].tasks.insert(0, t), ..cs[0] }))
    } else {
        match cols_add_task_first(cs.drop_first(), dest, t) {
            Some(rest) => Some(rest.insert(0, cs[0])),
            None => None,
        }
    }
}

/// Make `t` the last task of the column carrying `dest`.
pub open spec fn cols_add_task_last(cs: Seq<ColumnView>, dest: Id, t: TaskView) -> Option<Seq<ColumnView>>
    decreases cs,
{
    if cs.len() == 0 {
        None
    } else if cs[0].id == dest {
        Some(cs.drop_first().insert(0, ColumnView { tasks: cs[0].tasks.push(t), ..cs[0] }))
    } else {
        match cols_add_task_last(cs.drop_first(), dest, t) {
            Some(rest) => Some(rest.insert(0, cs[0])),
            None => None,
        }
    }
}

/// Apply a task-space splice inside whichever column holds `dest`.
pub open spec fn cols_task_insert_first(cs: Seq<ColumnView>, dest: Id, t: TaskView) -> Option<Seq<ColumnView>>
    decreases cs,
{
    if cs.len() == 0 {
        None
    } else {
        match forest_insert_first(cs[0].tasks, dest, t) {
            Some(tasks) => Some(cs.drop_first().insert(0, ColumnView { tasks, ..cs[0] })),
            None => match cols_task_insert_first(cs.drop_first(), dest, t) {
                Some(rest) => Some(rest.insert(0, cs[0])),
                None => None,
            },
        }
    }
}

/// As `cols_task_insert_first`, for the last-subtask splice.
pub open spec fn cols_task_insert_last(cs: Seq<ColumnView>, dest: Id, t: TaskView) -> Option<Seq<ColumnView>>
    decreases cs,
{
    if cs.len() == 0 {
        None
    } else {
        match forest_insert_last(cs[0].tasks, dest, t) {
            Some(tasks) => Some(cs.drop_first().insert(0, ColumnView { tasks, ..cs[0] })),
            None => match cols_task_insert_last(cs.drop_first(), dest, t) {
                Some(rest) => Some(rest.insert(0, cs[0])),
                None => None,
            },
        }
    }
}

/// As `cols_task_insert_first`, for the next-sibling splice.
pub open spec fn cols_task_insert_after(cs: Seq<ColumnView>, dest: Id, t: TaskView) -> Option<Seq<ColumnView>>
    decreases cs,
{
    if cs.len() == 0 {
        None
    } else {
        match forest_insert_after(cs[0].tasks, dest, t) {
            Some(tasks) => Some(cs.drop_first().insert(0, ColumnView { tasks, ..cs[0] })),
            None => match cols_task_insert_after(cs.drop_first(), dest, t) {
                Some(rest) => Some(rest.insert(0, cs[0])),
                None => None,
            },
        }
    }
}

/// Make `c` the next sibling of the column carrying `dest`.
pub open spec fn cols_insert_after(cs: Seq<ColumnView>, dest: Id, c: ColumnView) -> Option<Seq<ColumnView>>
    decreases cs,
{
    if cs.len() == 0 {
        None
    } else if cs[0].id == dest {
        Some(cs.drop_first().insert(0, c).insert(0, cs[0]))
    } else {
        match cols_insert_after(cs.drop_first(), dest, c) {
            Some(rest) => Some(rest.insert(0, cs[0])),
            None => None,
        }
    }
}

// ---------------------------------------------------------------------------
// In-place edits
// ---------------------------------------------------------------------------

/// Replace the content of the first task carrying `dest`.
pub open spec fn forest_edit(ts: Seq<TaskView>, dest: Id, content: Seq<char>) -> Option<Seq<TaskView>>
    decreases ts,
{
    if ts.len() == 0 {
        None
    } else if ts[0].id == dest {
        Some(ts.drop_first().insert(0, TaskView { content, ..ts[0] }))
    } else {
        match forest_edit(ts[0].subtasks, dest, content) {
            Some(subs) => Some(ts.drop_first().insert(0, TaskView { subtasks: subs, ..ts[0] })),
            None => match forest_edit(ts.drop_first(), dest, content) {
                Some(rest) => Some(rest.insert(0, ts[0])),
                None => None,
            },
        }
    }
}

/// Replace the content of the first task carrying `dest` in any column.
pub open spec fn cols_task_edit(cs: Seq<ColumnView>, dest: Id, content: Seq<char>) -> Option<Seq<ColumnView>>
    decreases cs,
{
    if cs.len() == 0 {
        None
    } else {
        match forest_edit(cs[0].tasks, dest, content) {
            Some(tasks) => Some(cs.drop_first().insert(0, ColumnView { tasks, ..cs[0] })),
            None => match cols_task_edit(cs.drop_first(), dest, content) {
                Some(rest) => Some(rest.insert(0, cs[0])),
                None => None,
            },
        }
    }
}

/// Replace the title of the column carrying `dest`.
pub open spec fn cols_edit(cs: Seq<ColumnView>, dest: Id, title: Seq<char>) -> Option<Seq<ColumnView>>
    decreases cs,
{
    if cs.len() == 0 {
        None
    } else if cs[0].id == dest {
        Some(cs.drop_first().insert(0, ColumnView { title, ..cs[0] }))
    } else {
        match cols_edit(cs.drop_first(), dest, title) {
            Some(rest) => Some(rest.insert(0, cs[0])),
            None => None,
        }
    }
}

// ---------------------------------------------------------------------------
// Depth-first export, uniqueness, freshness
// ---------------------------------------------------------------------------

/// Depth-first listing of a task and its subtree: the task itself first,
/// then its subtasks in order, each with its own subtree.
pub open spec fn export_tree(t: TaskView) -> Seq<Id>
    decreases t,
{
    export_forest(t.subtasks).insert(0, t.id)
}

/// Depth-first listing of a whole forest.
pub open spec fn export_forest(ts: Seq<TaskView>) -> Seq<Id>
    decreases ts,
{
    if ts.len() == 0 {
        Seq::empty()
    } else {
        export_tree(ts[0]) + export_forest(ts.drop_first())
    }
}

/// Depth-first listing of the column chain: each column, then its tasks.
pub open spec fn export_cols(cs: Seq<ColumnView>) -> Seq<Id>
    decreases cs,
{
    if cs.len() == 0 {
        Seq::empty()
    } else {
        (export_forest(cs[0].tasks) + export_cols(cs.drop_first())).insert(0, cs[0].id)
    }
}

/// Depth-first listing of every column and task identifier of the board.
pub open spec fn export_board(b: BoardView) -> Seq<Id> {
    export_cols(b.columns)
}

/// Structural well-formedness: no identifier appears twice in the forest.
pub open spec fn board_wf(b: BoardView) -> bool {
    export_board(b).no_duplicates()
}

/// Every identifier of the listing was issued below `n`: an identifier with
/// counter value `n` or above is fresh for the whole board.
pub open spec fn ids_below(s: Seq<Id>, n: nat) -> bool {
    forall|i: int| 0 <= i < s.len() ==> (#[trigger] s[i]).value < n
}

// ---------------------------------------------------------------------------
// Each operation succeeds exactly when its target is present
// ---------------------------------------------------------------------------

/// A task-space detach succeeds exactly when the forest holds the target.
pub proof fn lemma_forest_remove_some(ts: Seq<TaskView>, target: Id)
    ensures
        forest_remove(ts, target) is Some <==> forest_contains(ts, target),
    decreases ts,
{
    if ts.len() > 0 {
        lemma_forest_remove_some(ts[0].subtasks, target);
        lemma_forest_remove_some(ts.drop_first(), target);
    }
}

/// A task-space lookup succeeds exactly when the forest holds the target.
pub proof fn lemma_forest_find_some(ts: Seq<TaskView>, target: Id)
    ensures
        forest_find(ts, target) is Some <==> forest_contains(ts, target),
    decreases ts,
{
    if ts.len() > 0 {
        lemma_forest_find_some(ts[0].subtasks, target);
        lemma_forest_find_some(ts.drop_first(), target);
    }
}

/// A task-space edit succeeds exactly when the forest holds the target.
pub proof fn lemma_forest_edit_some(ts: Seq<TaskView>, target: Id, content: Seq<char>)
    ensures
        forest_edit(ts, target, content) is Some <==> forest_contains(ts, target),
    decreases ts,
{
    if ts.len() > 0 {
        lemma_forest_edit_some(ts[0].subtasks, target, content);
        lemma_forest_edit_some(ts.drop_first(), target, content);
    }
}

/// The three task-space splices succeed exactly when the forest holds the
/// destination.
pub proof fn lemma_forest_insert_some(ts: Seq<TaskView>, dest: Id, t: TaskView)
    ensures
        forest_insert_first(ts, dest, t) is Some <==> forest_contains(ts, dest),
        forest_insert_last(ts, dest, t) is Some <==> forest_contains(ts, dest),
        forest_insert_after(ts, dest, t) is Some <==> forest_contains(ts, dest),
    decreases ts,
{
    if ts.len() > 0 {
        lemma_forest_insert_some(ts[0].subtasks, dest, t);
        lemma_forest_insert_some(ts.drop_first(), dest, t);
    }
}

/// A column detach succeeds exactly when the chain holds the target.
pub proof fn lemma_cols_remove_some(cs: Seq<ColumnView>, target: Id)
    ensures
        cols_remove(cs, target) is Some <==> cols_contain(cs, target),
    decreases cs,
{
    if cs.len() > 0 {
        lemma_cols_remove_some(cs.drop_first(), target);
    }
}

/// Column-space splices and edits succeed exactly when the chain holds the
/// destination column.
pub proof fn lemma_cols_ops_some(cs: Seq<ColumnView>, dest: Id, t: TaskView, c: ColumnView, title: Seq<char>)
    ensures
        cols_find(cs, dest) is Some <==> cols_contain(cs, dest),
        cols_add_task_first(cs, dest, t) is Some <==> cols_contain(cs, dest),
        cols_add_task_last(cs, dest, t) is Some <==> cols_contain(cs, dest),
        cols_insert_after(cs, dest, c) is Some <==> cols_contain(cs, dest),
        cols_edit(cs, dest, title) is Some <==> cols_contain(cs, dest),
    decreases cs,
{
    if cs.len() > 0 {
        lemma_cols_ops_some(cs.drop_first(), dest, t, c, title);
    }
}

/// Task-space operations across the column chain succeed exactly when some
/// column's forest holds the target.
pub proof fn lemma_cols_task_ops_some(cs: Seq<ColumnView>, target: Id, t: TaskView, content: Seq<char>)
    ensures
        cols_task_remove(cs, target) is Some <==> cols_task_contains(cs, target),
        cols_task_find(cs, target) is Some <==> cols_task_contains(cs, target),
        cols_task_insert_first(cs, target, t) is Some <==> cols_task_contains(cs, target),
        cols_task_insert_last(cs, target, t) is Some <==> cols_task_contains(cs, target),
        cols_task_insert_after(cs, target, t) is Some <==> cols_task_contains(cs, target),
        cols_task_edit(cs, target, content) is Some <==> cols_task_contains(cs, target),
    decreases cs,
{
    if cs.len() > 0 {
        lemma_forest_remove_some(cs[0].tasks, target);
        lemma_forest_find_some(cs[0].tasks, target);
        lemma_forest_insert_some(cs[0].tasks, target, t);
        lemma_forest_edit_some(cs[0].tasks, target, content);
        lemma_cols_task_ops_some(cs.drop_first(), target, t, content);
    }
}

/// Detaching a task changes no column identifier: the column chain of the
/// result carries exactly the column identifiers of the original.
pub proof fn lemma_cols_task_remove_keeps_cols(cs: Seq<ColumnView>, target: Id, x: Id)
    requires
        cols_task_remove(cs, target) is Some,
    ensures
        cols_contain(cols_task_remove(cs, target).unwrap().1, x) == cols_contain(cs, x),
    decreases cs,
{
    broadcast use lemma_cons;

    if cs.len() > 0 {
        match forest_remove(cs[0].tasks, target) {
            Some(_) => {},
            None => {
                lemma_cols_task_remove_keeps_cols(cs.drop_first(), target, x);
            },
        }
    }
}

} // verus!

