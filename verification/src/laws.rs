//! The laws of the tree engine, each proved once and for all over the model:
//! what an add contributes to the depth-first export, what a cascading
//! delete takes away, and what a move leaves untouched.

use vstd::prelude::*;
use vstd::multiset::Multiset;
use crate::dispatch::{ActionV, ColumnPosition, TaskPosition, creates_node, step};
use crate::id::Id;
use crate::view::{
    BoardView, ColumnView, TaskView, board_wf, cols_add_task_first, cols_add_task_last,
    cols_contain, cols_edit, cols_insert_after, cols_remove, cols_task_contains, cols_task_edit,
    cols_task_find, cols_task_insert_after, cols_task_insert_first, cols_task_insert_last,
    cols_task_remove, export_board, export_cols, export_forest, export_tree, forest_contains,
    forest_edit, forest_find, forest_insert_after, forest_insert_first, forest_insert_last,
    forest_remove, lemma_cons, lemma_forest_find_some, tree_contains,
};

verus! {

broadcast use {
    lemma_cons,
    vstd::seq_lib::group_to_multiset_ensures,
    vstd::seq_lib::lemma_multiset_commutative,
    vstd::multiset::group_multiset_axioms,
};

// ---------------------------------------------------------------------------
// Membership: a task is in the forest exactly when its identifier is in the
// depth-first export
// ---------------------------------------------------------------------------

/// A tree holds `x` exactly when its export lists `x`.
pub proof fn lemma_tree_contains_export(t: TaskView, x: Id)
    ensures
        tree_contains(t, x) <==> export_tree(t).contains(x),
    decreases t,
{
    lemma_forest_contains_export(t.subtasks, x);
    assert(export_tree(t)[0] == t.id);
    if t.id == x {
        assert(export_tree(t).contains(x));
    }
    if forest_contains(t.subtasks, x) {
        let i = choose|i: int| 0 <= i < export_forest(t.subtasks).len()
            && export_forest(t.subtasks)[i] == x;
        assert(export_tree(t)[i + 1] == x);
    }
    if export_tree(t).contains(x) {
        let i = choose|i: int| 0 <= i < export_tree(t).len() && export_tree(t)[i] == x;
        if i > 0 {
            assert(export_forest(t.subtasks)[i - 1] == x);
        }
    }
}

/// A forest holds `x` exactly when its export lists `x`.
pub proof fn lemma_forest_contains_export(ts: Seq<TaskView>, x: Id)
    ensures
        forest_contains(ts, x) <==> export_forest(ts).contains(x),
    decreases ts,
{
    if ts.len() > 0 {
        lemma_tree_contains_export(ts[0], x);
        lemma_forest_contains_export(ts.drop_first(), x);
        let a = export_tree(ts[0]);
        let b = export_forest(ts.drop_first());
        assert(export_forest(ts) == a + b);
        assert((a + b).to_multiset() == a.to_multiset().add(b.to_multiset()));
        assert((a + b).contains(x) <==> (a + b).to_multiset().count(x) > 0);
        assert(a.contains(x) <==> a.to_multiset().count(x) > 0);
        assert(b.contains(x) <==> b.to_multiset().count(x) > 0);
    }
}

/// The export of the column chain lists `x` exactly when some column or
/// some task carries it.
pub proof fn lemma_cols_contains_export(cs: Seq<ColumnView>, x: Id)
    ensures
        export_cols(cs).contains(x) <==> (cols_contain(cs, x) || cols_task_contains(cs, x)),
    decreases cs,
{
    if cs.len() > 0 {
        lemma_forest_contains_export(cs[0].tasks, x);
        lemma_cols_contains_export(cs.drop_first(), x);
        let a = export_forest(cs[0].tasks);
        let b = export_cols(cs.drop_first());
        assert(export_cols(cs) == (a + b).insert(0, cs[0].id));
        assert((a + b).to_multiset() == a.to_multiset().add(b.to_multiset()));
        assert((a + b).insert(0, cs[0].id).to_multiset() == (a + b).to_multiset().insert(
            cs[0].id,
        ));
        assert(export_cols(cs).contains(x) <==> export_cols(cs).to_multiset().count(x) > 0);
        assert(a.contains(x) <==> a.to_multiset().count(x) > 0);
        assert(b.contains(x) <==> b.to_multiset().count(x) > 0);
    }
}

// ---------------------------------------------------------------------------
// What a detach takes away: exactly the removed subtree's export
// ---------------------------------------------------------------------------

/// Detaching a task splits the export into the survivors and the removed
/// subtree's block, as multisets.
pub proof fn lemma_forest_remove_multiset(ts: Seq<TaskView>, x: Id)
    requires
        forest_remove(ts, x) is Some,
    ensures
        ({
            let (t, rest) = forest_remove(ts, x).unwrap();
            export_forest(ts).to_multiset() == export_forest(rest).to_multiset().add(
                export_tree(t).to_multiset(),
            )
        }),
    decreases ts,
{
    let (t, rest) = forest_remove(ts, x).unwrap();
    let head = ts[0];
    let tail = ts.drop_first();
    assert(export_forest(ts) == export_tree(head) + export_forest(tail));
    if head.id == x {
        assert(export_forest(ts).to_multiset() =~= export_forest(rest).to_multiset().add(
            export_tree(t).to_multiset(),
        ));
    } else if forest_remove(head.subtasks, x) is Some {
        lemma_forest_remove_multiset(head.subtasks, x);
        let (t1, subs) = forest_remove(head.subtasks, x).unwrap();
        let head2 = TaskView { subtasks: subs, ..head };
        assert(rest == tail.insert(0, head2));
        assert(export_forest(rest) == export_tree(head2) + export_forest(tail));
        assert(export_tree(head2) == export_forest(subs).insert(0, head.id));
        assert(export_tree(head) == export_forest(head.subtasks).insert(0, head.id));
        assert(export_forest(ts).to_multiset() =~= export_forest(rest).to_multiset().add(
            export_tree(t).to_multiset(),
        ));
    } else {
        lemma_forest_remove_multiset(tail, x);
        let (t1, rest1) = forest_remove(tail, x).unwrap();
        assert(rest == rest1.insert(0, head));
        assert(export_forest(rest) == export_tree(head) + export_forest(rest1));
        assert(export_forest(ts).to_multiset() =~= export_forest(rest).to_multiset().add(
            export_tree(t).to_multiset(),
        ));
    }
}

/// The same split for a detach across the column chain.
pub proof fn lemma_cols_task_remove_multiset(cs: Seq<ColumnView>, x: Id)
    requires
        cols_task_remove(cs, x) is Some,
    ensures
        ({
            let (t, rest) = cols_task_remove(cs, x).unwrap();
            export_cols(cs).to_multiset() == export_cols(rest).to_multiset().add(
                export_tree(t).to_multiset(),
            )
        }),
    decreases cs,
{
    let (t, rest) = cols_task_remove(cs, x).unwrap();
    let head = cs[0];
    let tail = cs.drop_first();
    assert(export_cols(cs) == (export_forest(head.tasks) + export_cols(tail)).insert(
        0,
        head.id,
    ));
    if forest_remove(head.tasks, x) is Some {
        lemma_forest_remove_multiset(head.tasks, x);
        let (t1, subs) = forest_remove(head.tasks, x).unwrap();
        let head2 = ColumnView { tasks: subs, ..head };
        assert(rest == tail.insert(0, head2));
        assert(export_cols(rest) == (export_forest(subs) + export_cols(tail)).insert(
            0,
            head.id,
        ));
        assert(export_cols(cs).to_multiset() =~= export_cols(rest).to_multiset().add(
            export_tree(t).to_multiset(),
        ));
    } else {
        lemma_cols_task_remove_multiset(tail, x);
        let (t1, rest1) = cols_task_remove(tail, x).unwrap();
        assert(rest == rest1.insert(0, head));
        assert(export_cols(rest) == (export_forest(head.tasks) + export_cols(rest1)).insert(
            0,
            head.id,
        ));
        assert(export_cols(cs).to_multiset() =~= export_cols(rest).to_multiset().add(
            export_tree(t).to_multiset(),
        ));
    }
}

// ---------------------------------------------------------------------------
// What a splice contributes: exactly the inserted subtree's export
// ---------------------------------------------------------------------------

/// Appending a tree at the end of a forest appends its export.
pub proof fn lemma_export_forest_push(ts: Seq<TaskView>, t: TaskView)
    ensures
        export_forest(ts.push(t)) == export_forest(ts) + export_tree(t),
    decreases ts,
{
    if ts.len() == 0 {
        assert(ts.push(t)[0] == t);
        assert(ts.push(t).drop_first() =~= Seq::<TaskView>::empty());
        assert(export_forest(Seq::<TaskView>::empty()) == Seq::<Id>::empty());
        assert(export_forest(ts.push(t)) =~= export_forest(ts) + export_tree(t));
    } else {
        assert(ts.push(t)[0] == ts[0]);
        assert(ts.push(t).drop_first() =~= ts.drop_first().push(t));
        lemma_export_forest_push(ts.drop_first(), t);
        assert(export_forest(ts.push(t)) =~= export_forest(ts) + export_tree(t));
    }
}

/// Appending a column at the end of the chain appends its export block.
pub proof fn lemma_export_cols_push(cs: Seq<ColumnView>, c: ColumnView)
    ensures
        export_cols(cs.push(c)) == export_cols(cs) + export_forest(c.tasks).insert(0, c.id),
    decreases cs,
{
    if cs.len() == 0 {
        assert(cs.push(c)[0] == c);
        assert(cs.push(c).drop_first() =~= Seq::<ColumnView>::empty());
        assert(export_cols(Seq::<ColumnView>::empty()) == Seq::<Id>::empty());
        assert(export_cols(cs.push(c)) =~= export_cols(cs) + export_forest(c.tasks).insert(
            0,
            c.id,
        ));
    } else {
        assert(cs.push(c)[0] == cs[0]);
        assert(cs.push(c).drop_first() =~= cs.drop_first().push(c));
        lemma_export_cols_push(cs.drop_first(), c);
        assert(export_cols(cs.push(c)) =~= export_cols(cs) + export_forest(c.tasks).insert(
            0,
            c.id,
        ));
    }
}

/// Splicing a tree in as a last subtask adds exactly its export block.
pub proof fn lemma_forest_insert_last_multiset(ts: Seq<TaskView>, dest: Id, t: TaskView)
    requires
        forest_insert_last(ts, dest, t) is Some,
    ensures
        export_forest(forest_insert_last(ts, dest, t).unwrap()).to_multiset() == export_forest(
            ts,
        ).to_multiset().add(export_tree(t).to_multiset()),
    decreases ts,
{
    let ts2 = forest_insert_last(ts, dest, t).unwrap();
    let head = ts[0];
    let tail = ts.drop_first();
    assert(export_forest(ts) == export_tree(head) + export_forest(tail));
    if head.id == dest {
        let head2 = TaskView { subtasks: head.subtasks.push(t), ..head };
        lemma_export_forest_push(head.subtasks, t);
        assert(ts2 == tail.insert(0, head2));
        assert(export_forest(ts2) == export_tree(head2) + export_forest(tail));
        assert(export_tree(head2) == export_forest(head.subtasks.push(t)).insert(0, head.id));
        assert(export_forest(ts2).to_multiset() =~= export_forest(ts).to_multiset().add(
            export_tree(t).to_multiset(),
        ));
    } else if forest_insert_last(head.subtasks, dest, t) is Some {
        lemma_forest_insert_last_multiset(head.subtasks, dest, t);
        let subs2 = forest_insert_last(head.subtasks, dest, t).unwrap();
        let head2 = TaskView { subtasks: subs2, ..head };
        assert(ts2 == tail.insert(0, head2));
        assert(export_forest(ts2) == export_tree(head2) + export_forest(tail));
        assert(export_tree(head2) == export_forest(subs2).insert(0, head.id));
        assert(export_tree(head) == export_forest(head.subtasks).insert(0, head.id));
        assert(export_forest(ts2).to_multiset() =~= export_forest(ts).to_multiset().add(
            export_tree(t).to_multiset(),
        ));
    } else {
        lemma_forest_insert_last_multiset(tail, dest, t);
        let rest2 = forest_insert_last(tail, dest, t).unwrap();
        assert(ts2 == rest2.insert(0, head));
        assert(export_forest(ts2) == export_tree(head) + export_forest(rest2));
        assert(export_forest(ts2).to_multiset() =~= export_forest(ts).to_multiset().add(
            export_tree(t).to_multiset(),
        ));
    }
}

/// The same, for the two task splices the add command uses on the chain.
pub proof fn lemma_cols_add_task_last_multiset(cs: Seq<ColumnView>, dest: Id, t: TaskView)
    requires
        cols_add_task_last(cs, dest, t) is Some,
    ensures
        export_cols(cols_add_task_last(cs, dest, t).unwrap()).to_multiset() == export_cols(
            cs,
        ).to_multiset().add(export_tree(t).to_multiset()),
    decreases cs,
{
    let cs2 = cols_add_task_last(cs, dest, t).unwrap();
    let head = cs[0];
    let tail = cs.drop_first();
    assert(export_cols(cs) == (export_forest(head.tasks) + export_cols(tail)).insert(0, head.id));
    if head.id == dest {
        let head2 = ColumnView { tasks: head.tasks.push(t), ..head };
        lemma_export_forest_push(head.tasks, t);
        assert(cs2 == tail.insert(0, head2));
        assert(export_cols(cs2) == (export_forest(head.tasks.push(t)) + export_cols(tail)).insert(
            0,
            head.id,
        ));
        assert(export_cols(cs2).to_multiset() =~= export_cols(cs).to_multiset().add(
            export_tree(t).to_multiset(),
        ));
    } else {
        lemma_cols_add_task_last_multiset(tail, dest, t);
        let rest2 = cols_add_task_last(tail, dest, t).unwrap();
        assert(cs2 == rest2.insert(0, head));
        assert(export_cols(cs2) == (export_forest(head.tasks) + export_cols(rest2)).insert(
            0,
            head.id,
        ));
        assert(export_cols(cs2).to_multiset() =~= export_cols(cs).to_multiset().add(
            export_tree(t).to_multiset(),
        ));
    }
}

/// The same, for a splice under a task found in some column.
pub proof fn lemma_cols_task_insert_last_multiset(cs: Seq<ColumnView>, dest: Id, t: TaskView)
    requires
        cols_task_insert_last(cs, dest, t) is Some,
    ensures
        export_cols(cols_task_insert_last(cs, dest, t).unwrap()).to_multiset() == export_cols(
            cs,
        ).to_multiset().add(export_tree(t).to_multiset()),
    decreases cs,
{
    let cs2 = cols_task_insert_last(cs, dest, t).unwrap();
    let head = cs[0];
    let tail = cs.drop_first();
    assert(export_cols(cs) == (export_forest(head.tasks) + export_cols(tail)).insert(0, head.id));
    if forest_insert_last(head.tasks, dest, t) is Some {
        lemma_forest_insert_last_multiset(head.tasks, dest, t);
        let tasks2 = forest_insert_last(head.tasks, dest, t).unwrap();
        let head2 = ColumnView { tasks: tasks2, ..head };
        assert(cs2 == tail.insert(0, head2));
        assert(export_cols(cs2) == (export_forest(tasks2) + export_cols(tail)).insert(0, head.id));
        assert(export_cols(cs2).to_multiset() =~= export_cols(cs).to_multiset().add(
            export_tree(t).to_multiset(),
        ));
    } else {
        lemma_cols_task_insert_last_multiset(tail, dest, t);
        let rest2 = cols_task_insert_last(tail, dest, t).unwrap();
        assert(cs2 == rest2.insert(0, head));
        assert(export_cols(cs2) == (export_forest(head.tasks) + export_cols(rest2)).insert(
            0,
            head.id,
        ));
        assert(export_cols(cs2).to_multiset() =~= export_cols(cs).to_multiset().add(
            export_tree(t).to_multiset(),
        ));
    }
}

// ---------------------------------------------------------------------------
// Round-trip structure: what the add commands do to the depth-first export
// ---------------------------------------------------------------------------

/// Adding a column always succeeds and appends exactly one node, the fresh
/// one, at the very end of the depth-first export; every node already there
/// keeps its place.
pub proof fn lemma_add_column_appends(b: BoardView, fresh: Id, title: Seq<char>)
    ensures
        step(b, fresh, ActionV::AddColumn { title }) is Some,
        export_board(step(b, fresh, ActionV::AddColumn { title }).unwrap()) == export_board(
            b,
        ).push(fresh),
{
    let cv = ColumnView { id: fresh, title, tasks: Seq::empty() };
    lemma_export_cols_push(b.columns, cv);
    assert(export_forest(cv.tasks) == Seq::<Id>::empty());
    assert(export_cols(b.columns) + Seq::<Id>::empty().insert(0, fresh) =~= export_cols(
        b.columns,
    ).push(fresh));
}

/// The board after a whole run of column adds, one fresh identifier per
/// title, in order.
pub open spec fn add_columns(b: BoardView, fresh: Seq<Id>, titles: Seq<Seq<char>>) -> BoardView
    decreases titles.len(),
{
    if titles.len() == 0 || fresh.len() != titles.len() {
        b
    } else {
        add_columns(
            step(b, fresh[0], ActionV::AddColumn { title: titles[0] }).unwrap(),
            fresh.drop_first(),
            titles.drop_first(),
        )
    }
}

/// Round-trip structure over a whole run: any sequence of column adds
/// appends exactly the created nodes, in insertion order, at the end of the
/// depth-first export; every node already present keeps its place.
pub proof fn lemma_add_column_run(b: BoardView, fresh: Seq<Id>, titles: Seq<Seq<char>>)
    requires
        fresh.len() == titles.len(),
    ensures
        export_board(add_columns(b, fresh, titles)) == export_board(b) + fresh,
    decreases titles.len(),
{
    if titles.len() == 0 {
        assert(export_board(b) + fresh =~= export_board(b));
    } else {
        lemma_add_column_appends(b, fresh[0], titles[0]);
        let b1 = step(b, fresh[0], ActionV::AddColumn { title: titles[0] }).unwrap();
        lemma_add_column_run(b1, fresh.drop_first(), titles.drop_first());
        assert(export_board(b).push(fresh[0]) + fresh.drop_first() =~= export_board(b) + fresh);
    }
}

/// A task add that succeeds contributes exactly one node: the export of the
/// new board is the old export plus the fresh identifier, which, being
/// fresh, now appears exactly once.
pub proof fn lemma_add_task_adds_one(b: BoardView, fresh: Id, dest: Id, content: Seq<char>)
    requires
        step(b, fresh, ActionV::AddTask { dest, content }) is Some,
        !export_board(b).contains(fresh),
    ensures
        ({
            let t = TaskView { id: fresh, content, subtasks: Seq::empty() };
            let b2 = step(b, fresh, ActionV::AddTask { dest, content }).unwrap();
            &&& export_board(b2).to_multiset() == export_board(b).to_multiset().insert(fresh)
            &&& export_board(b2).to_multiset().count(fresh) == 1
            &&& cols_task_find(b2.columns, fresh) == Some(t)
        }),
{
    let t = TaskView { id: fresh, content, subtasks: Seq::empty() };
    assert(export_tree(t) =~= Seq::<Id>::empty().push(fresh));
    assert(export_tree(t).to_multiset() =~= Multiset::<Id>::empty().insert(fresh));
    lemma_cols_contains_export(b.columns, fresh);
    if cols_contain(b.columns, dest) {
        lemma_cols_add_task_last_multiset(b.columns, dest, t);
        lemma_cols_add_task_last_find(b.columns, dest, t);
    } else {
        lemma_cols_task_insert_last_multiset(b.columns, dest, t);
        lemma_cols_task_insert_last_find(b.columns, dest, t);
    }
    let b2 = step(b, fresh, ActionV::AddTask { dest, content }).unwrap();
    assert(export_board(b2).to_multiset() =~= export_board(b).to_multiset().insert(fresh));
}

/// Detaching a column splits the export likewise.
pub proof fn lemma_cols_remove_multiset(cs: Seq<ColumnView>, x: Id)
    requires
        cols_remove(cs, x) is Some,
    ensures
        ({
            let (c, rest) = cols_remove(cs, x).unwrap();
            export_cols(cs).to_multiset() == export_cols(rest).to_multiset().add(
                export_forest(c.tasks).insert(0, c.id).to_multiset(),
            )
        }),
    decreases cs,
{
    let (c, rest) = cols_remove(cs, x).unwrap();
    let head = cs[0];
    let tail = cs.drop_first();
    assert(export_cols(cs) == (export_forest(head.tasks) + export_cols(tail)).insert(0, head.id));
    if head.id == x {
        assert(export_cols(cs).to_multiset() =~= export_cols(rest).to_multiset().add(
            export_forest(c.tasks).insert(0, c.id).to_multiset(),
        ));
    } else {
        lemma_cols_remove_multiset(tail, x);
        let (c1, rest1) = cols_remove(tail, x).unwrap();
        assert(rest == rest1.insert(0, head));
        assert(export_cols(rest) == (export_forest(head.tasks) + export_cols(rest1)).insert(
            0,
            head.id,
        ));
        assert(export_cols(cs).to_multiset() =~= export_cols(rest).to_multiset().add(
            export_forest(c.tasks).insert(0, c.id).to_multiset(),
        ));
    }
}

/// Splicing a tree in as a first subtask adds exactly its export block.
pub proof fn lemma_forest_insert_first_multiset(ts: Seq<TaskView>, dest: Id, t: TaskView)
    requires
        forest_insert_first(ts, dest, t) is Some,
    ensures
        export_forest(forest_insert_first(ts, dest, t).unwrap()).to_multiset() == export_forest(
            ts,
        ).to_multiset().add(export_tree(t).to_multiset()),
    decreases ts,
{
    let ts2 = forest_insert_first(ts, dest, t).unwrap();
    let head = ts[0];
    let tail = ts.drop_first();
    assert(export_forest(ts) == export_tree(head) + export_forest(tail));
    if head.id == dest {
        let head2 = TaskView { subtasks: head.subtasks.insert(0, t), ..head };
        assert(ts2 == tail.insert(0, head2));
        assert(export_forest(ts2) == export_tree(head2) + export_forest(tail));
        assert(export_tree(head2) == export_forest(head.subtasks.insert(0, t)).insert(0, head.id));
        assert(head.subtasks.insert(0, t)[0] == t);
        assert(head.subtasks.insert(0, t).drop_first() == head.subtasks);
        assert(export_forest(head.subtasks.insert(0, t)) == export_tree(t) + export_forest(
            head.subtasks,
        ));
        assert(export_forest(ts2).to_multiset() =~= export_forest(ts).to_multiset().add(
            export_tree(t).to_multiset(),
        ));
    } else if forest_insert_first(head.subtasks, dest, t) is Some {
        lemma_forest_insert_first_multiset(head.subtasks, dest, t);
        let subs2 = forest_insert_first(head.subtasks, dest, t).unwrap();
        let head2 = TaskView { subtasks: subs2, ..head };
        assert(ts2 == tail.insert(0, head2));
        assert(export_forest(ts2) == export_tree(head2) + export_forest(tail));
        assert(export_tree(head2) == export_forest(subs2).insert(0, head.id));
        assert(export_tree(head) == export_forest(head.subtasks).insert(0, head.id));
        assert(export_forest(ts2).to_multiset() =~= export_forest(ts).to_multiset().add(
            export_tree(t).to_multiset(),
        ));
    } else {
        lemma_forest_insert_first_multiset(tail, dest, t);
        let rest2 = forest_insert_first(tail, dest, t).unwrap();
        assert(ts2 == rest2.insert(0, head));
        assert(export_forest(ts2) == export_tree(head) + export_forest(rest2));
        assert(export_forest(ts2).to_multiset() =~= export_forest(ts).to_multiset().add(
            export_tree(t).to_multiset(),
        ));
    }
}

/// Splicing a tree in as a next sibling adds exactly its export block.
pub proof fn lemma_forest_insert_after_multiset(ts: Seq<TaskView>, dest: Id, t: TaskView)
    requires
        forest_insert_after(ts, dest, t) is Some,
    ensures
        export_forest(forest_insert_after(ts, dest, t).unwrap()).to_multiset() == export_forest(
            ts,
        ).to_multiset().add(export_tree(t).to_multiset()),
    decreases ts,
{
    let ts2 = forest_insert_after(ts, dest, t).unwrap();
    let head = ts[0];
    let tail = ts.drop_first();
    assert(export_forest(ts) == export_tree(head) + export_forest(tail));
    if head.id == dest {
        assert(ts2 == tail.insert(0, t).insert(0, head));
        assert(export_forest(ts2) == export_tree(head) + export_forest(tail.insert(0, t)));
        assert(tail.insert(0, t)[0] == t);
        assert(tail.insert(0, t).drop_first() == tail);
        assert(export_forest(tail.insert(0, t)) == export_tree(t) + export_forest(tail));
        assert(export_forest(ts2).to_multiset() =~= export_forest(ts).to_multiset().add(
            export_tree(t).to_multiset(),
        ));
    } else if forest_insert_after(head.subtasks, dest, t) is Some {
        lemma_forest_insert_after_multiset(head.subtasks, dest, t);
        let subs2 = forest_insert_after(head.subtasks, dest, t).unwrap();
        let head2 = TaskView { subtasks: subs2, ..head };
        assert(ts2 == tail.insert(0, head2));
        assert(export_forest(ts2) == export_tree(head2) + export_forest(tail));
        assert(export_tree(head2) == export_forest(subs2).insert(0, head.id));
        assert(export_tree(head) == export_forest(head.subtasks).insert(0, head.id));
        assert(export_forest(ts2).to_multiset() =~= export_forest(ts).to_multiset().add(
            export_tree(t).to_multiset(),
        ));
    } else {
        lemma_forest_insert_after_multiset(tail, dest, t);
        let rest2 = forest_insert_after(tail, dest, t).unwrap();
        assert(ts2 == rest2.insert(0, head));
        assert(export_forest(ts2) == export_tree(head) + export_forest(rest2));
        assert(export_forest(ts2).to_multiset() =~= export_forest(ts).to_multiset().add(
            export_tree(t).to_multiset(),
        ));
    }
}

/// The three chain-level task splices add exactly the inserted block.
pub proof fn lemma_cols_splice_multiset(cs: Seq<ColumnView>, dest: Id, t: TaskView)
    ensures
        cols_add_task_first(cs, dest, t) is Some ==> export_cols(
            cols_add_task_first(cs, dest, t).unwrap(),
        ).to_multiset() == export_cols(cs).to_multiset().add(export_tree(t).to_multiset()),
        cols_task_insert_first(cs, dest, t) is Some ==> export_cols(
            cols_task_insert_first(cs, dest, t).unwrap(),
        ).to_multiset() == export_cols(cs).to_multiset().add(export_tree(t).to_multiset()),
        cols_task_insert_after(cs, dest, t) is Some ==> export_cols(
            cols_task_insert_after(cs, dest, t).unwrap(),
        ).to_multiset() == export_cols(cs).to_multiset().add(export_tree(t).to_multiset()),
    decreases cs,
{
    if cs.len() == 0 {
        assert(cols_add_task_first(cs, dest, t) is None);
    } else {
        let head = cs[0];
        let tail = cs.drop_first();
        assert(export_cols(cs) == (export_forest(head.tasks) + export_cols(tail)).insert(
            0,
            head.id,
        ));
        lemma_cols_splice_multiset(tail, dest, t);
        if cols_add_task_first(cs, dest, t) is Some {
            let cs2 = cols_add_task_first(cs, dest, t).unwrap();
            if head.id == dest {
                let head2 = ColumnView { tasks: head.tasks.insert(0, t), ..head };
                assert(cs2 == tail.insert(0, head2));
                assert(export_cols(cs2) == (export_forest(head.tasks.insert(0, t)) + export_cols(
                    tail,
                )).insert(0, head.id));
                assert(head.tasks.insert(0, t)[0] == t);
                assert(head.tasks.insert(0, t).drop_first() == head.tasks);
                assert(export_forest(head.tasks.insert(0, t)) == export_tree(t) + export_forest(
                    head.tasks,
                ));
                assert(export_cols(cs2).to_multiset() =~= export_cols(cs).to_multiset().add(
                    export_tree(t).to_multiset(),
                ));
            } else {
                let rest2 = cols_add_task_first(tail, dest, t).unwrap();
                assert(cs2 == rest2.insert(0, head));
                assert(export_cols(cs2) == (export_forest(head.tasks) + export_cols(rest2)).insert(
                    0,
                    head.id,
                ));
                assert(export_cols(cs2).to_multiset() =~= export_cols(cs).to_multiset().add(
                    export_tree(t).to_multiset(),
                ));
            }
    }
    if cols_task_insert_first(cs, dest, t) is Some {
        let cs2 = cols_task_insert_first(cs, dest, t).unwrap();
        if forest_insert_first(head.tasks, dest, t) is Some {
            lemma_forest_insert_first_multiset(head.tasks, dest, t);
            let tasks2 = forest_insert_first(head.tasks, dest, t).unwrap();
            assert(cs2 == tail.insert(0, (ColumnView { tasks: tasks2, ..head })));
            assert(export_cols(cs2) == (export_forest(tasks2) + export_cols(tail)).insert(
                0,
                head.id,
            ));
            assert(export_cols(cs2).to_multiset() =~= export_cols(cs).to_multiset().add(
                export_tree(t).to_multiset(),
            ));
        } else {
            let rest2 = cols_task_insert_first(tail, dest, t).unwrap();
            assert(cs2 == rest2.insert(0, head));
            assert(export_cols(cs2) == (export_forest(head.tasks) + export_cols(rest2)).insert(
                0,
                head.id,
            ));
            assert(export_cols(cs2).to_multiset() =~= export_cols(cs).to_multiset().add(
                export_tree(t).to_multiset(),
            ));
        }
    }
    if cols_task_insert_after(cs, dest, t) is Some {
        let cs2 = cols_task_insert_after(cs, dest, t).unwrap();
        if forest_insert_after(head.tasks, dest, t) is Some {
            lemma_forest_insert_after_multiset(head.tasks, dest, t);
            let tasks2 = forest_insert_after(head.tasks, dest, t).unwrap();
            assert(cs2 == tail.insert(0, (ColumnView { tasks: tasks2, ..head })));
            assert(export_cols(cs2) == (export_forest(tasks2) + export_cols(tail)).insert(
                0,
                head.id,
            ));
            assert(export_cols(cs2).to_multiset() =~= export_cols(cs).to_multiset().add(
                export_tree(t).to_multiset(),
            ));
        } else {
            let rest2 = cols_task_insert_after(tail, dest, t).unwrap();
            assert(cs2 == rest2.insert(0, head));
            assert(export_cols(cs2) == (export_forest(head.tasks) + export_cols(rest2)).insert(
                0,
                head.id,
            ));
            assert(export_cols(cs2).to_multiset() =~= export_cols(cs).to_multiset().add(
                export_tree(t).to_multiset(),
            ));
        }
    }
    }
}

/// Splicing a detached column back in adds exactly its export block.
pub proof fn lemma_cols_insert_after_multiset(cs: Seq<ColumnView>, dest: Id, c: ColumnView)
    requires
        cols_insert_after(cs, dest, c) is Some,
    ensures
        export_cols(cols_insert_after(cs, dest, c).unwrap()).to_multiset() == export_cols(
            cs,
        ).to_multiset().add(export_forest(c.tasks).insert(0, c.id).to_multiset()),
    decreases cs,
{
    let cs2 = cols_insert_after(cs, dest, c).unwrap();
    let head = cs[0];
    let tail = cs.drop_first();
    assert(export_cols(cs) == (export_forest(head.tasks) + export_cols(tail)).insert(0, head.id));
    if head.id == dest {
        assert(cs2 == tail.insert(0, c).insert(0, head));
        assert(export_cols(cs2) == (export_forest(head.tasks) + export_cols(tail.insert(
            0,
            c,
        ))).insert(0, head.id));
        assert(tail.insert(0, c)[0] == c);
        assert(tail.insert(0, c).drop_first() == tail);
        assert(export_cols(tail.insert(0, c)) == (export_forest(c.tasks) + export_cols(
            tail,
        )).insert(0, c.id));
        assert(export_cols(cs2).to_multiset() =~= export_cols(cs).to_multiset().add(
            export_forest(c.tasks).insert(0, c.id).to_multiset(),
        ));
    } else {
        lemma_cols_insert_after_multiset(tail, dest, c);
        let rest2 = cols_insert_after(tail, dest, c).unwrap();
        assert(cs2 == rest2.insert(0, head));
        assert(export_cols(cs2) == (export_forest(head.tasks) + export_cols(rest2)).insert(
            0,
            head.id,
        ));
        assert(export_cols(cs2).to_multiset() =~= export_cols(cs).to_multiset().add(
            export_forest(c.tasks).insert(0, c.id).to_multiset(),
        ));
    }
}

/// An in-place edit changes no identifier: the export is untouched.
pub proof fn lemma_forest_edit_export(ts: Seq<TaskView>, dest: Id, content: Seq<char>)
    requires
        forest_edit(ts, dest, content) is Some,
    ensures
        export_forest(forest_edit(ts, dest, content).unwrap()) == export_forest(ts),
    decreases ts,
{
    let ts2 = forest_edit(ts, dest, content).unwrap();
    let head = ts[0];
    let tail = ts.drop_first();
    assert(export_forest(ts) == export_tree(head) + export_forest(tail));
    if head.id == dest {
        let head2 = TaskView { content, ..head };
        assert(ts2 == tail.insert(0, head2));
        assert(export_forest(ts2) == export_tree(head2) + export_forest(tail));
        assert(export_tree(head2) == export_tree(head));
    } else if forest_edit(head.subtasks, dest, content) is Some {
        lemma_forest_edit_export(head.subtasks, dest, content);
        let head2 = TaskView { subtasks: forest_edit(head.subtasks, dest, content).unwrap(), ..head };
        assert(ts2 == tail.insert(0, head2));
        assert(export_forest(ts2) == export_tree(head2) + export_forest(tail));
        assert(export_tree(head2) == export_tree(head));
    } else {
        lemma_forest_edit_export(tail, dest, content);
        let rest2 = forest_edit(tail, dest, content).unwrap();
        assert(ts2 == rest2.insert(0, head));
        assert(export_forest(ts2) == export_tree(head) + export_forest(rest2));
    }
}

/// The chain-level edits change no identifier either.
pub proof fn lemma_cols_edit_export(cs: Seq<ColumnView>, dest: Id, text: Seq<char>)
    ensures
        cols_task_edit(cs, dest, text) is Some ==> export_cols(
            cols_task_edit(cs, dest, text).unwrap(),
        ) == export_cols(cs),
        cols_edit(cs, dest, text) is Some ==> export_cols(cols_edit(cs, dest, text).unwrap())
            == export_cols(cs),
    decreases cs,
{
    if cs.len() == 0 {
        assert(cols_edit(cs, dest, text) is None);
    } else {
        let head = cs[0];
        let tail = cs.drop_first();
        assert(export_cols(cs) == (export_forest(head.tasks) + export_cols(tail)).insert(
            0,
            head.id,
        ));
        lemma_cols_edit_export(tail, dest, text);
        if cols_task_edit(cs, dest, text) is Some {
            let cs2 = cols_task_edit(cs, dest, text).unwrap();
            if forest_edit(head.tasks, dest, text) is Some {
                lemma_forest_edit_export(head.tasks, dest, text);
                let tasks2 = forest_edit(head.tasks, dest, text).unwrap();
                assert(cs2 == tail.insert(0, (ColumnView { tasks: tasks2, ..head })));
                assert(export_cols(cs2) == (export_forest(tasks2) + export_cols(tail)).insert(
                    0,
                    head.id,
                ));
            } else {
                let rest2 = cols_task_edit(tail, dest, text).unwrap();
                assert(cs2 == rest2.insert(0, head));
                assert(export_cols(cs2) == (export_forest(head.tasks) + export_cols(rest2)).insert(
                    0,
                    head.id,
                ));
            }
    }
    if cols_edit(cs, dest, text) is Some {
        let cs2 = cols_edit(cs, dest, text).unwrap();
        if head.id == dest {
            let head2 = ColumnView { title: text, ..head };
            assert(cs2 == tail.insert(0, head2));
            assert(export_cols(cs2) == (export_forest(head.tasks) + export_cols(tail)).insert(
                0,
                head.id,
            ));
        } else {
            let rest2 = cols_edit(tail, dest, text).unwrap();
            assert(cs2 == rest2.insert(0, head));
            assert(export_cols(cs2) == (export_forest(head.tasks) + export_cols(rest2)).insert(
                0,
                head.id,
            ));
        }
    }
    }
}

// ---------------------------------------------------------------------------
// The detach takes the very tree the locator finds
// ---------------------------------------------------------------------------

/// The removed task carries the identifier that was asked for.
pub proof fn lemma_remove_id(ts: Seq<TaskView>, x: Id)
    requires
        forest_remove(ts, x) is Some,
    ensures
        forest_remove(ts, x).unwrap().0.id == x,
    decreases ts,
{
    if ts.len() > 0 && ts[0].id != x {
        if forest_remove(ts[0].subtasks, x) is Some {
            lemma_remove_id(ts[0].subtasks, x);
        } else {
            lemma_remove_id(ts.drop_first(), x);
        }
    }
}

/// As `lemma_remove_id`, across the column chain.
pub proof fn lemma_cols_task_remove_id(cs: Seq<ColumnView>, x: Id)
    requires
        cols_task_remove(cs, x) is Some,
    ensures
        cols_task_remove(cs, x).unwrap().0.id == x,
    decreases cs,
{
    if cs.len() > 0 {
        if forest_remove(cs[0].tasks, x) is Some {
            lemma_remove_id(cs[0].tasks, x);
        } else {
            lemma_cols_task_remove_id(cs.drop_first(), x);
        }
    }
}

/// Searching and detaching follow one order: the tree the detach removes is
/// the tree the locator returns.
pub proof fn lemma_find_is_remove(ts: Seq<TaskView>, x: Id)
    ensures
        forest_remove(ts, x) is Some ==> forest_find(ts, x) == Some(
            forest_remove(ts, x).unwrap().0,
        ),
        forest_remove(ts, x) is None ==> forest_find(ts, x) is None,
    decreases ts,
{
    if ts.len() > 0 {
        lemma_find_is_remove(ts[0].subtasks, x);
        lemma_find_is_remove(ts.drop_first(), x);
    }
}

/// As `lemma_find_is_remove`, across the column chain.
pub proof fn lemma_cols_find_is_remove(cs: Seq<ColumnView>, x: Id)
    ensures
        cols_task_remove(cs, x) is Some ==> cols_task_find(cs, x) == Some(
            cols_task_remove(cs, x).unwrap().0,
        ),
        cols_task_remove(cs, x) is None ==> cols_task_find(cs, x) is None,
    decreases cs,
{
    if cs.len() > 0 {
        lemma_find_is_remove(cs[0].tasks, x);
        lemma_cols_find_is_remove(cs.drop_first(), x);
    }
}

// ---------------------------------------------------------------------------
// After a splice of a tree whose root is fresh, the locator finds that tree
// ---------------------------------------------------------------------------

/// A tree appended at the end of a forest free of its identifier is what a
/// search for that identifier then finds.
pub proof fn lemma_find_in_pushed(ts: Seq<TaskView>, t: TaskView)
    requires
        !forest_contains(ts, t.id),
    ensures
        forest_find(ts.push(t), t.id) == Some(t),
    decreases ts,
{
    if ts.len() == 0 {
        assert(ts.push(t)[0] == t);
    } else {
        assert(ts.push(t)[0] == ts[0]);
        assert(ts.push(t).drop_first() =~= ts.drop_first().push(t));
        lemma_forest_find_some(ts[0].subtasks, t.id);
        lemma_find_in_pushed(ts.drop_first(), t);
    }
}

/// After a first-subtask splice the tree is found under its identifier.
pub proof fn lemma_forest_insert_first_find(ts: Seq<TaskView>, dest: Id, t: TaskView)
    requires
        forest_insert_first(ts, dest, t) is Some,
        !forest_contains(ts, t.id),
    ensures
        forest_find(forest_insert_first(ts, dest, t).unwrap(), t.id) == Some(t),
    decreases ts,
{
    let ts2 = forest_insert_first(ts, dest, t).unwrap();
    let head = ts[0];
    let tail = ts.drop_first();
    assert(head.id != t.id);
    if head.id == dest {
        let head2 = TaskView { subtasks: head.subtasks.insert(0, t), ..head };
        assert(ts2 == tail.insert(0, head2));
        assert(head2.subtasks[0] == t);
        assert(forest_find(head2.subtasks, t.id) == Some(t));
        assert(forest_find(ts2, t.id) == Some(t));
    } else if forest_insert_first(head.subtasks, dest, t) is Some {
        lemma_forest_insert_first_find(head.subtasks, dest, t);
        let head2 = TaskView {
            subtasks: forest_insert_first(head.subtasks, dest, t).unwrap(),
            ..head
        };
        assert(ts2 == tail.insert(0, head2));
        assert(forest_find(ts2, t.id) == Some(t));
    } else {
        lemma_forest_insert_first_find(tail, dest, t);
        lemma_forest_find_some(head.subtasks, t.id);
        assert(ts2 == forest_insert_first(tail, dest, t).unwrap().insert(0, head));
        assert(forest_find(ts2, t.id) == Some(t));
    }
}

/// After a last-subtask splice the tree is found under its identifier.
pub proof fn lemma_forest_insert_last_find(ts: Seq<TaskView>, dest: Id, t: TaskView)
    requires
        forest_insert_last(ts, dest, t) is Some,
        !forest_contains(ts, t.id),
    ensures
        forest_find(forest_insert_last(ts, dest, t).unwrap(), t.id) == Some(t),
    decreases ts,
{
    let ts2 = forest_insert_last(ts, dest, t).unwrap();
    let head = ts[0];
    let tail = ts.drop_first();
    assert(head.id != t.id);
    if head.id == dest {
        let head2 = TaskView { subtasks: head.subtasks.push(t), ..head };
        assert(ts2 == tail.insert(0, head2));
        lemma_find_in_pushed(head.subtasks, t);
        assert(forest_find(ts2, t.id) == Some(t));
    } else if forest_insert_last(head.subtasks, dest, t) is Some {
        lemma_forest_insert_last_find(head.subtasks, dest, t);
        let head2 = TaskView {
            subtasks: forest_insert_last(head.subtasks, dest, t).unwrap(),
            ..head
        };
        assert(ts2 == tail.insert(0, head2));
        assert(forest_find(ts2, t.id) == Some(t));
    } else {
        lemma_forest_insert_last_find(tail, dest, t);
        lemma_forest_find_some(head.subtasks, t.id);
        assert(ts2 == forest_insert_last(tail, dest, t).unwrap().insert(0, head));
        assert(forest_find(ts2, t.id) == Some(t));
    }
}

/// After a next-sibling splice the tree is found under its identifier.
pub proof fn lemma_forest_insert_after_find(ts: Seq<TaskView>, dest: Id, t: TaskView)
    requires
        forest_insert_after(ts, dest, t) is Some,
        !forest_contains(ts, t.id),
    ensures
        forest_find(forest_insert_after(ts, dest, t).unwrap(), t.id) == Some(t),
    decreases ts,
{
    let ts2 = forest_insert_after(ts, dest, t).unwrap();
    let head = ts[0];
    let tail = ts.drop_first();
    assert(head.id != t.id);
    if head.id == dest {
        assert(ts2 == tail.insert(0, t).insert(0, head));
        lemma_forest_find_some(head.subtasks, t.id);
        assert(tail.insert(0, t)[0] == t);
        assert(forest_find(tail.insert(0, t), t.id) == Some(t));
        assert(forest_find(ts2, t.id) == Some(t));
    } else if forest_insert_after(head.subtasks, dest, t) is Some {
        lemma_forest_insert_after_find(head.subtasks, dest, t);
        let head2 = TaskView {
            subtasks: forest_insert_after(head.subtasks, dest, t).unwrap(),
            ..head
        };
        assert(ts2 == tail.insert(0, head2));
        assert(forest_find(ts2, t.id) == Some(t));
    } else {
        lemma_forest_insert_after_find(tail, dest, t);
        lemma_forest_find_some(head.subtasks, t.id);
        assert(ts2 == forest_insert_after(tail, dest, t).unwrap().insert(0, head));
        assert(forest_find(ts2, t.id) == Some(t));
    }
}

/// After a last-task splice into a column the tree is found.
pub proof fn lemma_cols_add_task_last_find(cs: Seq<ColumnView>, dest: Id, t: TaskView)
    requires
        cols_add_task_last(cs, dest, t) is Some,
        !cols_task_contains(cs, t.id),
    ensures
        cols_task_find(cols_add_task_last(cs, dest, t).unwrap(), t.id) == Some(t),
    decreases cs,
{
    let cs2 = cols_add_task_last(cs, dest, t).unwrap();
    let head = cs[0];
    let tail = cs.drop_first();
    if head.id == dest {
        let head2 = ColumnView { tasks: head.tasks.push(t), ..head };
        assert(cs2 == tail.insert(0, head2));
        lemma_find_in_pushed(head.tasks, t);
        assert(cols_task_find(cs2, t.id) == Some(t));
    } else {
        lemma_cols_add_task_last_find(tail, dest, t);
        lemma_forest_find_some(head.tasks, t.id);
        assert(cs2 == cols_add_task_last(tail, dest, t).unwrap().insert(0, head));
        assert(cols_task_find(cs2, t.id) == Some(t));
    }
}

/// After a last-subtask splice in some column the tree is found.
pub proof fn lemma_cols_task_insert_last_find(cs: Seq<ColumnView>, dest: Id, t: TaskView)
    requires
        cols_task_insert_last(cs, dest, t) is Some,
        !cols_task_contains(cs, t.id),
    ensures
        cols_task_find(cols_task_insert_last(cs, dest, t).unwrap(), t.id) == Some(t),
    decreases cs,
{
    let cs2 = cols_task_insert_last(cs, dest, t).unwrap();
    let head = cs[0];
    let tail = cs.drop_first();
    if forest_insert_last(head.tasks, dest, t) is Some {
        lemma_forest_insert_last_find(head.tasks, dest, t);
        let head2 = ColumnView { tasks: forest_insert_last(head.tasks, dest, t).unwrap(), ..head };
        assert(cs2 == tail.insert(0, head2));
        assert(cols_task_find(cs2, t.id) == Some(t));
    } else {
        lemma_cols_task_insert_last_find(tail, dest, t);
        lemma_forest_find_some(head.tasks, t.id);
        assert(cs2 == cols_task_insert_last(tail, dest, t).unwrap().insert(0, head));
        assert(cols_task_find(cs2, t.id) == Some(t));
    }
}

/// After a first-task splice into a column the tree is found.
pub proof fn lemma_cols_add_task_first_find(cs: Seq<ColumnView>, dest: Id, t: TaskView)
    requires
        cols_add_task_first(cs, dest, t) is Some,
        !cols_task_contains(cs, t.id),
    ensures
        cols_task_find(cols_add_task_first(cs, dest, t).unwrap(), t.id) == Some(t),
    decreases cs,
{
    let cs2 = cols_add_task_first(cs, dest, t).unwrap();
    let head = cs[0];
    let tail = cs.drop_first();
    if head.id == dest {
        let head2 = ColumnView { tasks: head.tasks.insert(0, t), ..head };
        assert(cs2 == tail.insert(0, head2));
        assert(head2.tasks[0] == t);
        assert(forest_find(head2.tasks, t.id) == Some(t));
        assert(cols_task_find(cs2, t.id) == Some(t));
    } else {
        lemma_cols_add_task_first_find(tail, dest, t);
        lemma_forest_find_some(head.tasks, t.id);
        assert(cs2 == cols_add_task_first(tail, dest, t).unwrap().insert(0, head));
        assert(cols_task_find(cs2, t.id) == Some(t));
    }
}

/// After a first-subtask splice in some column the tree is found.
pub proof fn lemma_cols_task_insert_first_find(cs: Seq<ColumnView>, dest: Id, t: TaskView)
    requires
        cols_task_insert_first(cs, dest, t) is Some,
        !cols_task_contains(cs, t.id),
    ensures
        cols_task_find(cols_task_insert_first(cs, dest, t).unwrap(), t.id) == Some(t),
    decreases cs,
{
    let cs2 = cols_task_insert_first(cs, dest, t).unwrap();
    let head = cs[0];
    let tail = cs.drop_first();
    if forest_insert_first(head.tasks, dest, t) is Some {
        lemma_forest_insert_first_find(head.tasks, dest, t);
        let head2 = ColumnView { tasks: forest_insert_first(head.tasks, dest, t).unwrap(), ..head };
        assert(cs2 == tail.insert(0, head2));
        assert(cols_task_find(cs2, t.id) == Some(t));
    } else {
        lemma_cols_task_insert_first_find(tail, dest, t);
        lemma_forest_find_some(head.tasks, t.id);
        assert(cs2 == cols_task_insert_first(tail, dest, t).unwrap().insert(0, head));
        assert(cols_task_find(cs2, t.id) == Some(t));
    }
}

/// After a next-sibling splice in some column the tree is found.
pub proof fn lemma_cols_task_insert_after_find(cs: Seq<ColumnView>, dest: Id, t: TaskView)
    requires
        cols_task_insert_after(cs, dest, t) is Some,
        !cols_task_contains(cs, t.id),
    ensures
        cols_task_find(cols_task_insert_after(cs, dest, t).unwrap(), t.id) == Some(t),
    decreases cs,
{
    let cs2 = cols_task_insert_after(cs, dest, t).unwrap();
    let head = cs[0];
    let tail = cs.drop_first();
    if forest_insert_after(head.tasks, dest, t) is Some {
        lemma_forest_insert_after_find(head.tasks, dest, t);
        let head2 = ColumnView { tasks: forest_insert_after(head.tasks, dest, t).unwrap(), ..head };
        assert(cs2 == tail.insert(0, head2));
        assert(cols_task_find(cs2, t.id) == Some(t));
    } else {
        lemma_cols_task_insert_after_find(tail, dest, t);
        lemma_forest_find_some(head.tasks, t.id);
        assert(cs2 == cols_task_insert_after(tail, dest, t).unwrap().insert(0, head));
        assert(cols_task_find(cs2, t.id) == Some(t));
    }
}

// ---------------------------------------------------------------------------
// With unique identifiers, a detached subtree is gone without trace
// ---------------------------------------------------------------------------

/// Every identifier of the removed subtree is absent from the remaining
/// tree: descendants are not re-parented, and nothing else was taken.
pub proof fn lemma_removed_task_gone(cs: Seq<ColumnView>, src: Id, x: Id)
    requires
        export_cols(cs).no_duplicates(),
        cols_task_remove(cs, src) is Some,
        tree_contains(cols_task_remove(cs, src).unwrap().0, x),
    ensures
        !cols_contain(cols_task_remove(cs, src).unwrap().1, x),
        !cols_task_contains(cols_task_remove(cs, src).unwrap().1, x),
{
    let (t, rest) = cols_task_remove(cs, src).unwrap();
    lemma_cols_task_remove_multiset(cs, src);
    lemma_tree_contains_export(t, x);
    lemma_cols_contains_export(rest, x);
    export_cols(cs).lemma_multiset_has_no_duplicates();
    assert(export_tree(t).to_multiset().count(x) > 0);
    assert(export_cols(cs).to_multiset().count(x) == export_cols(rest).to_multiset().count(x)
        + export_tree(t).to_multiset().count(x));
    assert(export_cols(cs).to_multiset().contains(x));
    assert(export_cols(cs).to_multiset().count(x) == 1);
    assert(export_cols(rest).to_multiset().count(x) == 0);
    assert(!export_cols(rest).contains(x));
}

// ---------------------------------------------------------------------------
// Uniqueness survives every command
// ---------------------------------------------------------------------------

/// A listing whose multiset gains one element not yet present keeps its
/// freedom from duplicates.
proof fn lemma_no_dup_insert(s1: Seq<Id>, s2: Seq<Id>, x: Id)
    requires
        s1.no_duplicates(),
        !s1.contains(x),
        s2.to_multiset() == s1.to_multiset().insert(x),
    ensures
        s2.no_duplicates(),
{
    s1.lemma_multiset_has_no_duplicates();
    assert forall|y: Id| s2.to_multiset().contains(y) implies s2.to_multiset().count(y) == 1 by {
        if y == x {
            assert(s1.to_multiset().count(x) == 0);
        }
    }
    s2.lemma_multiset_has_no_duplicates_conv();
}

/// A listing whose multiset is a part of a duplicate-free one is itself
/// duplicate-free.
proof fn lemma_no_dup_part(s1: Seq<Id>, s2: Seq<Id>, block: Multiset<Id>)
    requires
        s1.no_duplicates(),
        s1.to_multiset() == s2.to_multiset().add(block),
    ensures
        s2.no_duplicates(),
{
    s1.lemma_multiset_has_no_duplicates();
    assert forall|y: Id| s2.to_multiset().contains(y) implies s2.to_multiset().count(y) == 1 by {
        assert(s1.to_multiset().count(y) >= s2.to_multiset().count(y));
        assert(s1.to_multiset().contains(y));
    }
    s2.lemma_multiset_has_no_duplicates_conv();
}

/// Two listings with one multiset are duplicate-free together.
proof fn lemma_no_dup_same(s1: Seq<Id>, s2: Seq<Id>)
    requires
        s1.no_duplicates(),
        s2.to_multiset() == s1.to_multiset(),
    ensures
        s2.no_duplicates(),
{
    s1.lemma_multiset_has_no_duplicates();
    s2.lemma_multiset_has_no_duplicates_conv();
}

/// An identifier at or above the counter is fresh: it occurs nowhere in a
/// listing whose identifiers were all issued below the counter.
pub proof fn lemma_fresh_id_not_listed(s: Seq<Id>, n: nat, x: Id)
    requires
        crate::view::ids_below(s, n),
        x.value >= n,
    ensures
        !s.contains(x),
{
}

/// No command ever corrupts the forest: with unique identifiers and a fresh
/// identifier for a created node, every identifier is unique after the
/// command too, and no identifier appears that was not there before beyond
/// the created one.  Structural corruption cannot arise from the commands.
pub proof fn lemma_step_preserves_wf(b: BoardView, fresh: Id, a: ActionV)
    requires
        board_wf(b),
        creates_node(a) ==> !export_board(b).contains(fresh),
        step(b, fresh, a) is Some,
    ensures
        board_wf(step(b, fresh, a).unwrap()),
        forall|y: Id|
            export_board(step(b, fresh, a).unwrap()).contains(y) ==> export_board(b).contains(y)
                || (creates_node(a) && y == fresh),
{
    let b2 = step(b, fresh, a).unwrap();
    let s0 = export_board(b);
    let s2 = export_board(b2);
    match a {
        ActionV::AddColumn { title } => {
            lemma_add_column_appends(b, fresh, title);
            assert(s2.to_multiset() == s0.to_multiset().insert(fresh));
            lemma_no_dup_insert(s0, s2, fresh);
            assert forall|y: Id| s2.contains(y) implies s0.contains(y) || y == fresh by {
                assert(s2.to_multiset().count(y) > 0);
            }
        },
        ActionV::AddTask { dest, content } => {
            let t = TaskView { id: fresh, content, subtasks: Seq::empty() };
            assert(export_tree(t) =~= Seq::<Id>::empty().push(fresh));
            assert(export_tree(t).to_multiset() =~= Multiset::<Id>::empty().insert(fresh));
            if cols_contain(b.columns, dest) {
                lemma_cols_add_task_last_multiset(b.columns, dest, t);
            } else {
                lemma_cols_task_insert_last_multiset(b.columns, dest, t);
            }
            assert(s2.to_multiset() =~= s0.to_multiset().insert(fresh));
            lemma_no_dup_insert(s0, s2, fresh);
            assert forall|y: Id| s2.contains(y) implies s0.contains(y) || y == fresh by {
                assert(s2.to_multiset().count(y) > 0);
            }
        },
        ActionV::DeleteColumn { dest } => {
            lemma_cols_remove_multiset(b.columns, dest);
            let (c, cs) = cols_remove(b.columns, dest).unwrap();
            lemma_no_dup_part(s0, s2, export_forest(c.tasks).insert(0, c.id).to_multiset());
            assert forall|y: Id| s2.contains(y) implies s0.contains(y) by {
                assert(s0.to_multiset().count(y) >= s2.to_multiset().count(y));
            }
        },
        ActionV::DeleteTask { dest } => {
            lemma_cols_task_remove_multiset(b.columns, dest);
            let (t, cs) = cols_task_remove(b.columns, dest).unwrap();
            lemma_no_dup_part(s0, s2, export_tree(t).to_multiset());
            assert forall|y: Id| s2.contains(y) implies s0.contains(y) by {
                assert(s0.to_multiset().count(y) >= s2.to_multiset().count(y));
            }
        },
        ActionV::MoveTask { src, dest } => {
            lemma_cols_task_remove_multiset(b.columns, src);
            let (t, cs) = cols_task_remove(b.columns, src).unwrap();
            match dest {
                TaskPosition::FirstChildOf(id) => {
                    lemma_cols_splice_multiset(cs, id, t);
                },
                TaskPosition::After(id) => {
                    lemma_cols_splice_multiset(cs, id, t);
                },
            }
            assert(s2.to_multiset() =~= s0.to_multiset());
            lemma_no_dup_same(s0, s2);
            assert forall|y: Id| s2.contains(y) implies s0.contains(y) by {
                assert(s2.to_multiset().count(y) > 0);
            }
        },
        ActionV::MoveColumn { src, dest } => {
            lemma_cols_remove_multiset(b.columns, src);
            let (c, cs) = cols_remove(b.columns, src).unwrap();
            match dest {
                ColumnPosition::FirstChild => {
                    assert(b2.columns == cs.insert(0, c));
                    assert(cs.insert(0, c)[0] == c);
                    assert(cs.insert(0, c).drop_first() == cs);
                    assert(export_cols(cs.insert(0, c)) == (export_forest(c.tasks) + export_cols(
                        cs,
                    )).insert(0, c.id));
                    assert(s2.to_multiset() =~= s0.to_multiset());
                },
                ColumnPosition::After(id) => {
                    lemma_cols_insert_after_multiset(cs, id, c);
                    assert(s2.to_multiset() =~= s0.to_multiset());
                },
            }
            lemma_no_dup_same(s0, s2);
            assert forall|y: Id| s2.contains(y) implies s0.contains(y) by {
                assert(s2.to_multiset().count(y) > 0);
            }
        },
        ActionV::EditTask { dest, content } => {
            lemma_cols_edit_export(b.columns, dest, content);
            assert(s2 == s0);
        },
        ActionV::EditColumn { dest, title } => {
            lemma_cols_edit_export(b.columns, dest, title);
            assert(s2 == s0);
        },
        ActionV::EditBoard { title } => {
            assert(s2 == s0);
        },
    }
}

// ---------------------------------------------------------------------------
// Cascading delete
// ---------------------------------------------------------------------------

/// Deleting a task removes the task and every one of its descendants, and
/// nothing else: the export shrinks by exactly the removed subtree's size,
/// and no identifier of that subtree remains reachable anywhere.
pub proof fn lemma_delete_task_cascades(b: BoardView, fresh: Id, dest: Id)
    requires
        board_wf(b),
        step(b, fresh, ActionV::DeleteTask { dest }) is Some,
    ensures
        ({
            let (t, cs) = cols_task_remove(b.columns, dest).unwrap();
            let b2 = step(b, fresh, ActionV::DeleteTask { dest }).unwrap();
            &&& b2.columns == cs
            &&& export_board(b).to_multiset() == export_board(b2).to_multiset().add(
                export_tree(t).to_multiset(),
            )
            &&& export_board(b).len() == export_board(b2).len() + export_tree(t).len()
            &&& export_tree(t).len() >= 1
            &&& forall|x: Id|
                #[trigger] tree_contains(t, x) ==> !cols_contain(b2.columns, x)
                    && !cols_task_contains(b2.columns, x)
        }),
{
    let (t, cs) = cols_task_remove(b.columns, dest).unwrap();
    lemma_cols_task_remove_multiset(b.columns, dest);
    assert(export_tree(t).len() == export_forest(t.subtasks).len() + 1);
    assert(export_cols(b.columns).len() == export_cols(b.columns).to_multiset().len());
    assert(export_cols(cs).len() == export_cols(cs).to_multiset().len());
    assert(export_tree(t).len() == export_tree(t).to_multiset().len());
    assert(export_cols(cs).to_multiset().add(export_tree(t).to_multiset()).len() == export_cols(
        cs,
    ).to_multiset().len() + export_tree(t).to_multiset().len());
    assert forall|x: Id| #[trigger] tree_contains(t, x) implies !cols_contain(cs, x)
        && !cols_task_contains(cs, x) by {
        lemma_removed_task_gone(b.columns, dest, x);
    }
}

// ---------------------------------------------------------------------------
// Detach and reattach leave the moved node itself untouched
// ---------------------------------------------------------------------------

/// A successful move preserves the moved task: the same identifier, content
/// and descendant subtree stand in the tree before and after; only the
/// position changes.
pub proof fn lemma_move_task_preserves_node(b: BoardView, fresh: Id, src: Id, dest: TaskPosition)
    requires
        board_wf(b),
        step(b, fresh, ActionV::MoveTask { src, dest }) is Some,
    ensures
        ({
            let t = cols_task_remove(b.columns, src).unwrap().0;
            let b2 = step(b, fresh, ActionV::MoveTask { src, dest }).unwrap();
            &&& cols_task_find(b.columns, src) == Some(t)
            &&& cols_task_find(b2.columns, src) == Some(t)
        }),
{
    let (t, cs) = cols_task_remove(b.columns, src).unwrap();
    lemma_cols_find_is_remove(b.columns, src);
    lemma_cols_task_remove_id(b.columns, src);
    assert(tree_contains(t, src));
    lemma_removed_task_gone(b.columns, src, src);
    assert(!cols_task_contains(cs, src));
    match dest {
        TaskPosition::FirstChildOf(id) => {
            if cols_contain(cs, id) {
                lemma_cols_add_task_first_find(cs, id, t);
            } else {
                lemma_cols_task_insert_first_find(cs, id, t);
            }
        },
        TaskPosition::After(id) => {
            lemma_cols_task_insert_after_find(cs, id, t);
        },
    }
}

} // verus!
