//! The flat, index-addressed variant of the store: every task lives in one
//! slab, and `next`/`first child` edges are optional indices instead of
//! owning pointers.  Tasks are only ever appended, and every link points at
//! a strictly larger index (a later-created task), so every sibling chain is
//! finite and acyclic by construction.

use vstd::prelude::*;

verus! {

/// An index into the task slab.
#[derive(Clone, Copy)]
pub struct Task(pub usize);

/// One slab entry: a task's text and its two outgoing edges.
pub struct TaskData {
    pub content: String,
    pub after: Option<Task>,
    pub child: Option<Task>,
}

/// An ordered container of tasks, holding the index of its first task.
pub struct Column {
    pub title: String,
    pub child: Option<Task>,
}

/// The board: its columns, and the one slab all tasks live in.
pub struct Board {
    pub title: String,
    pub columns: Vec<Column>,
    pub tasks: Vec<TaskData>,
}

/// Every edge of the slab points forward: at a strictly larger index that
/// is still in range.  This is the acyclicity discipline of the slab.
pub open spec fn links_ok(tasks: Seq<TaskData>) -> bool {
    forall|i: int|
        0 <= i < tasks.len() ==> {
            &&& ((#[trigger] tasks[i]).after is Some ==> i < tasks[i].after.unwrap().0
                < tasks.len())
            &&& (tasks[i].child is Some ==> i < tasks[i].child.unwrap().0 < tasks.len())
        }
}

/// The index at the end of the sibling chain starting at `i`: follow
/// `after` while it points forward and in range.
pub open spec fn chain_end(tasks: Seq<TaskData>, i: int) -> int
    decreases tasks.len() - i,
{
    if 0 <= i < tasks.len() {
        match tasks[i].after {
            Some(a) => if i < a.0 && a.0 < tasks.len() {
                chain_end(tasks, a.0 as int)
            } else {
                i
            },
            None => i,
        }
    } else {
        i
    }
}

/// Walking a chain never leaves the slab as it was before an append: a new
/// entry at the end is unreachable from the old entries, whose links all
/// stay below the old length.
pub proof fn lemma_chain_end_push(tasks: Seq<TaskData>, td: TaskData, i: int)
    requires
        links_ok(tasks),
        0 <= i < tasks.len(),
    ensures
        chain_end(tasks.push(td), i) == chain_end(tasks, i),
        0 <= chain_end(tasks, i) < tasks.len(),
        tasks[chain_end(tasks, i)].after is None,
    decreases tasks.len() - i,
{
    assert(tasks.push(td)[i] == tasks[i]);
    match tasks[i].after {
        Some(a) => {
            lemma_chain_end_push(tasks, td, a.0 as int);
        },
        None => {},
    }
}

impl Board {
    /// The slab's links all point forward, and every column's first-task
    /// index is in range.
    pub open spec fn wf(self) -> bool {
        &&& links_ok(self.tasks@)
        &&& forall|j: int|
            0 <= j < self.columns@.len() ==> ((#[trigger] self.columns@[j]).child is Some
                ==> self.columns@[j].child.unwrap().0 < self.tasks@.len())
    }

    /// An empty board: no columns, an empty slab.
    pub fn new(title: String) -> (r: Self)
        ensures
            r.wf(),
            r.title@ == title@,
            r.columns@.len() == 0,
            r.tasks@.len() == 0,
    {
        Self { title, columns: Vec::new(), tasks: Vec::new() }
    }

    /// Append a new empty column.
    pub fn add_col(&mut self, title: String)
        requires
            old(self).wf(),
        ensures
            final(self).wf(),
            final(self).title == old(self).title,
            final(self).tasks == old(self).tasks,
            final(self).columns@.len() == old(self).columns@.len() + 1,
            final(self).columns@.last().title@ == title@,
            final(self).columns@.last().child is None,
            forall|j: int|
                0 <= j < old(self).columns@.len() ==> final(self).columns@[j] == old(
                    self,
                ).columns@[j],
    {
        let column = Column { title, child: None };
        self.columns.push(column);
    }

    /// Append a fresh task to the slab, unlinked, and hand back its index.
    fn make_task(&mut self, content: String) -> (r: Task)
        requires
            old(self).wf(),
        ensures
            final(self).wf(),
            r.0 == old(self).tasks@.len(),
            final(self).title == old(self).title,
            final(self).columns == old(self).columns,
            final(self).tasks@.len() == old(self).tasks@.len() + 1,
            final(self).tasks@.last().content@ == content@,
            final(self).tasks@.last().after is None,
            final(self).tasks@.last().child is None,
            forall|i: int|
                0 <= i < old(self).tasks@.len() ==> final(self).tasks@[i] == old(self).tasks@[i],
    {
        let task = Task(self.tasks.len());
        self.tasks.push(TaskData { content, after: None, child: None });
        return task;
    }

    /// Read one slab entry.
    fn task(&self, task: Task) -> (r: &TaskData)
        requires
            task.0 < self.tasks@.len(),
        ensures
            *r == self.tasks@[task.0 as int],
    {
        &self.tasks[task.0]
    }

    /// Point one slab entry's `after` edge somewhere else.
    fn set_task_after(&mut self, task: Task, v: Option<Task>)
        requires
            task.0 < old(self).tasks@.len(),
        ensures
            final(self).title == old(self).title,
            final(self).columns == old(self).columns,
            final(self).tasks@ == old(self).tasks@.update(
                task.0 as int,
                (TaskData { after: v, ..old(self).tasks@[task.0 as int] }),
            ),
    {
        let mut data = self.tasks.remove(task.0);
        data.after = v;
        self.tasks.insert(task.0, data);
        proof {
            assert(final(self).tasks@ =~= old(self).tasks@.update(
                task.0 as int,
                (TaskData { after: v, ..old(self).tasks@[task.0 as int] }),
            ));
        }
    }

    /// Point one slab entry's `child` edge somewhere else.
    fn set_task_child(&mut self, task: Task, v: Option<Task>)
        requires
            task.0 < old(self).tasks@.len(),
        ensures
            final(self).title == old(self).title,
            final(self).columns == old(self).columns,
            final(self).tasks@ == old(self).tasks@.update(
                task.0 as int,
                (TaskData { child: v, ..old(self).tasks@[task.0 as int] }),
            ),
    {
        let mut data = self.tasks.remove(task.0);
        data.child = v;
        self.tasks.insert(task.0, data);
        proof {
            assert(final(self).tasks@ =~= old(self).tasks@.update(
                task.0 as int,
                (TaskData { child: v, ..old(self).tasks@[task.0 as int] }),
            ));
        }
    }

    /// Follow the sibling chain from `task` to its last member.
    pub fn last_task_sibling(&self, task: Task) -> (r: Task)
        requires
            self.wf(),
            task.0 < self.tasks@.len(),
        ensures
            r.0 == chain_end(self.tasks@, task.0 as int),
            r.0 < self.tasks@.len(),
            self.tasks@[r.0 as int].after is None,
        decreases self.tasks@.len() - task.0,
    {
        match self.task(task).after {
            Some(next) => self.last_task_sibling(next),
            None => task,
        }
    }

    /// Append a task with `content` as the last task of column `tgt`: at
    /// the end of the chain hanging off `tgt`'s first-task edge, or as that
    /// first task if the column is empty.
    pub fn add_task(&mut self, tgt: &mut Column, content: String)
        requires
            old(self).wf(),
            old(tgt).child is Some ==> old(tgt).child.unwrap().0 < old(self).tasks@.len(),
        ensures
            final(self).wf(),
            final(self).title == old(self).title,
            final(self).columns == old(self).columns,
            final(self).tasks@.len() == old(self).tasks@.len() + 1,
            final(self).tasks@.last().content@ == content@,
            final(self).tasks@.last().after is None,
            final(self).tasks@.last().child is None,
            ({
                let created = old(self).tasks@.len();
                match old(tgt).child {
                    None => {
                        &&& final(tgt).title == old(tgt).title
                        &&& final(tgt).child is Some
                        &&& final(tgt).child.unwrap().0 == created
                        &&& forall|i: int|
                            0 <= i < created ==> final(self).tasks@[i] == old(self).tasks@[i]
                    },
                    Some(first) => {
                        let e = chain_end(old(self).tasks@, first.0 as int);
                        &&& *final(tgt) == *old(tgt)
                        &&& final(self).tasks@[e].after is Some
                        &&& final(self).tasks@[e].after.unwrap().0 == created
                        &&& final(self).tasks@[e].content == old(self).tasks@[e].content
                        &&& final(self).tasks@[e].child == old(self).tasks@[e].child
                        &&& forall|i: int|
                            0 <= i < created && i != e ==> final(self).tasks@[i] == old(
                                self,
                            ).tasks@[i]
                    },
                }
            }),
    {
        let created = self.make_task(content);
        proof {
            assert(self.tasks@ =~= old(self).tasks@.push(self.tasks@.last()));
        }
        match tgt.child {
            Some(id) => {
                proof {
                    lemma_chain_end_push(old(self).tasks@, self.tasks@.last(), id.0 as int);
                }
                let last = self.last_task_sibling(id);
                self.set_task_after(last, Some(created));
                proof {
                    assert(links_ok(self.tasks@));
                }
            },
            None => {
                tgt.child = Some(created);
            },
        }
    }

    /// Append a task with `content` as the last subtask of task `tgt`: at
    /// the end of the chain hanging off `tgt`'s child edge, or as that
    /// first subtask if there is none yet.
    pub fn add_subtask(&mut self, tgt: Task, content: String)
        requires
            old(self).wf(),
            tgt.0 < old(self).tasks@.len(),
        ensures
            final(self).wf(),
            final(self).title == old(self).title,
            final(self).columns == old(self).columns,
            final(self).tasks@.len() == old(self).tasks@.len() + 1,
            final(self).tasks@.last().content@ == content@,
            final(self).tasks@.last().after is None,
            final(self).tasks@.last().child is None,
            ({
                let created = old(self).tasks@.len();
                match old(self).tasks@[tgt.0 as int].child {
                    None => {
                        &&& final(self).tasks@[tgt.0 as int].child is Some
                        &&& final(self).tasks@[tgt.0 as int].child.unwrap().0 == created
                        &&& final(self).tasks@[tgt.0 as int].content == old(self).tasks@[tgt.0 as int].content
                        &&& final(self).tasks@[tgt.0 as int].after == old(self).tasks@[tgt.0 as int].after
                        &&& forall|i: int|
                            0 <= i < created && i != tgt.0 ==> final(self).tasks@[i] == old(
                                self,
                            ).tasks@[i]
                    },
                    Some(first) => {
                        let e = chain_end(old(self).tasks@, first.0 as int);
                        &&& final(self).tasks@[e].after is Some
                        &&& final(self).tasks@[e].after.unwrap().0 == created
                        &&& final(self).tasks@[e].content == old(self).tasks@[e].content
                        &&& final(self).tasks@[e].child == old(self).tasks@[e].child
                        &&& forall|i: int|
                            0 <= i < created && i != e ==> final(self).tasks@[i] == old(
                                self,
                            ).tasks@[i]
                    },
                }
            }),
    {
        let created = self.make_task(content);
        proof {
            assert(self.tasks@ =~= old(self).tasks@.push(self.tasks@.last()));
        }
        match self.task(tgt).child {
            Some(id) => {
                proof {
                    lemma_chain_end_push(old(self).tasks@, self.tasks@.last(), id.0 as int);
                }
                let last = self.last_task_sibling(id);
                self.set_task_after(last, Some(created));
                proof {
                    assert(links_ok(self.tasks@));
                }
            },
            None => {
                self.set_task_child(tgt, Some(created));
                proof {
                    assert(links_ok(self.tasks@));
                }
            },
        }
    }
}

} // verus!
