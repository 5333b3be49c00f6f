//! The mathematical model of the task table: what the kernel's state is, and
//! when it is well formed.

use vstd::prelude::*;
use crate::context::REG_COUNT;
use crate::task::{valid_priority, TaskState, TaskView, MAX_STRIDE, ROOT_PID};

verus! {

/// Mathematical model of the task table, the ready queue and the running
/// slot of one core.
pub struct ManagerView {
    /// Slot `p` holds the task whose identifier is `p`, or nothing once that
    /// task has been reaped.
    pub tasks: Seq<Option<TaskView>>,
    /// The identifiers of the tasks that wait for the processor, in the
    /// order in which they were submitted.
    pub ready: Seq<usize>,
    /// The identifier of the task that holds the processor.
    pub current: Option<usize>,
    /// Handles of the address spaces that no task owns any more and that
    /// wait to be destroyed.
    pub retired: Seq<usize>,
    /// One more than the largest identifier that may be issued.
    pub pid_limit: usize,
}

impl ManagerView {
    /// Whether a task with identifier `pid` exists, running, waiting or
    /// terminated and not yet reaped.
    pub open spec fn live(self, pid: int) -> bool {
        0 <= pid < self.tasks.len() && self.tasks[pid] is Some
    }

    /// The task with identifier `pid`.
    pub open spec fn task(self, pid: int) -> TaskView
        recommends
            self.live(pid),
    {
        self.tasks[pid]->0
    }

    /// This state with the task in slot `pid` replaced by `t`.
    pub open spec fn with_task(self, pid: int, t: TaskView) -> ManagerView {
        ManagerView { tasks: self.tasks.update(pid, Some(t)), ..self }
    }

    /// Every slot holds the task of its own number, with a priority and a
    /// stride in range, carrying less than one unit of stride; the root task
    /// exists and has no parent, every other task has one.
    pub open spec fn table_wf(self) -> bool {
        &&& 1 <= self.tasks.len() <= self.pid_limit <= isize::MAX
        &&& self.live(ROOT_PID as int)
        &&& self.task(ROOT_PID as int).parent is None
        &&& forall|p: int|
            0 <= p < self.tasks.len() ==> ((#[trigger] self.tasks[p]) matches Some(t) ==> {
                &&& t.pid == p
                &&& valid_priority(t.priority)
                &&& t.stride <= MAX_STRIDE
                &&& t.remainder < t.priority
                &&& t.context.x.len() == REG_COUNT
                &&& t.children.no_duplicates()
                &&& p != ROOT_PID ==> t.parent is Some
            })
    }

    /// The ready queue holds each ready task exactly once and nothing else;
    /// the running slot names the one running task, if there is one.
    pub open spec fn queue_wf(self) -> bool {
        &&& self.ready.no_duplicates()
        &&& forall|j: int|
            0 <= j < self.ready.len() ==> self.live(#[trigger] self.ready[j] as int) && self.task(
                self.ready[j] as int,
            ).state == TaskState::Ready
        &&& forall|p: int|
            0 <= p < self.tasks.len() ==> ((#[trigger] self.tasks[p]) matches Some(t) ==> {
                &&& t.state == TaskState::Ready ==> self.ready.contains(p as usize)
                &&& t.state == TaskState::Running ==> self.current == Some(p as usize)
            })
        &&& self.current matches Some(c) ==> self.live(c as int) && self.task(c as int).state
            == TaskState::Running
    }

    /// Parent links and child lists agree: a task is listed by exactly the
    /// task that its parent link names.
    pub open spec fn tree_wf(self) -> bool {
        &&& forall|p: int, k: int|
            self.live(p) && 0 <= k < self.task(p).children.len() ==> self.live(
                #[trigger] self.tasks[p]->0.children[k] as int,
            ) && self.task(self.tasks[p]->0.children[k] as int).parent == Some(p as usize)
        &&& forall|c: int|
            0 <= c < self.tasks.len() ==> ((#[trigger] self.tasks[c]) matches Some(t) ==> (
            t.parent matches Some(p) ==> self.live(p as int) && self.task(p as int).children.contains(
                c as usize,
            )))
    }

    /// The invariant of the task table.
    pub open spec fn wf(self) -> bool {
        &&& self.table_wf()
        &&& self.queue_wf()
        &&& self.tree_wf()
    }

    /// Whether a task holds the processor.
    pub open spec fn has_current(self) -> bool {
        self.current is Some
    }

    /// The task that holds the processor.
    pub open spec fn current_task(self) -> TaskView
        recommends
            self.has_current(),
    {
        self.task(self.current->0 as int)
    }
}

/// Removing one entry from a queue without repetition leaves a queue without
/// repetition, made of the other entries.
pub proof fn lemma_remove_entry(q: Seq<usize>, i: int)
    requires
        q.no_duplicates(),
        0 <= i < q.len(),
    ensures
        q.remove(i).no_duplicates(),
        !q.remove(i).contains(q[i]),
        forall|j: int| 0 <= j < q.len() && j != i ==> q.remove(i).contains(#[trigger] q[j]),
        forall|j: int| 0 <= j < q.remove(i).len() ==> q.contains(#[trigger] q.remove(i)[j]),
{
    let r = q.remove(i);
    assert forall|j: int| 0 <= j < q.len() && j != i implies r.contains(#[trigger] q[j]) by {
        if j < i {
            assert(r[j] == q[j]);
        } else {
            assert(r[j - 1] == q[j]);
        }
    }
    assert forall|j: int| 0 <= j < r.len() implies q.contains(#[trigger] r[j]) by {
        if j < i {
            assert(q[j] == r[j]);
        } else {
            assert(q[j + 1] == r[j]);
        }
    }
}

/// A table that differs from a well-formed one only in the priority, the
/// stride, the saved context or the address space of its tasks, each still
/// in range, or in the address spaces that wait to be destroyed, is well
/// formed.
pub proof fn lemma_same_links_wf(m: ManagerView, s: ManagerView)
    requires
        m.wf(),
        s.tasks.len() == m.tasks.len(),
        s.ready == m.ready,
        s.current == m.current,
        s.pid_limit == m.pid_limit,
        forall|p: int|
            0 <= p < m.tasks.len() ==> ((#[trigger] s.tasks[p]) is Some <==> m.tasks[p] is Some),
        forall|p: int|
            0 <= p < m.tasks.len() ==> ((#[trigger] s.tasks[p]) matches Some(t) ==> {
                &&& t.pid == m.tasks[p]->0.pid
                &&& t.state == m.tasks[p]->0.state
                &&& t.parent == m.tasks[p]->0.parent
                &&& t.children == m.tasks[p]->0.children
                &&& valid_priority(t.priority)
                &&& t.stride <= MAX_STRIDE
                &&& t.remainder < t.priority
                &&& t.context.x.len() == REG_COUNT
            }),
    ensures
        s.wf(),
{
    assert(s.table_wf()) by {
        assert(m.tasks[0] is Some);
        assert(s.tasks[0] is Some);
        assert forall|p: int| 0 <= p < s.tasks.len() implies ((#[trigger] s.tasks[p]) matches Some(t)
            ==> {
            &&& t.pid == p
            &&& valid_priority(t.priority)
            &&& t.stride <= MAX_STRIDE
            &&& t.remainder < t.priority
            &&& t.context.x.len() == REG_COUNT
            &&& t.children.no_duplicates()
            &&& p != ROOT_PID ==> t.parent is Some
        }) by {
            assert(s.tasks[p] is Some ==> m.tasks[p] is Some);
        }
    }
    assert(s.queue_wf()) by {
        assert forall|j: int| 0 <= j < s.ready.len() implies s.live(#[trigger] s.ready[j] as int)
            && s.task(s.ready[j] as int).state == TaskState::Ready by {
            assert(m.live(m.ready[j] as int));
            assert(s.tasks[m.ready[j] as int] is Some);
        }
        assert forall|p: int| 0 <= p < s.tasks.len() implies ((#[trigger] s.tasks[p]) matches Some(t)
            ==> {
            &&& t.state == TaskState::Ready ==> s.ready.contains(p as usize)
            &&& t.state == TaskState::Running ==> s.current == Some(p as usize)
        }) by {
            assert(s.tasks[p] is Some ==> m.tasks[p] is Some);
        }
        if let Some(c) = s.current {
            assert(m.live(c as int));
            assert(s.tasks[c as int] is Some);
        }
    }
    assert(s.tree_wf()) by {
        assert forall|p: int, k: int| s.live(p) && 0 <= k < s.task(p).children.len() implies s.live(
            #[trigger] s.tasks[p]->0.children[k] as int,
        ) && s.task(s.tasks[p]->0.children[k] as int).parent == Some(p as usize) by {
            assert(m.live(p));
            let c = m.tasks[p]->0.children[k];
            assert(c == s.tasks[p]->0.children[k]);
            assert(m.live(c as int));
            assert(s.tasks[c as int] is Some);
        }
        assert forall|q: int| 0 <= q < s.tasks.len() implies ((#[trigger] s.tasks[q]) matches Some(t)
            ==> (t.parent matches Some(p) ==> s.live(p as int) && s.task(p as int).children.contains(
            q as usize,
        ))) by {
            if let Some(t) = s.tasks[q] {
                assert(m.tasks[q] is Some);
                if let Some(p) = t.parent {
                    assert(m.live(p as int));
                    assert(s.tasks[p as int] is Some);
                }
            }
        }
    }
}

} // verus!
