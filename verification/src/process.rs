//! The process tree: creating, replacing, ending and reaping tasks.

use vstd::prelude::*;
use crate::context::{ContextView, ExecutableImage, TrapContext, REG_COUNT, RETURN_REG};
use crate::manager::{slot_view, TaskManager};
use crate::model::ManagerView;
use crate::scheduler::lemma_pick_wf;
use crate::task::{
    valid_priority, Task, TaskState, TaskView, DEFAULT_PRIORITY, MAX_STRIDE, ROOT_PID,
};

verus! {

/// The exit code of a task that was spawned for a program that does not
/// exist.
pub const EXEC_FAILED: i32 = -1;

/// Why a task could not be duplicated.
#[derive(Clone, Copy, Debug, PartialEq, Eq, Structural)]
pub enum ForkError {
    /// Every identifier has been issued.
    PidsExhausted,
    /// No address space could be had for the duplicate.
    SpaceExhausted,
}

/// Why the program of a task could not be replaced.
#[derive(Clone, Copy, Debug, PartialEq, Eq, Structural)]
pub enum ExecError {
    /// The loader knows no program of the given name.
    NotFound,
}

impl ManagerView {
    /// Whether an identifier is left for one more task.
    pub open spec fn can_fork(self) -> bool {
        self.tasks.len() < self.pid_limit
    }

    /// This state with `space` added to the address spaces that wait to be
    /// destroyed.
    pub open spec fn retire(self, space: usize) -> ManagerView {
        ManagerView { retired: self.retired.push(space), ..self }
    }

    /// This state with the new task `child` in the next free slot, listed
    /// last among the children of its parent and, if it is ready, submitted
    /// to the scheduler.
    pub open spec fn adopt(self, child: TaskView) -> ManagerView {
        let parent = child.parent->0 as int;
        let listed = TaskView {
            children: self.task(parent).children.push(child.pid),
            ..self.task(parent)
        };
        let grown = ManagerView {
            tasks: self.tasks.update(parent, Some(listed)).push(Some(child)),
            ..self
        };
        if child.state == TaskState::Ready {
            grown.submit(child.pid)
        } else {
            grown
        }
    }

    /// This state after the running task has been duplicated into the
    /// address space `space`.
    pub open spec fn fork(self, space: usize) -> ManagerView
        recommends
            self.has_current(),
            self.can_fork(),
    {
        self.adopt(self.current_task().duplicate(self.tasks.len() as usize, space))
    }

    /// This state after the running task has taken up the program `image`:
    /// it owns the address space of the program and starts at its entry
    /// point with a fresh stack; the address space that it owned before
    /// waits to be destroyed. Identifier, priority, stride, parent and
    /// children stay.
    pub open spec fn exec(self, image: ExecutableImage) -> ManagerView
        recommends
            self.has_current(),
    {
        self.with_task(
            self.current->0 as int,
            TaskView {
                address_space: image.address_space,
                context: ContextView::initial(image.entry, image.user_sp),
                ..self.current_task()
            },
        ).retire(self.current_task().address_space)
    }

    /// This state with the address spaces among `space` and `image` added
    /// to those that wait to be destroyed.
    pub open spec fn discard(self, space: Option<usize>, image: Option<ExecutableImage>) -> ManagerView {
        let first = match space {
            Some(s) => self.retire(s),
            None => self,
        };
        match image {
            Some(img) => first.retire(img.address_space),
            None => first,
        }
    }

    /// The task that `spawn` creates: with a program at hand, a duplicate of
    /// the running task that has taken up that program; with none, a
    /// duplicate that has terminated with `EXEC_FAILED`.
    pub open spec fn spawned(self, space: usize, image: Option<ExecutableImage>) -> TaskView
        recommends
            self.has_current(),
    {
        let copy = self.current_task().duplicate(self.tasks.len() as usize, space);
        match image {
            Some(img) => TaskView {
                address_space: img.address_space,
                context: ContextView::initial(img.entry, img.user_sp),
                ..copy
            },
            None => TaskView { state: TaskState::Zombie(EXEC_FAILED), ..copy },
        }
    }

    /// This state after the running task has spawned a child for the program
    /// `image`. The copy `space` of the parent's address space is retired
    /// once the child has taken up its program; a child without a program
    /// keeps it until it is reaped.
    pub open spec fn spawn(self, space: usize, image: Option<ExecutableImage>) -> ManagerView
        recommends
            self.has_current(),
            self.can_fork(),
    {
        let grown = self.adopt(self.spawned(space, image));
        if image is Some {
            grown.retire(space)
        } else {
            grown
        }
    }

    /// This state after the running task has become a zombie with the given
    /// exit code and left the processor free.
    pub open spec fn terminate(self, code: i32) -> ManagerView
        recommends
            self.has_current(),
    {
        ManagerView {
            current: None,
            ..self.with_task(
                self.current->0 as int,
                TaskView { state: TaskState::Zombie(code), ..self.current_task() },
            )
        }
    }

    /// This state after the running task has ended with the given exit code
    /// and the processor has gone to the next task.
    pub open spec fn exit(self, code: i32) -> ManagerView
        recommends
            self.has_current(),
    {
        self.terminate(code).dispatch()
    }
}

/// What a parent's request to collect a child came to.
#[derive(Clone, Copy, Debug, PartialEq, Eq, Structural)]
pub enum ReapOutcome {
    /// The running task has no child that the request names.
    NoSuchChild,
    /// A child that the request names exists, none of them has terminated.
    Pending,
    /// The child `pid` had terminated with `exit_code` and is gone now.
    Reaped { pid: usize, exit_code: i32 },
}

/// The request value that names every child.
pub const ANY_CHILD: isize = -1;

/// Whether a request for `target` names the task `pid`: either `target` is
/// `pid`, or it is `ANY_CHILD`.
pub open spec fn names(target: isize, pid: usize) -> bool {
    target == ANY_CHILD || target == pid
}

impl ManagerView {
    /// Whether the running task has a child that a request for `target`
    /// names.
    pub open spec fn has_child(self, target: isize) -> bool {
        exists|k: int|
            0 <= k < self.current_task().children.len() && names(
                target,
                #[trigger] self.current_task().children[k],
            )
    }

    /// Whether child number `k` of the running task is named by a request
    /// for `target` and has terminated.
    pub open spec fn reapable(self, target: isize, k: int) -> bool {
        let kids = self.current_task().children;
        0 <= k < kids.len() && names(target, kids[k]) && self.task(kids[k] as int).is_zombie()
    }

    /// The position, at or after `from`, of the first child of the running
    /// task that a request for `target` can collect; the number of its
    /// children if there is none.
    pub open spec fn first_reapable(self, target: isize, from: int) -> int
        decreases self.current_task().children.len() - from,
    {
        if from >= self.current_task().children.len() {
            self.current_task().children.len() as int
        } else if self.reapable(target, from) {
            from
        } else {
            self.first_reapable(target, from + 1)
        }
    }

    /// The children of task `p` after child number `k` of the running task
    /// has been reaped: the reaped child is off the list of the running
    /// task, and its own children are listed, in their order, after those of
    /// the root task.
    pub open spec fn children_after_reap(self, k: int, p: int) -> Seq<usize> {
        let cur = self.current->0 as int;
        let orphans = self.task(self.task(cur).children[k] as int).children;
        let kept = if p == cur {
            self.task(p).children.remove(k)
        } else {
            self.task(p).children
        };
        if p == ROOT_PID {
            kept + orphans
        } else {
            kept
        }
    }

    /// This state after child number `k` of the running task has been
    /// reaped: its slot is empty, its address space waits to be destroyed,
    /// and the root task answers for the children it leaves behind.
    pub open spec fn reap(self, k: int) -> ManagerView
        recommends
            self.has_current(),
            0 <= k < self.current_task().children.len(),
    {
        let c = self.current_task().children[k];
        ManagerView {
            tasks: Seq::new(
                self.tasks.len(),
                |p: int|
                    if p == c {
                        None
                    } else {
                        match self.tasks[p] {
                            Some(t) => Some(
                                TaskView {
                                    parent: if t.parent == Some(c) {
                                        Some(ROOT_PID)
                                    } else {
                                        t.parent
                                    },
                                    children: self.children_after_reap(k, p),
                                    ..t
                                },
                            ),
                            None => None,
                        }
                    },
            ),
            retired: self.retired.push(self.task(c as int).address_space),
            ..self
        }
    }
}

/// The task table after the tasks named by the first `n` entries of `kids`
/// have been handed to the root task.
pub open spec fn reparented(tasks: Seq<Option<TaskView>>, kids: Seq<usize>, n: int) -> Seq<
    Option<TaskView>,
> {
    Seq::new(
        tasks.len(),
        |p: int|
            match tasks[p] {
                Some(t) => Some(
                    TaskView {
                        parent: if kids.take(n).contains(p as usize) {
                            Some(ROOT_PID)
                        } else {
                            t.parent
                        },
                        children: if p == ROOT_PID {
                            t.children + kids.take(n)
                        } else {
                            t.children
                        },
                        ..t
                    },
                ),
                None => None,
            },
    )
}

/// What `first_reapable` finds is the first child at or after `from` that
/// can be collected.
pub proof fn lemma_first_reapable(m: ManagerView, target: isize, from: int)
    requires
        0 <= from,
    ensures
        from <= m.first_reapable(target, from) || m.first_reapable(target, from)
            == m.current_task().children.len(),
        m.first_reapable(target, from) <= m.current_task().children.len(),
        m.first_reapable(target, from) < m.current_task().children.len() ==> m.reapable(
            target,
            m.first_reapable(target, from),
        ),
        forall|j: int| from <= j < m.first_reapable(target, from) ==> !m.reapable(target, j),
    decreases m.current_task().children.len() - from,
{
    if from < m.current_task().children.len() && !m.reapable(target, from) {
        lemma_first_reapable(m, target, from + 1);
    }
}

/// Reaping a terminated child keeps the table well formed.
pub proof fn lemma_reap_wf(m: ManagerView, k: int)
    requires
        m.wf(),
        m.has_current(),
        0 <= k < m.current_task().children.len(),
        m.task(m.current_task().children[k] as int).is_zombie(),
    ensures
        m.reap(k).wf(),
{
    let s = m.reap(k);
    let cur = m.current->0 as int;
    let kids = m.task(cur).children;
    let c = kids[k] as int;
    let orphans = m.task(c).children;
    assert(m.live(cur));
    assert(m.live(m.tasks[cur]->0.children[k] as int));
    assert(m.task(c).parent == Some(cur as usize));
    assert(c != cur);
    assert(c != ROOT_PID);
    assert(m.tasks[0] is Some);
    crate::model::lemma_remove_entry(kids, k);
    // The orphans are live tasks other than the reaped one.
    assert forall|i: int| 0 <= i < orphans.len() implies m.live(#[trigger] orphans[i] as int)
        && m.task(orphans[i] as int).parent == Some(c as usize) && orphans[i] != c by {
        assert(m.live(m.tasks[c]->0.children[i] as int));
    }
    // A child listed in the new table was listed or orphaned in the old one.
    assert forall|p: int, j: int|
        m.live(p) && p != c && 0 <= j < m.children_after_reap(k, p).len() implies ({
        let x = #[trigger] m.children_after_reap(k, p)[j];
        &&& m.live(x as int)
        &&& x != c
        &&& m.task(x as int).parent == Some(p as usize) || (p == ROOT_PID && m.task(
            x as int,
        ).parent == Some(c as usize))
    }) by {
        let kept = if p == cur {
            m.task(p).children.remove(k)
        } else {
            m.task(p).children
        };
        let x = m.children_after_reap(k, p)[j];
        if j < kept.len() {
            assert(x == kept[j]);
            let j0 = if p == cur && j >= k {
                j + 1
            } else {
                j
            };
            assert(m.tasks[p]->0.children[j0] == x);
            assert(m.live(m.tasks[p]->0.children[j0] as int));
            if x == c {
                assert(p == cur);
                assert(kids[j0] == kids[k]);
            }
        } else {
            assert(x == orphans[j - kept.len()]);
        }
    }
    assert(s.table_wf()) by {
        assert forall|p: int| 0 <= p < s.tasks.len() implies ((#[trigger] s.tasks[p]) matches Some(t)
            ==> {
            &&& t.pid == p
            &&& valid_priority(t.priority)
            &&& t.stride <= MAX_STRIDE
            &&& t.remainder < t.priority
            &&& t.context.x.len() == REG_COUNT
            &&& t.children.no_duplicates()
            &&& p != ROOT_PID ==> t.parent is Some
        }) by {
            if p != c && m.tasks[p] is Some {
                let kept = if p == cur {
                    m.task(p).children.remove(k)
                } else {
                    m.task(p).children
                };
                assert(kept.no_duplicates());
                if p == ROOT_PID {
                    assert forall|i: int, j: int|
                        0 <= i < kept.len() && 0 <= j < orphans.len() implies kept[i] != orphans[j] by {
                        assert(m.children_after_reap(k, p)[i] == kept[i]);
                        assert(m.task(kept[i] as int).parent == Some(p as usize));
                    }
                    vstd::seq_lib::lemma_no_dup_in_concat(kept, orphans);
                }
            }
        }
    }
    assert(s.queue_wf()) by {
        assert forall|j: int| 0 <= j < s.ready.len() implies s.live(#[trigger] s.ready[j] as int)
            && s.task(s.ready[j] as int).state == TaskState::Ready by {
            assert(m.live(m.ready[j] as int));
        }
        assert forall|p: int| 0 <= p < s.tasks.len() implies ((#[trigger] s.tasks[p]) matches Some(t)
            ==> {
            &&& t.state == TaskState::Ready ==> s.ready.contains(p as usize)
            &&& t.state == TaskState::Running ==> s.current == Some(p as usize)
        }) by {
            assert(s.tasks[p] is Some ==> m.tasks[p] is Some);
        }
    }
    assert(s.tree_wf()) by {
        assert forall|p: int, j: int| s.live(p) && 0 <= j < s.task(p).children.len() implies s.live(
            #[trigger] s.tasks[p]->0.children[j] as int,
        ) && s.task(s.tasks[p]->0.children[j] as int).parent == Some(p as usize) by {
            assert(m.live(p) && p != c);
            let x = m.children_after_reap(k, p)[j];
            assert(s.tasks[p]->0.children[j] == x);
            assert(m.live(x as int) && x != c);
        }
        assert forall|q: int| 0 <= q < s.tasks.len() implies ((#[trigger] s.tasks[q]) matches Some(t)
            ==> (t.parent matches Some(p) ==> s.live(p as int) && s.task(p as int).children.contains(
            q as usize,
        ))) by {
            if q != c && m.tasks[q] is Some {
                let t0 = m.tasks[q]->0;
                if let Some(p0) = t0.parent {
                    assert(m.live(p0 as int));
                    let list = m.task(p0 as int).children;
                    let i = choose|i: int| 0 <= i < list.len() && list[i] == q as usize;
                    if p0 == c {
                        let root_kept = if ROOT_PID == cur {
                            m.task(0).children.remove(k)
                        } else {
                            m.task(0).children
                        };
                        assert(s.task(0).children[root_kept.len() + i] == q as usize);
                    } else {
                        let i1 = if p0 == cur && i > k {
                            i - 1
                        } else {
                            i
                        };
                        assert(s.task(p0 as int).children[i1] == q as usize);
                    }
                }
            }
        }
    }
}

/// Emptying the slot of a reaped child, taking it off its parent's list and
/// handing its children to the root task gives the table that `reap`
/// describes.
pub proof fn lemma_reap_tasks(m: ManagerView, k: int, mid: Seq<Option<TaskView>>)
    requires
        m.wf(),
        m.has_current(),
        0 <= k < m.current_task().children.len(),
        mid == m.tasks.update(
            m.current->0 as int,
            Some(
                TaskView { children: m.current_task().children.remove(k), ..m.current_task() },
            ),
        ).update(m.current_task().children[k] as int, None),
    ensures
        ({
            let orphans = m.task(m.current_task().children[k] as int).children;
            reparented(mid, orphans, orphans.len() as int) == m.reap(k).tasks
        }),
{
    let cur = m.current->0 as int;
    let c = m.current_task().children[k] as int;
    let orphans = m.task(c).children;
    let r = reparented(mid, orphans, orphans.len() as int);
    assert(orphans.take(orphans.len() as int) =~= orphans);
    assert(m.live(cur));
    assert(m.live(m.tasks[cur]->0.children[k] as int));
    assert forall|p: int| 0 <= p < m.tasks.len() implies r[p] == m.reap(k).tasks[p] by {
        if p != c {
            if let Some(t) = m.tasks[p] {
                if orphans.contains(p as usize) {
                    let i = choose|i: int| 0 <= i < orphans.len() && orphans[i] == p as usize;
                    assert(m.task(m.tasks[c]->0.children[i] as int).parent == Some(c as usize));
                }
                assert(r[p]->0.children =~= m.children_after_reap(k, p));
            }
        }
    }
    assert(r =~= m.reap(k).tasks);
}

/// Whether `child` could be adopted by the running task of `m`.
pub open spec fn adoptable(m: ManagerView, child: TaskView) -> bool {
    &&& m.has_current()
    &&& m.can_fork()
    &&& child.pid == m.tasks.len()
    &&& child.parent == m.current
    &&& child.children == Seq::<usize>::empty()
    &&& valid_priority(child.priority)
    &&& child.stride <= MAX_STRIDE
    &&& child.remainder < child.priority
    &&& child.context.x.len() == REG_COUNT
    &&& child.state != TaskState::Running
}

/// Adopting a new task keeps the table well formed.
pub proof fn lemma_adopt_wf(m: ManagerView, child: TaskView)
    requires
        m.wf(),
        adoptable(m, child),
    ensures
        m.adopt(child).wf(),
{
    let s = m.adopt(child);
    let cur = m.current->0 as int;
    let n = m.tasks.len() as int;
    assert(m.live(cur));
    assert(s.tasks.len() == n + 1);
    assert(s.tasks[n] == Some(child));
    assert forall|p: int| 0 <= p < n && p != cur implies s.tasks[p] == m.tasks[p] by {}
    let kids = m.task(cur).children;
    assert(s.task(cur).children == kids.push(child.pid));
    assert(!kids.contains(child.pid)) by {
        if kids.contains(child.pid) {
            let k = choose|k: int| 0 <= k < kids.len() && kids[k] == child.pid;
            assert(m.live(m.tasks[cur]->0.children[k] as int));
        }
    }
    assert(kids.push(child.pid).no_duplicates());
    assert(s.table_wf()) by {
        assert(m.tasks[0] is Some);
        assert forall|p: int| 0 <= p < s.tasks.len() implies ((#[trigger] s.tasks[p]) matches Some(t)
            ==> {
            &&& t.pid == p
            &&& valid_priority(t.priority)
            &&& t.stride <= MAX_STRIDE
            &&& t.remainder < t.priority
            &&& t.context.x.len() == REG_COUNT
            &&& t.children.no_duplicates()
            &&& p != ROOT_PID ==> t.parent is Some
        }) by {
            if p < n {
                assert(s.tasks[p] is Some ==> m.tasks[p] is Some);
            }
        }
    }
    assert(s.queue_wf()) by {
        assert(!m.ready.contains(child.pid)) by {
            if m.ready.contains(child.pid) {
                let j = choose|j: int| 0 <= j < m.ready.len() && m.ready[j] == child.pid;
                assert(m.live(m.ready[j] as int));
            }
        }
        assert forall|j: int| 0 <= j < s.ready.len() implies s.live(#[trigger] s.ready[j] as int)
            && s.task(s.ready[j] as int).state == TaskState::Ready by {
            if j < m.ready.len() {
                assert(s.ready[j] == m.ready[j]);
                assert(m.live(m.ready[j] as int));
                assert(m.ready[j] != cur as usize);
            }
        }
        assert forall|p: int| 0 <= p < s.tasks.len() implies ((#[trigger] s.tasks[p]) matches Some(t)
            ==> {
            &&& t.state == TaskState::Ready ==> s.ready.contains(p as usize)
            &&& t.state == TaskState::Running ==> s.current == Some(p as usize)
        }) by {
            if let Some(t) = s.tasks[p] {
                if p < n {
                    assert(m.tasks[p] is Some);
                    if t.state == TaskState::Ready {
                        let j = choose|j: int| 0 <= j < m.ready.len() && m.ready[j] == p as usize;
                        assert(s.ready[j] == p as usize);
                    }
                } else if t.state == TaskState::Ready {
                    assert(s.ready[s.ready.len() - 1] == p as usize);
                }
            }
        }
    }
    assert(s.tree_wf()) by {
        assert forall|p: int, k: int| s.live(p) && 0 <= k < s.task(p).children.len() implies s.live(
            #[trigger] s.tasks[p]->0.children[k] as int,
        ) && s.task(s.tasks[p]->0.children[k] as int).parent == Some(p as usize) by {
            if p < n {
                assert(m.live(p));
                if p == cur && k == kids.len() {
                } else {
                    let c = m.tasks[p]->0.children[k];
                    assert(c == s.tasks[p]->0.children[k]);
                    assert(m.live(c as int));
                    assert(m.task(c as int).parent == Some(p as usize));
                    assert(s.task(c as int).parent == m.task(c as int).parent);
                }
            }
        }
        assert forall|q: int| 0 <= q < s.tasks.len() implies ((#[trigger] s.tasks[q]) matches Some(t)
            ==> (t.parent matches Some(p) ==> s.live(p as int) && s.task(p as int).children.contains(
            q as usize,
        ))) by {
            if let Some(t) = s.tasks[q] {
                if let Some(p) = t.parent {
                    if q < n {
                        assert(m.tasks[q] is Some);
                        assert(m.task(q).parent == t.parent);
                        assert(m.live(p as int));
                        let k = choose|k: int|
                            0 <= k < m.task(p as int).children.len() && m.task(p as int).children[k]
                                == q as usize;
                        assert(s.task(p as int).children[k] == q as usize);
                    } else {
                        assert(s.task(cur).children[kids.len() as int] == q as usize);
                    }
                }
            }
        }
    }
}

/// Replacing the program of the running task keeps the table well formed.
pub proof fn lemma_exec_wf(m: ManagerView, image: ExecutableImage)
    requires
        m.wf(),
        m.has_current(),
    ensures
        m.exec(image).wf(),
{
    crate::model::lemma_same_links_wf(m, m.exec(image));
}

/// The end of the running task keeps the table well formed, and leaves a
/// zombie that is neither queued nor running.
pub proof fn lemma_terminate_wf(m: ManagerView, code: i32)
    requires
        m.wf(),
        m.has_current(),
    ensures
        m.terminate(code).wf(),
        m.terminate(code).current is None,
        !m.terminate(code).ready.contains(m.current->0),
{
    let s = m.terminate(code);
    let cur = m.current->0 as int;
    assert(m.live(cur));
    assert(!m.ready.contains(cur as usize)) by {
        if m.ready.contains(cur as usize) {
            let j = choose|j: int| 0 <= j < m.ready.len() && m.ready[j] == cur as usize;
            assert(m.task(m.ready[j] as int).state == TaskState::Ready);
        }
    }
    assert(s.table_wf()) by {
        assert(m.tasks[0] is Some);
        assert forall|p: int| 0 <= p < s.tasks.len() implies ((#[trigger] s.tasks[p]) matches Some(t)
            ==> {
            &&& t.pid == p
            &&& valid_priority(t.priority)
            &&& t.stride <= MAX_STRIDE
            &&& t.remainder < t.priority
            &&& t.context.x.len() == REG_COUNT
            &&& t.children.no_duplicates()
            &&& p != ROOT_PID ==> t.parent is Some
        }) by {
            assert(s.tasks[p] is Some ==> m.tasks[p] is Some);
        }
    }
    assert(s.queue_wf()) by {
        assert forall|j: int| 0 <= j < s.ready.len() implies s.live(#[trigger] s.ready[j] as int)
            && s.task(s.ready[j] as int).state == TaskState::Ready by {
            assert(m.live(m.ready[j] as int));
        }
        assert forall|p: int| 0 <= p < s.tasks.len() implies ((#[trigger] s.tasks[p]) matches Some(t)
            ==> {
            &&& t.state == TaskState::Ready ==> s.ready.contains(p as usize)
            &&& t.state == TaskState::Running ==> s.current == Some(p as usize)
        }) by {
            assert(s.tasks[p] is Some ==> m.tasks[p] is Some);
        }
    }
    assert(s.tree_wf()) by {
        assert forall|p: int, k: int| s.live(p) && 0 <= k < s.task(p).children.len() implies s.live(
            #[trigger] s.tasks[p]->0.children[k] as int,
        ) && s.task(s.tasks[p]->0.children[k] as int).parent == Some(p as usize) by {
            assert(m.live(p));
            let c = m.tasks[p]->0.children[k];
            assert(c == s.tasks[p]->0.children[k]);
            assert(m.live(c as int));
        }
        assert forall|q: int| 0 <= q < s.tasks.len() implies ((#[trigger] s.tasks[q]) matches Some(t)
            ==> (t.parent matches Some(p) ==> s.live(p as int) && s.task(p as int).children.contains(
            q as usize,
        ))) by {
            if let Some(t) = s.tasks[q] {
                assert(m.tasks[q] is Some);
                if let Some(p) = t.parent {
                    assert(m.live(p as int));
                }
            }
        }
    }
}

/// The exit of the running task keeps the table well formed.
pub proof fn lemma_exit_wf(m: ManagerView, code: i32)
    requires
        m.wf(),
        m.has_current(),
    ensures
        m.exit(code).wf(),
        m.exit(code).current == m.terminate(code).next_choice(),
{
    lemma_terminate_wf(m, code);
    if m.terminate(code).ready.len() > 0 {
        lemma_pick_wf(m.terminate(code));
    }
}

impl TaskManager {
    /// Puts the new task `child` into the next free slot, lists it last
    /// among the children of the running task and, if it is ready, submits
    /// it to the scheduler.
    fn adopt(&mut self, child: Task)
        requires
            old(self).wf(),
            adoptable(old(self)@, child@),
        ensures
            final(self)@ == old(self)@.adopt(child@),
            final(self).wf(),
    {
        let ghost v0 = self@;
        let ghost cv = child@;
        proof {
            lemma_adopt_wf(v0, cv);
        }
        let pid = child.pid;
        let ready = match child.state {
            TaskState::Ready => true,
            _ => false,
        };
        let cur = self.current.unwrap();
        assert(v0.live(cur as int));
        assert(v0.tasks[cur as int] == slot_view(self.tasks[cur as int]));
        match &mut self.tasks[cur] {
            Some(t) => {
                t.children.push(pid);
            },
            None => {},
        }
        self.tasks.push(Some(child));
        if ready {
            self.submit(pid);
        }
        proof {
            let target = v0.adopt(cv);
            assert(self@.tasks.len() == target.tasks.len());
            assert forall|p: int| 0 <= p < target.tasks.len() implies self@.tasks[p] == target.tasks[p] by {
                if p < v0.tasks.len() && p != cur {
                    assert(self@.tasks[p] == v0.tasks[p]);
                }
            }
            assert(self@.tasks =~= target.tasks);
        }
    }

    /// Duplicates the running task. The duplicate owns the address space
    /// `space`, which the caller has made as a copy of the parent's; it
    /// resumes where the parent does, with zero in its return register; it
    /// is listed last among the parent's children and joins the tail of the
    /// ready queue. Its identifier, the next one never issued before, is
    /// returned.
    ///
    /// The call fails when no identifier is left, or when no address space
    /// could be had (`space` is `None`). A space handed in for a duplicate
    /// that cannot be made is retired.
    pub fn fork(&mut self, space: Option<usize>) -> (r: Result<usize, ForkError>)
        requires
            old(self).wf(),
            old(self)@.has_current(),
        ensures
            final(self).wf(),
            match r {
                Ok(pid) => {
                    &&& old(self)@.can_fork()
                    &&& space is Some
                    &&& pid == old(self)@.tasks.len()
                    &&& final(self)@ == old(self)@.fork(space->0)
                },
                Err(ForkError::PidsExhausted) => {
                    &&& !old(self)@.can_fork()
                    &&& final(self)@ == old(self)@.discard(space, None)
                },
                Err(ForkError::SpaceExhausted) => {
                    &&& old(self)@.can_fork()
                    &&& space is None
                    &&& final(self)@ == old(self)@
                },
            },
    {
        if self.tasks.len() >= self.pid_limit {
            if let Some(s) = space {
                self.retire(s);
            }
            return Err(ForkError::PidsExhausted);
        }
        let s = match space {
            Some(s) => s,
            None => {
                return Err(ForkError::SpaceExhausted);
            },
        };
        let cur = self.current.unwrap();
        let pid = self.tasks.len();
        let mut context = self.task(cur).context;
        context.set_reg(RETURN_REG, 0);
        let child = Task {
            pid,
            state: TaskState::Ready,
            priority: DEFAULT_PRIORITY,
            stride: 0,
            remainder: 0,
            context,
            address_space: s,
            parent: Some(cur),
            children: Vec::new(),
        };
        assert(child@ == self@.current_task().duplicate(pid, s));
        self.adopt(child);
        Ok(pid)
    }

    /// Adds `space` to the address spaces that wait to be destroyed.
    fn retire(&mut self, space: usize)
        ensures
            final(self)@ == old(self)@.retire(space),
            old(self).wf() ==> final(self).wf(),
    {
        self.retired.push(space);
        assert(self@.tasks =~= old(self)@.tasks);
        proof {
            if old(self).wf() {
                crate::model::lemma_same_links_wf(old(self)@, self@);
            }
        }
    }

    /// Hands over the address spaces that no task owns any more, for the
    /// caller to destroy, and forgets them.
    pub fn take_retired(&mut self) -> (spaces: Vec<usize>)
        ensures
            spaces@ == old(self)@.retired,
            final(self)@ == (ManagerView { retired: Seq::empty(), ..old(self)@ }),
            old(self).wf() ==> final(self).wf(),
    {
        let mut spaces: Vec<usize> = Vec::new();
        core::mem::swap(&mut self.retired, &mut spaces);
        assert(self@.tasks =~= old(self)@.tasks);
        proof {
            if old(self).wf() {
                crate::model::lemma_same_links_wf(old(self)@, self@);
            }
        }
        spaces
    }

    /// Replaces the program of the running task. With a program at hand the
    /// task takes over its address space and starts at its entry point with
    /// a fresh stack, keeping its identifier and priority; the address space
    /// it had is retired. With none (`image` is `None`: the loader knows no
    /// such program) nothing changes and the call reports `NotFound`.
    pub fn exec(&mut self, image: Option<ExecutableImage>) -> (r: Result<(), ExecError>)
        requires
            old(self).wf(),
            old(self)@.has_current(),
        ensures
            final(self).wf(),
            match image {
                Some(img) => r is Ok && final(self)@ == old(self)@.exec(img),
                None => r == Err::<(), ExecError>(ExecError::NotFound) && final(self)@ == old(self)@,
            },
    {
        let img = match image {
            Some(img) => img,
            None => {
                return Err(ExecError::NotFound);
            },
        };
        proof {
            lemma_exec_wf(self@, img);
        }
        let cur = self.current.unwrap();
        let mut old_space: usize = 0;
        assert(self@.tasks[cur as int] == slot_view(self.tasks[cur as int]));
        match &mut self.tasks[cur] {
            Some(t) => {
                old_space = t.address_space;
                t.address_space = img.address_space;
                t.context = TrapContext::app_init_context(img.entry, img.user_sp);
            },
            None => {},
        }
        self.retired.push(old_space);
        assert(self@.tasks =~= old(self)@.exec(img).tasks);
        Ok(())
    }

    /// Ends the running task with the given exit code: it becomes a zombie,
    /// keeps its children, and the processor goes to the next task. With no
    /// task left to run the processor stays idle.
    pub fn exit(&mut self, code: i32)
        requires
            old(self).wf(),
            old(self)@.has_current(),
        ensures
            final(self)@ == old(self)@.exit(code),
            final(self).wf(),
    {
        proof {
            lemma_terminate_wf(self@, code);
        }
        let cur = self.current.unwrap();
        assert(self@.tasks[cur as int] == slot_view(self.tasks[cur as int]));
        match &mut self.tasks[cur] {
            Some(t) => {
                t.state = TaskState::Zombie(code);
            },
            None => {},
        }
        self.current = None;
        assert(self@.tasks =~= old(self)@.terminate(code).tasks);
        self.run_next();
        assert(old(self)@.terminate(code).suspend() == old(self)@.terminate(code));
    }

    /// Tells whether a request for `target` names the task `pid`.
    fn is_named(target: isize, pid: usize) -> (b: bool)
        ensures
            b == names(target, pid),
    {
        target == ANY_CHILD || (target >= 0 && target as usize == pid)
    }

    /// Tells whether the running task has a child that a request for
    /// `target` names.
    fn find_child(&self, target: isize) -> (found: bool)
        requires
            self.wf(),
            self@.has_current(),
        ensures
            found == self@.has_child(target),
    {
        let cur = self.current.unwrap();
        let kids = &self.task(cur).children;
        let mut j: usize = 0;
        while j < kids.len()
            invariant
                kids@ == self@.current_task().children,
                0 <= j <= kids.len(),
                forall|i: int| 0 <= i < j ==> !names(target, #[trigger] kids@[i]),
            decreases kids.len() - j,
        {
            if Self::is_named(target, kids[j]) {
                return true;
            }
            j += 1;
        }
        false
    }

    /// Finds the first child of the running task that a request for
    /// `target` can collect.
    fn find_zombie(&self, target: isize) -> (k: usize)
        requires
            self.wf(),
            self@.has_current(),
        ensures
            k == self@.first_reapable(target, 0),
    {
        let cur = self.current.unwrap();
        let kids = &self.task(cur).children;
        let mut j: usize = 0;
        while j < kids.len()
            invariant
                self.wf(),
                self.current == Some(cur),
                kids@ == self@.current_task().children,
                0 <= j <= kids.len(),
                self@.first_reapable(target, 0) == self@.first_reapable(target, j as int),
            decreases kids.len() - j,
        {
            let c = kids[j];
            assert(self@.live(cur as int));
            assert(self@.live(self@.tasks[cur as int]->0.children[j as int] as int));
            if Self::is_named(target, c) && self.task(c).is_zombie() {
                return j;
            }
            j += 1;
        }
        j
    }

    /// Hands the tasks named by `kids` to the root task: each gets the root
    /// as its parent and is listed last among the root's children.
    fn reparent(&mut self, kids: &Vec<usize>)
        requires
            old(self)@.live(ROOT_PID as int),
            forall|i: int| 0 <= i < kids.len() ==> old(self)@.live(#[trigger] kids[i] as int),
        ensures
            final(self)@ == (ManagerView {
                tasks: reparented(old(self)@.tasks, kids@, kids.len() as int),
                ..old(self)@
            }),
    {
        let ghost v0 = self@;
        let mut j: usize = 0;
        assert(self@.tasks =~= reparented(v0.tasks, kids@, 0)) by {
            assert(kids@.take(0).len() == 0);
            assert forall|p: int| 0 <= p < v0.tasks.len() implies self@.tasks[p] == reparented(
                v0.tasks,
                kids@,
                0,
            )[p] by {
                if let Some(t) = v0.tasks[p] {
                    assert(t.children + kids@.take(0) =~= t.children);
                }
            }
        }
        while j < kids.len()
            invariant
                v0.live(ROOT_PID as int),
                forall|i: int| 0 <= i < kids.len() ==> v0.live(#[trigger] kids[i] as int),
                0 <= j <= kids.len(),
                self.ready@ == v0.ready,
                self.current == v0.current,
                self.retired@ == v0.retired,
                self.pid_limit == v0.pid_limit,
                self.tasks.len() == v0.tasks.len(),
                self@.tasks == reparented(v0.tasks, kids@, j as int),
            decreases kids.len() - j,
        {
            let g = kids[j];
            let ghost before = self@.tasks;
            let ghost done = kids@.take(j as int);
            proof {
                assert(v0.live(kids[j as int] as int));
                assert(before[g as int] == slot_view(self.tasks[g as int]));
                assert(before[0] == slot_view(self.tasks[0]));
            }
            match &mut self.tasks[g] {
                Some(t) => {
                    t.parent = Some(ROOT_PID);
                },
                None => {},
            }
            let ghost half = self@.tasks;
            assert(half[0] == slot_view(self.tasks[0]));
            match &mut self.tasks[ROOT_PID] {
                Some(t) => {
                    t.children.push(g);
                },
                None => {},
            }
            j += 1;
            proof {
                let cur = kids@.take(j as int);
                assert(cur[j - 1] == g);
                assert(cur =~= done.push(g));
                assert forall|p: int| 0 <= p < v0.tasks.len() implies self@.tasks[p] == reparented(
                    v0.tasks,
                    kids@,
                    j as int,
                )[p] by {
                    if let Some(t) = v0.tasks[p] {
                        if p != g {
                            if cur.contains(p as usize) {
                                let i = choose|i: int| 0 <= i < cur.len() && cur[i] == p as usize;
                                assert(done[i] == p as usize);
                            }
                            if done.contains(p as usize) {
                                let i = choose|i: int| 0 <= i < done.len() && done[i] == p as usize;
                                assert(cur[i] == p as usize);
                            }
                        }
                        if p == ROOT_PID {
                            assert((t.children + done).push(g) =~= t.children + cur);
                        }
                        if p != g && p != ROOT_PID {
                            assert(self@.tasks[p] == before[p]);
                        }
                    }
                }
                assert(self@.tasks =~= reparented(v0.tasks, kids@, j as int));
            }
        }
    }

    /// Collects a terminated child of the running task. `target` names one
    /// child by its identifier, or every child with `ANY_CHILD`.
    ///
    /// With no child of that name the answer is `NoSuchChild`; with one, but
    /// none that has terminated, it is `Pending`; either way nothing
    /// changes. Otherwise the first such child on the list of the running
    /// task is reaped: it leaves the list and the table, its address space
    /// is retired, the children it had pass to the root task, and its
    /// identifier and exit code are returned.
    pub fn reap(&mut self, target: isize) -> (r: ReapOutcome)
        requires
            old(self).wf(),
            old(self)@.has_current(),
        ensures
            final(self).wf(),
            match r {
                ReapOutcome::NoSuchChild => !old(self)@.has_child(target) && final(self)@ == old(
                    self,
                )@,
                ReapOutcome::Pending => {
                    &&& old(self)@.has_child(target)
                    &&& old(self)@.first_reapable(target, 0) == old(self)@.current_task().children.len()
                    &&& final(self)@ == old(self)@
                },
                ReapOutcome::Reaped { pid, exit_code } => {
                    let k = old(self)@.first_reapable(target, 0);
                    &&& old(self)@.has_child(target)
                    &&& 0 <= k < old(self)@.current_task().children.len()
                    &&& pid == old(self)@.current_task().children[k]
                    &&& old(self)@.task(pid as int).state == TaskState::Zombie(exit_code)
                    &&& final(self)@ == old(self)@.reap(k)
                },
            },
    {
        let ghost v0 = self@;
        if !self.find_child(target) {
            return ReapOutcome::NoSuchChild;
        }
        let cur = self.current.unwrap();
        let k = self.find_zombie(target);
        proof {
            lemma_first_reapable(v0, target, 0);
            assert(v0.live(cur as int));
        }
        if k >= self.task(cur).children.len() {
            return ReapOutcome::Pending;
        }
        proof {
            lemma_reap_wf(v0, k as int);
            assert(v0.live(v0.tasks[cur as int]->0.children[k as int] as int));
            assert(v0.tasks[cur as int] == slot_view(self.tasks[cur as int]));
        }
        let mut pid: usize = 0;
        match &mut self.tasks[cur] {
            Some(t) => {
                pid = t.children.remove(k);
            },
            None => {},
        }
        assert(self@.tasks[pid as int] == slot_view(self.tasks[pid as int]));
        let zombie = self.tasks[pid].take().unwrap();
        let ghost mid = self@.tasks;
        proof {
            assert(mid =~= v0.tasks.update(
                cur as int,
                Some(
                    TaskView { children: v0.current_task().children.remove(k as int), ..v0.current_task() },
                ),
            ).update(pid as int, None));
            lemma_reap_tasks(v0, k as int, mid);
            assert(v0.tasks[0] is Some);
            assert forall|i: int| 0 <= i < zombie.children.len() implies self@.live(
                #[trigger] zombie.children[i] as int,
            ) by {
                assert(v0.live(v0.tasks[pid as int]->0.children[i] as int));
                assert(v0.task(v0.tasks[pid as int]->0.children[i] as int).parent == Some(pid));
            }
        }
        self.reparent(&zombie.children);
        self.retired.push(zombie.address_space);
        assert(self@.tasks =~= v0.reap(k as int).tasks);
        let exit_code = match zombie.state {
            TaskState::Zombie(code) => code,
            _ => 0,
        };
        ReapOutcome::Reaped { pid, exit_code }
    }

    /// Adds the address spaces among `space` and `image` to those that wait
    /// to be destroyed.
    pub(crate) fn discard(&mut self, space: Option<usize>, image: Option<ExecutableImage>)
        ensures
            final(self)@ == old(self)@.discard(space, image),
            old(self).wf() ==> final(self).wf(),
    {
        if let Some(s) = space {
            self.retire(s);
        }
        if let Some(img) = image {
            self.retire(img.address_space);
        }
    }

    /// Creates a child of the running task that runs the program `image`
    /// from its start: the composition of `fork` and, in the child only,
    /// `exec`. The parent goes on as it is and gets the child's identifier.
    ///
    /// `space` is the copy of the parent's address space that the caller has
    /// made for the child. With a program at hand the child starts at its
    /// entry point, ready, and the copy is retired. With none (`image` is
    /// `None`) the child does not resume as a copy of its parent: it has
    /// terminated with `EXEC_FAILED` and waits to be reaped.
    ///
    /// The call fails as `fork` does; what was handed in is then retired.
    pub fn spawn(&mut self, space: Option<usize>, image: Option<ExecutableImage>) -> (r: Result<
        usize,
        ForkError,
    >)
        requires
            old(self).wf(),
            old(self)@.has_current(),
        ensures
            final(self).wf(),
            match r {
                Ok(pid) => {
                    &&& old(self)@.can_fork()
                    &&& space is Some
                    &&& pid == old(self)@.tasks.len()
                    &&& final(self)@ == old(self)@.spawn(space->0, image)
                },
                Err(ForkError::PidsExhausted) => {
                    &&& !old(self)@.can_fork()
                    &&& final(self)@ == old(self)@.discard(space, image)
                },
                Err(ForkError::SpaceExhausted) => {
                    &&& old(self)@.can_fork()
                    &&& space is None
                    &&& final(self)@ == old(self)@.discard(space, image)
                },
            },
    {
        if self.tasks.len() >= self.pid_limit {
            self.discard(space, image);
            return Err(ForkError::PidsExhausted);
        }
        let s = match space {
            Some(s) => s,
            None => {
                self.discard(space, image);
                return Err(ForkError::SpaceExhausted);
            },
        };
        let cur = self.current.unwrap();
        let pid = self.tasks.len();
        let mut context = self.task(cur).context;
        context.set_reg(RETURN_REG, 0);
        let mut child = Task {
            pid,
            state: TaskState::Ready,
            priority: DEFAULT_PRIORITY,
            stride: 0,
            remainder: 0,
            context,
            address_space: s,
            parent: Some(cur),
            children: Vec::new(),
        };
        match image {
            Some(img) => {
                child.address_space = img.address_space;
                child.context = TrapContext::app_init_context(img.entry, img.user_sp);
            },
            None => {
                child.state = TaskState::Zombie(EXEC_FAILED);
            },
        }
        assert(child@ == self@.spawned(s, image));
        self.adopt(child);
        if image.is_some() {
            self.retire(s);
        }
        Ok(pid)
    }
}

} // verus!
