//! The priority-weighted scheduler: which ready task runs next, and the
//! transition that hands the processor over.
//!
//! Every task accrues stride at a rate inversely proportional to its
//! priority: a turn costs it `BIG_STRIDE` divided by its priority, exactly,
//! what the division leaves over being carried from turn to turn. The ready
//! task of least stride runs next, the one that has waited longest among
//! equals. Strides are kept relative to the least one, so they stay within
//! `MAX_STRIDE` and never overflow.

use vstd::prelude::*;
use crate::manager::TaskManager;
use crate::model::{lemma_remove_entry, lemma_same_links_wf, ManagerView};
use crate::task::{
    charge, charged_rest, charged_stride, is_valid_priority, lemma_charge, valid_priority,
    TaskState, TaskView, MAX_STRIDE,
};

verus! {

/// The position of the least element of `s`, the first one among equals
/// (zero for an empty sequence).
pub open spec fn first_min(s: Seq<u64>) -> int
    decreases s.len(),
{
    if s.len() <= 1 {
        0
    } else {
        let r = first_min(s.drop_last());
        if s.last() < s[r] {
            s.len() - 1
        } else {
            r
        }
    }
}

/// `first_min` names a position of the sequence whose element is below or
/// equal to every other and strictly below every earlier one.
pub proof fn lemma_first_min(s: Seq<u64>)
    requires
        s.len() > 0,
    ensures
        0 <= first_min(s) < s.len(),
        forall|j: int| 0 <= j < s.len() ==> s[first_min(s)] <= #[trigger] s[j],
        forall|j: int| 0 <= j < first_min(s) ==> s[first_min(s)] < #[trigger] s[j],
    decreases s.len(),
{
    if s.len() > 1 {
        let t = s.drop_last();
        lemma_first_min(t);
        assert(forall|j: int| 0 <= j < t.len() ==> t[j] == s[j]);
    }
}

impl ManagerView {
    /// The strides of the waiting tasks, in queue order.
    pub open spec fn strides(self) -> Seq<u64> {
        Seq::new(self.ready.len(), |j: int| self.task(self.ready[j] as int).stride)
    }

    /// The task that would run next: the waiting task of least stride, the
    /// one that was submitted first among equals; none if no task waits.
    pub open spec fn next_choice(self) -> Option<usize> {
        if self.ready.len() == 0 {
            None
        } else {
            Some(self.ready[first_min(self.strides())])
        }
    }

    /// This state with `pid` appended to the ready queue.
    pub open spec fn submit(self, pid: usize) -> ManagerView {
        ManagerView { ready: self.ready.push(pid), ..self }
    }

    /// This state after the running task, if there is one, has given up the
    /// processor and joined the tail of the ready queue.
    pub open spec fn suspend(self) -> ManagerView {
        match self.current {
            Some(c) => ManagerView {
                current: None,
                ..self.with_task(
                    c as int,
                    TaskView { state: TaskState::Ready, ..self.task(c as int) },
                ).submit(c)
            },
            None => self,
        }
    }

    /// This state after the task named by `next_choice` has left the queue
    /// and taken the processor. The stride of every waiting task is rebased
    /// on that of the chosen one, which is charged the cost of one turn at
    /// its present priority.
    pub open spec fn pick(self) -> ManagerView
        recommends
            self.ready.len() > 0,
            self.current is None,
    {
        let i = first_min(self.strides());
        let chosen = self.ready[i];
        let base = self.task(chosen as int).stride;
        ManagerView {
            tasks: Seq::new(
                self.tasks.len(),
                |p: int|
                    match self.tasks[p] {
                        Some(t) => if p == chosen {
                            Some(
                                TaskView {
                                    state: TaskState::Running,
                                    stride: charged_stride(t.priority, t.remainder),
                                    remainder: charged_rest(t.priority, t.remainder),
                                    ..t
                                },
                            )
                        } else if t.state == TaskState::Ready {
                            Some(TaskView { stride: (t.stride - base) as u64, ..t })
                        } else {
                            Some(t)
                        },
                        None => None,
                    },
            ),
            ready: self.ready.remove(i),
            current: Some(chosen),
            ..self
        }
    }

    /// This state after the free processor has been given to the next task,
    /// or left idle if no task waits.
    pub open spec fn dispatch(self) -> ManagerView
        recommends
            self.current is None,
    {
        if self.ready.len() == 0 {
            self
        } else {
            self.pick()
        }
    }

    /// The scheduling transition: the running task, if it is still there,
    /// goes back to the ready queue, and the next task takes the processor.
    pub open spec fn run_next(self) -> ManagerView {
        self.suspend().dispatch()
    }

    /// This state with the priority of the running task set to `priority`.
    /// The stride that the task has accrued stays as it is; what it carried
    /// beyond that, less than one unit of stride, is dropped.
    pub open spec fn set_priority(self, priority: usize) -> ManagerView
        recommends
            self.has_current(),
    {
        self.with_task(
            self.current->0 as int,
            TaskView { priority, remainder: 0, ..self.current_task() },
        )
    }
}

/// The task table after the tasks named by the first `n` entries of the
/// queue `q` have had their stride lowered by `base`.
pub open spec fn rebased(tasks: Seq<Option<TaskView>>, q: Seq<usize>, n: int, base: u64) -> Seq<
    Option<TaskView>,
> {
    Seq::new(
        tasks.len(),
        |p: int|
            match tasks[p] {
                Some(t) => if q.take(n).contains(p as usize) {
                    Some(TaskView { stride: (t.stride - base) as u64, ..t })
                } else {
                    Some(t)
                },
                None => None,
            },
    )
}

/// Suspending the running task keeps the table well formed.
pub proof fn lemma_suspend_wf(m: ManagerView)
    requires
        m.wf(),
    ensures
        m.suspend().wf(),
        m.suspend().current is None,
        m.current is Some ==> m.suspend().ready.len() > 0,
{
    if let Some(c) = m.current {
        let s = m.suspend();
        assert(s.ready.last() == c);
        assert(!m.ready.contains(c)) by {
            if m.ready.contains(c) {
                let j = choose|j: int| 0 <= j < m.ready.len() && m.ready[j] == c;
                assert(m.task(m.ready[j] as int).state == TaskState::Ready);
            }
        }
        assert(s.ready.no_duplicates());
        assert forall|p: int| 0 <= p < s.tasks.len() implies ((#[trigger] s.tasks[p]) matches Some(t)
            ==> {
            &&& t.state == TaskState::Ready ==> s.ready.contains(p as usize)
            &&& t.state == TaskState::Running ==> s.current == Some(p as usize)
        }) by {
            if let Some(t) = s.tasks[p] {
                if p == c {
                    assert(s.ready[s.ready.len() - 1] == c);
                } else {
                    assert(m.tasks[p] == s.tasks[p]);
                    if t.state == TaskState::Ready {
                        let j = choose|j: int| 0 <= j < m.ready.len() && m.ready[j] == p as usize;
                        assert(s.ready[j] == p as usize);
                    }
                }
            }
        }
        assert forall|j: int| 0 <= j < s.ready.len() implies s.live(#[trigger] s.ready[j] as int)
            && s.task(s.ready[j] as int).state == TaskState::Ready by {
            if j < m.ready.len() {
                assert(s.ready[j] == m.ready[j]);
                assert(m.live(m.ready[j] as int));
            }
        }
        assert(s.table_wf()) by {
            assert forall|p: int| 0 <= p < s.tasks.len() implies ((#[trigger] s.tasks[p]) matches Some(
                t,
            ) ==> {
                &&& t.pid == p
                &&& crate::task::valid_priority(t.priority)
                &&& t.stride <= MAX_STRIDE
                &&& t.remainder < t.priority
                &&& t.context.x.len() == crate::context::REG_COUNT
                &&& t.children.no_duplicates()
                &&& p != crate::task::ROOT_PID ==> t.parent is Some
            }) by {
                assert(m.tasks[p] is Some ==> s.tasks[p] is Some);
            }
        }
        assert(s.tree_wf()) by {
            assert forall|p: int, k: int| s.live(p) && 0 <= k < s.task(p).children.len() implies s.live(
                #[trigger] s.tasks[p]->0.children[k] as int,
            ) && s.task(s.tasks[p]->0.children[k] as int).parent == Some(p as usize) by {
                assert(m.live(p));
                assert(m.tasks[p]->0.children[k] == s.tasks[p]->0.children[k]);
            }
            assert forall|q: int| 0 <= q < s.tasks.len() implies ((#[trigger] s.tasks[q]) matches Some(
                t,
            ) ==> (t.parent matches Some(p) ==> s.live(p as int) && s.task(p as int).children.contains(
                q as usize,
            ))) by {
                assert(m.tasks[q] is Some ==> s.tasks[q] is Some);
            }
        }
    }
}

/// Handing the processor to the chosen task keeps the table well formed.
pub proof fn lemma_pick_wf(m: ManagerView)
    requires
        m.wf(),
        m.ready.len() > 0,
        m.current is None,
    ensures
        m.pick().wf(),
        m.pick().current == m.next_choice(),
{
    let s = m.pick();
    let i = first_min(m.strides());
    lemma_first_min(m.strides());
    lemma_remove_entry(m.ready, i);
    let chosen = m.ready[i];
    let base = m.task(chosen as int).stride;
    assert(m.live(chosen as int));
    assert(m.strides()[i] == base);
    assert forall|p: int| 0 <= p < m.tasks.len() implies ((#[trigger] m.tasks[p]) matches Some(t) ==> (
    t.state == TaskState::Ready ==> t.stride >= base)) by {
        if let Some(t) = m.tasks[p] {
            if t.state == TaskState::Ready {
                let j = choose|j: int| 0 <= j < m.ready.len() && m.ready[j] == p as usize;
                assert(m.strides()[j] == t.stride);
            }
        }
    }
    assert(s.table_wf()) by {
        assert forall|p: int| 0 <= p < s.tasks.len() implies ((#[trigger] s.tasks[p]) matches Some(t)
            ==> {
            &&& t.pid == p
            &&& crate::task::valid_priority(t.priority)
            &&& t.stride <= MAX_STRIDE
            &&& t.remainder < t.priority
            &&& t.context.x.len() == crate::context::REG_COUNT
            &&& t.children.no_duplicates()
            &&& p != crate::task::ROOT_PID ==> t.parent is Some
        }) by {
            if let Some(t0) = m.tasks[p] {
                lemma_charge(t0.priority, t0.remainder);
            }
        }
        assert(m.tasks[0] is Some);
    }
    assert(s.queue_wf()) by {
        assert forall|j: int| 0 <= j < s.ready.len() implies s.live(#[trigger] s.ready[j] as int)
            && s.task(s.ready[j] as int).state == TaskState::Ready by {
            let p = s.ready[j];
            assert(m.ready.contains(p));
            let j0 = choose|j0: int| 0 <= j0 < m.ready.len() && m.ready[j0] == p;
            assert(m.live(m.ready[j0] as int));
            assert(p != chosen);
        }
        assert forall|p: int| 0 <= p < s.tasks.len() implies ((#[trigger] s.tasks[p]) matches Some(t)
            ==> {
            &&& t.state == TaskState::Ready ==> s.ready.contains(p as usize)
            &&& t.state == TaskState::Running ==> s.current == Some(p as usize)
        }) by {
            if let Some(t0) = m.tasks[p] {
                if p != chosen && t0.state == TaskState::Ready {
                    let j0 = choose|j0: int| 0 <= j0 < m.ready.len() && m.ready[j0] == p as usize;
                    assert(j0 != i);
                    assert(s.ready.contains(m.ready[j0]));
                }
            }
        }
    }
    assert(s.tree_wf()) by {
        assert forall|p: int, k: int| s.live(p) && 0 <= k < s.task(p).children.len() implies s.live(
            #[trigger] s.tasks[p]->0.children[k] as int,
        ) && s.task(s.tasks[p]->0.children[k] as int).parent == Some(p as usize) by {
            assert(m.live(p));
            let c = m.tasks[p]->0.children[k];
            assert(c == s.tasks[p]->0.children[k]);
            assert(m.live(c as int));
        }
        assert forall|q: int| 0 <= q < s.tasks.len() implies ((#[trigger] s.tasks[q]) matches Some(t)
            ==> (t.parent matches Some(p) ==> s.live(p as int) && s.task(p as int).children.contains(
            q as usize,
        ))) by {
            if let Some(t0) = m.tasks[q] {
                if let Some(p) = t0.parent {
                    assert(m.live(p as int));
                    assert(s.task(p as int).children == m.task(p as int).children);
                }
            }
        }
    }
}

/// Once every task of the queue that is left after the choice has been
/// rebased, the table is the one that `pick` describes, but for the chosen
/// task itself, which is as it was. The chosen task is live, and no task of
/// the queue has less stride than it.
pub proof fn lemma_pick_rebased(m: ManagerView)
    requires
        m.wf(),
        m.ready.len() > 0,
        m.current is None,
    ensures
        ({
            let i = first_min(m.strides());
            let chosen = m.ready[i];
            let base = m.task(chosen as int).stride;
            let q = m.ready.remove(i);
            let r = rebased(m.tasks, q, q.len() as int, base);
            &&& 0 <= i < m.ready.len()
            &&& m.live(chosen as int)
            &&& q.no_duplicates()
            &&& forall|j: int|
                0 <= j < q.len() ==> m.live(#[trigger] q[j] as int) && m.task(q[j] as int).stride
                    >= base
            &&& r[chosen as int] == m.tasks[chosen as int]
            &&& forall|p: int|
                0 <= p < m.tasks.len() && p != chosen ==> #[trigger] r[p] == m.pick().tasks[p]
        }),
{
    let i = first_min(m.strides());
    lemma_first_min(m.strides());
    lemma_remove_entry(m.ready, i);
    let chosen = m.ready[i];
    let base = m.task(chosen as int).stride;
    let q = m.ready.remove(i);
    let r = rebased(m.tasks, q, q.len() as int, base);
    assert(q.take(q.len() as int) =~= q);
    assert(m.live(m.ready[i] as int));
    assert(m.strides()[i] == base);
    assert forall|j: int| 0 <= j < q.len() implies m.live(#[trigger] q[j] as int) && m.task(
        q[j] as int,
    ).stride >= base by {
        assert(m.ready.contains(q[j]));
        let j0 = choose|j0: int| 0 <= j0 < m.ready.len() && m.ready[j0] == q[j];
        assert(m.live(m.ready[j0] as int));
        assert(m.strides()[j0] == m.task(q[j] as int).stride);
    }
    assert forall|p: int| 0 <= p < m.tasks.len() && p != chosen implies #[trigger] r[p] == m.pick().tasks[p] by {
        if let Some(t0) = m.tasks[p] {
            if t0.state == TaskState::Ready {
                let j0 = choose|j0: int| 0 <= j0 < m.ready.len() && m.ready[j0] == p as usize;
                assert(q.contains(m.ready[j0]));
            } else {
                if q.contains(p as usize) {
                    let k = choose|k: int| 0 <= k < q.len() && q[k] == p as usize;
                    assert(m.ready.contains(q[k]));
                    let j0 = choose|j0: int| 0 <= j0 < m.ready.len() && m.ready[j0] == p as usize;
                    assert(m.task(m.ready[j0] as int).state == TaskState::Ready);
                }
            }
        }
    }
}

/// What the choice does to each task: the chosen task, which was ready and
/// had the least stride of all ready tasks, runs and is charged one turn;
/// every other ready task stays ready with its stride rebased; no other task
/// changes.
pub proof fn lemma_pick_effect(m: ManagerView)
    requires
        m.wf(),
        m.ready.len() > 0,
        m.current is None,
    ensures
        ({
            let chosen = m.ready[first_min(m.strides())] as int;
            let base = m.task(chosen).stride;
            let s = m.pick();
            &&& m.live(chosen)
            &&& m.task(chosen).state == TaskState::Ready
            &&& s.current == Some(chosen as usize)
            &&& s.tasks.len() == m.tasks.len()
            &&& forall|p: int|
                0 <= p < m.tasks.len() ==> ((#[trigger] m.tasks[p]) matches Some(t) ==> {
                    let t2 = s.tasks[p];
                    if t.state == TaskState::Ready {
                        &&& t.stride >= base
                        &&& t2 == Some(
                            TaskView {
                                state: if p == chosen {
                                    TaskState::Running
                                } else {
                                    TaskState::Ready
                                },
                                stride: if p == chosen {
                                    charged_stride(t.priority, t.remainder)
                                } else {
                                    (t.stride - base) as u64
                                },
                                remainder: if p == chosen {
                                    charged_rest(t.priority, t.remainder)
                                } else {
                                    t.remainder
                                },
                                ..t
                            },
                        )
                    } else {
                        t2 == Some(t)
                    }
                })
            &&& forall|p: int| 0 <= p < m.tasks.len() ==> (#[trigger] m.tasks[p] is None ==> s.tasks[p] is None)
        }),
{
    let i = first_min(m.strides());
    lemma_first_min(m.strides());
    let chosen = m.ready[i] as int;
    let base = m.task(chosen).stride;
    assert(m.live(m.ready[i] as int));
    assert(m.strides()[i] == base);
    assert forall|p: int| 0 <= p < m.tasks.len() implies ((#[trigger] m.tasks[p]) matches Some(t) ==> (
    t.state == TaskState::Ready ==> t.stride >= base)) by {
        if let Some(t) = m.tasks[p] {
            if t.state == TaskState::Ready {
                let j = choose|j: int| 0 <= j < m.ready.len() && m.ready[j] == p as usize;
                assert(m.strides()[j] == t.stride);
            }
        }
    }
}

/// The scheduling transition keeps the table well formed, and afterwards a
/// task runs unless none was there to run.
pub proof fn lemma_run_next_wf(m: ManagerView)
    requires
        m.wf(),
    ensures
        m.run_next().wf(),
        m.run_next().current == m.suspend().next_choice(),
        m.current is Some ==> m.run_next().current is Some,
{
    lemma_suspend_wf(m);
    if m.suspend().ready.len() > 0 {
        lemma_pick_wf(m.suspend());
    }
}

/// A change of priority keeps the table well formed.
pub proof fn lemma_set_priority_wf(m: ManagerView, priority: usize)
    requires
        m.wf(),
        m.has_current(),
        valid_priority(priority),
    ensures
        m.set_priority(priority).wf(),
{
    let s = m.set_priority(priority);
    let c = m.current->0 as int;
    lemma_same_links_wf(m, s);
}

impl TaskManager {
    /// Finds the position in the ready queue of the task to run next.
    fn select_index(&self) -> (i: usize)
        requires
            self.wf(),
            self.ready.len() > 0,
        ensures
            i == first_min(self@.strides()),
            i < self.ready.len(),
    {
        let ghost s = self@.strides();
        let mut best: usize = 0;
        let mut best_stride: u64 = self.task(self.ready[0]).stride;
        let mut j: usize = 1;
        assert(s.take(1).len() == 1);
        while j < self.ready.len()
            invariant
                self.wf(),
                s == self@.strides(),
                1 <= j <= self.ready.len(),
                best == first_min(s.take(j as int)),
                best < j,
                best_stride == s[best as int],
            decreases self.ready.len() - j,
        {
            let stride = self.task(self.ready[j]).stride;
            assert(s.take(j + 1).drop_last() =~= s.take(j as int));
            assert(s.take(j + 1).last() == s[j as int]);
            if stride < best_stride {
                best = j;
                best_stride = stride;
            }
            j += 1;
        }
        assert(s.take(j as int) =~= s);
        best
    }

    /// Chooses the task to run next, without changing anything.
    pub fn select_next(&self) -> (next: Option<usize>)
        requires
            self.wf(),
        ensures
            next == self@.next_choice(),
    {
        if self.ready.len() == 0 {
            None
        } else {
            let i = self.select_index();
            Some(self.ready[i])
        }
    }

    /// Appends `pid` to the tail of the ready queue.
    pub(crate) fn submit(&mut self, pid: usize)
        ensures
            final(self)@ == old(self)@.submit(pid),
    {
        self.ready.push(pid);
        assert(self@.tasks =~= old(self)@.tasks);
    }

    /// Takes the processor from the running task, if there is one, and puts
    /// that task at the tail of the ready queue.
    pub fn suspend(&mut self)
        requires
            old(self).wf(),
        ensures
            final(self)@ == old(self)@.suspend(),
            final(self).wf(),
    {
        proof {
            lemma_suspend_wf(self@);
        }
        match self.current {
            Some(c) => {
                match &mut self.tasks[c] {
                    Some(t) => {
                        t.state = TaskState::Ready;
                    },
                    None => {},
                }
                self.submit(c);
                self.current = None;
                assert(self@.tasks =~= old(self)@.suspend().tasks);
            },
            None => {},
        }
    }

    /// Lowers the stride of every waiting task by `base`.
    fn rebase_ready(&mut self, base: u64)
        requires
            old(self).ready@.no_duplicates(),
            forall|j: int|
                0 <= j < old(self).ready.len() ==> old(self)@.live(
                    #[trigger] old(self).ready[j] as int,
                ) && old(self)@.task(old(self).ready[j] as int).stride >= base,
        ensures
            final(self)@ == (ManagerView {
                tasks: rebased(old(self)@.tasks, old(self)@.ready, old(self).ready.len() as int, base),
                ..old(self)@
            }),
    {
        let ghost v0 = self@;
        let ghost q = self.ready@;
        let mut j: usize = 0;
        assert(self@.tasks =~= rebased(v0.tasks, q, 0, base)) by {
            assert(q.take(0).len() == 0);
        }
        while j < self.ready.len()
            invariant
                q.no_duplicates(),
                q == v0.ready,
                forall|j: int|
                    0 <= j < q.len() ==> v0.live(#[trigger] q[j] as int) && v0.task(q[j] as int).stride
                        >= base,
                self.ready@ == q,
                0 <= j <= q.len(),
                self.current == v0.current,
                self.retired@ == v0.retired,
                self.pid_limit == v0.pid_limit,
                self.tasks.len() == v0.tasks.len(),
                self@.tasks == rebased(v0.tasks, q, j as int, base),
            decreases q.len() - j,
        {
            let pid = self.ready[j];
            let ghost before = self@.tasks;
            let ghost done = q.take(j as int);
            proof {
                assert(v0.live(q[j as int] as int));
                assert(!done.contains(pid)) by {
                    if done.contains(pid) {
                        let k = choose|k: int| 0 <= k < done.len() && done[k] == pid;
                        assert(q[k] == q[j as int]);
                    }
                }
                assert(before[pid as int] == v0.tasks[pid as int]);
                assert(before[pid as int] == crate::manager::slot_view(self.tasks[pid as int]));
            }
            match &mut self.tasks[pid] {
                Some(t) => {
                    t.stride = t.stride - base;
                },
                None => {},
            }
            j += 1;
            proof {
                let cur = q.take(j as int);
                assert(cur[j - 1] == pid);
                assert forall|p: int| 0 <= p < v0.tasks.len() implies self@.tasks[p] == rebased(
                    v0.tasks,
                    q,
                    j as int,
                    base,
                )[p] by {
                    if p != pid {
                        assert(self@.tasks[p] == before[p]);
                        if cur.contains(p as usize) {
                            let k = choose|k: int| 0 <= k < cur.len() && cur[k] == p as usize;
                            assert(done[k] == p as usize);
                        }
                        if done.contains(p as usize) {
                            let k = choose|k: int| 0 <= k < done.len() && done[k] == p as usize;
                            assert(cur[k] == p as usize);
                        }
                    }
                }
                assert(self@.tasks =~= rebased(v0.tasks, q, j as int, base));
            }
        }
    }

    /// Marks the task `pid` as running, charges it the cost of one turn and
    /// records it in the running slot.
    fn start(&mut self, pid: usize)
        requires
            old(self)@.live(pid as int),
            valid_priority(old(self)@.task(pid as int).priority),
            old(self)@.task(pid as int).remainder < old(self)@.task(pid as int).priority,
        ensures
            final(self)@ == (ManagerView {
                current: Some(pid),
                ..old(self)@.with_task(pid as int, old(self)@.task(pid as int).started())
            }),
    {
        match &mut self.tasks[pid] {
            Some(t) => {
                let cost = charge(t.priority, t.remainder);
                t.state = TaskState::Running;
                t.stride = cost.0;
                t.remainder = cost.1;
            },
            None => {},
        }
        self.current = Some(pid);
        assert(self@.tasks =~= old(self)@.tasks.update(
            pid as int,
            Some(old(self)@.task(pid as int).started()),
        ));
    }

    /// Gives the free processor to the waiting task of least stride.
    fn pick(&mut self)
        requires
            old(self).wf(),
            old(self).ready.len() > 0,
            old(self).current is None,
        ensures
            final(self)@ == old(self)@.pick(),
            final(self).wf(),
    {
        let ghost v0 = self@;
        let i = self.select_index();
        proof {
            lemma_pick_rebased(v0);
        }
        let chosen = self.ready.remove(i);
        assert(self@.tasks =~= v0.tasks);
        let base = self.task(chosen).stride;
        self.rebase_ready(base);
        let ghost mid = self@.tasks;
        assert(mid.len() == v0.tasks.len());
        assert(mid[chosen as int] == v0.tasks[chosen as int]);
        self.start(chosen);
        proof {
            assert forall|p: int| 0 <= p < v0.tasks.len() implies self@.tasks[p] == v0.pick().tasks[p] by {
                if p != chosen {
                    assert(self@.tasks[p] == mid[p]);
                }
            }
            assert(self@.tasks =~= v0.pick().tasks);
            lemma_pick_wf(v0);
        }
    }

    /// The scheduling transition: puts the running task, if it is still
    /// there, back into the ready queue, and gives the processor to the
    /// waiting task of least stride. With no task to run the processor stays
    /// idle.
    pub fn run_next(&mut self)
        requires
            old(self).wf(),
        ensures
            final(self)@ == old(self)@.run_next(),
            final(self).wf(),
    {
        self.suspend();
        if self.ready.len() > 0 {
            self.pick();
        }
    }

    /// Sets the priority of the running task. A value outside the accepted
    /// range is refused and nothing changes. The new priority weighs on the
    /// turns to come; the stride accrued so far stays, and what the task
    /// carried beyond it, less than one unit of stride, is dropped.
    pub fn set_priority(&mut self, priority: usize) -> (ok: bool)
        requires
            old(self).wf(),
            old(self)@.has_current(),
        ensures
            ok == valid_priority(priority),
            ok ==> final(self)@ == old(self)@.set_priority(priority),
            !ok ==> final(self)@ == old(self)@,
            final(self).wf(),
    {
        if !is_valid_priority(priority) {
            return false;
        }
        proof {
            lemma_set_priority_wf(self@, priority);
        }
        match self.current {
            Some(c) => {
                match &mut self.tasks[c] {
                    Some(t) => {
                        t.priority = priority;
                        t.remainder = 0;
                    },
                    None => {},
                }
                assert(self@.tasks =~= old(self)@.set_priority(priority).tasks);
            },
            None => {},
        }
        true
    }
}

} // verus!
