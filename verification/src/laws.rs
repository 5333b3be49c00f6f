//! Laws of the process tree and of the system calls, proved from the model.

use vstd::prelude::*;
use crate::context::{ContextView, ExecutableImage, REG_COUNT, RETURN_REG};
use crate::model::ManagerView;
use crate::process::{lemma_adopt_wf, lemma_first_reapable, EXEC_FAILED};
use crate::syscall::{Supplies, FAILURE, STILL_RUNNING, SYSCALL_EXEC, SYSCALL_FORK};
use crate::task::{valid_priority, TaskState, MIN_PRIORITY};
use crate::trap::TrapAction;

verus! {

impl ManagerView {
    /// This state after the running task has been duplicated once for each
    /// of the address spaces `spaces`, in their order.
    pub open spec fn after_forks(self, spaces: Seq<usize>) -> ManagerView
        decreases spaces.len(),
    {
        if spaces.len() == 0 {
            self
        } else {
            self.after_forks(spaces.drop_last()).fork(spaces.last())
        }
    }

    /// The identifier that the fork number `i` of `after_forks` issues.
    pub open spec fn issued(self, spaces: Seq<usize>, i: int) -> int {
        self.after_forks(spaces.take(i)).tasks.len() as int
    }
}

/// At every instant the identifiers of the tasks in the table are pairwise
/// distinct.
pub proof fn law_pids_are_distinct(m: ManagerView, a: int, b: int)
    requires
        m.wf(),
        m.live(a),
        m.live(b),
        a != b,
    ensures
        m.task(a).pid != m.task(b).pid,
{
}

/// Every transition of the table keeps it well formed, so that identifiers
/// stay pairwise distinct whatever the tasks do: a scheduling decision, an
/// exit, a fork, a spawn, a change of program or of priority, and the
/// reaping of a terminated child.
pub proof fn law_transitions_keep_the_table_well_formed(
    m: ManagerView,
    code: i32,
    space: usize,
    image: ExecutableImage,
    priority: usize,
    k: int,
)
    requires
        m.wf(),
    ensures
        m.run_next().wf(),
        m.has_current() ==> m.exit(code).wf(),
        m.has_current() ==> m.exec(image).wf(),
        m.has_current() && m.can_fork() ==> m.fork(space).wf(),
        m.has_current() && m.can_fork() ==> m.spawn(space, Some(image)).wf(),
        m.has_current() && m.can_fork() ==> m.spawn(space, None).wf(),
        m.has_current() && valid_priority(priority) ==> m.set_priority(priority).wf(),
        m.has_current() && 0 <= k < m.current_task().children.len() && m.task(
            m.current_task().children[k] as int,
        ).is_zombie() ==> m.reap(k).wf(),
{
    crate::scheduler::lemma_run_next_wf(m);
    if m.has_current() {
        crate::process::lemma_exit_wf(m, code);
        crate::process::lemma_exec_wf(m, image);
        if m.can_fork() {
            law_fork_issues_fresh_pid(m, space);
            law_spawn_parts_parent_and_child(m, space, Some(image));
            law_spawn_parts_parent_and_child(m, space, None);
        }
        if valid_priority(priority) {
            crate::scheduler::lemma_set_priority_wf(m, priority);
        }
        if 0 <= k < m.current_task().children.len() && m.task(
            m.current_task().children[k] as int,
        ).is_zombie() {
            crate::process::lemma_reap_wf(m, k);
        }
    }
}

/// A fork keeps the table well formed and issues the identifier that
/// follows the last one issued, which no task of the table has.
pub proof fn law_fork_issues_fresh_pid(m: ManagerView, space: usize)
    requires
        m.wf(),
        m.has_current(),
        m.can_fork(),
    ensures
        m.fork(space).wf(),
        m.fork(space).current == m.current,
        m.fork(space).pid_limit == m.pid_limit,
        m.fork(space).tasks.len() == m.tasks.len() + 1,
        !m.live(m.tasks.len() as int),
        m.fork(space).live(m.tasks.len() as int),
        m.fork(space).task(m.tasks.len() as int).pid == m.tasks.len(),
        forall|p: int| m.live(p) ==> #[trigger] m.fork(space).live(p),
{
    let cur = m.current->0 as int;
    assert(m.live(cur));
    assert(m.tasks[cur] is Some);
    lemma_adopt_wf(m, m.current_task().duplicate(m.tasks.len() as usize, space));
}

/// After any number of forks in a row the table is well formed, and each
/// fork has issued an identifier of its own, one more than the fork before
/// it.
pub proof fn law_forks_issue_distinct_pids(m: ManagerView, spaces: Seq<usize>, i: int, j: int)
    requires
        m.wf(),
        m.has_current(),
        m.tasks.len() + spaces.len() <= m.pid_limit,
        0 <= i < j < spaces.len(),
    ensures
        m.after_forks(spaces).wf(),
        m.issued(spaces, i) == m.tasks.len() + i,
        m.issued(spaces, j) == m.tasks.len() + j,
        m.issued(spaces, i) != m.issued(spaces, j),
        m.after_forks(spaces).live(m.issued(spaces, i)),
        m.after_forks(spaces).live(m.issued(spaces, j)),
{
    lemma_forks(m, spaces.take(i));
    lemma_forks(m, spaces.take(j));
    lemma_forks(m, spaces);
    lemma_forks_keep(m, spaces, i);
    lemma_forks_keep(m, spaces, j);
}

/// Forks in a row keep the table well formed and add one task each.
pub proof fn lemma_forks(m: ManagerView, spaces: Seq<usize>)
    requires
        m.wf(),
        m.has_current(),
        m.tasks.len() + spaces.len() <= m.pid_limit,
    ensures
        m.after_forks(spaces).wf(),
        m.after_forks(spaces).current == m.current,
        m.after_forks(spaces).pid_limit == m.pid_limit,
        m.after_forks(spaces).tasks.len() == m.tasks.len() + spaces.len(),
    decreases spaces.len(),
{
    if spaces.len() > 0 {
        lemma_forks(m, spaces.drop_last());
        law_fork_issues_fresh_pid(m.after_forks(spaces.drop_last()), spaces.last());
    }
}

/// The task that the fork number `i` has created is still there after the
/// forks that follow.
pub proof fn lemma_forks_keep(m: ManagerView, spaces: Seq<usize>, i: int)
    requires
        m.wf(),
        m.has_current(),
        m.tasks.len() + spaces.len() <= m.pid_limit,
        0 <= i < spaces.len(),
    ensures
        m.after_forks(spaces).live(m.tasks.len() + i),
    decreases spaces.len(),
{
    let before = spaces.drop_last();
    lemma_forks(m, before);
    law_fork_issues_fresh_pid(m.after_forks(before), spaces.last());
    if i < spaces.len() - 1 {
        lemma_forks_keep(m, before, i);
        assert(m.after_forks(spaces).live(m.tasks.len() + i));
    }
}

/// The two returns of `fork`. When the call has run, the return register of
/// the parent holds the identifier of the child, and the return register of
/// the child, which the child reads once it is scheduled, holds zero.
pub proof fn law_fork_returns_twice(m: ManagerView, space: usize)
    requires
        m.wf(),
        m.has_current(),
        m.can_fork(),
        m.call_id() == SYSCALL_FORK,
    ensures
        ({
            let parent = m.current->0 as int;
            let child = m.tasks.len() as int;
            let done = m.complete(Supplies { space: Some(space), image: None });
            &&& done.1 == TrapAction::Return
            &&& done.0.live(child)
            &&& done.0.task(child).pid == child
            &&& done.0.task(child).parent == Some(parent as usize)
            &&& done.0.task(child).context.x[RETURN_REG as int] == 0
            &&& done.0.task(parent).context.x[RETURN_REG as int] == child
        }),
{
    let parent = m.current->0 as int;
    assert(m.live(parent));
    assert(m.tasks[parent] is Some);
    assert(m.discard(None, None) == m);
}

/// `waitpid` for a child that has not terminated answers `STILL_RUNNING`,
/// hands over no exit code and changes nothing.
pub proof fn law_waitpid_on_live_child(m: ManagerView, child: int)
    requires
        m.wf(),
        m.has_current(),
        m.current_task().children.contains(child as usize),
        0 <= child < m.tasks.len(),
        !m.task(child).is_zombie(),
    ensures
        m.sys_waitpid(child as isize) == (m, STILL_RUNNING, None::<i32>),
{
    let kids = m.current_task().children;
    let target = child as isize;
    let k = choose|k: int| 0 <= k < kids.len() && kids[k] == child as usize;
    assert(crate::process::names(target, kids[k]));
    lemma_first_reapable(m, target, 0);
}

/// `set_priority` refuses what lies outside the accepted range, one and the
/// value above the highest priority among it: it returns `FAILURE` and
/// changes nothing. It accepts the lowest priority, two, and returns it; the
/// task then has that priority and the stride it had.
pub proof fn law_set_priority_range(m: ManagerView, priority: usize)
    requires
        m.wf(),
        m.has_current(),
    ensures
        !valid_priority(priority) ==> m.sys_set_priority(priority) == (m, FAILURE),
        m.sys_set_priority(1) == (m, FAILURE),
        m.sys_set_priority((isize::MAX + 1) as usize) == (m, FAILURE),
        m.sys_set_priority(MIN_PRIORITY).1 == 2,
        m.sys_set_priority(MIN_PRIORITY).0.current_task().priority == 2,
        m.sys_set_priority(MIN_PRIORITY).0.current_task().stride == m.current_task().stride,
        valid_priority(priority) ==> m.sys_set_priority(priority).0.current_task().stride
            == m.current_task().stride,
        valid_priority(priority) ==> m.sys_set_priority(priority).1 == priority
            && m.sys_set_priority(priority).0.current_task().priority == priority,
{
    let cur = m.current->0 as int;
    assert(m.live(cur));
}

/// `exec` for a program that the loader does not know returns `FAILURE`
/// and leaves the caller as it was: but for the return register, which
/// receives the failure, the table is unchanged, and with it the caller's
/// address space, identifier and priority.
pub proof fn law_exec_not_found(m: ManagerView)
    requires
        m.wf(),
        m.has_current(),
        m.call_id() == SYSCALL_EXEC,
    ensures
        m.sys_exec(None) == (m, FAILURE),
        ({
            let caller = m.current->0 as int;
            let done = m.complete(Supplies { space: None, image: None });
            &&& done.0 == m.deliver(caller, FAILURE)
            &&& done.1 == TrapAction::Return
            &&& done.0.task(caller).address_space == m.task(caller).address_space
            &&& done.0.task(caller).pid == m.task(caller).pid
            &&& done.0.task(caller).priority == m.task(caller).priority
            &&& done.0.retired == m.retired
        }),
{
    let caller = m.current->0 as int;
    assert(m.live(caller));
    assert(m.discard(None, None) == m);
}

/// `spawn` returns the identifier of the child to the parent and leaves the
/// parent its address space, its saved context, its identifier and its
/// priority. The child does not return from the call: with a program at hand
/// it is ready at the start of that program, in the program's address space;
/// with none it has terminated with `EXEC_FAILED`.
pub proof fn law_spawn_parts_parent_and_child(
    m: ManagerView,
    space: usize,
    image: Option<ExecutableImage>,
)
    requires
        m.wf(),
        m.has_current(),
        m.can_fork(),
    ensures
        ({
            let parent = m.current->0 as int;
            let child = m.tasks.len() as int;
            let done = m.sys_spawn(Some(space), image);
            &&& done.1 == child
            &&& done.0.wf()
            &&& done.0.current == m.current
            &&& done.0.task(parent).address_space == m.task(parent).address_space
            &&& done.0.task(parent).context == m.task(parent).context
            &&& done.0.task(parent).pid == m.task(parent).pid
            &&& done.0.task(parent).priority == m.task(parent).priority
            &&& done.0.task(parent).children == m.task(parent).children.push(child as usize)
            &&& done.0.live(child)
            &&& done.0.task(child).parent == Some(parent as usize)
            &&& match image {
                Some(img) => {
                    &&& done.0.task(child).state == TaskState::Ready
                    &&& done.0.task(child).context == ContextView::initial(img.entry, img.user_sp)
                    &&& done.0.task(child).address_space == img.address_space
                    &&& done.0.ready == m.ready.push(child as usize)
                },
                None => {
                    &&& done.0.task(child).state == TaskState::Zombie(EXEC_FAILED)
                    &&& done.0.ready == m.ready
                },
            }
        }),
{
    let parent = m.current->0 as int;
    assert(m.live(parent));
    assert(m.tasks[parent] is Some);
    let child = m.spawned(space, image);
    assert(child.context.x.len() == REG_COUNT);
    lemma_adopt_wf(m, child);
    crate::model::lemma_same_links_wf(m.adopt(child), m.adopt(child).retire(space));
}

} // verus!
