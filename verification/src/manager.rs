//! The task table as the kernel holds it.

use vstd::prelude::*;
use crate::context::{ContextView, ExecutableImage, TrapContext};
use crate::model::ManagerView;
use crate::task::{Task, TaskState, TaskView, DEFAULT_PRIORITY, ROOT_PID};

verus! {

/// The task table, the ready queue and the running slot of one core.
#[derive(Debug)]
pub struct TaskManager {
    /// Slot `p` holds the task whose identifier is `p`, or nothing once that
    /// task has been reaped.
    pub tasks: Vec<Option<Task>>,
    /// The identifiers of the tasks that wait for the processor.
    pub ready: Vec<usize>,
    /// The identifier of the task that holds the processor.
    pub current: Option<usize>,
    /// Handles of the address spaces that wait to be destroyed.
    pub retired: Vec<usize>,
    /// One more than the largest identifier that may be issued.
    pub pid_limit: usize,
}

/// The model of one slot of the table.
pub open spec fn slot_view(slot: Option<Task>) -> Option<TaskView> {
    match slot {
        Some(t) => Some(t@),
        None => None,
    }
}

impl View for TaskManager {
    type V = ManagerView;

    open spec fn view(&self) -> ManagerView {
        ManagerView {
            tasks: Seq::new(self.tasks.len() as nat, |p: int| slot_view(self.tasks[p])),
            ready: self.ready@,
            current: self.current,
            retired: self.retired@,
            pid_limit: self.pid_limit,
        }
    }
}

impl ManagerView {
    /// The table right after boot: the root task alone, ready to run the
    /// given program.
    pub open spec fn boot(image: ExecutableImage, pid_limit: usize) -> ManagerView {
        ManagerView {
            tasks: seq![
                Some(TaskView::root(image.address_space, ContextView::initial(image.entry, image.user_sp))),
            ],
            ready: seq![ROOT_PID],
            current: None,
            retired: Seq::empty(),
            pid_limit,
        }
    }
}

impl TaskManager {
    /// The invariant of the table.
    pub open spec fn wf(&self) -> bool {
        self@.wf()
    }

    /// Builds the table that holds the root task alone, made from a loaded
    /// program: it has the first identifier and the default priority, and it
    /// is ready. At most `pid_limit` identifiers will ever be issued.
    pub fn create_root(image: ExecutableImage, pid_limit: usize) -> (m: TaskManager)
        requires
            1 <= pid_limit <= isize::MAX,
        ensures
            m@ == ManagerView::boot(image, pid_limit),
            m.wf(),
    {
        let root = Task {
            pid: ROOT_PID,
            state: TaskState::Ready,
            priority: DEFAULT_PRIORITY,
            stride: 0,
            remainder: 0,
            context: TrapContext::app_init_context(image.entry, image.user_sp),
            address_space: image.address_space,
            parent: None,
            children: Vec::new(),
        };
        let mut tasks: Vec<Option<Task>> = Vec::new();
        tasks.push(Some(root));
        let mut ready: Vec<usize> = Vec::new();
        ready.push(ROOT_PID);
        let m = TaskManager { tasks, ready, current: None, retired: Vec::new(), pid_limit };
        proof {
            assert(m@.tasks =~= ManagerView::boot(image, pid_limit).tasks);
            assert(m@.ready =~= ManagerView::boot(image, pid_limit).ready);
            assert(m@.ready[0] == ROOT_PID);
        }
        m
    }

    /// The identifier of the task that holds the processor.
    pub fn current(&self) -> (pid: Option<usize>)
        ensures
            pid == self@.current,
    {
        self.current
    }

    /// Tells whether a task with identifier `pid` exists.
    pub fn is_live(&self, pid: usize) -> (b: bool)
        ensures
            b == self@.live(pid as int),
    {
        pid < self.tasks.len() && self.tasks[pid].is_some()
    }

    /// The task with identifier `pid`.
    pub fn task(&self, pid: usize) -> (t: &Task)
        requires
            self@.live(pid as int),
        ensures
            t@ == self@.task(pid as int),
    {
        self.tasks[pid].as_ref().unwrap()
    }
}

} // verus!
