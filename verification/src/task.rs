//! The control block of one task.

use vstd::prelude::*;
use crate::context::{ContextView, TrapContext};

verus! {

/// The identifier of the root task.
pub const ROOT_PID: usize = 0;

/// The lowest priority a task may have.
pub const MIN_PRIORITY: usize = 2;

/// The priority a task has when it is created.
pub const DEFAULT_PRIORITY: usize = 16;

/// The stride that one scheduling turn would cost a task of priority one.
pub const BIG_STRIDE: u64 = 0xFFFF_FFFF_FFFF_FFFF;

/// The largest whole part of the cost of one scheduling turn, that of a task
/// of the lowest priority.
pub const MAX_PASS: u64 = 0x7FFF_FFFF_FFFF_FFFF;

/// The largest stride a task can have: one more than `MAX_PASS`.
pub const MAX_STRIDE: u64 = 0x8000_0000_0000_0000;

/// Whether `priority` lies in the accepted range.
pub open spec fn valid_priority(priority: usize) -> bool {
    MIN_PRIORITY <= priority <= isize::MAX
}

/// The whole part of what one scheduling turn costs a task of the given
/// priority: `BIG_STRIDE` divided by the priority, rounded down.
pub open spec fn pass_of(priority: usize) -> u64 {
    if priority == 0 {
        BIG_STRIDE
    } else {
        (BIG_STRIDE as int / priority as int) as u64
    }
}

/// What the division of `BIG_STRIDE` by the priority leaves over.
pub open spec fn pass_rest(priority: usize) -> usize {
    if priority == 0 {
        0
    } else {
        (BIG_STRIDE as int % priority as int) as usize
    }
}

/// Whether one more turn fills up a whole unit of stride from what the
/// division has left over so far.
pub open spec fn carries(priority: usize, remainder: usize) -> bool {
    remainder + pass_rest(priority) >= priority
}

/// The stride that one scheduling turn costs a task of the given priority
/// that carries `remainder` from its earlier turns: the whole part of the
/// cost, and one more when the parts left over add up to a unit. Over its
/// turns the task pays `BIG_STRIDE` divided by its priority each time,
/// exactly.
pub open spec fn charged_stride(priority: usize, remainder: usize) -> u64 {
    if carries(priority, remainder) {
        (pass_of(priority) + 1) as u64
    } else {
        pass_of(priority)
    }
}

/// What the task carries over after that turn.
pub open spec fn charged_rest(priority: usize, remainder: usize) -> usize {
    if carries(priority, remainder) {
        (remainder + pass_rest(priority) - priority) as usize
    } else {
        (remainder + pass_rest(priority)) as usize
    }
}

/// The highest priority a task may have.
pub fn max_priority() -> (p: usize)
    ensures
        p == isize::MAX,
{
    isize::MAX as usize
}

/// Tells whether `priority` lies in the accepted range.
pub fn is_valid_priority(priority: usize) -> (ok: bool)
    ensures
        ok == valid_priority(priority),
{
    priority >= MIN_PRIORITY && priority <= max_priority()
}

/// Computes the whole part of what one scheduling turn costs a task of the
/// given priority.
pub fn pass_for(priority: usize) -> (pass: u64)
    requires
        valid_priority(priority),
    ensures
        pass == pass_of(priority),
        1 <= pass <= MAX_PASS,
{
    let pass = BIG_STRIDE / (priority as u64);
    proof {
        lemma_pass_bounds(priority);
    }
    pass
}

/// Computes what one scheduling turn costs a task of the given priority that
/// carries `remainder`: the stride it is charged and what it carries over.
pub fn charge(priority: usize, remainder: usize) -> (cost: (u64, usize))
    requires
        valid_priority(priority),
        remainder < priority,
    ensures
        cost.0 == charged_stride(priority, remainder),
        cost.1 == charged_rest(priority, remainder),
{
    let pass = pass_for(priority);
    let rest = (BIG_STRIDE % (priority as u64)) as usize;
    let carried = remainder + rest;
    if carried >= priority {
        (pass + 1, carried - priority)
    } else {
        (pass, carried)
    }
}

/// The whole part of the cost of a turn is positive and never above
/// `MAX_PASS`; with what is left over it makes up `BIG_STRIDE` divided by
/// the priority.
pub proof fn lemma_pass_bounds(priority: usize)
    requires
        valid_priority(priority),
    ensures
        1 <= pass_of(priority) <= MAX_PASS,
        0 <= pass_rest(priority) < priority,
        priority * pass_of(priority) + pass_rest(priority) == BIG_STRIDE,
{
    let p = priority as int;
    let q = 0xFFFF_FFFF_FFFF_FFFFint / p;
    let r = 0xFFFF_FFFF_FFFF_FFFFint % p;
    assert(p * q + r == 0xFFFF_FFFF_FFFF_FFFF && 0 <= r < p) by (nonlinear_arith)
        requires
            p >= 2,
            q == 0xFFFF_FFFF_FFFF_FFFFint / p,
            r == 0xFFFF_FFFF_FFFF_FFFFint % p,
    ;
    assert(q <= MAX_PASS as int) by (nonlinear_arith)
        requires
            p >= 2,
            p * q <= 0xFFFF_FFFF_FFFF_FFFF,
            q >= 0,
    ;
    assert(q >= 1) by (nonlinear_arith)
        requires
            p <= 0x7FFF_FFFF_FFFF_FFFF,
            0xFFFF_FFFF_FFFF_FFFF < p * q + p,
            p >= 2,
            q >= 0 || q < 0,
    ;
}

/// A turn charges a stride within `MAX_STRIDE` and leaves less than one unit
/// over; what the task has paid, counted in units of one over its priority,
/// grows by `BIG_STRIDE` exactly.
pub proof fn lemma_charge(priority: usize, remainder: usize)
    requires
        valid_priority(priority),
        remainder < priority,
    ensures
        1 <= charged_stride(priority, remainder) <= MAX_STRIDE,
        charged_rest(priority, remainder) < priority,
        priority * charged_stride(priority, remainder) + charged_rest(priority, remainder)
            == BIG_STRIDE + remainder,
{
    lemma_pass_bounds(priority);
    let p = priority as int;
    let q = pass_of(priority) as int;
    assert(p * (q + 1) == p * q + p) by (nonlinear_arith);
}

/// Where a task stands in its life.
#[derive(Clone, Copy, Debug, PartialEq, Eq, Structural)]
pub enum TaskState {
    /// Waiting in the ready queue for the processor.
    Ready,
    /// Holding the processor.
    Running,
    /// Terminated with the given exit code and not yet reaped.
    Zombie(i32),
}

/// The control block of a task.
#[derive(Debug)]
pub struct Task {
    /// The identifier, unique among the tasks of a table.
    pub pid: usize,
    /// The life-cycle state.
    pub state: TaskState,
    /// The scheduling priority.
    pub priority: usize,
    /// The stride accrued relative to the tasks that wait with it.
    pub stride: u64,
    /// What the task has paid beyond its stride, in units of one over its
    /// priority: less than one unit of stride.
    pub remainder: usize,
    /// The register snapshot from which the task resumes.
    pub context: TrapContext,
    /// Handle of the address space that the task owns.
    pub address_space: usize,
    /// The task that answers for this one, by identifier: the one that
    /// created it, or the root task once that one has been reaped.
    pub parent: Option<usize>,
    /// The tasks that this one answers for, oldest first.
    pub children: Vec<usize>,
}

/// Mathematical model of a [`Task`]: the same fields, with the saved
/// context and the list of children as sequences.
pub struct TaskView {
    /// The identifier.
    pub pid: usize,
    /// The life-cycle state.
    pub state: TaskState,
    /// The scheduling priority.
    pub priority: usize,
    /// The stride accrued relative to the tasks that wait with it.
    pub stride: u64,
    /// What the task has paid beyond its stride, in units of one over its
    /// priority.
    pub remainder: usize,
    /// The register snapshot from which the task resumes.
    pub context: ContextView,
    /// Handle of the address space that the task owns.
    pub address_space: usize,
    /// The task that answers for this one, by identifier.
    pub parent: Option<usize>,
    /// The tasks that this one answers for, oldest first.
    pub children: Seq<usize>,
}

impl View for Task {
    type V = TaskView;

    open spec fn view(&self) -> TaskView {
        TaskView {
            pid: self.pid,
            state: self.state,
            priority: self.priority,
            stride: self.stride,
            remainder: self.remainder,
            context: self.context@,
            address_space: self.address_space,
            parent: self.parent,
            children: self.children@,
        }
    }
}

impl TaskView {
    /// The task after it took the processor and paid for one turn.
    pub open spec fn started(self) -> TaskView {
        TaskView {
            state: TaskState::Running,
            stride: charged_stride(self.priority, self.remainder),
            remainder: charged_rest(self.priority, self.remainder),
            ..self
        }
    }

    /// Whether the task has terminated.
    pub open spec fn is_zombie(self) -> bool {
        self.state is Zombie
    }

    /// The root task as it is created from a loaded program.
    pub open spec fn root(address_space: usize, context: ContextView) -> TaskView {
        TaskView {
            pid: ROOT_PID,
            state: TaskState::Ready,
            priority: DEFAULT_PRIORITY,
            stride: 0,
            remainder: 0,
            context,
            address_space,
            parent: None,
            children: Seq::empty(),
        }
    }

    /// The child that a task gets when it is duplicated: a ready task of
    /// default weight that resumes where its parent does, sees zero in the
    /// return register and owns `address_space`.
    pub open spec fn duplicate(self, pid: usize, address_space: usize) -> TaskView {
        TaskView {
            pid,
            state: TaskState::Ready,
            priority: DEFAULT_PRIORITY,
            stride: 0,
            remainder: 0,
            context: self.context.with_reg(crate::context::RETURN_REG as int, 0),
            address_space,
            parent: Some(self.pid),
            children: Seq::empty(),
        }
    }
}

impl Task {
    /// The identifier of the task.
    pub fn getpid(&self) -> (pid: usize)
        ensures
            pid == self.pid,
    {
        self.pid
    }

    /// Tells whether the task has terminated.
    pub fn is_zombie(&self) -> (z: bool)
        ensures
            z == self@.is_zombie(),
    {
        match self.state {
            TaskState::Zombie(_) => true,
            _ => false,
        }
    }

    /// The exit code of a terminated task.
    pub fn exit_code(&self) -> (code: Option<i32>)
        ensures
            code == (match self.state {
                TaskState::Zombie(c) => Some(c),
                _ => None,
            }),
    {
        match self.state {
            TaskState::Zombie(c) => Some(c),
            _ => None,
        }
    }
}

} // verus!
