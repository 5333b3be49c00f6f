//! The system calls of the process tree and the scheduler, and the table
//! that leads from a call's number to its handler.
//!
//! A call that needs a new address space or a loaded program does not fetch
//! it: the caller of the handler supplies it, and `need_of` tells beforehand
//! what a call needs.

use vstd::prelude::*;
use crate::context::ExecutableImage;
use crate::manager::TaskManager;
use crate::model::ManagerView;
use crate::process::ReapOutcome;
use crate::task::{valid_priority, TaskState};

verus! {

/// Number of the call that ends the caller.
pub const SYSCALL_EXIT: usize = 93;

/// Number of the call that gives up the processor.
pub const SYSCALL_YIELD: usize = 124;

/// Number of the call that sets the caller's priority.
pub const SYSCALL_SET_PRIORITY: usize = 140;

/// Number of the call that tells the caller's identifier.
pub const SYSCALL_GETPID: usize = 172;

/// Number of the call that duplicates the caller.
pub const SYSCALL_FORK: usize = 220;

/// Number of the call that replaces the caller's program.
pub const SYSCALL_EXEC: usize = 221;

/// Number of the call that collects a terminated child.
pub const SYSCALL_WAITPID: usize = 260;

/// Number of the call that creates a child running a given program.
pub const SYSCALL_SPAWN: usize = 400;

/// The value that reports a failed call.
pub const FAILURE: isize = -1;

/// The value by which `waitpid` reports that a child of the given name
/// exists and none has terminated.
pub const STILL_RUNNING: isize = -2;

/// What a call needs from outside the task table before it can run.
#[derive(Clone, Copy, Debug, PartialEq, Eq, Structural)]
pub enum Need {
    /// Nothing.
    Nothing,
    /// A copy of the caller's address space.
    Space,
    /// The program whose name the caller has passed.
    Image,
    /// Both.
    SpaceAndImage,
}

/// What the caller of a handler has fetched for it.
#[derive(Clone, Copy, Debug, PartialEq, Eq)]
pub struct Supplies {
    /// Handle of a copy of the caller's address space, if one could be made.
    pub space: Option<usize>,
    /// The program that the loader resolved, if it knows one of that name.
    pub image: Option<ExecutableImage>,
}

/// How a call ended for its caller.
#[derive(Clone, Copy, Debug, PartialEq, Eq, Structural)]
pub enum SyscallOutcome {
    /// The call returns the given value to its caller.
    Returned(isize),
    /// The call returns the identifier `pid` of a reaped child, whose exit
    /// code is to be stored where the caller asked for it.
    Collected { pid: isize, exit_code: i32 },
    /// The caller has ended with the given exit code; nothing returns to
    /// it.
    Exited(i32),
}

/// The machine word `x` read as a signed number, in two's complement.
pub open spec fn as_signed(x: usize) -> isize {
    if x <= isize::MAX {
        x as isize
    } else {
        (x - usize::MAX - 1) as isize
    }
}

/// The signed number `v` as a machine word, in two's complement.
pub open spec fn as_register(v: isize) -> usize {
    if v >= 0 {
        v as usize
    } else {
        (v + usize::MAX + 1) as usize
    }
}

/// The low 32 bits of the machine word `x` read as a signed number.
pub open spec fn low_i32(x: usize) -> i32 {
    let low = x as int % 0x1_0000_0000;
    if low < 0x8000_0000 {
        low as i32
    } else {
        (low - 0x1_0000_0000) as i32
    }
}

/// Reads a machine word as a signed number.
pub fn to_signed(x: usize) -> (v: isize)
    ensures
        v == as_signed(x),
{
    if x <= isize::MAX as usize {
        x as isize
    } else {
        -((usize::MAX - x) as isize) - 1
    }
}

/// Writes a signed number as a machine word.
pub fn to_register(v: isize) -> (x: usize)
    ensures
        x == as_register(v),
        as_signed(x) == v,
{
    if v >= 0 {
        v as usize
    } else {
        usize::MAX - ((-(v + 1)) as usize)
    }
}

/// Reads the low 32 bits of a machine word as a signed number.
pub fn to_exit_code(x: usize) -> (code: i32)
    ensures
        code == low_i32(x),
{
    let low: u64 = (x as u64) % 0x1_0000_0000u64;
    if low < 0x8000_0000u64 {
        low as i32
    } else {
        (low as i64 - 0x1_0000_0000i64) as i32
    }
}

/// What a call of the given number needs from outside.
pub open spec fn need_of(id: usize) -> Need {
    if id == SYSCALL_FORK {
        Need::Space
    } else if id == SYSCALL_EXEC {
        Need::Image
    } else if id == SYSCALL_SPAWN {
        Need::SpaceAndImage
    } else {
        Need::Nothing
    }
}

/// Tells what a call of the given number needs from outside.
pub fn syscall_need(id: usize) -> (need: Need)
    ensures
        need == need_of(id),
{
    if id == SYSCALL_FORK {
        Need::Space
    } else if id == SYSCALL_EXEC {
        Need::Image
    } else if id == SYSCALL_SPAWN {
        Need::SpaceAndImage
    } else {
        Need::Nothing
    }
}

impl ManagerView {
    /// The state after `fork` and the value it returns to the parent.
    pub open spec fn sys_fork(self, space: Option<usize>) -> (ManagerView, isize) {
        if self.can_fork() && space is Some {
            (self.fork(space->0), self.tasks.len() as isize)
        } else {
            (self.discard(space, None), FAILURE)
        }
    }

    /// The state after `exec` and the value it returns.
    pub open spec fn sys_exec(self, image: Option<ExecutableImage>) -> (ManagerView, isize) {
        match image {
            Some(img) => (self.exec(img), 0),
            None => (self, FAILURE),
        }
    }

    /// The state after `spawn` and the value it returns to the parent.
    pub open spec fn sys_spawn(self, space: Option<usize>, image: Option<ExecutableImage>) -> (
        ManagerView,
        isize,
    ) {
        if self.can_fork() && space is Some {
            (self.spawn(space->0, image), self.tasks.len() as isize)
        } else {
            (self.discard(space, image), FAILURE)
        }
    }

    /// The state after `waitpid`, the value it returns and the exit code it
    /// hands over.
    pub open spec fn sys_waitpid(self, target: isize) -> (ManagerView, isize, Option<i32>) {
        let kids = self.current_task().children;
        let k = self.first_reapable(target, 0);
        if !self.has_child(target) {
            (self, FAILURE, None)
        } else if k >= kids.len() {
            (self, STILL_RUNNING, None)
        } else {
            (
                self.reap(k),
                kids[k] as isize,
                match self.task(kids[k] as int).state {
                    TaskState::Zombie(code) => Some(code),
                    _ => None,
                },
            )
        }
    }

    /// The state after `set_priority` and the value it returns.
    pub open spec fn sys_set_priority(self, priority: usize) -> (ManagerView, isize) {
        if valid_priority(priority) {
            (self.set_priority(priority), priority as isize)
        } else {
            (self, FAILURE)
        }
    }

    /// The state after the call `id` with the arguments `args`, and how the
    /// call ended for its caller. What was supplied and is not needed is
    /// retired before the call runs. A number that names no call fails.
    pub open spec fn syscall(self, id: usize, args: Seq<usize>, supplies: Supplies) -> (
        ManagerView,
        SyscallOutcome,
    ) {
        if id == SYSCALL_FORK {
            let r = self.discard(None, supplies.image).sys_fork(supplies.space);
            (r.0, SyscallOutcome::Returned(r.1))
        } else if id == SYSCALL_EXEC {
            let r = self.discard(supplies.space, None).sys_exec(supplies.image);
            (r.0, SyscallOutcome::Returned(r.1))
        } else if id == SYSCALL_SPAWN {
            let r = self.sys_spawn(supplies.space, supplies.image);
            (r.0, SyscallOutcome::Returned(r.1))
        } else {
            let m = self.discard(supplies.space, supplies.image);
            if id == SYSCALL_EXIT {
                (m.exit(low_i32(args[0])), SyscallOutcome::Exited(low_i32(args[0])))
            } else if id == SYSCALL_YIELD {
                (m.run_next(), SyscallOutcome::Returned(0))
            } else if id == SYSCALL_GETPID {
                (m, SyscallOutcome::Returned(m.current->0 as isize))
            } else if id == SYSCALL_WAITPID {
                let r = m.sys_waitpid(as_signed(args[0]));
                (
                    r.0,
                    match r.2 {
                        Some(exit_code) => SyscallOutcome::Collected { pid: r.1, exit_code },
                        None => SyscallOutcome::Returned(r.1),
                    },
                )
            } else if id == SYSCALL_SET_PRIORITY {
                let r = m.sys_set_priority(args[0]);
                (r.0, SyscallOutcome::Returned(r.1))
            } else {
                (m, SyscallOutcome::Returned(FAILURE))
            }
        }
    }
}

/// Ends the calling task with the given exit code and hands the processor to
/// the next task. Nothing returns to the caller.
pub fn sys_exit(m: &mut TaskManager, exit_code: i32)
    requires
        old(m).wf(),
        old(m)@.has_current(),
    ensures
        final(m)@ == old(m)@.exit(exit_code),
        final(m).wf(),
{
    m.exit(exit_code);
}

/// Gives up the processor: the caller joins the tail of the ready queue and
/// the next task runs. Returns zero.
pub fn sys_yield(m: &mut TaskManager) -> (r: isize)
    requires
        old(m).wf(),
    ensures
        r == 0,
        final(m)@ == old(m)@.run_next(),
        final(m).wf(),
{
    m.run_next();
    0
}

/// Returns the identifier of the calling task.
pub fn sys_getpid(m: &TaskManager) -> (r: isize)
    requires
        m.wf(),
        m@.has_current(),
    ensures
        r == m@.current->0,
        r == m@.current_task().pid,
{
    let cur = m.current.unwrap();
    assert(m@.live(cur as int));
    assert(m@.tasks[cur as int] is Some);
    cur as isize
}

/// Duplicates the calling task into the address space `space` and returns
/// the identifier of the duplicate to the caller; the duplicate, once it
/// runs, finds zero in its return register. Returns `FAILURE` when no
/// identifier or no address space is left.
pub fn sys_fork(m: &mut TaskManager, space: Option<usize>) -> (r: isize)
    requires
        old(m).wf(),
        old(m)@.has_current(),
    ensures
        (final(m)@, r) == old(m)@.sys_fork(space),
        final(m).wf(),
{
    match m.fork(space) {
        Ok(pid) => pid as isize,
        Err(_) => FAILURE,
    }
}

/// Replaces the program of the calling task by `image` and returns zero.
/// Where the loader knows no such program (`image` is `None`) the caller is
/// left exactly as it was and the call returns `FAILURE`.
pub fn sys_exec(m: &mut TaskManager, image: Option<ExecutableImage>) -> (r: isize)
    requires
        old(m).wf(),
        old(m)@.has_current(),
    ensures
        (final(m)@, r) == old(m)@.sys_exec(image),
        final(m).wf(),
{
    match m.exec(image) {
        Ok(()) => 0,
        Err(_) => FAILURE,
    }
}

/// Creates a child of the calling task that runs the program `image` and
/// returns the identifier of the child to the caller, whose own program and
/// address space stay as they are. A child for which the loader knows no
/// program has terminated with a failure code. Returns `FAILURE` when no
/// identifier or no address space is left.
pub fn sys_spawn(m: &mut TaskManager, space: Option<usize>, image: Option<ExecutableImage>) -> (r:
    isize)
    requires
        old(m).wf(),
        old(m)@.has_current(),
    ensures
        (final(m)@, r) == old(m)@.sys_spawn(space, image),
        final(m).wf(),
{
    match m.spawn(space, image) {
        Ok(pid) => pid as isize,
        Err(_) => FAILURE,
    }
}

/// Collects a terminated child of the calling task. `pid` names one child,
/// or every child with `ANY_CHILD`.
///
/// Returns `FAILURE` if the caller has no child of that name and
/// `STILL_RUNNING` if it has one and none has terminated; nothing changes
/// then. Otherwise the first such child on the caller's list is reaped, its
/// exit code is stored in `exit_code` and its identifier is returned.
pub fn sys_waitpid(m: &mut TaskManager, pid: isize, exit_code: &mut i32) -> (r: isize)
    requires
        old(m).wf(),
        old(m)@.has_current(),
    ensures
        final(m)@ == old(m)@.sys_waitpid(pid).0,
        r == old(m)@.sys_waitpid(pid).1,
        *final(exit_code) == (match old(m)@.sys_waitpid(pid).2 {
            Some(code) => code,
            None => *old(exit_code),
        }),
        r >= 0 <==> old(m)@.sys_waitpid(pid).2 is Some,
        final(m).wf(),
{
    proof {
        let cur = m@.current->0 as int;
        assert(m@.live(cur));
        crate::process::lemma_first_reapable(m@, pid, 0);
        let k = m@.first_reapable(pid, 0);
        if k < m@.current_task().children.len() {
            assert(m@.live(m@.tasks[cur]->0.children[k] as int));
        }
    }
    match m.reap(pid) {
        ReapOutcome::NoSuchChild => FAILURE,
        ReapOutcome::Pending => STILL_RUNNING,
        ReapOutcome::Reaped { pid: child, exit_code: code } => {
            *exit_code = code;
            child as isize
        },
    }
}

/// Sets the priority of the calling task and returns the new priority. A
/// value outside the accepted range changes nothing and returns `FAILURE`.
pub fn sys_set_priority(m: &mut TaskManager, prio: usize) -> (r: isize)
    requires
        old(m).wf(),
        old(m)@.has_current(),
    ensures
        (final(m)@, r) == old(m)@.sys_set_priority(prio),
        final(m).wf(),
{
    if m.set_priority(prio) {
        prio as isize
    } else {
        FAILURE
    }
}

/// Runs the call `id` with the arguments `args` for the running task: the
/// table from a call's number to its handler. `supplies` holds what the
/// caller of this function has fetched for the call, as `syscall_need` asks;
/// what is supplied and not needed is retired.
pub fn syscall(m: &mut TaskManager, id: usize, args: [usize; 3], supplies: Supplies) -> (out:
    SyscallOutcome)
    requires
        old(m).wf(),
        old(m)@.has_current(),
    ensures
        (final(m)@, out) == old(m)@.syscall(id, args@, supplies),
        final(m).wf(),
{
    if id == SYSCALL_FORK {
        m.discard(None, supplies.image);
        SyscallOutcome::Returned(sys_fork(m, supplies.space))
    } else if id == SYSCALL_EXEC {
        m.discard(supplies.space, None);
        SyscallOutcome::Returned(sys_exec(m, supplies.image))
    } else if id == SYSCALL_SPAWN {
        SyscallOutcome::Returned(sys_spawn(m, supplies.space, supplies.image))
    } else {
        m.discard(supplies.space, supplies.image);
        if id == SYSCALL_EXIT {
            let exit_code = to_exit_code(args[0]);
            sys_exit(m, exit_code);
            SyscallOutcome::Exited(exit_code)
        } else if id == SYSCALL_YIELD {
            SyscallOutcome::Returned(sys_yield(m))
        } else if id == SYSCALL_GETPID {
            SyscallOutcome::Returned(sys_getpid(m))
        } else if id == SYSCALL_WAITPID {
            let mut exit_code: i32 = 0;
            let pid = sys_waitpid(m, to_signed(args[0]), &mut exit_code);
            if pid >= 0 {
                SyscallOutcome::Collected { pid, exit_code }
            } else {
                SyscallOutcome::Returned(pid)
            }
        } else if id == SYSCALL_SET_PRIORITY {
            SyscallOutcome::Returned(sys_set_priority(m, args[0]))
        } else {
            SyscallOutcome::Returned(FAILURE)
        }
    }
}

} // verus!
