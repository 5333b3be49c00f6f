//! The trap gateway: the state machine at the boundary between user and
//! kernel mode.
//!
//! The gateway decides; it touches no hardware. Its caller saves and restores
//! registers, installs the trap vector that the gateway names, arms the timer
//! and fetches what a system call needs from the memory subsystem and the
//! loader. Each transition returns the action that the caller has to perform
//! next.

use vstd::prelude::*;
use riscv::interrupt::supervisor::{Exception, Interrupt};
use riscv::interrupt::Trap;
use riscv::register::scause::Scause;
use crate::context::{ContextView, TrapContext, REG_COUNT, RETURN_REG, SYSCALL_REG};
use crate::manager::{slot_view, TaskManager};
use crate::model::{lemma_same_links_wf, ManagerView};
use crate::syscall::{
    as_register, need_of, syscall, syscall_need, to_register, Need, Supplies, SyscallOutcome,
};
use crate::task::TaskView;

verus! {

/// The exit code of a task that the kernel has ended: for a memory access
/// fault, for an illegal instruction, or for a trap that the kernel does not
/// handle.
pub const ABNORMAL_EXIT: i32 = -2;

/// Why the processor left user mode, as far as the gateway tells causes
/// apart.
#[derive(Clone, Copy, Debug, PartialEq, Eq, Structural)]
pub enum TrapCause {
    /// A system call from user mode.
    UserEnvCall,
    /// A load from an address that may not be read.
    LoadFault,
    /// A load from an address that is not mapped.
    LoadPageFault,
    /// A store to an address that may not be written.
    StoreFault,
    /// A store to an address that is not mapped.
    StorePageFault,
    /// An instruction that user mode may not execute.
    IllegalInstruction,
    /// The timer interrupt of supervisor mode.
    SupervisorTimer,
    /// Any other cause.
    Unsupported,
}

/// The privilege level at which the processor runs.
#[derive(Clone, Copy, Debug, PartialEq, Eq, Structural)]
pub enum PrivilegeMode {
    /// Executing the code of a task.
    User,
    /// Handling a trap, or idle.
    Kernel,
}

/// The entry point that traps are routed to.
#[derive(Clone, Copy, Debug, PartialEq, Eq, Structural)]
pub enum TrapVector {
    /// The entry for traps that occur in kernel mode.
    KernelEntry,
    /// The entry for traps that occur in user mode.
    UserEntry,
}

/// What the caller of the gateway has to do after a trap has been
/// dispatched.
#[derive(Clone, Copy, Debug, PartialEq, Eq, Structural)]
pub enum TrapAction {
    /// Nothing but to go back to user mode, with `trap_return`.
    Return,
    /// Arm the timer for the next quantum, then go back to user mode.
    ArmTimer,
    /// Store `exit_code` at `address` in the address space `space`, then go
    /// back to user mode.
    StoreExitCode { space: usize, address: usize, exit_code: i32 },
    /// Fetch what the system call under way needs: a copy of the address
    /// space `space`, the program whose name lies at `path` in it, or both.
    /// Then hand it over with `trap_resume`.
    Fetch { need: Need, space: usize, path: usize },
    /// Report that the running task was ended for the trap `cause`, raised
    /// at the program counter `pc` for the address `address`. Then go back
    /// to user mode.
    ReportFault { cause: TrapCause, address: usize, pc: usize },
    /// Report that the task `pid` has ended itself with `exit_code`. Then go
    /// back to user mode.
    ReportExit { pid: usize, exit_code: i32 },
    /// Halt the machine: a trap occurred while one was being handled.
    Halt,
}

/// How the processor goes back to user mode.
#[derive(Clone, Copy, Debug, PartialEq, Eq)]
pub enum ReturnAction {
    /// Install the user trap vector, switch to the address space `space`,
    /// load the registers from `context` and resume there.
    Resume { context: TrapContext, space: usize },
    /// No task can run: stay in kernel mode and wait.
    Idle,
    /// A system call still waits for what it needs: hand that over with
    /// `trap_resume` first.
    CallWaiting,
}

/// The trap gateway of one core, which owns the task table.
#[derive(Debug)]
pub struct TrapGateway {
    /// The task table.
    pub manager: TaskManager,
    /// The privilege level at which the processor runs.
    pub mode: PrivilegeMode,
    /// The trap vector that is installed.
    pub vector: TrapVector,
    /// Whether a system call of the running task waits for what it needs
    /// from outside.
    pub awaiting: bool,
}

/// Mathematical model of a [`TrapGateway`].
pub struct GatewayView {
    /// The model of the task table.
    pub manager: ManagerView,
    /// The privilege level at which the processor runs.
    pub mode: PrivilegeMode,
    /// The trap vector that is installed.
    pub vector: TrapVector,
    /// Whether a system call of the running task waits for what it needs.
    pub awaiting: bool,
}

impl View for TrapGateway {
    type V = GatewayView;

    open spec fn view(&self) -> GatewayView {
        GatewayView {
            manager: self.manager@,
            mode: self.mode,
            vector: self.vector,
            awaiting: self.awaiting,
        }
    }
}

/// The cause that the value `bits` of the cause register encodes. The top
/// bit tells an interrupt from an exception, the other bits number it.
pub open spec fn cause_of(bits: usize) -> TrapCause {
    if bits > isize::MAX {
        if bits - isize::MAX - 1 == 5 {
            TrapCause::SupervisorTimer
        } else {
            TrapCause::Unsupported
        }
    } else if bits == 8 {
        TrapCause::UserEnvCall
    } else if bits == 5 {
        TrapCause::LoadFault
    } else if bits == 13 {
        TrapCause::LoadPageFault
    } else if bits == 7 {
        TrapCause::StoreFault
    } else if bits == 15 {
        TrapCause::StorePageFault
    } else if bits == 2 {
        TrapCause::IllegalInstruction
    } else {
        TrapCause::Unsupported
    }
}

/// Decodes a value of the cause register with `Scause::from_bits`,
/// `Scause::cause` and `Trap::try_into` of the `riscv` crate.
///
/// Trusted: the crate takes the top bit of the value for the interrupt flag
/// and the other bits for the code. It numbers the supervisor timer
/// interrupt 5, and among the exceptions an illegal instruction 2, a load
/// fault 5, a store fault 7, a system call from user mode 8, a load page
/// fault 13 and a store page fault 15.
#[verifier::external_body]
fn decode_cause(bits: usize) -> (cause: TrapCause)
    ensures
        cause == cause_of(bits),
{
    match Scause::from_bits(bits).cause().try_into::<Interrupt, Exception>() {
        Ok(Trap::Exception(Exception::UserEnvCall)) => TrapCause::UserEnvCall,
        Ok(Trap::Exception(Exception::LoadFault)) => TrapCause::LoadFault,
        Ok(Trap::Exception(Exception::LoadPageFault)) => TrapCause::LoadPageFault,
        Ok(Trap::Exception(Exception::StoreFault)) => TrapCause::StoreFault,
        Ok(Trap::Exception(Exception::StorePageFault)) => TrapCause::StorePageFault,
        Ok(Trap::Exception(Exception::IllegalInstruction)) => TrapCause::IllegalInstruction,
        Ok(Trap::Interrupt(Interrupt::SupervisorTimer)) => TrapCause::SupervisorTimer,
        _ => TrapCause::Unsupported,
    }
}

impl ManagerView {
    /// This state with `context` as the saved context of the running task.
    pub open spec fn save(self, context: ContextView) -> ManagerView
        recommends
            self.has_current(),
    {
        self.with_task(self.current->0 as int, TaskView { context, ..self.current_task() })
    }

    /// This state with `value` in the return register of the saved context
    /// of task `pid`.
    pub open spec fn deliver(self, pid: int, value: isize) -> ManagerView
        recommends
            self.live(pid),
    {
        self.with_task(
            pid,
            TaskView {
                context: self.task(pid).context.with_reg(RETURN_REG as int, as_register(value)),
                ..self.task(pid)
            },
        )
    }

    /// The number of the system call that the saved context of the running
    /// task asks for.
    pub open spec fn call_id(self) -> usize {
        self.current_task().context.x[SYSCALL_REG as int]
    }

    /// The arguments of the system call that the saved context of the
    /// running task asks for.
    pub open spec fn call_args(self) -> Seq<usize> {
        self.current_task().context.x.subrange(RETURN_REG as int, RETURN_REG + 3)
    }

    /// The state after the system call that the saved context of the running
    /// task asks for has run with `supplies` and its result has been written
    /// to the caller's return register; and what is left to do.
    pub open spec fn complete(self, supplies: Supplies) -> (ManagerView, TrapAction)
        recommends
            self.has_current(),
    {
        let caller = self.current->0 as int;
        let done = self.syscall(self.call_id(), self.call_args(), supplies);
        match done.1 {
            SyscallOutcome::Returned(value) => (done.0.deliver(caller, value), TrapAction::Return),
            SyscallOutcome::Collected { pid, exit_code } => (
                done.0.deliver(caller, pid),
                TrapAction::StoreExitCode {
                    space: done.0.task(caller).address_space,
                    address: self.call_args()[1],
                    exit_code,
                },
            ),
            SyscallOutcome::Exited(exit_code) => (
                done.0,
                TrapAction::ReportExit { pid: self.current->0, exit_code },
            ),
        }
    }
}

impl GatewayView {
    /// The invariant of the gateway: the task table is well formed; in user
    /// mode a task runs, the user trap vector is installed and no call
    /// waits; in kernel mode the kernel trap vector is installed; a call
    /// that waits is one of the running task that needs something.
    pub open spec fn wf(self) -> bool {
        &&& self.manager.wf()
        &&& self.mode == PrivilegeMode::User ==> {
            &&& self.manager.has_current()
            &&& !self.awaiting
            &&& self.vector == TrapVector::UserEntry
        }
        &&& self.mode == PrivilegeMode::Kernel ==> self.vector == TrapVector::KernelEntry
        &&& self.awaiting ==> self.manager.has_current() && need_of(self.manager.call_id())
            != Need::Nothing
    }

    /// The gateway of a core that has just booted into kernel mode.
    pub open spec fn boot(manager: ManagerView) -> GatewayView {
        GatewayView {
            manager,
            mode: PrivilegeMode::Kernel,
            vector: TrapVector::KernelEntry,
            awaiting: false,
        }
    }

    /// This gateway in kernel mode over the given task table.
    pub open spec fn handling(self, manager: ManagerView, awaiting: bool) -> GatewayView {
        GatewayView {
            manager,
            mode: PrivilegeMode::Kernel,
            vector: TrapVector::KernelEntry,
            awaiting,
        }
    }

    /// The gateway after a trap with the cause register `scause` and the
    /// trap value `stval` has been dispatched, `saved` being the registers
    /// at the trap; and what its caller has to do next.
    ///
    /// A trap in kernel mode changes nothing and halts the machine. A trap
    /// in user mode saves the registers in the running task and enters
    /// kernel mode. Then a system call moves the saved program counter past
    /// the call and runs, unless it has to wait for what it needs; a fault
    /// of a load or a store, an illegal instruction and any unknown cause
    /// end the task, all with `ABNORMAL_EXIT`; the timer preempts it.
    pub open spec fn trap(self, saved: ContextView, scause: usize, stval: usize) -> (
        GatewayView,
        TrapAction,
    ) {
        if self.mode == PrivilegeMode::Kernel {
            (self, TrapAction::Halt)
        } else {
            let cause = cause_of(scause);
            let report = TrapAction::ReportFault { cause, address: stval, pc: saved.sepc };
            match cause {
                TrapCause::UserEnvCall => {
                    let entered = self.manager.save(saved.past_call());
                    let need = need_of(entered.call_id());
                    if need == Need::Nothing {
                        let done = entered.complete(Supplies { space: None, image: None });
                        (self.handling(done.0, false), done.1)
                    } else {
                        (
                            self.handling(entered, true),
                            TrapAction::Fetch {
                                need,
                                space: entered.current_task().address_space,
                                path: entered.call_args()[0],
                            },
                        )
                    }
                },
                TrapCause::LoadFault
                | TrapCause::LoadPageFault
                | TrapCause::StoreFault
                | TrapCause::StorePageFault
                | TrapCause::IllegalInstruction
                | TrapCause::Unsupported => (
                    self.handling(self.manager.save(saved).exit(ABNORMAL_EXIT), false),
                    report,
                ),
                TrapCause::SupervisorTimer => (
                    self.handling(self.manager.save(saved).run_next(), false),
                    TrapAction::ArmTimer,
                ),
            }
        }
    }

    /// The gateway after what a waiting system call needs has been handed
    /// over: the call has run and its result is in the caller's return
    /// register. With no call waiting, what was handed over is retired.
    pub open spec fn resume(self, supplies: Supplies) -> (GatewayView, TrapAction) {
        if self.awaiting {
            let done = self.manager.complete(supplies);
            (GatewayView { manager: done.0, awaiting: false, ..self }, done.1)
        } else {
            (
                GatewayView {
                    manager: self.manager.discard(supplies.space, supplies.image),
                    ..self
                },
                TrapAction::Return,
            )
        }
    }

    /// The gateway after the return to user mode: with a task to run and no
    /// call waiting, user mode with the user trap vector; else as before.
    pub open spec fn leave(self) -> GatewayView {
        if self.manager.has_current() && !self.awaiting {
            GatewayView { mode: PrivilegeMode::User, vector: TrapVector::UserEntry, ..self }
        } else {
            self
        }
    }
}

/// Saving a context of full length for the running task keeps the table
/// well formed.
pub proof fn lemma_save_wf(m: ManagerView, context: ContextView)
    requires
        m.wf(),
        m.has_current(),
        context.x.len() == REG_COUNT,
    ensures
        m.save(context).wf(),
        m.save(context).current == m.current,
{
    lemma_same_links_wf(m, m.save(context));
}

/// Writing a return value for a live task keeps the table well formed.
pub proof fn lemma_deliver_wf(m: ManagerView, pid: int, value: isize)
    requires
        m.wf(),
        m.live(pid),
    ensures
        m.deliver(pid, value).wf(),
        m.deliver(pid, value).current == m.current,
{
    lemma_same_links_wf(m, m.deliver(pid, value));
}

/// No system call but `exit` takes its caller out of the table: the task
/// that made the call is still there to receive the result.
pub proof fn lemma_caller_stays(m: ManagerView, id: usize, args: Seq<usize>, supplies: Supplies)
    requires
        m.wf(),
        m.has_current(),
    ensures
        !(m.syscall(id, args, supplies).1 is Exited) ==> m.syscall(id, args, supplies).0.live(
            m.current->0 as int,
        ),
{
    let cur = m.current->0 as int;
    assert(m.live(cur));
    let d = m.discard(supplies.space, supplies.image);
    assert(d.tasks == m.tasks);
    assert(m.discard(None, supplies.image).tasks == m.tasks);
    assert(m.discard(supplies.space, None).tasks == m.tasks);
    if id == crate::syscall::SYSCALL_YIELD {
        let s = d.suspend();
        assert(s.live(cur));
    } else if id == crate::syscall::SYSCALL_WAITPID {
        let target = crate::syscall::as_signed(args[0]);
        let k = d.first_reapable(target, 0);
        crate::process::lemma_first_reapable(d, target, 0);
        if d.has_child(target) && k < d.current_task().children.len() {
            assert(d.live(d.tasks[cur]->0.children[k] as int));
        }
    }
}

impl TaskManager {
    /// Stores `context` as the saved context of the running task.
    pub fn save_context(&mut self, context: TrapContext)
        requires
            old(self).wf(),
            old(self)@.has_current(),
        ensures
            final(self)@ == old(self)@.save(context@),
            final(self).wf(),
    {
        proof {
            lemma_save_wf(self@, context@);
        }
        let cur = self.current.unwrap();
        assert(self@.tasks[cur as int] == slot_view(self.tasks[cur as int]));
        match &mut self.tasks[cur] {
            Some(t) => {
                t.context = context;
            },
            None => {},
        }
        assert(self@.tasks =~= old(self)@.save(context@).tasks);
    }

    /// Writes `value` into the return register of the saved context of the
    /// task `pid`.
    pub fn deliver(&mut self, pid: usize, value: isize)
        requires
            old(self).wf(),
            old(self)@.live(pid as int),
        ensures
            final(self)@ == old(self)@.deliver(pid as int, value),
            final(self).wf(),
    {
        proof {
            lemma_deliver_wf(self@, pid as int, value);
        }
        assert(self@.tasks[pid as int] == slot_view(self.tasks[pid as int]));
        match &mut self.tasks[pid] {
            Some(t) => {
                t.context.set_reg(RETURN_REG, to_register(value));
            },
            None => {},
        }
        assert(self@.tasks =~= old(self)@.deliver(pid as int, value).tasks);
    }

    /// Runs the system call that the saved context of the running task asks
    /// for, with `supplies`, and writes its result into the caller's return
    /// register.
    pub fn complete(&mut self, supplies: Supplies) -> (action: TrapAction)
        requires
            old(self).wf(),
            old(self)@.has_current(),
        ensures
            (final(self)@, action) == old(self)@.complete(supplies),
            final(self).wf(),
    {
        let caller = self.current.unwrap();
        assert(self@.live(caller as int));
        let cx = self.task(caller).context;
        let id = cx.x[SYSCALL_REG];
        let args = [cx.x[RETURN_REG], cx.x[RETURN_REG + 1], cx.x[RETURN_REG + 2]];
        assert(args@ =~= self@.call_args());
        proof {
            lemma_caller_stays(self@, id, args@, supplies);
        }
        match syscall(self, id, args, supplies) {
            SyscallOutcome::Returned(value) => {
                self.deliver(caller, value);
                TrapAction::Return
            },
            SyscallOutcome::Collected { pid, exit_code } => {
                self.deliver(caller, pid);
                let space = self.task(caller).address_space;
                TrapAction::StoreExitCode { space, address: args[1], exit_code }
            },
            SyscallOutcome::Exited(exit_code) => TrapAction::ReportExit { pid: caller, exit_code },
        }
    }
}

impl TrapGateway {
    /// The invariant of the gateway.
    pub open spec fn wf(&self) -> bool {
        self@.wf()
    }

    /// Routes traps to the entry for kernel mode.
    fn set_kernel_trap_entry(&mut self)
        ensures
            final(self)@ == (GatewayView { vector: TrapVector::KernelEntry, ..old(self)@ }),
    {
        self.vector = TrapVector::KernelEntry;
    }

    /// Routes traps to the entry for user mode.
    fn set_user_trap_entry(&mut self)
        ensures
            final(self)@ == (GatewayView { vector: TrapVector::UserEntry, ..old(self)@ }),
    {
        self.vector = TrapVector::UserEntry;
    }
}

/// Sets up the gateway of a core that has booted into kernel mode: traps are
/// routed to the kernel entry, and no system call waits.
pub fn init(manager: TaskManager) -> (gw: TrapGateway)
    requires
        manager.wf(),
    ensures
        gw@ == GatewayView::boot(manager@),
        gw.wf(),
{
    let mut gw = TrapGateway {
        manager,
        mode: PrivilegeMode::Kernel,
        vector: TrapVector::UserEntry,
        awaiting: false,
    };
    gw.set_kernel_trap_entry();
    gw
}

/// Answers a trap that occurred in kernel mode: no context exists to recover
/// into, so the machine has to halt.
pub fn trap_from_kernel() -> (action: TrapAction)
    ensures
        action == TrapAction::Halt,
{
    TrapAction::Halt
}

/// Dispatches a trap. `saved` holds the registers at the trap, `scause` the
/// cause register and `stval` the trap value register.
///
/// The registers are saved in the running task, the kernel trap vector is
/// installed, and the trap is handled by its cause. The action returned
/// tells the caller what to do before it goes back to user mode with
/// `trap_return`; `Fetch` asks for `trap_resume` first. A trap that arrives
/// in kernel mode changes nothing and returns `Halt`.
pub fn trap_handler(gw: &mut TrapGateway, saved: TrapContext, scause: usize, stval: usize) -> (action:
    TrapAction)
    requires
        old(gw).wf(),
    ensures
        (final(gw)@, action) == old(gw)@.trap(saved@, scause, stval),
        final(gw).wf(),
{
    match gw.mode {
        PrivilegeMode::Kernel => {
            return trap_from_kernel();
        },
        PrivilegeMode::User => {},
    }
    gw.set_kernel_trap_entry();
    gw.mode = PrivilegeMode::Kernel;
    let cause = decode_cause(scause);
    let report = TrapAction::ReportFault { cause, address: stval, pc: saved.sepc };
    match cause {
        TrapCause::UserEnvCall => {
            let mut cx = saved;
            cx.skip_call();
            gw.manager.save_context(cx);
            let need = syscall_need(cx.x[SYSCALL_REG]);
            match need {
                Need::Nothing => gw.manager.complete(Supplies { space: None, image: None }),
                _ => {
                    gw.awaiting = true;
                    let cur = gw.manager.current.unwrap();
                    assert(gw.manager@.live(cur as int));
                    assert(gw.manager@.call_args()[0] == cx.x[RETURN_REG as int]);
                    TrapAction::Fetch {
                        need,
                        space: gw.manager.task(cur).address_space,
                        path: cx.x[RETURN_REG],
                    }
                },
            }
        },
        TrapCause::LoadFault
        | TrapCause::LoadPageFault
        | TrapCause::StoreFault
        | TrapCause::StorePageFault
        | TrapCause::IllegalInstruction
        | TrapCause::Unsupported => {
            gw.manager.save_context(saved);
            gw.manager.exit(ABNORMAL_EXIT);
            report
        },
        TrapCause::SupervisorTimer => {
            gw.manager.save_context(saved);
            gw.manager.run_next();
            TrapAction::ArmTimer
        },
    }
}

/// Hands over what a waiting system call needs. The call runs, its result
/// goes to the caller's return register, and the action returned tells what
/// is left to do before `trap_return`. With no call waiting, what was handed
/// over is retired and nothing else changes.
pub fn trap_resume(gw: &mut TrapGateway, supplies: Supplies) -> (action: TrapAction)
    requires
        old(gw).wf(),
    ensures
        (final(gw)@, action) == old(gw)@.resume(supplies),
        final(gw).wf(),
{
    if gw.awaiting {
        gw.awaiting = false;
        gw.manager.complete(supplies)
    } else {
        gw.manager.discard(supplies.space, supplies.image);
        TrapAction::Return
    }
}

/// Goes back to user mode, the one way there. The task that runs now, which
/// need not be the one that trapped, is resumed: the user trap vector is
/// installed and the caller gets the registers to load and the address space
/// to switch to. With no task to run the gateway stays in kernel mode and
/// answers `Idle`. While a system call waits for what it needs nothing
/// changes and the answer is `CallWaiting`.
pub fn trap_return(gw: &mut TrapGateway) -> (action: ReturnAction)
    requires
        old(gw).wf(),
    ensures
        final(gw)@ == old(gw)@.leave(),
        final(gw).wf(),
        match action {
            ReturnAction::Resume { context, space } => {
                &&& !old(gw).awaiting
                &&& old(gw)@.manager.has_current()
                &&& context@ == old(gw)@.manager.current_task().context
                &&& space == old(gw)@.manager.current_task().address_space
            },
            ReturnAction::Idle => !old(gw).awaiting && !old(gw)@.manager.has_current(),
            ReturnAction::CallWaiting => old(gw).awaiting,
        },
{
    if gw.awaiting {
        return ReturnAction::CallWaiting;
    }
    match gw.manager.current {
        Some(cur) => {
            assert(gw.manager@.live(cur as int));
            gw.set_user_trap_entry();
            gw.mode = PrivilegeMode::User;
            let task = gw.manager.task(cur);
            ReturnAction::Resume { context: task.context, space: task.address_space }
        },
        None => ReturnAction::Idle,
    }
}

} // verus!
