//! Saved register state of a task and the description of a loaded program.

use vstd::prelude::*;

verus! {

/// Number of general registers in a saved context.
pub const REG_COUNT: usize = 32;

/// Index of the register that carries the stack pointer.
pub const STACK_REG: usize = 2;

/// Index of the register that carries the first argument of a system call
/// and, afterwards, its result.
pub const RETURN_REG: usize = 10;

/// Index of the register that carries the identifier of a system call.
pub const SYSCALL_REG: usize = 17;

/// Width in bytes of the instruction that raises a system call.
pub const CALL_INSTRUCTION_LEN: usize = 4;

/// The register and control-status snapshot of a task that is not running.
#[derive(Clone, Copy, Debug, PartialEq, Eq)]
pub struct TrapContext {
    /// The general registers.
    pub x: [usize; 32],
    /// The status word that is restored together with the registers.
    pub sstatus: usize,
    /// The program counter at which the task resumes.
    pub sepc: usize,
}

/// A program that the loader has resolved and mapped.
#[derive(Clone, Copy, Debug, PartialEq, Eq)]
pub struct ExecutableImage {
    /// Handle of the address space that holds the program.
    pub address_space: usize,
    /// Address of its first instruction.
    pub entry: usize,
    /// Initial top of its user stack.
    pub user_sp: usize,
}

/// Mathematical model of a [`TrapContext`].
pub struct ContextView {
    /// The general registers, `REG_COUNT` of them.
    pub x: Seq<usize>,
    /// The status word.
    pub sstatus: usize,
    /// The program counter.
    pub sepc: usize,
}

impl View for TrapContext {
    type V = ContextView;

    open spec fn view(&self) -> ContextView {
        ContextView { x: self.x@, sstatus: self.sstatus, sepc: self.sepc }
    }
}

/// `pc` moved forward by `CALL_INSTRUCTION_LEN`, wrapping at the end of the
/// address range.
pub open spec fn advance_pc(pc: usize) -> usize {
    if pc + CALL_INSTRUCTION_LEN > usize::MAX {
        (pc + CALL_INSTRUCTION_LEN - usize::MAX - 1) as usize
    } else {
        (pc + CALL_INSTRUCTION_LEN) as usize
    }
}

impl ContextView {
    /// The context of a program that has not run yet: every register is zero
    /// but the stack pointer, and execution starts at `entry`.
    pub open spec fn initial(entry: usize, sp: usize) -> ContextView {
        ContextView {
            x: Seq::new(REG_COUNT as nat, |i: int| if i == STACK_REG { sp } else { 0usize }),
            sstatus: 0,
            sepc: entry,
        }
    }

    /// This context with register `reg` holding `value`.
    pub open spec fn with_reg(self, reg: int, value: usize) -> ContextView {
        ContextView { x: self.x.update(reg, value), ..self }
    }

    /// This context with the program counter moved past the instruction that
    /// raised a system call.
    pub open spec fn past_call(self) -> ContextView {
        ContextView { sepc: advance_pc(self.sepc), ..self }
    }
}

impl TrapContext {
    /// Builds the context in which a freshly loaded program starts.
    pub fn app_init_context(entry: usize, sp: usize) -> (cx: TrapContext)
        ensures
            cx@ == ContextView::initial(entry, sp),
    {
        let mut x = [0usize; 32];
        x[STACK_REG] = sp;
        let cx = TrapContext { x, sstatus: 0, sepc: entry };
        assert(cx@.x =~= ContextView::initial(entry, sp).x);
        cx
    }

    /// Stores `value` in register `reg`.
    pub fn set_reg(&mut self, reg: usize, value: usize)
        requires
            reg < REG_COUNT,
        ensures
            final(self)@ == old(self)@.with_reg(reg as int, value),
    {
        self.x[reg] = value;
    }

    /// Moves the program counter past the instruction that raised a system
    /// call.
    pub fn skip_call(&mut self)
        ensures
            final(self)@ == old(self)@.past_call(),
    {
        self.sepc = self.sepc.wrapping_add(CALL_INSTRUCTION_LEN);
    }
}

} // verus!
