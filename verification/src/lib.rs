//! Process lifecycle, priority-aware scheduling and trap dispatch of a
//! single-core kernel.
//!
//! The kernel's state is a table of tasks with a ready queue and a running
//! slot ([`manager::TaskManager`]), owned by the gateway through which every
//! trap passes ([`trap::TrapGateway`]). Each transition is a function of the
//! library whose contract states the new state as a function of the old one,
//! over the mathematical model in [`model`]. The library touches no
//! hardware: what has to be done to the machine comes back as an action for
//! the caller to perform.
//!
//! - [`context`]: saved registers and loaded programs
//! - [`task`]: the control block of a task
//! - [`model`]: the model of the table and its invariant
//! - [`manager`]: the table itself
//! - [`scheduler`]: stride scheduling
//! - [`process`]: fork, exec, spawn, exit and reap
//! - [`syscall`]: the system calls and their table
//! - [`trap`]: the trap gateway
//! - [`fairness`], [`laws`]: what holds of every run

pub mod context;
pub mod fairness;
pub mod laws;
pub mod manager;
pub mod model;
pub mod process;
pub mod scheduler;
pub mod syscall;
pub mod task;
pub mod trap;

pub use syscall::{
    sys_exec, sys_exit, sys_fork, sys_getpid, sys_set_priority, sys_spawn, sys_waitpid, sys_yield,
};
pub use trap::{init, trap_from_kernel, trap_handler, trap_resume, trap_return};
