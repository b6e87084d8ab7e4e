//! A preemptive, single-core multitasking kernel core for bare-metal
//! microcontrollers: the tick counter, the semaphore and spinlock primitives,
//! the guarded task-state cell, the round-robin scheduler, the kernel task's
//! admission-and-reaper pass and the privileged-call trampoline; beside them
//! the kernel heap, the messaging layer and the text of the fatal reports.
//!
//! All kernel state lives in one [`kernel::Kernel`] value that is mutated
//! only through an exclusive borrow, so every operation is a transition of a
//! sequential state machine, and its contract says which. Where the real
//! system suspends a task or touches the machine, an operation returns what
//! has to be done next instead: whether to trigger a context switch, whether
//! to yield and ask again, what to free, what to report.

pub mod arch;
pub mod consistency;
pub mod console;
pub mod fe_alloc;
pub mod interrupt;
pub mod ipc;
pub mod kernel;
pub mod laws;
pub mod lookup;
pub mod queue;
pub mod schedule;
pub mod semaphore;
pub mod spinlock;
pub mod syscall;
pub mod task;
pub mod task_state;
pub mod tick;
