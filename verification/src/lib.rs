//! Core of a small preemptive multitasking kernel for RV64 (QEMU `virt`).
//!
//! The kernel's state lives in plain data structures: the scheduler queues,
//! the UART rings, the bump allocator, the timer, and a model of the control
//! and status registers that the trap path reads and writes.  Every state
//! transition — trap demux, system calls, scheduling, ring I/O — is a
//! verified function over that state.  The thin layer that touches the
//! hardware itself (CSR instructions, memory-mapped device registers) sits
//! outside the library and feeds it plain values: the current `mtime`, the
//! bytes drained from the receiver, the claimed interrupt id.

pub mod boot;
pub mod cstr;
pub mod list;
pub mod malloc;
pub mod mutex;
pub mod plic;
pub mod rc;
pub mod riscv;
pub mod sched;
pub mod shell;
pub mod syscall;
pub mod task;
pub mod timer;
pub mod trap;
pub mod uart;
