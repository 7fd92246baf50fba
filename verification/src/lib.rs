//! Core of a minimal cooperative single-core kernel: the task state machine,
//! the round-robin scheduler, the syscall dispatcher with per-call
//! instrumentation, and the page-splitting copy across the kernel/user
//! address-space boundary.
//!
//! Everything that touches hardware (the register-swap primitive, the
//! firmware console, the monotonic timer) lives outside this crate; the
//! functions here take timestamps as arguments and return explicit
//! scheduling decisions for the caller to carry out.

pub mod manager;
pub mod mem;
pub mod process;
pub mod syscall;
pub mod task;
