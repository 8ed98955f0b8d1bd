//! The deterministic core of the Clean-Slate kernel: memory bookkeeping, process and thread
//! lifecycle, and the Linux personality's tables and rules, each stated over a mathematical model
//! and proved against it.

pub mod abi;
pub mod ipc;
pub mod mm;
pub mod process;
pub mod scan;
pub mod sched;
