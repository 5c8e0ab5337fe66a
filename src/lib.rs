//! The process and memory core of a small teaching kernel: a round-robin
//! task table, per-task page tables over a pool of physical frames, copies
//! between the kernel and a task's address space, and the syscalls built on
//! them.
use vstd::prelude::*;

pub mod abi;
pub mod config;
pub mod lemmas;
pub mod mm;
pub mod syscall;
pub mod task;
pub mod translate;

verus! {

} // verus!
