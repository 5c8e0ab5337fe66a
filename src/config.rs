use vstd::prelude::*;

verus! {

/// Size in bytes of a page and of a physical frame.
pub const PAGE_SIZE: usize = 4096;

/// Number of syscalls whose invocations are counted per task.
pub const MAX_SYSCALL_NUM: usize = 5;

pub const SYSCALL_WRITE: usize = 64;
pub const SYSCALL_EXIT: usize = 93;
pub const SYSCALL_YIELD: usize = 124;
pub const SYSCALL_GET_TIME: usize = 169;
pub const SYSCALL_TASK_INFO: usize = 410;
pub const SYSCALL_SET_PRIORITY: usize = 140;
pub const SYSCALL_MUNMAP: usize = 215;
pub const SYSCALL_MMAP: usize = 222;

} // verus!
