//! The syscalls of the process layer, and their dispatch.
use vstd::prelude::*;

use crate::abi::{task_info_bytes, timeval_bytes, TaskInfo, TimeVal};
use crate::config::{
    PAGE_SIZE, SYSCALL_EXIT, SYSCALL_GET_TIME, SYSCALL_MMAP, SYSCALL_MUNMAP,
    SYSCALL_SET_PRIORITY, SYSCALL_TASK_INFO, SYSCALL_YIELD,
};
use crate::mm::{map_ok, mapped_after, range_frames, unmap_ok, unmapped_after, vpn_of};
use crate::task::{
    count_syscall, kept_but_status, none_ready, only_space_of, rescheduled, same_but_status,
    schedule_step, statuses, task_frame, TaskManager, TaskStatus,
};
use crate::translate::{range_translatable, write_spec};

verus! {

/// Size in bytes of a `TimeVal` in a task's memory.
pub const TIMEVAL_SIZE: usize = 16;

/// Size in bytes of a `TaskInfo` in a task's memory.
pub const TASK_INFO_SIZE: usize = 32;

/// Whether `mmap(start, len, port)` is owed success in the running task.
pub open spec fn mmap_ok(tm: TaskManager, start: int, len: int, port: int) -> bool {
    &&& start + len <= usize::MAX
    &&& map_ok(tm.current_space(), tm.frames.available(), start, start + len, port)
}

/// Whether `munmap(start, len)` is owed success in the running task.
pub open spec fn munmap_ok(tm: TaskManager, start: int, len: int) -> bool {
    &&& start + len <= usize::MAX
    &&& unmap_ok(tm.current_space(), start, start + len)
}

/// Milliseconds from a first run at `first` to `now`, both in
/// microseconds; 0 before the first run.
pub open spec fn elapsed_ms(first: Option<usize>, now: usize) -> nat {
    match first {
        Some(t) => if t <= now {
            ((now - t) / 1000) as nat
        } else {
            0
        },
        None => 0,
    }
}

/// Ends the running task; the first Ready task after it runs next. The
/// result tells whether any task is left to run.
pub fn sys_exit(tm: &mut TaskManager, _exit_code: i32, now: usize) -> (r: bool)
    requires
        old(tm).wf(),
        old(tm).running(),
    ensures
        final(tm).wf(),
        final(tm).frames == old(tm).frames,
        final(tm).memory == old(tm).memory,
        r == !none_ready(statuses(old(tm).tasks@).update(old(tm).current as int, TaskStatus::Exited)),
        r ==> final(tm).running() && rescheduled(
            old(tm).tasks@,
            final(tm).tasks@,
            old(tm).current as int,
            TaskStatus::Exited,
            final(tm).current as int,
            now,
        ),
        !r ==> statuses(final(tm).tasks@) == statuses(old(tm).tasks@).update(
            old(tm).current as int,
            TaskStatus::Exited,
        ) && same_but_status(old(tm).tasks@, final(tm).tasks@),
{
    tm.exit_current_and_run_next(now)
}

/// The running task gives up the processor to the next Ready one.
pub fn sys_yield(tm: &mut TaskManager, now: usize) -> (r: isize)
    requires
        old(tm).wf(),
        old(tm).running(),
    ensures
        r == 0,
        final(tm).wf(),
        final(tm).running(),
        rescheduled(
            old(tm).tasks@,
            final(tm).tasks@,
            old(tm).current as int,
            TaskStatus::Ready,
            final(tm).current as int,
            now,
        ),
        final(tm).frames == old(tm).frames,
        final(tm).memory == old(tm).memory,
{
    tm.suspend_current_and_run_next(now);
    0
}

/// Writes the time `now` (microseconds) as a `TimeVal` at address `ts` of
/// the running task: 0, or -1 with nothing written where `ts` is not
/// mapped.
pub fn sys_get_time(tm: &mut TaskManager, ts: usize, now: usize) -> (r: isize)
    requires
        old(tm).wf(),
    ensures
        final(tm).wf(),
        final(tm).current == old(tm).current,
        final(tm).frames == old(tm).frames,
        only_space_of(old(tm).tasks@, final(tm).tasks@, -1),
        r == 0 || r == -1,
        (r == 0) == range_translatable(old(tm).current_space(), old(tm).memory@.len(), ts as int, TIMEVAL_SIZE as int),
        r == 0 ==> final(tm).memory@ == write_spec(
            old(tm).memory@,
            old(tm).current_space(),
            ts as int,
            timeval_bytes((now / 1_000_000) as nat, (now % 1_000_000) as nat),
        ),
        r == -1 ==> final(tm).memory@ == old(tm).memory@,
        final(tm).memory@.len() == old(tm).memory@.len(),
{
    let val = TimeVal::from_us(now);
    let bytes = val.to_bytes();
    if tm.write_current(ts, &bytes) {
        0
    } else {
        -1
    }
}

/// Priorities are not supported: always -1.
pub fn sys_set_priority(_prio: isize) -> (r: isize)
    ensures
        r == -1,
{
    -1
}

/// Maps `[start, start + len)` into the running task with permission
/// `port` (read 1, write 2, execute 4): 0, or -1 with nothing changed.
pub fn sys_mmap(tm: &mut TaskManager, start: usize, len: usize, port: usize) -> (r: isize)
    requires
        old(tm).wf(),
    ensures
        final(tm).wf(),
        final(tm).current == old(tm).current,
        final(tm).memory == old(tm).memory,
        only_space_of(old(tm).tasks@, final(tm).tasks@, old(tm).current as int),
        r == 0 || r == -1,
        (r == 0) == mmap_ok(*old(tm), start as int, len as int, port as int),
        r == 0 ==> mapped_after(
            old(tm).current_space(),
            final(tm).current_space(),
            vpn_of(start as int),
            vpn_of(start + len),
            port as int,
        ),
        r == 0 ==> final(tm).frames.free() == old(tm).frames.free().difference(
            range_frames(final(tm).current_space(), vpn_of(start as int), vpn_of(start + len)),
        ),
        r == 0 ==> range_frames(final(tm).current_space(), vpn_of(start as int), vpn_of(start + len)).subset_of(
            old(tm).frames.free(),
        ),
        r == 0 ==> final(tm).frames.available() == old(tm).frames.available() - (vpn_of(start + len) - vpn_of(start as int)),
        final(tm).frames.total() == old(tm).frames.total(),
        r == -1 ==> final(tm).current_space() == old(tm).current_space() && final(tm).frames
            == old(tm).frames,
{
    if start % PAGE_SIZE != 0 {
        return -1;
    }
    if len > usize::MAX - start {
        return -1;
    }
    if tm.map_current(start, start + len, port) {
        0
    } else {
        -1
    }
}

/// Unmaps `[start, start + len)` from the running task: 0, or -1 with
/// nothing changed.
pub fn sys_munmap(tm: &mut TaskManager, start: usize, len: usize) -> (r: isize)
    requires
        old(tm).wf(),
    ensures
        final(tm).wf(),
        final(tm).current == old(tm).current,
        final(tm).memory == old(tm).memory,
        only_space_of(old(tm).tasks@, final(tm).tasks@, old(tm).current as int),
        r == 0 || r == -1,
        (r == 0) == munmap_ok(*old(tm), start as int, len as int),
        r == 0 ==> unmapped_after(
            old(tm).current_space(),
            final(tm).current_space(),
            vpn_of(start as int),
            vpn_of(start + len),
        ),
        r == 0 ==> final(tm).frames.free() == old(tm).frames.free().union(
            range_frames(old(tm).current_space(), vpn_of(start as int), vpn_of(start + len)),
        ),
        r == 0 ==> final(tm).frames.available() == old(tm).frames.available() + (vpn_of(start + len) - vpn_of(start as int)),
        final(tm).frames.total() == old(tm).frames.total(),
        r == -1 ==> final(tm).current_space() == old(tm).current_space() && final(tm).frames
            == old(tm).frames,
{
    if start % PAGE_SIZE != 0 {
        return -1;
    }
    if len > usize::MAX - start {
        return -1;
    }
    if tm.unmap_current(start, start + len) {
        0
    } else {
        -1
    }
}

/// Writes the running task's status, syscall counters and milliseconds
/// since its first run (`now` in microseconds) as a `TaskInfo` at address
/// `ti`: 0, or -1 with nothing written where `ti` is not mapped.
pub fn sys_task_info(tm: &mut TaskManager, ti: usize, now: usize) -> (r: isize)
    requires
        old(tm).wf(),
    ensures
        final(tm).wf(),
        final(tm).current == old(tm).current,
        final(tm).frames == old(tm).frames,
        only_space_of(old(tm).tasks@, final(tm).tasks@, -1),
        r == 0 || r == -1,
        (r == 0) == range_translatable(old(tm).current_space(), old(tm).memory@.len(), ti as int, TASK_INFO_SIZE as int),
        r == 0 ==> final(tm).memory@ == write_spec(
            old(tm).memory@,
            old(tm).current_space(),
            ti as int,
            task_info_bytes(
                old(tm).tasks@[old(tm).current as int].task_status,
                old(tm).tasks@[old(tm).current as int].syscall_times@,
                elapsed_ms(old(tm).tasks@[old(tm).current as int].time, now),
            ),
        ),
        r == -1 ==> final(tm).memory@ == old(tm).memory@,
        final(tm).memory@.len() == old(tm).memory@.len(),
{
    let (status, first, syscall_times) = tm.current_taskinfo();
    let time: usize = match first {
        Some(t) => if t <= now {
            (now - t) / 1000
        } else {
            0
        },
        None => 0,
    };
    let info = TaskInfo { status, syscall_times, time };
    let bytes = info.to_bytes();
    if tm.write_current(ti, &bytes) {
        0
    } else {
        -1
    }
}

/// Whether `id` is a syscall that `syscall` serves.
pub open spec fn served(id: int) -> bool {
    id == SYSCALL_EXIT || id == SYSCALL_YIELD || id == SYSCALL_GET_TIME || id == SYSCALL_TASK_INFO
        || id == SYSCALL_MMAP || id == SYSCALL_MUNMAP || id == SYSCALL_SET_PRIORITY
}

/// Serves syscall `id` with arguments `args` for the running task, at time
/// `now` in microseconds. The invocation is counted first, so a call that
/// fails is counted too. `None` for a syscall served elsewhere (`write`,
/// or an unknown one). After `exit` the running task, if any, is another.
pub fn syscall(tm: &mut TaskManager, id: usize, args: [usize; 3], now: usize) -> (r: Option<isize>)
    requires
        old(tm).wf(),
        old(tm).running(),
    ensures
        final(tm).wf(),
        final(tm).tasks@.len() == old(tm).tasks@.len(),
        final(tm).tasks@[old(tm).current as int].syscall_times@ == count_syscall(
            old(tm).tasks@[old(tm).current as int].syscall_times@,
            id as int,
        ),
        forall|j: int|
            #![trigger final(tm).tasks@[j]]
            0 <= j < old(tm).tasks@.len() && j != old(tm).current ==> final(tm).tasks@[j].syscall_times
                == old(tm).tasks@[j].syscall_times,
        r.is_some() == served(id as int),
        id != SYSCALL_EXIT && id != SYSCALL_YIELD ==> final(tm).current == old(tm).current
            && task_frame(old(tm).tasks@, final(tm).tasks@, old(tm).current as int),
        id != SYSCALL_EXIT && id != SYSCALL_YIELD && id != SYSCALL_MMAP && id != SYSCALL_MUNMAP
            ==> final(tm).frames == old(tm).frames && final(tm).current_space() == old(tm).current_space(),
        id != SYSCALL_GET_TIME && id != SYSCALL_TASK_INFO ==> final(tm).memory == old(tm).memory,
        final(tm).memory@.len() == old(tm).memory@.len(),
        id == SYSCALL_YIELD ==> r == Some(0isize) && final(tm).running() && final(tm).frames == old(tm).frames
            && schedule_step(
            old(tm).tasks@,
            final(tm).tasks@,
            old(tm).current as int,
            TaskStatus::Ready,
            final(tm).current as int,
            now,
        ),
        id == SYSCALL_EXIT ==> r == Some(0isize) && final(tm).frames == old(tm).frames,
        id == SYSCALL_EXIT && !none_ready(statuses(old(tm).tasks@).update(old(tm).current as int, TaskStatus::Exited))
            ==> final(tm).running() && schedule_step(
            old(tm).tasks@,
            final(tm).tasks@,
            old(tm).current as int,
            TaskStatus::Exited,
            final(tm).current as int,
            now,
        ),
        id == SYSCALL_EXIT && none_ready(statuses(old(tm).tasks@).update(old(tm).current as int, TaskStatus::Exited))
            ==> statuses(final(tm).tasks@) == statuses(old(tm).tasks@).update(old(tm).current as int, TaskStatus::Exited)
            && kept_but_status(old(tm).tasks@, final(tm).tasks@),
        id == SYSCALL_SET_PRIORITY ==> r == Some(-1isize),
        id == SYSCALL_MMAP ==> (r == Some(0isize) || r == Some(-1isize)) && (r == Some(0isize))
            == mmap_ok(*old(tm), args[0] as int, args[1] as int, args[2] as int),
        id == SYSCALL_MMAP && r == Some(0isize) ==> mapped_after(
            old(tm).current_space(),
            final(tm).current_space(),
            vpn_of(args[0] as int),
            vpn_of(args[0] + args[1]),
            args[2] as int,
        ) && final(tm).frames.free() == old(tm).frames.free().difference(
            range_frames(final(tm).current_space(), vpn_of(args[0] as int), vpn_of(args[0] + args[1])),
        ) && range_frames(final(tm).current_space(), vpn_of(args[0] as int), vpn_of(args[0] + args[1])).subset_of(
            old(tm).frames.free(),
        ) && final(tm).frames.available() == old(tm).frames.available() - (vpn_of(args[0] + args[1]) - vpn_of(
            args[0] as int,
        )),
        (id == SYSCALL_MMAP || id == SYSCALL_MUNMAP) && r == Some(-1isize) ==> final(tm).current_space()
            == old(tm).current_space() && final(tm).frames == old(tm).frames,
        id == SYSCALL_MUNMAP ==> (r == Some(0isize) || r == Some(-1isize)) && (r == Some(0isize))
            == munmap_ok(*old(tm), args[0] as int, args[1] as int),
        id == SYSCALL_MUNMAP && r == Some(0isize) ==> unmapped_after(
            old(tm).current_space(),
            final(tm).current_space(),
            vpn_of(args[0] as int),
            vpn_of(args[0] + args[1]),
        ) && final(tm).frames.free() == old(tm).frames.free().union(
            range_frames(old(tm).current_space(), vpn_of(args[0] as int), vpn_of(args[0] + args[1])),
        ) && final(tm).frames.available() == old(tm).frames.available() + (vpn_of(args[0] + args[1]) - vpn_of(
            args[0] as int,
        )),
        id == SYSCALL_GET_TIME ==> (r == Some(0isize) || r == Some(-1isize)) && (r == Some(0isize))
            == range_translatable(old(tm).current_space(), old(tm).memory@.len(), args[0] as int, TIMEVAL_SIZE as int),
        id == SYSCALL_GET_TIME && r == Some(0isize) ==> final(tm).memory@ == write_spec(
            old(tm).memory@,
            old(tm).current_space(),
            args[0] as int,
            timeval_bytes((now / 1_000_000) as nat, (now % 1_000_000) as nat),
        ),
        (id == SYSCALL_GET_TIME || id == SYSCALL_TASK_INFO) && r == Some(-1isize) ==> final(tm).memory@
            == old(tm).memory@,
        id == SYSCALL_TASK_INFO ==> (r == Some(0isize) || r == Some(-1isize)) && (r == Some(0isize))
            == range_translatable(old(tm).current_space(), old(tm).memory@.len(), args[0] as int, TASK_INFO_SIZE as int),
        id == SYSCALL_TASK_INFO && r == Some(0isize) ==> final(tm).memory@ == write_spec(
            old(tm).memory@,
            old(tm).current_space(),
            args[0] as int,
            task_info_bytes(
                old(tm).tasks@[old(tm).current as int].task_status,
                count_syscall(old(tm).tasks@[old(tm).current as int].syscall_times@, id as int),
                elapsed_ms(old(tm).tasks@[old(tm).current as int].time, now),
            ),
        ),
{
    tm.mark_current_syscall(id);
    proof {
        assert(statuses(tm.tasks@) =~= statuses(old(tm).tasks@));
    }
    if id == SYSCALL_EXIT {
        sys_exit(tm, args[0] as i32, now);
        Some(0)
    } else if id == SYSCALL_YIELD {
        Some(sys_yield(tm, now))
    } else if id == SYSCALL_GET_TIME {
        Some(sys_get_time(tm, args[0], now))
    } else if id == SYSCALL_TASK_INFO {
        Some(sys_task_info(tm, args[0], now))
    } else if id == SYSCALL_MMAP {
        Some(sys_mmap(tm, args[0], args[1], args[2]))
    } else if id == SYSCALL_MUNMAP {
        Some(sys_munmap(tm, args[0], args[1]))
    } else if id == SYSCALL_SET_PRIORITY {
        Some(sys_set_priority(args[0] as isize))
    } else {
        None
    }
}

} // verus!
