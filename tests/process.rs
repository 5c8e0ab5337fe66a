use task_kernel::abi::{TaskInfo, TimeVal};
use task_kernel::config::{
    PAGE_SIZE, SYSCALL_EXIT, SYSCALL_GET_TIME, SYSCALL_MMAP, SYSCALL_MUNMAP,
    SYSCALL_SET_PRIORITY, SYSCALL_TASK_INFO, SYSCALL_WRITE, SYSCALL_YIELD,
};
use task_kernel::mm::{FrameAllocator, MemorySet};
use task_kernel::syscall::{
    sys_exit, sys_get_time, sys_mmap, sys_munmap, sys_set_priority, sys_task_info, sys_yield,
    syscall,
};
use task_kernel::task::{syscall_index, TaskManager, TaskStatus};
use task_kernel::translate::byte_spans;

const READ: usize = 1;
const WRITE: usize = 2;
const EXEC: usize = 4;

fn started(n_tasks: usize) -> TaskManager {
    let mut tm = TaskManager::new(n_tasks, 64, 16);
    tm.run_first_task(1_000);
    tm
}

fn word(b: &[u8]) -> u64 {
    let mut x: u64 = 0;
    for (i, v) in b.iter().enumerate() {
        x |= (*v as u64) << (8 * i);
    }
    x
}

#[test]
fn mmap_then_munmap_restores_address_space() {
    let mut tm = started(1);
    for start in [0usize, 0x4000, 0x10000, 0x20000] {
        assert_eq!(sys_mmap(&mut tm, start, 3 * PAGE_SIZE, READ | WRITE), 0);
        assert!(tm.read_current(start, 3 * PAGE_SIZE).is_some());
        assert_eq!(sys_munmap(&mut tm, start, 3 * PAGE_SIZE), 0);
        assert!(tm.read_current(start, 1).is_none());
        assert!(tm.read_current(start + 2 * PAGE_SIZE, 1).is_none());
    }
    // Every frame went back to the pool: all sixteen can be mapped at once.
    assert_eq!(sys_mmap(&mut tm, 0, 16 * PAGE_SIZE, READ), 0);
}

#[test]
fn mmap_misaligned_start_is_refused() {
    let mut tm = started(1);
    assert_eq!(sys_mmap(&mut tm, 0x10001, 4096, READ), -1);
    assert_eq!(sys_mmap(&mut tm, 0x10800, 4096, READ), -1);
    assert!(tm.read_current(0x10000, 1).is_none());
    assert!(tm.read_current(0x11000, 1).is_none());
}

#[test]
fn mmap_misaligned_then_aligned_succeeds() {
    let mut tm = started(1);
    assert_eq!(sys_mmap(&mut tm, 0x10001, 4096, READ), -1);
    assert_eq!(sys_mmap(&mut tm, 0x10000, 4096, READ), 0);
}

#[test]
fn mmap_overlapping_is_refused_and_keeps_first() {
    let mut tm = started(1);
    assert_eq!(sys_mmap(&mut tm, 0x10000, 2 * PAGE_SIZE, READ | WRITE), 0);
    assert!(tm.write_current(0x10000, &vec![7u8, 8, 9]));
    assert_eq!(sys_mmap(&mut tm, 0x11000, 2 * PAGE_SIZE, READ), -1);
    assert_eq!(sys_mmap(&mut tm, 0xf000, 2 * PAGE_SIZE, READ), -1);
    assert_eq!(sys_mmap(&mut tm, 0x10000, PAGE_SIZE, READ), -1);
    // The first mapping is intact, and the refused calls left no page behind.
    assert_eq!(tm.read_current(0x10000, 3), Some(vec![7u8, 8, 9]));
    assert!(tm.read_current(0x11000, PAGE_SIZE).is_some());
    assert!(tm.read_current(0x12000, 1).is_none());
    assert!(tm.read_current(0xf000, 1).is_none());
}

#[test]
fn munmap_uncovered_range_is_refused() {
    let mut tm = started(1);
    assert_eq!(sys_munmap(&mut tm, 0x10000, PAGE_SIZE), -1);
    assert_eq!(sys_mmap(&mut tm, 0x10000, PAGE_SIZE, READ), 0);
    assert_eq!(sys_munmap(&mut tm, 0x10000, 2 * PAGE_SIZE), -1);
    assert_eq!(sys_munmap(&mut tm, 0x10001, PAGE_SIZE), -1);
    // Still mapped after the refusals.
    assert!(tm.read_current(0x10000, PAGE_SIZE).is_some());
    assert_eq!(sys_munmap(&mut tm, 0x10000, PAGE_SIZE), 0);
}

#[test]
fn yield_counts_equal_invocations() {
    let mut tm = started(1);
    for n in 0..7u64 {
        assert_eq!(syscall(&mut tm, SYSCALL_YIELD, [0, 0, 0], 2_000 + n as usize), Some(0));
    }
    assert_eq!(tm.tasks[0].syscall_times, [0, 0, 7, 0, 0]);
    assert_eq!(sys_mmap(&mut tm, 0, PAGE_SIZE, READ | WRITE), 0);
    assert_eq!(syscall(&mut tm, SYSCALL_TASK_INFO, [0, 0, 0], 5_000), Some(0));
    let b = tm.read_current(0, 32).unwrap();
    assert_eq!(word(&b[4..8]), 0);
    assert_eq!(word(&b[8..12]), 0);
    assert_eq!(word(&b[12..16]), 7);
    assert_eq!(word(&b[16..20]), 0);
    // The task_info call itself is counted before it runs.
    assert_eq!(word(&b[20..24]), 1);
}

#[test]
fn get_time_is_monotonic() {
    let mut tm = started(1);
    assert_eq!(sys_mmap(&mut tm, 0, PAGE_SIZE, READ | WRITE), 0);
    let mut last = (0u64, 0u64);
    for now in [0usize, 999_999, 1_000_000, 1_000_001, 2_500_000, 2_500_000, 73_000_123] {
        assert_eq!(sys_get_time(&mut tm, 0, now), 0);
        let b = tm.read_current(0, 16).unwrap();
        let t = (word(&b[0..8]), word(&b[8..16]));
        assert!(t >= last);
        assert_eq!(t.0 * 1_000_000 + t.1, now as u64);
        last = t;
    }
}

#[test]
fn mmap_write_munmap_twice() {
    let mut tm = started(1);
    assert_eq!(sys_mmap(&mut tm, 0x10000, 4096, READ | WRITE), 0);
    assert!(tm.write_current(0x10000, &vec![0x5a]));
    assert_eq!(tm.read_current(0x10000, 1), Some(vec![0x5a]));
    assert_eq!(sys_munmap(&mut tm, 0x10000, 4096), 0);
    assert_eq!(sys_munmap(&mut tm, 0x10000, 4096), -1);
    assert!(!tm.write_current(0x10000, &vec![1]));
}

#[test]
fn get_time_then_task_info_elapsed() {
    let mut tm = TaskManager::new(1, 64, 16);
    tm.run_first_task(3_000_000);
    assert_eq!(sys_mmap(&mut tm, 0x2000, PAGE_SIZE, READ | WRITE), 0);
    assert_eq!(syscall(&mut tm, SYSCALL_GET_TIME, [0x2000, 0, 0], 3_250_000), Some(0));
    let b = tm.read_current(0x2000, 16).unwrap();
    assert_eq!((word(&b[0..8]), word(&b[8..16])), (3, 250_000));
    assert_eq!(syscall(&mut tm, SYSCALL_TASK_INFO, [0x2100, 0, 0], 3_500_999), Some(0));
    let b = tm.read_current(0x2100, 32).unwrap();
    assert_eq!(word(&b[0..4]), 2);
    assert_eq!(word(&b[16..20]), 1);
    assert_eq!(word(&b[20..24]), 1);
    assert_eq!(word(&b[24..32]), 500);
}

#[test]
fn set_priority_is_unsupported() {
    assert_eq!(sys_set_priority(5), -1);
    assert_eq!(sys_set_priority(-3), -1);
    let mut tm = started(1);
    assert_eq!(syscall(&mut tm, SYSCALL_SET_PRIORITY, [16, 0, 0], 0), Some(-1));
    assert_eq!(tm.tasks[0].syscall_times, [0, 0, 0, 0, 0]);
}

#[test]
fn mmap_rejects_bad_permissions() {
    let mut tm = started(1);
    assert_eq!(sys_mmap(&mut tm, 0, PAGE_SIZE, 0), -1);
    assert_eq!(sys_mmap(&mut tm, 0, PAGE_SIZE, 8), -1);
    assert_eq!(sys_mmap(&mut tm, 0, PAGE_SIZE, READ | 8), -1);
    assert_eq!(sys_mmap(&mut tm, 0, PAGE_SIZE, READ | WRITE | EXEC), 0);
}

#[test]
fn mmap_empty_range_succeeds() {
    let mut tm = started(1);
    assert_eq!(sys_mmap(&mut tm, 0x3000, 0, READ), 0);
    assert!(tm.read_current(0x3000, 1).is_none());
    assert_eq!(sys_munmap(&mut tm, 0x3000, 0), 0);
}

#[test]
fn mmap_unaligned_length_is_refused() {
    let mut tm = started(1);
    assert_eq!(sys_mmap(&mut tm, 0x3000, 100, READ), -1);
    assert!(tm.read_current(0x3000, 1).is_none());
}

#[test]
fn mmap_beyond_address_space_or_overflow_is_refused() {
    let mut tm = started(1);
    assert_eq!(sys_mmap(&mut tm, 64 * PAGE_SIZE, PAGE_SIZE, READ), -1);
    assert_eq!(sys_mmap(&mut tm, 63 * PAGE_SIZE, 2 * PAGE_SIZE, READ), -1);
    assert_eq!(sys_mmap(&mut tm, 0x1000, usize::MAX - 0x800, READ), -1);
    assert_eq!(sys_munmap(&mut tm, 0x1000, usize::MAX - 0x800), -1);
    assert_eq!(sys_mmap(&mut tm, 63 * PAGE_SIZE, PAGE_SIZE, READ), 0);
}

#[test]
fn mmap_fails_when_frames_run_out() {
    let mut tm = started(1);
    assert_eq!(sys_mmap(&mut tm, 0, 10 * PAGE_SIZE, READ), 0);
    assert_eq!(sys_mmap(&mut tm, 0x10000, 7 * PAGE_SIZE, READ), -1);
    assert!(tm.read_current(0x10000, 1).is_none());
    assert_eq!(sys_mmap(&mut tm, 0x10000, 6 * PAGE_SIZE, READ), 0);
}

#[test]
fn get_time_to_unmapped_address_fails() {
    let mut tm = started(1);
    assert_eq!(sys_get_time(&mut tm, 0x5000, 10), -1);
    assert_eq!(sys_task_info(&mut tm, 0x5000, 10), -1);
    // A record that runs past the end of a mapped page is refused too.
    assert_eq!(sys_mmap(&mut tm, 0x5000, PAGE_SIZE, READ | WRITE), 0);
    assert_eq!(sys_get_time(&mut tm, 0x5ff8, 10), -1);
    assert_eq!(sys_get_time(&mut tm, 0x5ff0, 10), 0);
}

#[test]
fn write_crosses_page_boundary() {
    let mut tm = started(1);
    assert_eq!(sys_mmap(&mut tm, 0x8000, 2 * PAGE_SIZE, READ | WRITE), 0);
    let data: Vec<u8> = (0..10u8).collect();
    assert!(tm.write_current(0x8ffb, &data));
    assert_eq!(tm.read_current(0x8ffb, 10), Some(data));
    assert!(!tm.write_current(0x9ffb, &vec![1u8; 10]));
}

#[test]
fn yield_round_robin() {
    let mut tm = started(3);
    assert_eq!(tm.current, 0);
    assert_eq!(sys_yield(&mut tm, 10), 0);
    assert_eq!(tm.current, 1);
    assert_eq!(tm.tasks[0].task_status, TaskStatus::Ready);
    assert_eq!(tm.tasks[1].task_status, TaskStatus::Running);
    assert_eq!(tm.tasks[1].time, Some(10));
    assert_eq!(sys_yield(&mut tm, 20), 0);
    assert_eq!(tm.current, 2);
    assert_eq!(sys_yield(&mut tm, 30), 0);
    assert_eq!(tm.current, 0);
    // First runs are recorded once.
    assert_eq!(tm.tasks[0].time, Some(1_000));
    assert_eq!(tm.tasks[1].time, Some(10));
    assert_eq!(tm.tasks[2].time, Some(20));
}

#[test]
fn exit_runs_next_and_stops_at_last() {
    let mut tm = started(2);
    assert!(sys_exit(&mut tm, 0, 5));
    assert_eq!(tm.tasks[0].task_status, TaskStatus::Exited);
    assert_eq!(tm.current, 1);
    assert_eq!(sys_yield(&mut tm, 6), 0);
    assert_eq!(tm.current, 1);
    assert_eq!(syscall(&mut tm, SYSCALL_EXIT, [3, 0, 0], 7), Some(0));
    assert_eq!(tm.tasks[1].task_status, TaskStatus::Exited);
    assert_eq!(tm.tasks[1].syscall_times, [0, 1, 0, 0, 0]);
}

#[test]
fn exit_last_task_reports_nothing_left() {
    let mut tm = started(1);
    assert!(!sys_exit(&mut tm, 1, 9));
    assert_eq!(tm.tasks[0].task_status, TaskStatus::Exited);
}

#[test]
fn address_spaces_are_private() {
    let mut tm = started(2);
    assert_eq!(sys_mmap(&mut tm, 0x1000, PAGE_SIZE, READ | WRITE), 0);
    assert!(tm.write_current(0x1000, &vec![42]));
    assert_eq!(sys_yield(&mut tm, 1), 0);
    assert_eq!(tm.current, 1);
    assert!(tm.read_current(0x1000, 1).is_none());
    assert_eq!(sys_mmap(&mut tm, 0x1000, PAGE_SIZE, READ | WRITE), 0);
    assert_eq!(tm.read_current(0x1000, 1), Some(vec![0]));
    assert_eq!(sys_yield(&mut tm, 2), 0);
    assert_eq!(tm.read_current(0x1000, 1), Some(vec![42]));
}

#[test]
fn dispatch_counts_tracked_ids_only() {
    let mut tm = started(1);
    assert_eq!(syscall(&mut tm, SYSCALL_WRITE, [1, 0, 0], 0), None);
    assert_eq!(syscall(&mut tm, 9999, [0, 0, 0], 0), None);
    assert_eq!(syscall(&mut tm, SYSCALL_MMAP, [0, PAGE_SIZE, READ], 0), Some(0));
    assert_eq!(syscall(&mut tm, SYSCALL_MMAP, [0, PAGE_SIZE, READ], 0), Some(-1));
    assert_eq!(syscall(&mut tm, SYSCALL_MUNMAP, [0, PAGE_SIZE, 0], 0), Some(0));
    assert_eq!(syscall(&mut tm, SYSCALL_GET_TIME, [0, 0, 0], 0), Some(-1));
    assert_eq!(tm.tasks[0].syscall_times, [1, 0, 0, 1, 0]);
}

#[test]
fn syscall_index_table() {
    assert_eq!(syscall_index(64), Some(0));
    assert_eq!(syscall_index(93), Some(1));
    assert_eq!(syscall_index(124), Some(2));
    assert_eq!(syscall_index(169), Some(3));
    assert_eq!(syscall_index(410), Some(4));
    assert_eq!(syscall_index(222), None);
    assert_eq!(syscall_index(215), None);
    assert_eq!(syscall_index(140), None);
}

#[test]
fn timeval_split_and_bytes() {
    let t = TimeVal::from_us(12_345_678);
    assert_eq!(t, TimeVal { sec: 12, usec: 345_678 });
    let b = t.to_bytes();
    assert_eq!(b.len(), 16);
    assert_eq!(b[0..8], [12, 0, 0, 0, 0, 0, 0, 0]);
    assert_eq!(b[8..16], [0x4e, 0x46, 0x05, 0, 0, 0, 0, 0]);
}

#[test]
fn task_info_bytes_layout() {
    let info = TaskInfo {
        status: TaskStatus::Exited,
        syscall_times: [1, 0x0102, 0, 0x01020304, 9],
        time: 0x1_0000_0001,
    };
    let b = info.to_bytes();
    assert_eq!(
        b,
        vec![
            3, 0, 0, 0, 1, 0, 0, 0, 2, 1, 0, 0, 0, 0, 0, 0, 4, 3, 2, 1, 9, 0, 0, 0, 1, 0, 0, 0, 1,
            0, 0, 0
        ]
    );
}

#[test]
fn frame_pool_recycles() {
    let mut f = FrameAllocator::new(2);
    assert!(f.can_alloc(2));
    assert!(!f.can_alloc(3));
    let a = f.alloc_frame().unwrap();
    let b = f.alloc_frame().unwrap();
    assert_ne!(a, b);
    assert!(a < 2 && b < 2);
    assert_eq!(f.alloc_frame(), None);
    f.dealloc_frame(a);
    assert_eq!(f.alloc_frame(), Some(a));
}

#[test]
fn memory_set_map_unmap_direct() {
    let mut f = FrameAllocator::new(4);
    let mut ms = MemorySet::new(8);
    assert_eq!(ms.n_pages(), 8);
    assert!(ms.map(&mut f, 0x1000, 0x3000, READ | EXEC));
    let e = ms.translate(0x1abc).unwrap();
    assert_eq!(e.flags, 1 | 16 | 2 | 8);
    assert!(ms.translate(0x3000).is_none());
    assert!(ms.translate(0x100000).is_none());
    assert!(!ms.unmap(&mut f, 0x1000, 0x4000));
    assert!(ms.translate(0x2000).is_some());
    assert!(ms.unmap(&mut f, 0x1000, 0x3000));
    assert!(ms.translate(0x1000).is_none());
    assert!(!ms.map(&mut f, 0x1000, 0x1800, READ));
}

#[test]
fn byte_spans_split_at_page_boundaries() {
    let mut f = FrameAllocator::new(4);
    let mut ms = MemorySet::new(8);
    assert!(ms.map(&mut f, 0x2000, 0x4000, READ | WRITE));
    let p2 = ms.translate(0x2000).unwrap().ppn;
    let p3 = ms.translate(0x3000).unwrap().ppn;
    let mem_len = 4 * PAGE_SIZE;
    let spans = byte_spans(&ms, mem_len, 0x2ff0, 0x20).unwrap();
    assert_eq!(spans, vec![(p2 * PAGE_SIZE + 0xff0, 0x10), (p3 * PAGE_SIZE, 0x10)]);
    let spans = byte_spans(&ms, mem_len, 0x2000, 0x2000).unwrap();
    assert_eq!(spans, vec![(p2 * PAGE_SIZE, PAGE_SIZE), (p3 * PAGE_SIZE, PAGE_SIZE)]);
    assert_eq!(byte_spans(&ms, mem_len, 0x2100, 0), Some(vec![]));
    assert_eq!(byte_spans(&ms, mem_len, 0x3ff0, 0x20), None);
    assert_eq!(byte_spans(&ms, mem_len, 0x1ff0, 0x20), None);
    // A frame outside physical memory cannot be reached.
    assert_eq!(byte_spans(&ms, PAGE_SIZE / 2, 0x2000, 1), None);
}

#[test]
fn empty_range_past_address_space_succeeds() {
    let mut tm = started(1);
    assert_eq!(sys_mmap(&mut tm, 0x100000, 0, READ), 0);
    assert_eq!(sys_munmap(&mut tm, 0x100000, 0), 0);
    // An empty request still needs an aligned start and a valid permission.
    assert_eq!(sys_mmap(&mut tm, 0x100000, 0, 0), -1);
    assert_eq!(sys_mmap(&mut tm, 0x100001, 0, READ), -1);
    assert_eq!(sys_munmap(&mut tm, 0x100001, 0), -1);
}

#[test]
fn dispatched_task_info_reports_its_own_count() {
    let mut tm = started(1);
    assert_eq!(sys_mmap(&mut tm, 0, PAGE_SIZE, READ | WRITE), 0);
    for _ in 0..3 {
        assert_eq!(syscall(&mut tm, SYSCALL_TASK_INFO, [0, 0, 0], 1_000), Some(0));
    }
    let b = tm.read_current(0, 32).unwrap();
    assert_eq!(word(&b[20..24]), 3);
    assert_eq!(tm.tasks[0].task_status, TaskStatus::Running);
}
