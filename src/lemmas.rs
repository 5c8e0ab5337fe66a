//! Laws that relate the operations of the library.
use vstd::prelude::*;

use crate::config::{MAX_SYSCALL_NUM, SYSCALL_YIELD};
use crate::mm::{
    map_ok, mapped_after, owns_frames, page_aligned, range_frames, range_free, unmap_ok, unmapped_after, vpn_of,
    PageTableEntry,
};
use crate::syscall::mmap_ok;
use crate::translate::{lemma_phys_in_memory, phys_of, range_translatable, read_spec, translatable, write_spec};
use crate::task::{count_syscall, schedule_step, statuses, zero_counts, TaskControlBlock, TaskManager, TaskStatus};

verus! {

/// Mapping a range and then unmapping the same range succeeds both times
/// and leaves the page table as it was, with the range unmapped, and the
/// pool with the same free frames.
pub proof fn lemma_map_unmap_round_trip(
    pt: Seq<Option<PageTableEntry>>,
    free: nat,
    start: int,
    len: int,
    port: int,
    mapped: Seq<Option<PageTableEntry>>,
    unmapped: Seq<Option<PageTableEntry>>,
    free0: Set<usize>,
    free1: Set<usize>,
    free2: Set<usize>,
)
    requires
        map_ok(pt, free, start, start + len, port),
        mapped_after(pt, mapped, vpn_of(start), vpn_of(start + len), port),
        range_frames(mapped, vpn_of(start), vpn_of(start + len)).subset_of(free0),
        free1 == free0.difference(range_frames(mapped, vpn_of(start), vpn_of(start + len))),
        unmapped_after(mapped, unmapped, vpn_of(start), vpn_of(start + len)),
        free2 == free1.union(range_frames(mapped, vpn_of(start), vpn_of(start + len))),
    ensures
        unmap_ok(mapped, start, start + len),
        range_free(unmapped, vpn_of(start), vpn_of(start + len)),
        unmapped == pt,
        free2 == free0,
{
    assert(unmapped =~= pt);
    assert(free2 =~= free0);
}

/// `mmap` at an address that is not page aligned is refused.
pub proof fn lemma_misaligned_mmap_rejected(tm: TaskManager, start: int, len: int, port: int)
    requires
        !page_aligned(start),
    ensures
        !mmap_ok(tm, start, len, port),
{
}

proof fn lemma_aligned_order(x: int, y: int)
    requires
        0 <= x,
        0 <= y,
        page_aligned(x),
        page_aligned(y),
    ensures
        x < y ==> vpn_of(x) < vpn_of(y),
        x <= y ==> vpn_of(x) <= vpn_of(y),
{
    assert(x < y ==> x / 4096 < y / 4096) by (nonlinear_arith)
        requires
            0 <= x,
            0 <= y,
            x % 4096 == 0,
            y % 4096 == 0,
    ;
    assert(x <= y ==> x / 4096 <= y / 4096) by (nonlinear_arith)
        requires
            0 <= x,
            0 <= y,
    ;
}

/// Once a range is mapped, mapping a range that shares an address with it
/// is refused.
pub proof fn lemma_overlapping_map_rejected(
    pt: Seq<Option<PageTableEntry>>,
    free: nat,
    s1: int,
    e1: int,
    port1: int,
    mapped: Seq<Option<PageTableEntry>>,
    free2: nat,
    s2: int,
    e2: int,
    port2: int,
)
    requires
        map_ok(pt, free, s1, e1, port1),
        mapped_after(pt, mapped, vpn_of(s1), vpn_of(e1), port1),
        s1 < e1,
        s2 < e2,
        s2 < e1,
        s1 < e2,
    ensures
        !map_ok(mapped, free2, s2, e2, port2),
{
    if map_ok(mapped, free2, s2, e2, port2) {
        let a = if s1 < s2 { s2 } else { s1 };
        let v = vpn_of(a);
        lemma_aligned_order(s1, a);
        lemma_aligned_order(s2, a);
        lemma_aligned_order(a, e1);
        lemma_aligned_order(a, e2);
        assert(vpn_of(s1) <= v < vpn_of(e1));
        assert(vpn_of(s2) <= v < vpn_of(e2));
        assert(mapped[v].is_some());
    }
}

/// `unmap` of a range that holds an unmapped page is refused.
pub proof fn lemma_unmap_uncovered_rejected(
    pt: Seq<Option<PageTableEntry>>,
    start: int,
    end: int,
    v: int,
)
    requires
        vpn_of(start) <= v < vpn_of(end),
        pt[v].is_none(),
    ensures
        !unmap_ok(pt, start, end),
{
}

/// Syscall counters after the invocations `ids`, in order, from `c`.
pub open spec fn counts_after(c: Seq<u32>, ids: Seq<int>) -> Seq<u32>
    decreases ids.len(),
{
    if ids.len() == 0 {
        c
    } else {
        count_syscall(counts_after(c, ids.drop_last()), ids.last())
    }
}

/// `n` invocations of `yield`.
pub open spec fn yields(n: nat) -> Seq<int> {
    Seq::new(n, |i: int| SYSCALL_YIELD as int)
}

/// After `n` invocations of `yield` by a fresh task, its `yield` counter is
/// `n` and every other counter is 0.
pub proof fn lemma_yield_counts(n: nat)
    requires
        n <= u32::MAX,
    ensures
        counts_after(zero_counts(), yields(n)).len() == MAX_SYSCALL_NUM,
        counts_after(zero_counts(), yields(n))[2] == n,
        forall|k: int|
            0 <= k < MAX_SYSCALL_NUM && k != 2 ==> #[trigger] counts_after(zero_counts(), yields(n))[k]
                == 0,
    decreases n,
{
    if n > 0 {
        assert(yields(n).drop_last() =~= yields((n - 1) as nat));
        lemma_yield_counts((n - 1) as nat);
    } else {
        assert(yields(n) =~= Seq::<int>::empty());
    }
}

/// Later clock readings never give an earlier `TimeVal`: seconds grow, and
/// within a second microseconds do.
pub proof fn lemma_get_time_monotonic(t1: usize, t2: usize)
    requires
        t1 <= t2,
    ensures
        t1 / 1_000_000 <= t2 / 1_000_000,
        t1 / 1_000_000 == t2 / 1_000_000 ==> t1 % 1_000_000 <= t2 % 1_000_000,
{
}

/// A task that has exited stays exited when another task is scheduled.
/// (Every other syscall keeps all statuses: see `task_frame`.)
pub proof fn lemma_exited_stays_exited(
    a: Seq<TaskControlBlock>,
    b: Seq<TaskControlBlock>,
    c: int,
    st_c: TaskStatus,
    i: int,
    now: usize,
    j: int,
)
    requires
        0 <= c < a.len(),
        schedule_step(a, b, c, st_c, i, now),
        0 <= j < a.len(),
        j != c,
        a[j].task_status == TaskStatus::Exited,
    ensures
        b[j].task_status == TaskStatus::Exited,
{
    if j == i {
        assert(a[j].task_status == statuses(a).update(c, st_c)[j]);
    }
}

proof fn lemma_phys_injective(pt: Seq<Option<PageTableEntry>>, free: Set<usize>, x: int, y: int)
    requires
        owns_frames(pt, free),
        0 <= x,
        0 <= y,
        0 <= vpn_of(x) < pt.len(),
        0 <= vpn_of(y) < pt.len(),
        pt[vpn_of(x)].is_some(),
        pt[vpn_of(y)].is_some(),
        phys_of(pt, x) == phys_of(pt, y),
    ensures
        x == y,
{
    let px = pt[vpn_of(x)].unwrap().ppn as int;
    let py = pt[vpn_of(y)].unwrap().ppn as int;
    vstd::arithmetic::div_mod::lemma_fundamental_div_mod(x, 4096);
    vstd::arithmetic::div_mod::lemma_fundamental_div_mod(y, 4096);
    vstd::arithmetic::div_mod::lemma_fundamental_div_mod_converse(phys_of(pt, x), 4096, px, x % 4096);
    vstd::arithmetic::div_mod::lemma_fundamental_div_mod_converse(phys_of(pt, y), 4096, py, y % 4096);
    assert(px == py);
    assert(vpn_of(x) == vpn_of(y));
}

proof fn lemma_write_spec_at(mem: Seq<u8>, pt: Seq<Option<PageTableEntry>>, free: Set<usize>, va: int, data: Seq<u8>)
    requires
        owns_frames(pt, free),
        0 <= va,
        range_translatable(pt, mem.len(), va, data.len() as int),
    ensures
        write_spec(mem, pt, va, data).len() == mem.len(),
        forall|k: int| 0 <= k < data.len() ==> #[trigger] write_spec(mem, pt, va, data)[phys_of(pt, va + k)] == data[k],
    decreases data.len(),
{
    if data.len() > 0 {
        let n = data.len() - 1;
        let init = data.drop_last();
        assert forall|i: int| 0 <= i < init.len() implies #[trigger] translatable(pt, mem.len(), va + i) by {
            assert(translatable(pt, mem.len(), va + i));
        }
        lemma_write_spec_at(mem, pt, free, va, init);
        assert(translatable(pt, mem.len(), va + n));
        lemma_phys_in_memory(pt[vpn_of(va + n)].unwrap().ppn as int, (va + n) % 4096, mem.len() as int);
        assert forall|k: int| 0 <= k < data.len() implies #[trigger] write_spec(mem, pt, va, data)[phys_of(pt, va + k)] == data[k] by {
            if k < n {
                assert(translatable(pt, mem.len(), va + k));
                if phys_of(pt, va + k) == phys_of(pt, va + n) {
                    lemma_phys_injective(pt, free, va + k, va + n);
                }
                assert(init[k] == data[k]);
            }
        }
    }
}

/// Bytes written to a task's memory read back unchanged, where the task's
/// pages do not share frames.
pub proof fn lemma_read_after_write(
    mem: Seq<u8>,
    pt: Seq<Option<PageTableEntry>>,
    free: Set<usize>,
    va: int,
    data: Seq<u8>,
)
    requires
        owns_frames(pt, free),
        0 <= va,
        range_translatable(pt, mem.len(), va, data.len() as int),
    ensures
        read_spec(write_spec(mem, pt, va, data), pt, va, data.len()) == data,
{
    lemma_write_spec_at(mem, pt, free, va, data);
    assert(read_spec(write_spec(mem, pt, va, data), pt, va, data.len()) =~= data);
}

/// In a well-formed task table, a record written by a syscall (`get_time`,
/// `task_info`) at `va` of the running task, where every page it touches
/// is mapped, is written, and reads back as the bytes written.
pub proof fn lemma_record_reads_back(tm: TaskManager, va: int, bytes: Seq<u8>)
    requires
        tm.wf(),
        0 <= va,
        va + bytes.len() <= usize::MAX,
        forall|i: int|
            0 <= i < bytes.len() ==> vpn_of(va + i) < tm.current_space().len() && (#[trigger] tm.current_space()[vpn_of(va + i)]).is_some(),
    ensures
        range_translatable(tm.current_space(), tm.memory@.len(), va, bytes.len() as int),
        read_spec(write_spec(tm.memory@, tm.current_space(), va, bytes), tm.current_space(), va, bytes.len())
            == bytes,
{
    tm.lemma_mapped_translatable(va, bytes.len() as int);
    let j = tm.current as int;
    assert(owns_frames(tm.tasks@[j].memory_set@, tm.frames.free()));
    lemma_read_after_write(tm.memory@, tm.current_space(), tm.frames.free(), va, bytes);
}

} // verus!
