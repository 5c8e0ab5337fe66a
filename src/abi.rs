//! Records that syscalls hand back to a task, and their byte layout.
use vstd::prelude::*;

use crate::config::MAX_SYSCALL_NUM;
use crate::task::TaskStatus;

verus! {

/// The `n` low bytes of `x`, least significant first.
pub open spec fn le_bytes(x: nat, n: nat) -> Seq<u8>
    decreases n,
{
    if n == 0 {
        Seq::empty()
    } else {
        seq![(x % 256) as u8] + le_bytes(x / 256, (n - 1) as nat)
    }
}

proof fn lemma_le_bytes_len(x: nat, n: nat)
    ensures
        le_bytes(x, n).len() == n,
    decreases n,
{
    if n > 0 {
        lemma_le_bytes_len(x / 256, (n - 1) as nat);
    }
}

proof fn lemma_counts_bytes_len(c: Seq<u32>)
    ensures
        counts_bytes(c).len() == 4 * c.len(),
    decreases c.len(),
{
    if c.len() > 0 {
        lemma_counts_bytes_len(c.drop_last());
        lemma_le_bytes_len(c.last() as nat, 4);
    }
}

/// Appends the `n` low bytes of `x` to `out`, least significant first.
pub fn push_le(out: &mut Vec<u8>, x: u64, n: usize)
    ensures
        final(out)@ == old(out)@ + le_bytes(x as nat, n as nat),
{
    let mut cur: u64 = x;
    let mut i: usize = 0;
    while i < n
        invariant
            i <= n,
            out@ + le_bytes(cur as nat, (n - i) as nat) == old(out)@ + le_bytes(x as nat, n as nat),
        decreases n - i,
    {
        let ghost before = out@;
        let ghost m = (n - i) as nat;
        out.push((cur % 256) as u8);
        assert(le_bytes(cur as nat, m) == seq![(cur as nat % 256) as u8] + le_bytes(cur as nat / 256, (m - 1) as nat));
        assert(out@ + le_bytes(cur as nat / 256, (m - 1) as nat) =~= before + le_bytes(cur as nat, m));
        cur = cur / 256;
        i = i + 1;
    }
    assert(le_bytes(cur as nat, 0) =~= Seq::<u8>::empty());
    assert(out@ =~= out@ + le_bytes(cur as nat, 0));
}

/// A point in time as seconds and microseconds.
#[derive(Clone, Copy, PartialEq, Eq, Structural, Debug)]
pub struct TimeVal {
    pub sec: usize,
    pub usec: usize,
}

/// The bytes of a `TimeVal`: two little-endian words of eight bytes.
pub open spec fn timeval_bytes(sec: nat, usec: nat) -> Seq<u8> {
    le_bytes(sec, 8) + le_bytes(usec, 8)
}

impl TimeVal {
    /// The time `us` microseconds split into whole seconds and the rest.
    pub fn from_us(us: usize) -> (r: Self)
        ensures
            r.sec == us / 1_000_000,
            r.usec == us % 1_000_000,
    {
        TimeVal { sec: us / 1_000_000, usec: us % 1_000_000 }
    }

    /// The bytes that a task finds at the address it passed.
    pub fn to_bytes(&self) -> (r: Vec<u8>)
        ensures
            r@ == timeval_bytes(self.sec as nat, self.usec as nat),
            r@.len() == 16,
    {
        proof {
            lemma_le_bytes_len(self.sec as nat, 8);
            lemma_le_bytes_len(self.usec as nat, 8);
        }
        let mut out: Vec<u8> = Vec::new();
        push_le(&mut out, self.sec as u64, 8);
        push_le(&mut out, self.usec as u64, 8);
        assert(out@ =~= timeval_bytes(self.sec as nat, self.usec as nat));
        out
    }
}

/// What `task_info` tells a task of itself.
#[derive(Clone, Copy, Debug)]
pub struct TaskInfo {
    pub status: TaskStatus,
    pub syscall_times: [u32; MAX_SYSCALL_NUM],
    /// Milliseconds since the task first ran.
    pub time: usize,
}

/// The number that stands for a status in a `TaskInfo`'s bytes.
pub open spec fn status_code(s: TaskStatus) -> nat {
    match s {
        TaskStatus::UnInit => 0,
        TaskStatus::Ready => 1,
        TaskStatus::Running => 2,
        TaskStatus::Exited => 3,
    }
}

/// The bytes of a run of counters, four little-endian bytes each.
pub open spec fn counts_bytes(c: Seq<u32>) -> Seq<u8>
    decreases c.len(),
{
    if c.len() == 0 {
        Seq::empty()
    } else {
        counts_bytes(c.drop_last()) + le_bytes(c.last() as nat, 4)
    }
}

/// The bytes of a `TaskInfo`: the status code in four bytes, the counters,
/// then the time in eight bytes, all little endian.
pub open spec fn task_info_bytes(status: TaskStatus, counts: Seq<u32>, time: nat) -> Seq<u8> {
    le_bytes(status_code(status), 4) + counts_bytes(counts) + le_bytes(time, 8)
}

impl TaskInfo {
    /// The bytes that a task finds at the address it passed.
    pub fn to_bytes(&self) -> (r: Vec<u8>)
        ensures
            r@ == task_info_bytes(self.status, self.syscall_times@, self.time as nat),
            r@.len() == 32,
    {
        proof {
            lemma_le_bytes_len(status_code(self.status), 4);
            lemma_counts_bytes_len(self.syscall_times@);
            lemma_le_bytes_len(self.time as nat, 8);
        }
        let mut out: Vec<u8> = Vec::new();
        let code: u64 = match self.status {
            TaskStatus::UnInit => 0,
            TaskStatus::Ready => 1,
            TaskStatus::Running => 2,
            TaskStatus::Exited => 3,
        };
        push_le(&mut out, code, 4);
        let ghost head = out@;
        let mut i: usize = 0;
        while i < MAX_SYSCALL_NUM
            invariant
                i <= MAX_SYSCALL_NUM,
                head == le_bytes(status_code(self.status), 4),
                out@ == head + counts_bytes(self.syscall_times@.take(i as int)),
            decreases MAX_SYSCALL_NUM - i,
        {
            let ghost before = out@;
            push_le(&mut out, self.syscall_times[i] as u64, 4);
            proof {
                let t = self.syscall_times@.take(i + 1);
                assert(t.drop_last() =~= self.syscall_times@.take(i as int));
                assert(out@ =~= head + counts_bytes(t));
            }
            i = i + 1;
        }
        assert(self.syscall_times@.take(MAX_SYSCALL_NUM as int) =~= self.syscall_times@);
        push_le(&mut out, self.time as u64, 8);
        assert(out@ =~= task_info_bytes(self.status, self.syscall_times@, self.time as nat));
        out
    }
}

} // verus!
