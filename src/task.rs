//! Task control blocks and the round-robin scheduler.
use vstd::prelude::*;

use crate::config::{
    MAX_SYSCALL_NUM, PAGE_SIZE, SYSCALL_EXIT, SYSCALL_GET_TIME, SYSCALL_TASK_INFO,
    SYSCALL_WRITE, SYSCALL_YIELD,
};
use crate::mm::{
    frames_below, owns_frames, range_frames, map_ok, mapped_after, unmap_ok, unmapped_after, vpn_of, FrameAllocator, MemorySet,
};
use crate::translate::{range_translatable, read_spec, read_user, write_spec, write_user};

verus! {

/// The life cycle of a task.
#[derive(Clone, Copy, PartialEq, Eq, Structural, Debug)]
pub enum TaskStatus {
    UnInit,
    Ready,
    Running,
    Exited,
}

/// The registers saved for a task while it is not running.
#[derive(Clone, Copy, Debug)]
pub struct TaskContext {
    pub ra: usize,
    pub sp: usize,
    pub s: [usize; 12],
}

impl TaskContext {
    /// A context that resumes at `ra` on the stack `sp`.
    pub fn goto(ra: usize, sp: usize) -> (r: Self)
        ensures
            r.ra == ra,
            r.sp == sp,
    {
        TaskContext { ra, sp, s: [0usize; 12] }
    }
}

/// Everything the kernel keeps about one task.
pub struct TaskControlBlock {
    pub task_status: TaskStatus,
    pub task_cx: TaskContext,
    /// When the task first ran, in microseconds; `None` before that.
    pub time: Option<usize>,
    /// Invocations of each tracked syscall, by its slot.
    pub syscall_times: [u32; MAX_SYSCALL_NUM],
    pub memory_set: MemorySet,
}

/// Counters of a task that has made no syscall.
pub open spec fn zero_counts() -> Seq<u32> {
    Seq::new(MAX_SYSCALL_NUM as nat, |k: int| 0u32)
}

/// The slot that counts syscall `id`, where `id` is tracked.
pub open spec fn syscall_slot(id: int) -> Option<int> {
    if id == SYSCALL_WRITE {
        Some(0)
    } else if id == SYSCALL_EXIT {
        Some(1)
    } else if id == SYSCALL_YIELD {
        Some(2)
    } else if id == SYSCALL_GET_TIME {
        Some(3)
    } else if id == SYSCALL_TASK_INFO {
        Some(4)
    } else {
        None
    }
}

/// Counters after one invocation of syscall `id`: its slot goes up by one,
/// held at the largest `u32`; an untracked `id` changes nothing.
pub open spec fn count_syscall(c: Seq<u32>, id: int) -> Seq<u32> {
    match syscall_slot(id) {
        Some(k) => if c[k] < u32::MAX {
            c.update(k, (c[k] + 1) as u32)
        } else {
            c
        },
        None => c,
    }
}

/// The slot that counts syscall `id`, where `id` is tracked.
pub fn syscall_index(id: usize) -> (r: Option<usize>)
    ensures
        r == (match syscall_slot(id as int) {
            Some(k) => Some(k as usize),
            None => None,
        }),
        r.is_some() ==> r.unwrap() < MAX_SYSCALL_NUM,
{
    if id == SYSCALL_WRITE {
        Some(0)
    } else if id == SYSCALL_EXIT {
        Some(1)
    } else if id == SYSCALL_YIELD {
        Some(2)
    } else if id == SYSCALL_GET_TIME {
        Some(3)
    } else if id == SYSCALL_TASK_INFO {
        Some(4)
    } else {
        None
    }
}

/// How many steps forward from slot `cur` slot `j` lies, going round a
/// table of `n` slots: from 1 (the next slot) to `n` (`cur` itself).
pub open spec fn dist(n: int, cur: int, j: int) -> int {
    if j > cur {
        j - cur
    } else {
        j + n - cur
    }
}

/// Whether `i` is the first Ready slot after `cur`, round robin.
pub open spec fn next_ready(st: Seq<TaskStatus>, cur: int, i: int) -> bool {
    &&& 0 <= i < st.len()
    &&& st[i] == TaskStatus::Ready
    &&& forall|j: int|
        0 <= j < st.len() && dist(st.len() as int, cur, j) < dist(st.len() as int, cur, i)
            ==> st[j] != TaskStatus::Ready
}

/// Whether no slot of `st` is Ready.
pub open spec fn none_ready(st: Seq<TaskStatus>) -> bool {
    forall|j: int| 0 <= j < st.len() ==> st[j] != TaskStatus::Ready
}

/// The statuses of a task table.
pub open spec fn statuses(tasks: Seq<TaskControlBlock>) -> Seq<TaskStatus> {
    Seq::new(tasks.len(), |j: int| tasks[j].task_status)
}

/// The task table `b` is `a` with slot `i` set running: its first run
/// recorded as `now` where it had none; everything else kept.
pub open spec fn switched(a: Seq<TaskControlBlock>, b: Seq<TaskControlBlock>, i: int, now: usize) -> bool {
    &&& b.len() == a.len()
    &&& b[i].task_status == TaskStatus::Running
    &&& b[i].time == (if a[i].time.is_none() { Some(now) } else { a[i].time })
    &&& forall|j: int|
        0 <= j < a.len() ==> {
            &&& (#[trigger] b[j]).syscall_times == a[j].syscall_times
            &&& b[j].memory_set@ == a[j].memory_set@
            &&& b[j].task_cx == a[j].task_cx
            &&& j != i ==> b[j].task_status == a[j].task_status && b[j].time == a[j].time
        }
}

/// The task table `b` is `a` after slot `c` took status `st_c` and the
/// first Ready slot after `c`, `i`, was set running.
pub open spec fn rescheduled(
    a: Seq<TaskControlBlock>,
    b: Seq<TaskControlBlock>,
    c: int,
    st_c: TaskStatus,
    i: int,
    now: usize,
) -> bool {
    &&& schedule_step(a, b, c, st_c, i, now)
    &&& forall|j: int| 0 <= j < a.len() ==> (#[trigger] b[j]).syscall_times == a[j].syscall_times
}

/// As `rescheduled`, with the syscall counters left out of the comparison.
pub open spec fn schedule_step(
    a: Seq<TaskControlBlock>,
    b: Seq<TaskControlBlock>,
    c: int,
    st_c: TaskStatus,
    i: int,
    now: usize,
) -> bool {
    &&& b.len() == a.len()
    &&& next_ready(statuses(a).update(c, st_c), c, i)
    &&& b[i].task_status == TaskStatus::Running
    &&& b[i].time == (if a[i].time.is_none() { Some(now) } else { a[i].time })
    &&& forall|j: int|
        0 <= j < a.len() ==> {
            &&& (#[trigger] b[j]).memory_set@ == a[j].memory_set@
            &&& b[j].task_cx == a[j].task_cx
            &&& j != i ==> b[j].task_status == (if j == c { st_c } else { a[j].task_status })
                && b[j].time == a[j].time
        }
}

/// The task table `b` is `a` with, at most, the statuses and the syscall
/// counters changed.
pub open spec fn kept_but_status(a: Seq<TaskControlBlock>, b: Seq<TaskControlBlock>) -> bool {
    &&& b.len() == a.len()
    &&& forall|j: int|
        0 <= j < a.len() ==> {
            &&& (#[trigger] b[j]).time == a[j].time
            &&& b[j].memory_set@ == a[j].memory_set@
            &&& b[j].task_cx == a[j].task_cx
        }
}

/// The task table `b` is `a` with, at most, the syscall counters and the
/// address space of slot `c` changed.
pub open spec fn task_frame(a: Seq<TaskControlBlock>, b: Seq<TaskControlBlock>, c: int) -> bool {
    &&& b.len() == a.len()
    &&& forall|j: int|
        0 <= j < a.len() ==> {
            &&& (#[trigger] b[j]).task_status == a[j].task_status
            &&& b[j].time == a[j].time
            &&& b[j].task_cx == a[j].task_cx
            &&& j != c ==> b[j].memory_set@ == a[j].memory_set@
        }
}

/// The task table `b` is `a` with only the address space of slot `c`
/// changed, if at all.
pub open spec fn only_space_of(a: Seq<TaskControlBlock>, b: Seq<TaskControlBlock>, c: int) -> bool {
    &&& b.len() == a.len()
    &&& forall|j: int|
        0 <= j < a.len() ==> {
            &&& (#[trigger] b[j]).task_status == a[j].task_status
            &&& b[j].time == a[j].time
            &&& b[j].syscall_times == a[j].syscall_times
            &&& b[j].task_cx == a[j].task_cx
            &&& j != c ==> b[j].memory_set@ == a[j].memory_set@
        }
}

/// The task table `b` is `a` with at most the statuses changed.
pub open spec fn same_but_status(a: Seq<TaskControlBlock>, b: Seq<TaskControlBlock>) -> bool {
    &&& b.len() == a.len()
    &&& forall|j: int|
        0 <= j < a.len() ==> {
            &&& (#[trigger] b[j]).time == a[j].time
            &&& b[j].syscall_times == a[j].syscall_times
            &&& b[j].memory_set@ == a[j].memory_set@
            &&& b[j].task_cx == a[j].task_cx
        }
}

/// Whether no frame is mapped by two tasks.
pub open spec fn frames_disjoint(tasks: Seq<TaskControlBlock>) -> bool {
    forall|j1: int, j2: int, v1: int, v2: int|
        0 <= j1 < tasks.len() && 0 <= j2 < tasks.len() && j1 != j2 && 0 <= v1 < tasks[j1].memory_set@.len()
            && 0 <= v2 < tasks[j2].memory_set@.len() && (#[trigger] tasks[j1].memory_set@[v1]).is_some()
            && (#[trigger] tasks[j2].memory_set@[v2]).is_some() ==> tasks[j1].memory_set@[v1].unwrap().ppn
            != tasks[j2].memory_set@[v2].unwrap().ppn
}

/// The table of all tasks, with the frame pool that backs their address
/// spaces and the physical memory those frames live in.
pub struct TaskManager {
    pub tasks: Vec<TaskControlBlock>,
    /// The slot of the running task, or of the last one when all exited.
    pub current: usize,
    pub frames: FrameAllocator,
    /// Physical memory, `PAGE_SIZE` bytes for each frame.
    pub memory: Vec<u8>,
}

impl TaskManager {
    pub open spec fn wf(&self) -> bool {
        &&& self.tasks@.len() > 0
        &&& self.current < self.tasks@.len()
        &&& self.frames.wf()
        &&& forall|j: int|
            0 <= j < self.tasks@.len() && j != self.current ==> (#[trigger] self.tasks@[j]).task_status
                != TaskStatus::Running
        &&& forall|j: int|
            0 <= j < self.tasks@.len() ==> frames_below(
                #[trigger] self.tasks@[j].memory_set@,
                self.frames.total(),
            )
        &&& forall|j: int|
            0 <= j < self.tasks@.len() ==> owns_frames(
                #[trigger] self.tasks@[j].memory_set@,
                self.frames.free(),
            )
        &&& frames_disjoint(self.tasks@)
        &&& self.frames.total() * PAGE_SIZE <= self.memory@.len()
    }

    /// Whether the task in the current slot is running.
    pub open spec fn running(&self) -> bool {
        self.tasks@[self.current as int].task_status == TaskStatus::Running
    }

    /// A table of `n_tasks` loaded tasks, all Ready, each with an address
    /// space of `n_pages` pages, none mapped, over a pool of `n_frames`
    /// frames of zeroed memory. No task runs yet.
    pub fn new(n_tasks: usize, n_pages: usize, n_frames: usize) -> (r: Self)
        requires
            n_tasks > 0,
            n_frames * PAGE_SIZE <= usize::MAX,
        ensures
            r.wf(),
            r.tasks@.len() == n_tasks,
            r.current == 0,
            r.frames.available() == n_frames,
            r.frames.total() == n_frames,
            r.frames.free() == Set::new(|f: usize| f < n_frames),
            r.memory@.len() == n_frames * PAGE_SIZE,
            forall|j: int|
                0 <= j < n_tasks ==> {
                    &&& (#[trigger] r.tasks@[j]).task_status == TaskStatus::Ready
                    &&& r.tasks@[j].time.is_none()
                    &&& r.tasks@[j].syscall_times@ == zero_counts()
                    &&& r.tasks@[j].memory_set@.len() == n_pages
                    &&& crate::mm::range_free(r.tasks@[j].memory_set@, 0, n_pages as int)
                },
    {
        let frames = FrameAllocator::new(n_frames);
        let mut tasks: Vec<TaskControlBlock> = Vec::new();
        let mut i: usize = 0;
        while i < n_tasks
            invariant
                i <= n_tasks,
                tasks@.len() == i,
                frames.wf(),
                frames.total() == n_frames,
                forall|j: int|
                    0 <= j < i ==> {
                        &&& (#[trigger] tasks@[j]).task_status == TaskStatus::Ready
                        &&& tasks@[j].time.is_none()
                        &&& tasks@[j].syscall_times@ == zero_counts()
                        &&& tasks@[j].memory_set@.len() == n_pages
                        &&& crate::mm::range_free(tasks@[j].memory_set@, 0, n_pages as int)
                        &&& frames_below(tasks@[j].memory_set@, n_frames as nat)
                    },
            decreases n_tasks - i,
        {
            let ms = MemorySet::new(n_pages);
            let counts: [u32; MAX_SYSCALL_NUM] = [0u32, 0u32, 0u32, 0u32, 0u32];
            assert(counts@ =~= zero_counts());
            tasks.push(
                TaskControlBlock {
                    task_status: TaskStatus::Ready,
                    task_cx: TaskContext::goto(0, 0),
                    time: None,
                    syscall_times: counts,
                    memory_set: ms,
                },
            );
            i = i + 1;
        }
        let mut memory: Vec<u8> = Vec::new();
        let size = n_frames * PAGE_SIZE;
        let mut k: usize = 0;
        while k < size
            invariant
                k <= size,
                memory@.len() == k,
            decreases size - k,
        {
            memory.push(0u8);
            k = k + 1;
        }
        TaskManager { tasks, current: 0, frames, memory }
    }

    /// The first Ready slot after the current one, round robin (the
    /// current slot itself comes last), or `None` when no task is Ready.
    pub fn find_next_task(&self) -> (r: Option<usize>)
        requires
            self.wf(),
        ensures
            r.is_none() == none_ready(statuses(self.tasks@)),
            r.is_some() ==> next_ready(statuses(self.tasks@), self.current as int, r.unwrap() as int),
    {
        let n = self.tasks.len();
        let cur = self.current;
        let ghost st = statuses(self.tasks@);
        let mut k: usize = 0;
        let mut idx: usize = cur;
        while k < n
            invariant
                0 <= k <= n,
                n == self.tasks@.len(),
                st == statuses(self.tasks@),
                cur < n,
                cur == self.current,
                idx < n,
                if k == 0 {
                    idx == cur
                } else {
                    dist(n as int, cur as int, idx as int) == k
                },
                forall|j: int| 0 <= j < n && dist(n as int, cur as int, j) <= k ==> st[j] != TaskStatus::Ready,
            decreases n - k,
        {
            assert(forall|j: int| 0 <= j < n && dist(n as int, cur as int, j) < k + 1 ==> st[j] != TaskStatus::Ready);
            idx = if idx + 1 == n {
                0
            } else {
                idx + 1
            };
            k = k + 1;
            assert(dist(n as int, cur as int, idx as int) == k);
            if self.tasks[idx].task_status == TaskStatus::Ready {
                assert(st[idx as int] == TaskStatus::Ready);
                return Some(idx);
            }
        }
        None
    }

    /// Makes slot `i` the running task, recording `now` as its first run
    /// when it never ran before.
    fn switch_to(&mut self, i: usize, now: usize)
        requires
            old(self).wf(),
            i < old(self).tasks@.len(),
            i != old(self).current ==> old(self).tasks@[old(self).current as int].task_status
                != TaskStatus::Running,
        ensures
            final(self).wf(),
            switched(old(self).tasks@, final(self).tasks@, i as int, now),
            final(self).current == i,
            final(self).frames == old(self).frames,
            final(self).memory == old(self).memory,
    {
        self.tasks[i].task_status = TaskStatus::Running;
        if self.tasks[i].time.is_none() {
            self.tasks[i].time = Some(now);
        }
        self.current = i;
        assert(forall|j: int| 0 <= j < self.tasks@.len() ==> #[trigger] self.tasks@[j].memory_set@ == old(self).tasks@[j].memory_set@);
    }

    /// Sets the status of slot `c`.
    fn set_status(&mut self, c: usize, st: TaskStatus)
        requires
            old(self).wf(),
            c < old(self).tasks@.len(),
            c == old(self).current || st != TaskStatus::Running,
        ensures
            final(self).wf(),
            final(self).current == old(self).current,
            final(self).frames == old(self).frames,
            final(self).memory == old(self).memory,
            final(self).tasks@.len() == old(self).tasks@.len(),
            statuses(final(self).tasks@) == statuses(old(self).tasks@).update(c as int, st),
            forall|j: int|
                0 <= j < old(self).tasks@.len() ==> {
                    &&& (#[trigger] final(self).tasks@[j]).syscall_times == old(self).tasks@[j].syscall_times
                    &&& final(self).tasks@[j].memory_set@ == old(self).tasks@[j].memory_set@
                    &&& final(self).tasks@[j].time == old(self).tasks@[j].time
                    &&& final(self).tasks@[j].task_cx == old(self).tasks@[j].task_cx
                    &&& j != c ==> final(self).tasks@[j].task_status == old(self).tasks@[j].task_status
                },
            final(self).tasks@[c as int].task_status == st,
    {
        self.tasks[c].task_status = st;
        assert(statuses(self.tasks@) =~= statuses(old(self).tasks@).update(c as int, st));
        assert(forall|j: int| 0 <= j < self.tasks@.len() ==> #[trigger] self.tasks@[j].memory_set@ == old(self).tasks@[j].memory_set@);
    }

    /// Starts the task in slot 0, while no task runs.
    pub fn run_first_task(&mut self, now: usize)
        requires
            old(self).wf(),
            !old(self).running(),
            old(self).tasks@[0].task_status == TaskStatus::Ready,
        ensures
            final(self).wf(),
            final(self).running(),
            switched(old(self).tasks@, final(self).tasks@, 0, now),
            final(self).current == 0,
            final(self).frames == old(self).frames,
            final(self).memory == old(self).memory,
    {
        self.switch_to(0, now);
    }

    /// The running task gives up the processor: it becomes Ready and the
    /// first Ready task after it, round robin, runs; that is itself when no
    /// other task is Ready.
    pub fn suspend_current_and_run_next(&mut self, now: usize)
        requires
            old(self).wf(),
            old(self).running(),
        ensures
            final(self).wf(),
            final(self).running(),
            rescheduled(
                old(self).tasks@,
                final(self).tasks@,
                old(self).current as int,
                TaskStatus::Ready,
                final(self).current as int,
                now,
            ),
            final(self).frames == old(self).frames,
            final(self).memory == old(self).memory,
    {
        let c = self.current;
        self.set_status(c, TaskStatus::Ready);
        let next = self.find_next_task();
        let ghost mid = self.tasks@;
        match next {
            Some(i) => {
                self.switch_to(i, now);
            },
            None => {
                assert(statuses(self.tasks@)[c as int] == TaskStatus::Ready);
            },
        }
        assert forall|j: int| 0 <= j < mid.len() implies #[trigger] self.tasks@[j].memory_set@ == old(self).tasks@[j].memory_set@ by {
            assert(self.tasks@[j].memory_set@ == mid[j].memory_set@);
        }
    }

    /// The running task exits for good, and the first Ready task after it,
    /// round robin, runs. Where no task is Ready, nothing runs any more and
    /// the result is `false`.
    pub fn exit_current_and_run_next(&mut self, now: usize) -> (r: bool)
        requires
            old(self).wf(),
            old(self).running(),
        ensures
            final(self).wf(),
            final(self).frames == old(self).frames,
            final(self).memory == old(self).memory,
            r == !none_ready(statuses(old(self).tasks@).update(old(self).current as int, TaskStatus::Exited)),
            r ==> final(self).running() && rescheduled(
                old(self).tasks@,
                final(self).tasks@,
                old(self).current as int,
                TaskStatus::Exited,
                final(self).current as int,
                now,
            ),
            !r ==> final(self).current == old(self).current && statuses(final(self).tasks@)
                == statuses(old(self).tasks@).update(old(self).current as int, TaskStatus::Exited)
                && same_but_status(old(self).tasks@, final(self).tasks@),
    {
        let c = self.current;
        self.set_status(c, TaskStatus::Exited);
        let next = self.find_next_task();
        let ghost mid = self.tasks@;
        match next {
            Some(i) => {
                self.switch_to(i, now);
                assert forall|j: int| 0 <= j < mid.len() implies #[trigger] self.tasks@[j].memory_set@ == old(self).tasks@[j].memory_set@ by {
                    assert(self.tasks@[j].memory_set@ == mid[j].memory_set@);
                }
                true
            },
            None => false,
        }
    }

    /// Counts one invocation of syscall `id` by the running task.
    pub fn mark_current_syscall(&mut self, id: usize)
        requires
            old(self).wf(),
        ensures
            final(self).wf(),
            final(self).current == old(self).current,
            final(self).frames == old(self).frames,
            final(self).memory == old(self).memory,
            final(self).tasks@.len() == old(self).tasks@.len(),
            final(self).tasks@[old(self).current as int].syscall_times@ == count_syscall(
                old(self).tasks@[old(self).current as int].syscall_times@,
                id as int,
            ),
            forall|j: int|
                0 <= j < old(self).tasks@.len() ==> {
                    &&& (#[trigger] final(self).tasks@[j]).task_status == old(self).tasks@[j].task_status
                    &&& final(self).tasks@[j].time == old(self).tasks@[j].time
                    &&& final(self).tasks@[j].memory_set@ == old(self).tasks@[j].memory_set@
                    &&& final(self).tasks@[j].task_cx == old(self).tasks@[j].task_cx
                    &&& j != old(self).current ==> final(self).tasks@[j].syscall_times == old(self).tasks@[j].syscall_times
                },
    {
        let c = self.current;
        match syscall_index(id) {
            Some(k) => {
                let v = self.tasks[c].syscall_times[k];
                if v < u32::MAX {
                    self.tasks[c].syscall_times[k] = v + 1;
                }
            },
            None => {},
        }
        assert(forall|j: int| 0 <= j < self.tasks@.len() ==> #[trigger] self.tasks@[j].memory_set@ == old(self).tasks@[j].memory_set@);
    }

    /// The status, first run and syscall counters of the running task.
    pub fn current_taskinfo(&self) -> (r: (TaskStatus, Option<usize>, [u32; MAX_SYSCALL_NUM]))
        requires
            self.wf(),
        ensures
            r.0 == self.tasks@[self.current as int].task_status,
            r.1 == self.tasks@[self.current as int].time,
            r.2 == self.tasks@[self.current as int].syscall_times,
    {
        let c = self.current;
        (self.tasks[c].task_status, self.tasks[c].time, self.tasks[c].syscall_times)
    }

    /// The address space of the running task.
    pub open spec fn current_space(&self) -> Seq<Option<crate::mm::PageTableEntry>> {
        self.tasks@[self.current as int].memory_set@
    }

    /// A range whose pages are all mapped in the running task can be
    /// written and read.
    pub proof fn lemma_mapped_translatable(&self, va: int, len: int)
        requires
            self.wf(),
            0 <= va,
            0 <= len,
            va + len <= usize::MAX,
            forall|i: int|
                0 <= i < len ==> vpn_of(va + i) < self.current_space().len() && (#[trigger] self.current_space()[vpn_of(va + i)]).is_some(),
        ensures
            range_translatable(self.current_space(), self.memory@.len(), va, len),
    {
        let pt = self.current_space();
        assert forall|i: int| 0 <= i < len implies #[trigger] crate::translate::translatable(pt, self.memory@.len(), va + i) by {
            let v = vpn_of(va + i);
            assert(pt[v].is_some());
            assert(frames_below(pt, self.frames.total()));
            let ppn = pt[v].unwrap().ppn as int;
            let t = self.frames.total() as int;
            let m = self.memory@.len() as int;
            assert(ppn < m / 4096) by (nonlinear_arith)
                requires
                    0 <= ppn < t,
                    t * 4096 <= m,
            ;
        }
    }

    /// Maps `[start, end)` into the running task's address space with
    /// permission `port`, as `MemorySet::map` does.
    pub fn map_current(&mut self, start: usize, end: usize, port: usize) -> (r: bool)
        requires
            old(self).wf(),
        ensures
            final(self).wf(),
            final(self).current == old(self).current,
            final(self).memory == old(self).memory,
            only_space_of(old(self).tasks@, final(self).tasks@, old(self).current as int),
            r == map_ok(old(self).current_space(), old(self).frames.available(), start as int, end as int, port as int),
            r ==> mapped_after(old(self).current_space(), final(self).current_space(), vpn_of(start as int), vpn_of(end as int), port as int),
            r ==> final(self).frames.free() == old(self).frames.free().difference(
                range_frames(final(self).current_space(), vpn_of(start as int), vpn_of(end as int)),
            ),
            r ==> range_frames(final(self).current_space(), vpn_of(start as int), vpn_of(end as int)).subset_of(
                old(self).frames.free(),
            ),
            r ==> final(self).frames.available() == old(self).frames.available() - (vpn_of(end as int) - vpn_of(start as int)),
            final(self).frames.total() == old(self).frames.total(),
            !r ==> final(self).current_space() == old(self).current_space() && final(self).frames == old(self).frames,
    {
        let c = self.current;
        let r = self.tasks[c].memory_set.map(&mut self.frames, start, end, port);
        assert(forall|j: int| 0 <= j < self.tasks@.len() && j != c ==> #[trigger] self.tasks@[j].memory_set@ == old(self).tasks@[j].memory_set@);
        r
    }

    /// Unmaps `[start, end)` from the running task's address space, as
    /// `MemorySet::unmap` does.
    pub fn unmap_current(&mut self, start: usize, end: usize) -> (r: bool)
        requires
            old(self).wf(),
        ensures
            final(self).wf(),
            final(self).current == old(self).current,
            final(self).memory == old(self).memory,
            only_space_of(old(self).tasks@, final(self).tasks@, old(self).current as int),
            r == unmap_ok(old(self).current_space(), start as int, end as int),
            r ==> unmapped_after(old(self).current_space(), final(self).current_space(), vpn_of(start as int), vpn_of(end as int)),
            r ==> final(self).frames.free() == old(self).frames.free().union(
                range_frames(old(self).current_space(), vpn_of(start as int), vpn_of(end as int)),
            ),
            r ==> final(self).frames.available() == old(self).frames.available() + (vpn_of(end as int) - vpn_of(start as int)),
            final(self).frames.total() == old(self).frames.total(),
            !r ==> final(self).current_space() == old(self).current_space() && final(self).frames == old(self).frames,
    {
        let c = self.current;
        let r = self.tasks[c].memory_set.unmap(&mut self.frames, start, end);
        assert(forall|j: int| 0 <= j < self.tasks@.len() && j != c ==> #[trigger] self.tasks@[j].memory_set@ == old(self).tasks@[j].memory_set@);
        r
    }

    /// Copies `data` to address `va` of the running task, or returns
    /// `false` and writes nothing where a byte of the range is not mapped.
    pub fn write_current(&mut self, va: usize, data: &Vec<u8>) -> (r: bool)
        requires
            old(self).wf(),
        ensures
            final(self).wf(),
            final(self).current == old(self).current,
            final(self).frames == old(self).frames,
            only_space_of(old(self).tasks@, final(self).tasks@, -1),
            r == range_translatable(old(self).current_space(), old(self).memory@.len(), va as int, data@.len() as int),
            r ==> final(self).memory@ == write_spec(old(self).memory@, old(self).current_space(), va as int, data@),
            !r ==> final(self).memory@ == old(self).memory@,
            final(self).memory@.len() == old(self).memory@.len(),
    {
        let c = self.current;
        write_user(&self.tasks[c].memory_set, &mut self.memory, va, data)
    }

    /// The `len` bytes at address `va` of the running task, or `None` where
    /// a byte of the range is not mapped.
    pub fn read_current(&self, va: usize, len: usize) -> (r: Option<Vec<u8>>)
        requires
            self.wf(),
        ensures
            r.is_some() == range_translatable(self.current_space(), self.memory@.len(), va as int, len as int),
            r.is_some() ==> r.unwrap()@ == read_spec(self.memory@, self.current_space(), va as int, len as nat),
    {
        let c = self.current;
        read_user(&self.tasks[c].memory_set, &self.memory, va, len)
    }
}

} // verus!
