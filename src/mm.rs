//! Physical frames, page tables and per-task address spaces.
use vstd::prelude::*;

use crate::config::PAGE_SIZE;

verus! {

/// Page table entry flag: the entry is valid.
pub const PTE_V: u8 = 1;

/// Page table entry flag: the page may be read.
pub const PTE_R: u8 = 2;

/// Page table entry flag: the page may be written.
pub const PTE_W: u8 = 4;

/// Page table entry flag: the page may be executed.
pub const PTE_X: u8 = 8;

/// Page table entry flag: the page is reachable from user mode.
pub const PTE_U: u8 = 16;

/// Whether an address is a multiple of the page size.
pub open spec fn page_aligned(a: int) -> bool {
    a % (PAGE_SIZE as int) == 0
}

/// The page number that holds an address.
pub open spec fn vpn_of(a: int) -> int {
    a / (PAGE_SIZE as int)
}

/// A permission value accepted by `map`: a non-empty combination of
/// read (1), write (2) and execute (4).
pub open spec fn valid_port(port: int) -> bool {
    1 <= port <= 7
}

/// The flags installed for a page mapped with permission `port`:
/// the permission bits shifted past the valid bit, plus valid and user.
pub open spec fn flags_of(port: int) -> u8 {
    (PTE_V + PTE_U + 2 * port) as u8
}

/// A pool of physical frames numbered `0 .. end`: frames never handed out
/// start at `next`, returned frames wait in `recycled`.
pub struct FrameAllocator {
    next: usize,
    end: usize,
    recycled: Vec<usize>,
}

impl FrameAllocator {
    pub closed spec fn wf(&self) -> bool {
        &&& self.next <= self.end
        &&& forall|i: int| 0 <= i < self.recycled@.len() ==> self.recycled@[i] < self.next
        &&& self.recycled@.no_duplicates()
    }

    /// The frames that can be handed out.
    pub closed spec fn free(&self) -> Set<usize> {
        Set::new(|f: usize| (self.next <= f < self.end) || self.recycled@.contains(f))
    }

    /// How many frames can still be handed out.
    pub closed spec fn available(&self) -> nat {
        ((self.end - self.next) + self.recycled@.len()) as nat
    }

    /// Number of frames the pool manages.
    pub closed spec fn total(&self) -> nat {
        self.end as nat
    }

    /// A pool holding the frames `0 .. n_frames`, all free.
    pub fn new(n_frames: usize) -> (r: Self)
        ensures
            r.wf(),
            r.available() == n_frames,
            r.total() == n_frames,
            r.free() == Set::new(|f: usize| f < n_frames),
    {
        let r = FrameAllocator { next: 0, end: n_frames, recycled: Vec::new() };
        assert(r.free() =~= Set::new(|f: usize| f < n_frames));
        r
    }

    /// Whether `n` frames can be handed out.
    pub fn can_alloc(&self, n: usize) -> (r: bool)
        requires
            self.wf(),
        ensures
            r == (n <= self.available()),
    {
        n <= self.end - self.next || n - (self.end - self.next) <= self.recycled.len()
    }

    /// Hands out one free frame, or `None` when the pool is exhausted.
    pub fn alloc_frame(&mut self) -> (r: Option<usize>)
        requires
            old(self).wf(),
        ensures
            final(self).wf(),
            final(self).total() == old(self).total(),
            r.is_some() == (old(self).available() > 0),
            r.is_some() ==> r.unwrap() < old(self).total() && final(self).available()
                == old(self).available() - 1,
            r.is_some() ==> old(self).free().contains(r.unwrap()) && final(self).free()
                == old(self).free().remove(r.unwrap()),
            r.is_none() ==> *final(self) == *old(self),
    {
        if self.recycled.len() > 0 {
            let ghost before = self.recycled@;
            let r = self.recycled.pop();
            proof {
                let f = r.unwrap();
                assert(before.last() == f);
                assert(before.drop_last() =~= self.recycled@);
                assert(before =~= self.recycled@.push(f));
                assert(!self.recycled@.contains(f)) by {
                    if self.recycled@.contains(f) {
                        let i = choose|i: int| 0 <= i < self.recycled@.len() && self.recycled@[i] == f;
                        assert(before[i] == before[before.len() - 1]);
                    }
                }
                assert(self.free() =~= old(self).free().remove(f)) by {
                    assert forall|g: usize| #[trigger] old(self).free().contains(g) && g != f implies self.free().contains(g) by {
                        if before.contains(g) {
                            let i = choose|i: int| 0 <= i < before.len() && before[i] == g;
                            assert(self.recycled@[i] == g);
                        }
                    }
                }
            }
            r
        } else if self.next < self.end {
            let f = self.next;
            self.next = self.next + 1;
            assert(self.free() =~= old(self).free().remove(f));
            Some(f)
        } else {
            None
        }
    }

    /// Returns a frame of this pool to it.
    pub fn dealloc_frame(&mut self, ppn: usize)
        requires
            old(self).wf(),
            ppn < old(self).total(),
            !old(self).free().contains(ppn),
        ensures
            final(self).wf(),
            final(self).total() == old(self).total(),
            final(self).available() == old(self).available() + 1,
            final(self).free() == old(self).free().insert(ppn),
    {
        self.recycled.push(ppn);
        assert(self.free() =~= old(self).free().insert(ppn)) by {
            assert forall|g: usize| #[trigger] self.free().contains(g) && g != ppn implies old(self).free().contains(g) by {
                if self.recycled@.contains(g) {
                    let i = choose|i: int| 0 <= i < self.recycled@.len() && self.recycled@[i] == g;
                    assert(old(self).recycled@[i] == g);
                }
            }
            assert(self.recycled@[self.recycled@.len() - 1] == ppn);
            assert forall|g: usize| #[trigger] old(self).free().contains(g) implies self.free().contains(g) by {
                if old(self).recycled@.contains(g) {
                    let i = choose|i: int| 0 <= i < old(self).recycled@.len() && old(self).recycled@[i] == g;
                    assert(self.recycled@[i] == g);
                }
            }
        }
    }
}

/// One page table entry: the physical frame and the flag bits.
#[derive(Clone, Copy, PartialEq, Eq, Structural, Debug)]
pub struct PageTableEntry {
    pub ppn: usize,
    pub flags: u8,
}

/// The address space of one task: a page table with one slot for each
/// virtual page below `n_pages`, a slot being `None` where the page is
/// not mapped.
pub struct MemorySet {
    entries: Vec<Option<PageTableEntry>>,
}

impl View for MemorySet {
    type V = Seq<Option<PageTableEntry>>;

    closed spec fn view(&self) -> Seq<Option<PageTableEntry>> {
        self.entries@
    }
}

/// Whether every page of `[lo, hi)` is unmapped in `pt`.
pub open spec fn range_free(pt: Seq<Option<PageTableEntry>>, lo: int, hi: int) -> bool {
    forall|v: int| lo <= v < hi ==> pt[v].is_none()
}

/// Whether every page of `[lo, hi)` is mapped in `pt`.
pub open spec fn range_mapped(pt: Seq<Option<PageTableEntry>>, lo: int, hi: int) -> bool {
    forall|v: int| lo <= v < hi ==> pt[v].is_some()
}

/// Whether `map(start, end, port)` is owed success on `pt` with `free` frames.
pub open spec fn map_ok(
    pt: Seq<Option<PageTableEntry>>,
    free: nat,
    start: int,
    end: int,
    port: int,
) -> bool {
    &&& page_aligned(start)
    &&& page_aligned(end)
    &&& 0 <= start <= end
    &&& (start == end || vpn_of(end) <= pt.len())
    &&& valid_port(port)
    &&& range_free(pt, vpn_of(start), vpn_of(end))
    &&& vpn_of(end) - vpn_of(start) <= free
}

/// Whether `unmap(start, end)` is owed success on `pt`.
pub open spec fn unmap_ok(pt: Seq<Option<PageTableEntry>>, start: int, end: int) -> bool {
    &&& page_aligned(start)
    &&& page_aligned(end)
    &&& 0 <= start <= end
    &&& (start == end || vpn_of(end) <= pt.len())
    &&& range_mapped(pt, vpn_of(start), vpn_of(end))
}

/// What a successful `map` leaves: the pages of `[lo, hi)` valid with the
/// flags of `port`, every other page as it was.
pub open spec fn mapped_after(
    old_pt: Seq<Option<PageTableEntry>>,
    new_pt: Seq<Option<PageTableEntry>>,
    lo: int,
    hi: int,
    port: int,
) -> bool {
    &&& new_pt.len() == old_pt.len()
    &&& forall|v: int|
        0 <= v < new_pt.len() ==> if lo <= v < hi {
            new_pt[v].is_some() && new_pt[v].unwrap().flags == flags_of(port)
        } else {
            new_pt[v] == old_pt[v]
        }
}

/// What a successful `unmap` leaves: the pages of `[lo, hi)` unmapped,
/// every other page as it was.
pub open spec fn unmapped_after(
    old_pt: Seq<Option<PageTableEntry>>,
    new_pt: Seq<Option<PageTableEntry>>,
    lo: int,
    hi: int,
) -> bool {
    &&& new_pt.len() == old_pt.len()
    &&& forall|v: int|
        0 <= v < new_pt.len() ==> if lo <= v < hi {
            new_pt[v].is_none()
        } else {
            new_pt[v] == old_pt[v]
        }
}

/// Whether all frames that `pt` refers to lie below `n_frames`.
pub open spec fn frames_below(pt: Seq<Option<PageTableEntry>>, n_frames: nat) -> bool {
    forall|v: int| 0 <= v < pt.len() && #[trigger] pt[v].is_some() ==> pt[v].unwrap().ppn < n_frames
}

/// Whether the frames that `pt` maps are pairwise distinct and none of
/// them is in `free`.
pub open spec fn owns_frames(pt: Seq<Option<PageTableEntry>>, free: Set<usize>) -> bool {
    &&& forall|v: int| 0 <= v < pt.len() && #[trigger] pt[v].is_some() ==> !free.contains(pt[v].unwrap().ppn)
    &&& forall|v1: int, v2: int|
        0 <= v1 < pt.len() && 0 <= v2 < pt.len() && v1 != v2 && #[trigger] pt[v1].is_some()
            && #[trigger] pt[v2].is_some() ==> pt[v1].unwrap().ppn != pt[v2].unwrap().ppn
}

/// The frames that `pt` maps to the pages of `[lo, hi)`.
pub open spec fn range_frames(pt: Seq<Option<PageTableEntry>>, lo: int, hi: int) -> Set<usize> {
    Set::new(|f: usize| exists|u: int| lo <= u < hi && #[trigger] pt[u].is_some() && pt[u].unwrap().ppn == f)
}

impl MemorySet {
    /// An address space of `n_pages` virtual pages, none of them mapped.
    pub fn new(n_pages: usize) -> (r: Self)
        ensures
            r@.len() == n_pages,
            range_free(r@, 0, n_pages as int),
    {
        let mut entries: Vec<Option<PageTableEntry>> = Vec::new();
        let mut i: usize = 0;
        while i < n_pages
            invariant
                i <= n_pages,
                entries@.len() == i,
                range_free(entries@, 0, i as int),
            decreases n_pages - i,
        {
            entries.push(None);
            i = i + 1;
        }
        MemorySet { entries }
    }

    /// Number of virtual pages of this address space.
    pub fn n_pages(&self) -> (r: usize)
        ensures
            r == self@.len(),
    {
        self.entries.len()
    }

    /// The entry of the page that holds `va`, where that page is mapped.
    pub fn translate(&self, va: usize) -> (r: Option<PageTableEntry>)
        ensures
            r == (if vpn_of(va as int) < self@.len() {
                self@[vpn_of(va as int)]
            } else {
                None
            }),
    {
        let vpn = va / PAGE_SIZE;
        if vpn < self.entries.len() {
            self.entries[vpn]
        } else {
            None
        }
    }

    /// Maps every page of `[start, end)` with permission `port`, each on a
    /// fresh frame of `frames`. All or nothing: where a page is already
    /// mapped, the bounds are not page aligned, the permission is not a
    /// combination of read, write and execute, or frames run short, nothing
    /// changes and the result is `false`.
    pub fn map(&mut self, frames: &mut FrameAllocator, start: usize, end: usize, port: usize) -> (r: bool)
        requires
            old(frames).wf(),
            frames_below(old(self)@, old(frames).total()),
            owns_frames(old(self)@, old(frames).free()),
        ensures
            owns_frames(final(self)@, final(frames).free()),
            r ==> final(frames).free() == old(frames).free().difference(
                range_frames(final(self)@, vpn_of(start as int), vpn_of(end as int)),
            ),
            r ==> range_frames(final(self)@, vpn_of(start as int), vpn_of(end as int)).subset_of(old(frames).free()),
            r == map_ok(old(self)@, old(frames).available(), start as int, end as int, port as int),
            r ==> mapped_after(old(self)@, final(self)@, vpn_of(start as int), vpn_of(end as int), port as int),
            r ==> final(frames).available() == old(frames).available() - (vpn_of(end as int) - vpn_of(start as int)),
            !r ==> final(self)@ == old(self)@ && *final(frames) == *old(frames),
            final(frames).wf(),
            final(frames).total() == old(frames).total(),
            frames_below(final(self)@, final(frames).total()),
    {
        if start % PAGE_SIZE != 0 || end % PAGE_SIZE != 0 || start > end || port < 1 || port > 7 {
            return false;
        }
        let lo = start / PAGE_SIZE;
        let hi = end / PAGE_SIZE;
        if lo == hi {
            proof {
                assert(start == end);
                assert(range_frames(self@, lo as int, hi as int) =~= Set::<usize>::empty());
                assert(frames.free().difference(Set::<usize>::empty()) =~= frames.free());
            }
            return true;
        }
        if hi > self.entries.len() {
            return false;
        }
        let mut v: usize = lo;
        while v < hi
            invariant
                lo <= v <= hi,
                hi <= self.entries@.len(),
                self.entries@ == old(self)@,
                *frames == *old(frames),
                old(frames).wf(),
                frames_below(old(self)@, old(frames).total()),
                owns_frames(old(self)@, old(frames).free()),
                lo == vpn_of(start as int),
                hi == vpn_of(end as int),
                range_free(self.entries@, lo as int, v as int),
            decreases hi - v,
        {
            if self.entries[v].is_some() {
                return false;
            }
            v = v + 1;
        }
        if !frames.can_alloc(hi - lo) {
            return false;
        }
        let flags: u8 = PTE_V + PTE_U + 2 * (port as u8);
        let ghost old_pt = self.entries@;
        let ghost free0 = frames.available();
        let ghost free_set0 = frames.free();
        let mut v: usize = lo;
        while v < hi
            invariant
                lo <= v <= hi,
                hi <= old_pt.len(),
                old_pt == old(self)@,
                lo == vpn_of(start as int),
                hi == vpn_of(end as int),
                self.entries@.len() == old_pt.len(),
                frames.wf(),
                frames.total() == old(frames).total(),
                frames.available() == free0 - (v - lo),
                free0 >= hi - lo,
                flags == flags_of(port as int),
                frames_below(self.entries@, frames.total()),
                owns_frames(old_pt, free_set0),
                owns_frames(self.entries@, frames.free()),
                frames.free() == free_set0.difference(range_frames(self.entries@, lo as int, v as int)),
                range_frames(self.entries@, lo as int, v as int).subset_of(free_set0),
                range_free(old_pt, lo as int, hi as int),
                forall|u: int|
                    #![trigger self.entries@[u]]
                    0 <= u < self.entries@.len() ==> if lo <= u < v {
                        self.entries@[u].is_some() && self.entries@[u].unwrap().flags == flags
                    } else {
                        self.entries@[u] == old_pt[u]
                    },
            decreases hi - v,
        {
            let f = frames.alloc_frame();
            assert(f.is_some());
            match f {
                Some(ppn) => {
                    let ghost before = self.entries@;
                    self.entries[v] = Some(PageTableEntry { ppn, flags });
                    proof {
                        let pt = self.entries@;
                        assert(before[v as int].is_none());
                        assert(range_frames(pt, lo as int, v + 1) =~= range_frames(before, lo as int, v as int).insert(ppn)) by {
                            assert(pt[v as int].is_some() && pt[v as int].unwrap().ppn == ppn);
                            assert forall|g: usize| #[trigger] range_frames(pt, lo as int, v + 1).contains(g) && g != ppn
                                implies range_frames(before, lo as int, v as int).contains(g) by {
                                let u = choose|u: int| lo <= u < v + 1 && #[trigger] pt[u].is_some() && pt[u].unwrap().ppn == g;
                                assert(before[u].is_some());
                            }
                            assert forall|g: usize| #[trigger] range_frames(before, lo as int, v as int).contains(g)
                                implies range_frames(pt, lo as int, v + 1).contains(g) by {
                                let u = choose|u: int| lo <= u < v && #[trigger] before[u].is_some() && before[u].unwrap().ppn == g;
                                assert(pt[u].is_some());
                            }
                        }
                        assert(frames.free() =~= free_set0.difference(range_frames(pt, lo as int, v + 1)));
                        assert forall|u: int| 0 <= u < pt.len() && #[trigger] pt[u].is_some() implies !frames.free().contains(pt[u].unwrap().ppn) by {
                            if u != v {
                                assert(before[u].is_some());
                            }
                        }
                        assert forall|v1: int, v2: int|
                            0 <= v1 < pt.len() && 0 <= v2 < pt.len() && v1 != v2 && #[trigger] pt[v1].is_some()
                                && #[trigger] pt[v2].is_some() implies pt[v1].unwrap().ppn != pt[v2].unwrap().ppn by {
                            if v1 == v {
                                assert(before[v2].is_some());
                            } else if v2 == v {
                                assert(before[v1].is_some());
                            } else {
                                assert(before[v1].is_some() && before[v2].is_some());
                            }
                        }
                    }
                },
                None => {},
            }
            v = v + 1;
        }
        true
    }

    /// Unmaps every page of `[start, end)` and returns its frame to
    /// `frames`. All or nothing: where a page of the range is not mapped or
    /// the bounds are not page aligned, nothing changes and the result is
    /// `false`.
    pub fn unmap(&mut self, frames: &mut FrameAllocator, start: usize, end: usize) -> (r: bool)
        requires
            old(frames).wf(),
            frames_below(old(self)@, old(frames).total()),
            owns_frames(old(self)@, old(frames).free()),
        ensures
            owns_frames(final(self)@, final(frames).free()),
            r ==> final(frames).free() == old(frames).free().union(
                range_frames(old(self)@, vpn_of(start as int), vpn_of(end as int)),
            ),
            r == unmap_ok(old(self)@, start as int, end as int),
            r ==> unmapped_after(old(self)@, final(self)@, vpn_of(start as int), vpn_of(end as int)),
            r ==> final(frames).available() == old(frames).available() + (vpn_of(end as int) - vpn_of(start as int)),
            !r ==> final(self)@ == old(self)@ && *final(frames) == *old(frames),
            final(frames).wf(),
            final(frames).total() == old(frames).total(),
            frames_below(final(self)@, final(frames).total()),
    {
        if start % PAGE_SIZE != 0 || end % PAGE_SIZE != 0 || start > end {
            return false;
        }
        let lo = start / PAGE_SIZE;
        let hi = end / PAGE_SIZE;
        if lo == hi {
            proof {
                assert(start == end);
                assert(range_frames(self@, lo as int, hi as int) =~= Set::<usize>::empty());
                assert(frames.free().union(Set::<usize>::empty()) =~= frames.free());
            }
            return true;
        }
        if hi > self.entries.len() {
            return false;
        }
        let mut v: usize = lo;
        while v < hi
            invariant
                lo <= v <= hi,
                hi <= self.entries@.len(),
                self.entries@ == old(self)@,
                *frames == *old(frames),
                old(frames).wf(),
                frames_below(old(self)@, old(frames).total()),
                owns_frames(old(self)@, old(frames).free()),
                lo == vpn_of(start as int),
                hi == vpn_of(end as int),
                range_mapped(self.entries@, lo as int, v as int),
            decreases hi - v,
        {
            if self.entries[v].is_none() {
                return false;
            }
            v = v + 1;
        }
        let ghost old_pt = self.entries@;
        let ghost free0 = frames.available();
        let ghost free_set0 = frames.free();
        let mut v: usize = lo;
        while v < hi
            invariant
                lo <= v <= hi,
                hi <= old_pt.len(),
                old_pt == old(self)@,
                lo == vpn_of(start as int),
                hi == vpn_of(end as int),
                self.entries@.len() == old_pt.len(),
                range_mapped(old_pt, lo as int, hi as int),
                frames.wf(),
                frames.total() == old(frames).total(),
                frames.available() == free0 + (v - lo),
                frames_below(self.entries@, frames.total()),
                owns_frames(old_pt, free_set0),
                owns_frames(self.entries@, frames.free()),
                frames.free() == free_set0.union(range_frames(old_pt, lo as int, v as int)),
                forall|u: int|
                    #![trigger self.entries@[u]]
                    0 <= u < self.entries@.len() ==> if lo <= u < v {
                        self.entries@[u].is_none()
                    } else {
                        self.entries@[u] == old_pt[u]
                    },
            decreases hi - v,
        {
            let e = self.entries[v];
            assert(e.is_some());
            let ghost before = self.entries@;
            proof {
                assert(old_pt[v as int].is_some());
                assert forall|u: int| lo <= u < v && #[trigger] old_pt[u].is_some() implies old_pt[u].unwrap().ppn != old_pt[v as int].unwrap().ppn by {}
                assert(!range_frames(old_pt, lo as int, v as int).contains(old_pt[v as int].unwrap().ppn));
            }
            match e {
                Some(pte) => {
                    frames.dealloc_frame(pte.ppn);
                },
                None => {},
            }
            self.entries[v] = None;
            proof {
                let f = old_pt[v as int].unwrap().ppn;
                let pt = self.entries@;
                assert(range_frames(old_pt, lo as int, v + 1) =~= range_frames(old_pt, lo as int, v as int).insert(f)) by {
                    assert forall|g: usize| #[trigger] range_frames(old_pt, lo as int, v + 1).contains(g) && g != f
                        implies range_frames(old_pt, lo as int, v as int).contains(g) by {
                        let u = choose|u: int| lo <= u < v + 1 && #[trigger] old_pt[u].is_some() && old_pt[u].unwrap().ppn == g;
                    }
                }
                assert(frames.free() =~= free_set0.union(range_frames(old_pt, lo as int, v + 1)));
                assert forall|u: int| 0 <= u < pt.len() && #[trigger] pt[u].is_some() implies !frames.free().contains(pt[u].unwrap().ppn) by {
                    assert(before[u].is_some());
                    assert(old_pt[u] == pt[u]);
                    if range_frames(old_pt, lo as int, v + 1).contains(pt[u].unwrap().ppn) {
                        let w = choose|w: int| lo <= w < v + 1 && #[trigger] old_pt[w].is_some() && old_pt[w].unwrap().ppn == pt[u].unwrap().ppn;
                    }
                }
                assert forall|v1: int, v2: int|
                    0 <= v1 < pt.len() && 0 <= v2 < pt.len() && v1 != v2 && #[trigger] pt[v1].is_some()
                        && #[trigger] pt[v2].is_some() implies pt[v1].unwrap().ppn != pt[v2].unwrap().ppn by {
                    assert(before[v1].is_some() && before[v2].is_some());
                }
            }
            v = v + 1;
        }
        true
    }
}

} // verus!
