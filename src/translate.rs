//! Moving bytes between the kernel and a task's address space.
use vstd::prelude::*;

use crate::config::PAGE_SIZE;
use crate::mm::{vpn_of, MemorySet, PageTableEntry};

verus! {

/// Whether virtual address `va` is mapped in `pt` to a frame that lies in
/// a physical memory of `mem_len` bytes.
pub open spec fn translatable(pt: Seq<Option<PageTableEntry>>, mem_len: nat, va: int) -> bool {
    &&& 0 <= vpn_of(va) < pt.len()
    &&& pt[vpn_of(va)].is_some()
    &&& pt[vpn_of(va)].unwrap().ppn < mem_len / (PAGE_SIZE as nat)
}

/// The physical address of virtual address `va` under `pt`.
pub open spec fn phys_of(pt: Seq<Option<PageTableEntry>>, va: int) -> int {
    pt[vpn_of(va)].unwrap().ppn * (PAGE_SIZE as int) + va % (PAGE_SIZE as int)
}

/// Whether every byte of `[va, va + len)` is translatable.
pub open spec fn range_translatable(pt: Seq<Option<PageTableEntry>>, mem_len: nat, va: int, len: int) -> bool {
    &&& va + len <= usize::MAX
    &&& forall|i: int| 0 <= i < len ==> #[trigger] translatable(pt, mem_len, va + i)
}

/// Physical memory `mem` after the bytes of `data` were stored, one after
/// the other, at the physical addresses of `va`, `va + 1`, ...
pub open spec fn write_spec(mem: Seq<u8>, pt: Seq<Option<PageTableEntry>>, va: int, data: Seq<u8>) -> Seq<u8>
    decreases data.len(),
{
    if data.len() == 0 {
        mem
    } else {
        write_spec(mem, pt, va, data.drop_last()).update(
            phys_of(pt, va + data.len() - 1),
            data.last(),
        )
    }
}

/// The `len` bytes that the task sees at `[va, va + len)`.
pub open spec fn read_spec(mem: Seq<u8>, pt: Seq<Option<PageTableEntry>>, va: int, len: nat) -> Seq<u8> {
    Seq::new(len, |i: int| mem[phys_of(pt, va + i)])
}

pub(crate) proof fn lemma_phys_in_memory(ppn: int, off: int, mem_len: int)
    requires
        0 <= ppn < mem_len / (PAGE_SIZE as int),
        0 <= off < PAGE_SIZE,
        0 <= mem_len,
    ensures
        ppn * (PAGE_SIZE as int) + off < mem_len,
{
    assert(ppn * 4096 + off < mem_len) by (nonlinear_arith)
        requires
            0 <= ppn < mem_len / 4096,
            0 <= off < 4096,
            0 <= mem_len,
    ;
}

/// Total length of a run of spans.
pub open spec fn span_total(spans: Seq<(usize, usize)>) -> int
    decreases spans.len(),
{
    if spans.len() == 0 {
        0
    } else {
        span_total(spans.drop_last()) + spans.last().1
    }
}

/// Whether `spans` cover `[va, va + len)` under `pt` in ascending order,
/// each a non-empty physical run inside one page: span `k` starts at the
/// physical address of the byte that follows the spans before it.
pub open spec fn spans_cover(pt: Seq<Option<PageTableEntry>>, va: int, len: int, spans: Seq<(usize, usize)>) -> bool {
    &&& span_total(spans) == len
    &&& forall|k: int|
        0 <= k < spans.len() ==> {
            let off = span_total(spans.take(k));
            &&& (#[trigger] spans[k]).1 > 0
            &&& (va + off) % (PAGE_SIZE as int) + spans[k].1 <= PAGE_SIZE
            &&& spans[k].0 == phys_of(pt, va + off)
        }
}

proof fn lemma_span_prefix(spans: Seq<(usize, usize)>, k: int)
    requires
        0 <= k <= spans.len(),
    ensures
        span_total(spans.take(k)) <= span_total(spans),
    decreases spans.len(),
{
    if k < spans.len() {
        assert(spans.drop_last().take(k) =~= spans.take(k));
        lemma_span_prefix(spans.drop_last(), k);
    } else {
        assert(spans.take(k) =~= spans);
    }
}

proof fn lemma_same_page(pt: Seq<Option<PageTableEntry>>, x: int, j: int)
    requires
        0 <= x,
        0 <= j,
        x % (PAGE_SIZE as int) + j < PAGE_SIZE,
    ensures
        vpn_of(x + j) == vpn_of(x),
        phys_of(pt, x + j) == phys_of(pt, x) + j,
{
    let q = x / 4096;
    let r = x % 4096;
    vstd::arithmetic::div_mod::lemma_fundamental_div_mod(x, 4096);
    vstd::arithmetic::div_mod::lemma_fundamental_div_mod_converse(x + j, 4096, q, r + j);
}

/// The physical address of `va` in `ms`, where it is translatable into a
/// memory of `mem_len` bytes.
pub fn phys_addr(ms: &MemorySet, mem_len: usize, va: usize) -> (r: Option<usize>)
    ensures
        r.is_some() == translatable(ms@, mem_len as nat, va as int),
        r.is_some() ==> r.unwrap() == phys_of(ms@, va as int) && r.unwrap() < mem_len,
{
    match ms.translate(va) {
        Some(pte) => {
            if pte.ppn < mem_len / PAGE_SIZE {
                proof {
                    lemma_phys_in_memory(pte.ppn as int, va as int % 4096, mem_len as int);
                }
                Some(pte.ppn * PAGE_SIZE + va % PAGE_SIZE)
            } else {
                None
            }
        },
        None => None,
    }
}

/// Whether all of `[va, va + len)` is translatable.
pub fn check_range(ms: &MemorySet, mem_len: usize, va: usize, len: usize) -> (r: bool)
    ensures
        r == range_translatable(ms@, mem_len as nat, va as int, len as int),
{
    if len > usize::MAX - va {
        return false;
    }
    let mut i: usize = 0;
    while i < len
        invariant
            i <= len,
            va + len <= usize::MAX,
            forall|k: int| 0 <= k < i ==> #[trigger] translatable(ms@, mem_len as nat, va + k),
        decreases len - i,
    {
        if phys_addr(ms, mem_len, va + i).is_none() {
            return false;
        }
        i = i + 1;
    }
    true
}

/// The physical runs that hold `[va, va + len)` of the task, split at each
/// page boundary, or `None` where a byte of the range is not mapped.
pub fn byte_spans(ms: &MemorySet, mem_len: usize, va: usize, len: usize) -> (r: Option<Vec<(usize, usize)>>)
    ensures
        r.is_some() == range_translatable(ms@, mem_len as nat, va as int, len as int),
        r.is_some() ==> spans_cover(ms@, va as int, len as int, r.unwrap()@),
        r.is_some() ==> forall|k: int| 0 <= k < r.unwrap()@.len() ==> (#[trigger] r.unwrap()@[k]).0 + r.unwrap()@[k].1 <= mem_len,
{
    if !check_range(ms, mem_len, va, len) {
        return None;
    }
    let mut spans: Vec<(usize, usize)> = Vec::new();
    let mut done: usize = 0;
    while done < len
        invariant
            done <= len,
            va + len <= usize::MAX,
            range_translatable(ms@, mem_len as nat, va as int, len as int),
            span_total(spans@) == done,
            forall|k: int|
                0 <= k < spans@.len() ==> {
                    let off = span_total(spans@.take(k));
                    &&& (#[trigger] spans@[k]).1 > 0
                    &&& (va + off) % (PAGE_SIZE as int) + spans@[k].1 <= PAGE_SIZE
                    &&& spans@[k].0 == phys_of(ms@, va + off)
                    &&& spans@[k].0 + spans@[k].1 <= mem_len
                },
        decreases len - done,
    {
        let cur = va + done;
        let room = PAGE_SIZE - cur % PAGE_SIZE;
        let step = if room < len - done {
            room
        } else {
            len - done
        };
        assert(translatable(ms@, mem_len as nat, va + done));
        let p = phys_addr(ms, mem_len, cur);
        match p {
            Some(a) => {
                proof {
                    let pte = ms@[vpn_of(cur as int)].unwrap();
                    lemma_phys_in_memory(pte.ppn as int, cur as int % 4096, mem_len as int);
                    lemma_same_page(ms@, cur as int, step - 1);
                    assert(translatable(ms@, mem_len as nat, va + done + step - 1));
                    lemma_phys_in_memory(pte.ppn as int, (cur + step - 1) as int % 4096, mem_len as int);
                }
                let ghost old_spans = spans@;
                spans.push((a, step));
                proof {
                    assert(spans@.drop_last() =~= old_spans);
                    assert forall|k: int| 0 <= k < old_spans.len() implies #[trigger] spans@.take(k) =~= old_spans.take(k) by {}
                    assert(spans@.take(old_spans.len() as int) =~= old_spans);
                }
            },
            None => {},
        }
        done = done + step;
    }
    Some(spans)
}

/// Stores `data[off .. off + l]` at the physical run that starts at `p`,
/// which holds `[va + off, va + off + l)`, continuing the writes of
/// `data[.. off]` over `m0`.
fn copy_span(
    ms: &MemorySet,
    mem: &mut Vec<u8>,
    va: usize,
    data: &Vec<u8>,
    off: usize,
    p: usize,
    l: usize,
    Ghost(m0): Ghost<Seq<u8>>,
)
    requires
        off + l <= data@.len(),
        va + data@.len() <= usize::MAX,
        p + l <= old(mem)@.len(),
        (va + off) % (PAGE_SIZE as int) + l <= PAGE_SIZE,
        p == phys_of(ms@, va + off),
        old(mem)@ == write_spec(m0, ms@, va as int, data@.take(off as int)),
    ensures
        final(mem)@.len() == old(mem)@.len(),
        final(mem)@ == write_spec(m0, ms@, va as int, data@.take(off + l)),
{
    let mut j: usize = 0;
    while j < l
        invariant
            j <= l,
            off + l <= data@.len(),
            va + data@.len() <= usize::MAX,
            mem@.len() == old(mem)@.len(),
            p + l <= mem@.len(),
            (va + off) % (PAGE_SIZE as int) + l <= PAGE_SIZE,
            p == phys_of(ms@, va + off),
            mem@ == write_spec(m0, ms@, va as int, data@.take(off + j)),
        decreases l - j,
    {
        proof {
            lemma_same_page(ms@, va + off, j as int);
            let t = data@.take(off + j + 1);
            assert(t.drop_last() =~= data@.take(off + j));
        }
        mem.set(p + j, data[off + j]);
        j = j + 1;
    }
}

/// Copies `data` into the task's memory at `va`. Where a byte of the
/// range is not mapped, nothing is written and the result is `false`.
pub fn write_user(ms: &MemorySet, mem: &mut Vec<u8>, va: usize, data: &Vec<u8>) -> (r: bool)
    ensures
        r == range_translatable(ms@, old(mem)@.len(), va as int, data@.len() as int),
        r ==> final(mem)@ == write_spec(old(mem)@, ms@, va as int, data@),
        !r ==> final(mem)@ == old(mem)@,
        final(mem)@.len() == old(mem)@.len(),
{
    let len = data.len();
    let spans = match byte_spans(ms, mem.len(), va, len) {
        Some(sp) => sp,
        None => {
            return false;
        },
    };
    let ghost pt = ms@;
    let mut off: usize = 0;
    let mut k: usize = 0;
    while k < spans.len()
        invariant
            k <= spans@.len(),
            len == data@.len(),
            va + len <= usize::MAX,
            mem@.len() == old(mem)@.len(),
            pt == ms@,
            spans_cover(pt, va as int, len as int, spans@),
            forall|i: int| 0 <= i < spans@.len() ==> (#[trigger] spans@[i]).0 + spans@[i].1 <= mem@.len(),
            off == span_total(spans@.take(k as int)),
            off <= len,
            mem@ == write_spec(old(mem)@, pt, va as int, data@.take(off as int)),
        decreases spans@.len() - k,
    {
        let (p, l) = spans[k];
        proof {
            assert(spans@.take(k + 1).drop_last() =~= spans@.take(k as int));
            lemma_span_prefix(spans@, k + 1);
        }
        copy_span(ms, mem, va, data, off, p, l, Ghost(old(mem)@));
        off = off + l;
        k = k + 1;
    }
    assert(spans@.take(spans@.len() as int) =~= spans@);
    assert(data@.take(len as int) =~= data@);
    true
}

/// Reads `len` bytes of the task's memory at `va`, or `None` where a byte
/// of the range is not mapped.
pub fn read_user(ms: &MemorySet, mem: &Vec<u8>, va: usize, len: usize) -> (r: Option<Vec<u8>>)
    ensures
        r.is_some() == range_translatable(ms@, mem@.len(), va as int, len as int),
        r.is_some() ==> r.unwrap()@ == read_spec(mem@, ms@, va as int, len as nat),
{
    if !check_range(ms, mem.len(), va, len) {
        return None;
    }
    let mut out: Vec<u8> = Vec::new();
    let mut i: usize = 0;
    while i < len
        invariant
            i <= len,
            va + len <= usize::MAX,
            range_translatable(ms@, mem@.len(), va as int, len as int),
            out@ == read_spec(mem@, ms@, va as int, len as nat).take(i as int),
        decreases len - i,
    {
        assert(translatable(ms@, mem@.len(), va + i));
        match phys_addr(ms, mem.len(), va + i) {
            Some(a) => {
                out.push(mem[a]);
            },
            None => {},
        }
        assert(out@ =~= read_spec(mem@, ms@, va as int, len as nat).take(i + 1));
        i = i + 1;
    }
    assert(out@ =~= read_spec(mem@, ms@, va as int, len as nat));
    Some(out)
}

} // verus!
