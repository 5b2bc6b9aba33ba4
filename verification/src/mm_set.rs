//! The address space of a process: its areas in address order, the shared
//! memory segments attached to it, and the operations of the `mmap` family
//! over them.
use vstd::prelude::*;
use crate::mm_area::{
    PAGE_SIZE_4K, aligned, is_aligned_4k, MemBackend, PtOp, MapArea, AreaView, FaultDecision,
    SyncRequest, align_down_spec, align_down_4k, clone_of,
};
use std::collections::BTreeMap;

verus! {

broadcast use vstd::std_specs::btree::group_btree_axioms;

/// Lowest address that address-space searches hand out.
pub const USER_MEMORY_START: usize = 0x1000;

/// The flags of a region made by moving a mapping: user, read, write (the
/// bits of the page-table crate's mapping flags).
pub const REMAP_FLAGS: usize = 0b1011;

/// Errors of address-space operations.
#[derive(Debug, Clone, Copy, PartialEq, Eq, Structural)]
pub enum MemError {
    /// No free range is large enough.
    NoMemory,
    /// The address lies in no area, or the area refuses the access.
    BadAddress,
    /// The request is malformed.
    InvalidInput,
}

/// What the page table holds for an address.
#[derive(Debug, Clone, Copy, PartialEq, Eq, Structural)]
pub enum EntryCheck {
    /// A present entry maps it.
    Present,
    /// Its entry exists but is not present.
    NotMapped,
    /// The table has no entry for it (the walk found no table).
    NoMemory,
}

/// Classifies the page-table entry of an address, given whether the walk
/// found an entry and whether that entry is present.
pub fn check_entry(found: bool, present: bool) -> (c: EntryCheck)
    ensures
        c == if !found {
            EntryCheck::NoMemory
        } else if !present {
            EntryCheck::NotMapped
        } else {
            EntryCheck::Present
        },
{
    if !found {
        EntryCheck::NoMemory
    } else if !present {
        EntryCheck::NotMapped
    } else {
        EntryCheck::Present
    }
}

/// A shared memory segment attached to the address space.
#[derive(Debug, Clone, Copy, PartialEq, Eq, Structural)]
pub struct AttachedMem {
    pub addr: usize,
    pub flags: usize,
    pub shmid: i32,
    pub size: usize,
    pub paddr: usize,
}

/// Whether `s` is sorted by start address, no area begins inside an earlier
/// one, and every area is page aligned, well formed and not empty.
pub open spec fn areas_wf(s: Seq<AreaView>) -> bool {
    &&& forall|i: int| 0 <= i < s.len() ==> (#[trigger] s[i]).wf() && aligned(s[i].vaddr as int)
        && s[i].pages.len() > 0
    &&& forall|i: int, j: int| 0 <= i < j < s.len() ==> (#[trigger] s[i]).vaddr < (#[trigger] s[j]).vaddr
            && s[i].end() <= s[j].vaddr
}

/// The address range `[start, end)` of an area.
pub open spec fn seg_of_area(a: AreaView) -> (usize, usize) {
    (a.vaddr, a.end() as usize)
}

/// The address range `[start, end)` of an attached segment.
pub open spec fn seg_of_attached(m: AttachedMem) -> (usize, usize) {
    (m.addr, (m.addr + m.size) as usize)
}

/// Whether one of two ranges ends before the other starts.
pub open spec fn apart(x: (usize, usize), y: (usize, usize)) -> bool {
    x.1 <= y.0 || y.1 <= x.0
}

/// Whether area `a` keeps apart from every segment of `att`.
pub open spec fn apart_from_attached(a: AreaView, att: Seq<AttachedMem>) -> bool {
    forall|j: int| 0 <= j < att.len() ==> apart(seg_of_area(a), seg_of_attached(#[trigger] att[j]))
}

/// Whether the attached segments fit the address space, are page aligned
/// and keep apart from each other.
pub open spec fn attached_wf(att: Seq<AttachedMem>) -> bool {
    &&& forall|i: int| 0 <= i < att.len() ==> (#[trigger] att[i]).addr + att[i].size <= usize::MAX
        && aligned(att[i].addr as int) && aligned(att[i].size as int)
    &&& forall|i: int, j: int| 0 <= i < att.len() && 0 <= j < att.len() && i != j
        ==> apart(seg_of_attached(#[trigger] att[i]), seg_of_attached(#[trigger] att[j]))
}

/// A range inside an area that keeps apart from the segments keeps apart
/// from them too.
pub proof fn lemma_apart_inner(a: AreaView, x: AreaView, att: Seq<AttachedMem>)
    requires
        apart_from_attached(a, att),
        a.wf(),
        x.wf(),
        a.vaddr <= x.vaddr,
        x.end() <= a.end(),
    ensures
        apart_from_attached(x, att),
{
    assert forall|j: int| 0 <= j < att.len() implies apart(seg_of_area(x), seg_of_attached(#[trigger] att[j])) by {
        assert(apart(seg_of_area(a), seg_of_attached(att[j])));
    }
}

/// Whether some area of `s` holds address `q`.
pub open spec fn covers(s: Seq<AreaView>, q: int) -> bool {
    exists|i: int| 0 <= i < s.len() && (#[trigger] s[i]).vaddr <= q < s[i].end()
}

/// Number of pages a region of `size` bytes takes.
pub open spec fn pages_for(size: int) -> int {
    (size + PAGE_SIZE_4K - 1) / (PAGE_SIZE_4K as int)
}

/// Whether `a` can join the areas `s`: its start is no area's start, no
/// area that starts before it reaches into it, and it ends before every area
/// that starts after it.
pub open spec fn insertable(s: Seq<AreaView>, a: AreaView) -> bool {
    &&& a.wf()
    &&& a.pages.len() > 0
    &&& aligned(a.vaddr as int)
    &&& forall|i: int| 0 <= i < s.len() ==> (#[trigger] s[i]).vaddr != a.vaddr
    &&& forall|i: int| 0 <= i < s.len() && (#[trigger] s[i]).vaddr < a.vaddr ==> s[i].end() <= a.vaddr
    &&& forall|i: int| 0 <= i < s.len() && (#[trigger] s[i]).vaddr > a.vaddr ==> a.end() <= s[i].vaddr
}

/// Whether the areas before position `k` start before `v` and the others
/// after it.
pub open spec fn splits_at(s: Seq<AreaView>, v: usize, k: int) -> bool {
    &&& 0 <= k <= s.len()
    &&& forall|i: int| 0 <= i < k ==> (#[trigger] s[i]).vaddr < v
    &&& forall|i: int| k <= i < s.len() ==> (#[trigger] s[i]).vaddr > v
}

/// The position that keeps `s` sorted when an area starting at `v` joins.
pub open spec fn insert_index(s: Seq<AreaView>, v: usize) -> int {
    choose|k: int| #[trigger] splits_at(s, v, k)
}

/// The area that `new_region` makes: lazily loaded pages, or the frames
/// from `frame` on when data was supplied.
pub open spec fn region_area(vaddr: usize, size: usize, shared: bool, flags: usize, frame: Option<usize>, backend: Option<MemBackend>) -> AreaView {
    let n = pages_for(size as int);
    AreaView {
        pages: match frame {
            Some(f) => Seq::new(n as nat, |i: int| Some((f + i * PAGE_SIZE_4K) as usize)),
            None => Seq::new(n as nat, |i: int| None::<usize>),
        },
        vaddr,
        shared,
        flags,
        backend,
    }
}

/// The page-table edit that `new_region` asks for.
pub open spec fn region_op(vaddr: usize, size: usize, flags: usize, frame: Option<usize>) -> PtOp {
    let bytes = (pages_for(size as int) * PAGE_SIZE_4K) as usize;
    match frame {
        Some(f) => PtOp::MapRegion { start: vaddr, paddr: f, size: bytes, flags },
        None => PtOp::MapFaultRegion { start: vaddr, size: bytes, flags },
    }
}


/// What remains of area `a` once `[start, end)` is unmapped.
pub open spec fn split_pieces(a: AreaView, start: int, end: int) -> Seq<AreaView> {
    if !a.overlaps(start, end) {
        seq![a]
    } else if a.inside(start, end) {
        Seq::empty()
    } else if a.strictly_holds(start, end) {
        seq![a.head_to(start), a.tail_from(end)]
    } else if start <= a.vaddr && a.vaddr < end {
        seq![a.front_cut(end)]
    } else {
        seq![a.back_cut(start)]
    }
}

/// The page-table edits that unmapping `[start, end)` makes for area `a`.
pub open spec fn split_op(a: AreaView, start: int, end: int) -> Seq<PtOp> {
    if !a.overlaps(start, end) {
        Seq::empty()
    } else if a.inside(start, end) {
        seq![PtOp::Unmap { start: a.vaddr, size: a.size() as usize }]
    } else if a.strictly_holds(start, end) {
        seq![PtOp::Unmap { start: start as usize, size: (end - start) as usize }]
    } else if start <= a.vaddr && a.vaddr < end {
        seq![PtOp::Unmap { start: a.vaddr, size: (end - a.vaddr) as usize }]
    } else {
        seq![PtOp::Unmap { start: start as usize, size: (a.end() - start) as usize }]
    }
}

/// The areas that remain of `s` once `[start, end)` is unmapped, in order.
pub open spec fn split_all(s: Seq<AreaView>, start: int, end: int) -> Seq<AreaView>
    decreases s.len(),
{
    if s.len() == 0 {
        Seq::empty()
    } else {
        split_all(s.drop_last(), start, end) + split_pieces(s.last(), start, end)
    }
}

/// The page-table edits of unmapping `[start, end)` from `s`, in order.
pub open spec fn split_ops(s: Seq<AreaView>, start: int, end: int) -> Seq<PtOp>
    decreases s.len(),
{
    if s.len() == 0 {
        Seq::empty()
    } else {
        split_ops(s.drop_last(), start, end) + split_op(s.last(), start, end)
    }
}

/// Area `a` with mapping flags `flags`.
pub open spec fn with_flags(a: AreaView, flags: usize) -> AreaView {
    AreaView { flags, ..a }
}

/// The areas that area `a` turns into when `[start, end)` gets flags
/// `flags`: the parts inside the range take the new flags, the others keep
/// theirs.
pub open spec fn protect_pieces(a: AreaView, start: int, end: int, flags: usize) -> Seq<AreaView> {
    if !a.overlaps(start, end) {
        seq![a]
    } else if a.inside(start, end) {
        seq![with_flags(a, flags)]
    } else if a.strictly_holds(start, end) {
        let l = a.left_of(end);
        seq![l.left_of(start), with_flags(l.right_of(start), flags), a.right_of(end)]
    } else if start <= a.vaddr && a.vaddr < end {
        seq![with_flags(a.left_of(end), flags), a.right_of(end)]
    } else {
        seq![a.left_of(start), with_flags(a.right_of(start), flags)]
    }
}

/// The part of area `a` that gets the new flags when `[start, end)` does.
pub open spec fn protect_target(a: AreaView, start: int, end: int) -> AreaView {
    if a.inside(start, end) {
        a
    } else if a.strictly_holds(start, end) {
        a.left_of(end).right_of(start)
    } else if start <= a.vaddr && a.vaddr < end {
        a.left_of(end)
    } else {
        a.right_of(start)
    }
}

/// The page-table edits for area `a` when `[start, end)` gets flags
/// `flags`.
pub open spec fn protect_op(a: AreaView, start: int, end: int, flags: usize) -> Seq<PtOp> {
    if !a.overlaps(start, end) {
        Seq::empty()
    } else {
        let t = protect_target(a, start, end);
        seq![PtOp::Update { start: t.vaddr, size: t.size() as usize, flags }]
    }
}

/// The areas of `s` once `[start, end)` gets flags `flags`, in order.
pub open spec fn protect_all(s: Seq<AreaView>, start: int, end: int, flags: usize) -> Seq<AreaView>
    decreases s.len(),
{
    if s.len() == 0 {
        Seq::empty()
    } else {
        protect_all(s.drop_last(), start, end, flags) + protect_pieces(s.last(), start, end, flags)
    }
}

/// The page-table edits of giving `[start, end)` flags `flags` in `s`, in
/// order.
pub open spec fn protect_ops(s: Seq<AreaView>, start: int, end: int, flags: usize) -> Seq<PtOp>
    decreases s.len(),
{
    if s.len() == 0 {
        Seq::empty()
    } else {
        protect_ops(s.drop_last(), start, end, flags) + protect_op(s.last(), start, end, flags)
    }
}

/// Whether some area of `s` holds `q` with flags `flags`.
pub open spec fn holds_with(s: Seq<AreaView>, q: int, flags: usize) -> bool {
    exists|i: int| 0 <= i < s.len() && (#[trigger] s[i]).vaddr <= q < s[i].end() && s[i].flags == flags
}

/// Whether unmapping `[start, end)` cuts area `a` at `start`.
pub open spec fn cuts_at_start(a: AreaView, start: int, end: int) -> bool {
    &&& a.overlaps(start, end)
    &&& !a.inside(start, end)
    &&& (a.strictly_holds(start, end) || !(start <= a.vaddr && a.vaddr < end))
}

/// Whether unmapping `[start, end)` from `s` can proceed: `end` is page
/// aligned, and so is `start` when some area is cut there.
pub open spec fn split_ok(s: Seq<AreaView>, start: int, end: int) -> bool {
    &&& aligned(end)
    &&& forall|i: int| 0 <= i < s.len() && #[trigger] cuts_at_start(s[i], start, end) ==> aligned(start)
}

/// A multiple of the page size is that many pages.
pub proof fn lemma_page_multiple(d: int)
    requires
        d >= 0,
        aligned(d),
    ensures
        (d / (PAGE_SIZE_4K as int)) * (PAGE_SIZE_4K as int) == d,
{
}

/// The difference of two aligned addresses is aligned.
pub proof fn lemma_aligned_sub(x: int, y: int)
    requires
        aligned(x),
        aligned(y),
    ensures
        aligned(y - x),
{
    assert((y - x) % 4096 == 0) by (nonlinear_arith)
        requires
            x % 4096 == 0,
            y % 4096 == 0,
    ;
}

/// Page counts of aligned ranges inside an area.
pub proof fn lemma_pages_between(v: int, addr: int, len: int)
    requires
        aligned(v),
        aligned(addr),
        v <= addr <= v + len * (PAGE_SIZE_4K as int),
        len >= 0,
    ensures
        0 <= (addr - v) / (PAGE_SIZE_4K as int) <= len,
        ((addr - v) / (PAGE_SIZE_4K as int)) * (PAGE_SIZE_4K as int) == addr - v,
        (v + len * (PAGE_SIZE_4K as int) - addr) / (PAGE_SIZE_4K as int) == len - (addr - v) / (PAGE_SIZE_4K as int),
{
    lemma_aligned_sub(v, addr);
    let k = (addr - v) / 4096;
    assert(k * 4096 == addr - v);
    assert(0 <= k <= len) by (nonlinear_arith)
        requires
            k * 4096 == addr - v,
            0 <= addr - v <= len * 4096,
    ;
    assert((v + len * 4096 - addr) == (len - k) * 4096) by (nonlinear_arith)
        requires
            k * 4096 == addr - v,
    ;
    assert((len - k) * 4096 / 4096 == len - k) by (nonlinear_arith);
}


/// What remains of an aligned area when an aligned range is unmapped lies
/// within the area, in order, and is well formed.
pub proof fn lemma_split_pieces(a: AreaView, start: int, end: int)
    requires
        a.wf(),
        a.pages.len() > 0,
        aligned(a.vaddr as int),
        aligned(end),
        cuts_at_start(a, start, end) ==> aligned(start),
        0 <= start < end <= usize::MAX,
    ensures
        ({
            let p = split_pieces(a, start, end);
            &&& forall|k: int| 0 <= k < p.len() ==> (#[trigger] p[k]).wf() && aligned(p[k].vaddr as int)
                && p[k].pages.len() > 0 && a.vaddr <= p[k].vaddr && p[k].end() <= a.end()
                && (p[k].vaddr < a.end() || p[k].vaddr == a.vaddr)
            &&& forall|i: int, j: int| 0 <= i < j < p.len() ==> (#[trigger] p[i]).vaddr < (#[trigger] p[j]).vaddr
                && p[i].end() <= p[j].vaddr
            &&& forall|k: int| 0 <= k < p.len() ==> (#[trigger] p[k]).end() <= start || end <= p[k].vaddr
            &&& forall|q: int| covers(p, q) <==> (a.vaddr <= q < a.end() && !(start <= q < end))
            &&& forall|k: int| 0 <= k < p.len() ==> (#[trigger] p[k]).flags == a.flags
        }),
        a.overlaps(start, end) && !a.inside(start, end) && a.strictly_holds(start, end) ==> {
            &&& (end - a.vaddr) / (PAGE_SIZE_4K as int) <= a.pages.len()
            &&& a.seek_ok(end - a.vaddr)
        },
        a.overlaps(start, end) && !a.inside(start, end) && !a.strictly_holds(start, end)
            && start <= a.vaddr && a.vaddr < end ==> {
            &&& (end - a.vaddr) / (PAGE_SIZE_4K as int) <= a.pages.len()
            &&& a.seek_ok(end - a.vaddr)
        },
        a.overlaps(start, end) && !a.inside(start, end) && !a.strictly_holds(start, end)
            && !(start <= a.vaddr && a.vaddr < end) ==> {
            &&& a.vaddr <= start <= a.end()
            &&& (a.end() - start) / (PAGE_SIZE_4K as int) <= a.pages.len()
        },
{
    let v = a.vaddr as int;
    let len = a.pages.len() as int;
    let p = split_pieces(a, start, end);
    if !a.overlaps(start, end) {
        assert(p[0] == a);
        assert forall|q: int| covers(p, q) <==> (a.vaddr <= q < a.end() && !(start <= q < end)) by {
            if a.vaddr <= q < a.end() {
                assert(p[0].vaddr <= q < p[0].end());
            }
        }
    } else if a.inside(start, end) {
        assert forall|q: int| covers(p, q) <==> (a.vaddr <= q < a.end() && !(start <= q < end)) by {}
    } else if a.strictly_holds(start, end) {
        lemma_pages_between(v, start, len);
        lemma_pages_between(v, end, len);
        let h = a.head_to(start);
        let t = a.tail_from(end);
        assert(h.end() == start);
        assert(t.pages.len() == len - (end - v) / 4096);
        assert(t.end() == end + (len - (end - v) / 4096) * 4096) ;
        assert(t.end() == a.end()) by (nonlinear_arith)
            requires
                t.end() == end + (len - (end - v) / 4096) * 4096,
                ((end - v) / 4096) * 4096 == end - v,
                a.end() == v + len * 4096,
        ;
        assert(h.pages.len() > 0 && t.pages.len() > 0) by (nonlinear_arith)
            requires
                ((start - v) / 4096) * 4096 == start - v,
                ((end - v) / 4096) * 4096 == end - v,
                v < start,
                end < v + len * 4096,
                h.pages.len() == (start - v) / 4096,
                t.pages.len() == len - (end - v) / 4096,
        ;
        assert(p[0] == h);
        assert(p[1] == t);
        assert forall|q: int| covers(p, q) <==> (a.vaddr <= q < a.end() && !(start <= q < end)) by {
            if a.vaddr <= q < a.end() && !(start <= q < end) {
                if q < start {
                    assert(p[0].vaddr <= q < p[0].end());
                } else {
                    assert(p[1].vaddr <= q < p[1].end());
                }
            }
        }
    } else if start <= v && v < end {
        lemma_pages_between(v, end, len);
        let f = a.front_cut(end);
        assert(f.end() == a.end()) by (nonlinear_arith)
            requires
                f.end() == end + (len - (end - v) / 4096) * 4096,
                ((end - v) / 4096) * 4096 == end - v,
                a.end() == v + len * 4096,
        ;
        assert(f.pages.len() > 0) by (nonlinear_arith)
            requires
                ((end - v) / 4096) * 4096 == end - v,
                end < v + len * 4096,
                f.pages.len() == len - (end - v) / 4096,
        ;
        assert(p[0] == f);
        assert forall|q: int| covers(p, q) <==> (a.vaddr <= q < a.end() && !(start <= q < end)) by {
            if a.vaddr <= q < a.end() && !(start <= q < end) {
                assert(p[0].vaddr <= q < p[0].end());
            }
        }
    } else {
        lemma_pages_between(v, start, len);
        let b = a.back_cut(start);
        assert(b.pages.len() == (start - v) / 4096);
        assert(b.end() == start);
        assert(b.pages.len() > 0) by (nonlinear_arith)
            requires
                ((start - v) / 4096) * 4096 == start - v,
                v < start,
                b.pages.len() == (start - v) / 4096,
        ;
        assert(p[0] == b);
        assert forall|q: int| covers(p, q) <==> (a.vaddr <= q < a.end() && !(start <= q < end)) by {
            if a.vaddr <= q < a.end() && !(start <= q < end) {
                assert(p[0].vaddr <= q < p[0].end());
            }
        }
    }
}

/// The part of an aligned area from an aligned address `addr` inside it on,
/// and the part before it.
pub proof fn lemma_cut_at(a: AreaView, addr: int)
    requires
        a.wf(),
        aligned(a.vaddr as int),
        aligned(addr),
        a.vaddr <= addr <= a.end(),
    ensures
        (a.end() - addr) / (PAGE_SIZE_4K as int) <= a.pages.len(),
        a.seek_ok(addr - a.vaddr),
        a.right_of(addr).wf(),
        a.right_of(addr).vaddr == addr,
        a.right_of(addr).end() == a.end(),
        a.right_of(addr).flags == a.flags,
        a.left_of(addr).wf(),
        a.left_of(addr).vaddr == a.vaddr,
        a.left_of(addr).end() == addr,
        a.left_of(addr).flags == a.flags,
        a.left_of(addr).backend == a.backend,
        addr < a.end() ==> a.right_of(addr).pages.len() > 0,
        a.vaddr < addr ==> a.left_of(addr).pages.len() > 0,
{
    let v = a.vaddr as int;
    let len = a.pages.len() as int;
    lemma_pages_between(v, addr, len);
    let k = (addr - v) / 4096;
    let c = (a.end() - addr) / 4096;
    assert(c == len - k);
    let r = a.right_of(addr);
    assert(r.pages.len() == len - k);
    assert(r.end() == a.end()) by (nonlinear_arith)
        requires
            r.end() == addr + (len - k) * 4096,
            k * 4096 == addr - v,
            a.end() == v + len * 4096,
    ;
    let l = a.left_of(addr);
    assert(l.pages.len() == k);
    assert(l.end() == addr);
    if addr < a.end() {
        assert(len - k > 0) by (nonlinear_arith)
            requires
                k * 4096 == addr - v,
                addr < v + len * 4096,
        ;
    }
    if v < addr {
        assert(k > 0) by (nonlinear_arith)
            requires
                k * 4096 == addr - v,
                v < addr,
        ;
    }
}

/// What becomes of an aligned area when an aligned range gets new flags:
/// the pieces lie within the area, in order, cover it exactly, and those
/// inside the range carry the new flags while the others keep the old.
pub proof fn lemma_protect_pieces(a: AreaView, start: int, end: int, flags: usize)
    requires
        a.wf(),
        a.pages.len() > 0,
        aligned(a.vaddr as int),
        aligned(end),
        cuts_at_start(a, start, end) ==> aligned(start),
        0 <= start < end <= usize::MAX,
    ensures
        ({
            let p = protect_pieces(a, start, end, flags);
            &&& forall|k: int| 0 <= k < p.len() ==> (#[trigger] p[k]).wf() && aligned(p[k].vaddr as int)
                && p[k].pages.len() > 0 && a.vaddr <= p[k].vaddr && p[k].end() <= a.end()
                && (p[k].vaddr < a.end() || p[k].vaddr == a.vaddr)
            &&& forall|i: int, j: int| 0 <= i < j < p.len() ==> (#[trigger] p[i]).vaddr < (#[trigger] p[j]).vaddr
                && p[i].end() <= p[j].vaddr
            &&& forall|q: int| covers(p, q) <==> a.vaddr <= q < a.end()
            &&& forall|k: int| 0 <= k < p.len() ==>
                (start <= (#[trigger] p[k]).vaddr && p[k].end() <= end && p[k].flags == flags)
                || ((p[k].end() <= start || end <= p[k].vaddr) && p[k].flags == a.flags)
        }),
        a.overlaps(start, end) && !a.inside(start, end) && a.strictly_holds(start, end) ==> {
            let l = a.left_of(end);
            &&& (a.end() - end) / (PAGE_SIZE_4K as int) <= a.pages.len()
            &&& (l.end() - start) / (PAGE_SIZE_4K as int) <= l.pages.len()
            &&& a.seek_ok(end - a.vaddr)
            &&& l.right_of(start).wf()
            &&& a.right_of(end).wf()
        },
        a.overlaps(start, end) && !a.inside(start, end) && !a.strictly_holds(start, end)
            && start <= a.vaddr && a.vaddr < end ==> {
            &&& a.vaddr <= end <= a.end()
            &&& (a.end() - end) / (PAGE_SIZE_4K as int) <= a.pages.len()
            &&& a.seek_ok(end - a.vaddr)
            &&& a.right_of(end).wf()
        },
        a.overlaps(start, end) && !a.inside(start, end) && !a.strictly_holds(start, end)
            && !(start <= a.vaddr && a.vaddr < end) ==> {
            &&& a.vaddr <= start <= a.end()
            &&& (a.end() - start) / (PAGE_SIZE_4K as int) <= a.pages.len()
            &&& a.seek_ok(start - a.vaddr)
            &&& a.right_of(start).wf()
        },
{
    let p = protect_pieces(a, start, end, flags);
    if !a.overlaps(start, end) {
        assert(p[0] == a);
        assert forall|q: int| covers(p, q) <==> a.vaddr <= q < a.end() by {
            if a.vaddr <= q < a.end() {
                assert(p[0].vaddr <= q < p[0].end());
            }
        }
    } else if a.inside(start, end) {
        assert(p[0] == with_flags(a, flags));
        assert forall|q: int| covers(p, q) <==> a.vaddr <= q < a.end() by {
            if a.vaddr <= q < a.end() {
                assert(p[0].vaddr <= q < p[0].end());
            }
        }
    } else if a.strictly_holds(start, end) {
        lemma_cut_at(a, end);
        let l = a.left_of(end);
        lemma_cut_at(l, start);
        let r = a.right_of(end);
        assert(l.seek_ok(start - l.vaddr));
        assert(p[0] == l.left_of(start));
        assert(p[1] == with_flags(l.right_of(start), flags));
        assert(p[2] == r);
        assert forall|q: int| covers(p, q) <==> a.vaddr <= q < a.end() by {
            if a.vaddr <= q < a.end() {
                if q < start {
                    assert(p[0].vaddr <= q < p[0].end());
                } else if q < end {
                    assert(p[1].vaddr <= q < p[1].end());
                } else {
                    assert(p[2].vaddr <= q < p[2].end());
                }
            }
        }
    } else if start <= a.vaddr && a.vaddr < end {
        lemma_cut_at(a, end);
        assert(p[0] == with_flags(a.left_of(end), flags));
        assert(p[1] == a.right_of(end));
        assert forall|q: int| covers(p, q) <==> a.vaddr <= q < a.end() by {
            if a.vaddr <= q < a.end() {
                if q < end {
                    assert(p[0].vaddr <= q < p[0].end());
                } else {
                    assert(p[1].vaddr <= q < p[1].end());
                }
            }
        }
    } else {
        lemma_cut_at(a, start);
        assert(p[0] == a.left_of(start));
        assert(p[1] == with_flags(a.right_of(start), flags));
        assert forall|q: int| covers(p, q) <==> a.vaddr <= q < a.end() by {
            if a.vaddr <= q < a.end() {
                if q < start {
                    assert(p[0].vaddr <= q < p[0].end());
                } else {
                    assert(p[1].vaddr <= q < p[1].end());
                }
            }
        }
    }
}

/// Appending the pieces of area `a`, which follows every area in `out`, to
/// `out` keeps it sorted and separated, and every area of the result comes
/// before `next` when `a` does.
pub proof fn lemma_append_pieces(out: Seq<AreaView>, a: AreaView, pieces: Seq<AreaView>, next: Option<AreaView>)
    requires
        areas_wf(out),
        forall|k: int| 0 <= k < out.len() ==> (#[trigger] out[k]).end() <= a.vaddr && out[k].vaddr < a.vaddr,
        forall|k: int| 0 <= k < pieces.len() ==> (#[trigger] pieces[k]).wf() && aligned(pieces[k].vaddr as int)
            && pieces[k].pages.len() > 0 && a.vaddr <= pieces[k].vaddr && pieces[k].end() <= a.end()
            && (pieces[k].vaddr < a.end() || pieces[k].vaddr == a.vaddr),
        forall|i: int, j: int| 0 <= i < j < pieces.len() ==> (#[trigger] pieces[i]).vaddr < (#[trigger] pieces[j]).vaddr
            && pieces[i].end() <= pieces[j].vaddr,
        next matches Some(n) ==> a.vaddr < n.vaddr && a.end() <= n.vaddr,
    ensures
        areas_wf(out + pieces),
        next matches Some(n) ==> forall|k: int| 0 <= k < (out + pieces).len() ==> (#[trigger] (out + pieces)[k]).end() <= n.vaddr
            && (out + pieces)[k].vaddr < n.vaddr,
{
    let r = out + pieces;
    assert forall|i: int| 0 <= i < r.len() implies (#[trigger] r[i]).wf() && aligned(r[i].vaddr as int)
        && r[i].pages.len() > 0 by {
        if i >= out.len() {
            assert(r[i] == pieces[i - out.len()]);
        }
    }
    assert forall|i: int, j: int| 0 <= i < j < r.len() implies (#[trigger] r[i]).vaddr < (#[trigger] r[j]).vaddr
        && r[i].end() <= r[j].vaddr by {
        if j < out.len() {
        } else if i < out.len() {
            assert(r[j] == pieces[j - out.len()]);
        } else {
            assert(r[i] == pieces[i - out.len()]);
            assert(r[j] == pieces[j - out.len()]);
        }
    }
    if next is Some {
        let n = next->0;
        assert forall|k: int| 0 <= k < r.len() implies (#[trigger] r[k]).end() <= n.vaddr && r[k].vaddr < n.vaddr by {
            if k >= out.len() {
                assert(r[k] == pieces[k - out.len()]);
            }
        }
    }
}

/// The address ranges an address-space search must avoid: those of the
/// areas, then those of the attached segments.
pub open spec fn segments(areas: Seq<AreaView>, att: Seq<AttachedMem>) -> Seq<(usize, usize)> {
    areas.map_values(|a: AreaView| seg_of_area(a)) + att.map_values(|m: AttachedMem| seg_of_attached(m))
}

/// The order of ranges as pairs: by start, then by end.
pub open spec fn seg_le(x: (usize, usize), y: (usize, usize)) -> bool {
    x.0 < y.0 || (x.0 == y.0 && x.1 <= y.1)
}

/// `seg_le` as a relation.
pub open spec fn seg_order() -> spec_fn((usize, usize), (usize, usize)) -> bool {
    |x: (usize, usize), y: (usize, usize)| seg_le(x, y)
}

/// The first gap of `size` bytes in the ranges `segs`, scanned in order:
/// the gap starts at `last_end` for the first range, and at the end of the
/// range before it for the others.
pub open spec fn free_scan(segs: Seq<(usize, usize)>, last_end: int, size: int) -> Option<usize>
    decreases segs.len(),
{
    if segs.len() == 0 {
        None
    } else if last_end + size <= segs[0].0 {
        Some(last_end as usize)
    } else {
        free_scan(segs.drop_first(), segs[0].1 as int, size)
    }
}

/// Where an address-space search starts: at `hint`, but not below
/// `USER_MEMORY_START`.
pub open spec fn search_start(hint: usize) -> usize {
    if hint > USER_MEMORY_START { hint } else { USER_MEMORY_START }
}

/// Whether a search for `size` bytes from `hint` stays within the address
/// space at every step.
pub open spec fn search_fits(segs: Seq<(usize, usize)>, hint: usize, size: usize) -> bool {
    &&& search_start(hint) + size <= usize::MAX
    &&& forall|k: int| 0 <= k < segs.len() ==> (#[trigger] segs[k]).1 + size <= usize::MAX
}

/// Whether the ranges are ordered by start, none ends before it starts,
/// and each ends before any later different one starts.
pub open spec fn sorted_apart(segs: Seq<(usize, usize)>) -> bool {
    &&& forall|k: int| 0 <= k < segs.len() ==> (#[trigger] segs[k]).0 <= segs[k].1
    &&& forall|i: int, j: int| 0 <= i < j < segs.len() ==>
        (#[trigger] segs[i]) == (#[trigger] segs[j]) || segs[i].1 <= segs[j].0
}

/// `seg_le` is a total order.
pub proof fn lemma_seg_order_total()
    ensures
        vstd::relations::total_ordering(seg_order()),
{
    let r = seg_order();
    assert(vstd::relations::reflexive(r));
    assert(vstd::relations::antisymmetric(r)) by {
        assert forall|x: (usize, usize), y: (usize, usize)| #[trigger] r(x, y) && #[trigger] r(y, x) implies x == y by {
            assert(x.0 == y.0 && x.1 == y.1);
        }
    }
    assert(vstd::relations::transitive(r));
    assert(vstd::relations::strongly_connected(r));
}

/// A search that skips the first range finds a gap no lower than its end.
pub proof fn lemma_free_scan_after_first(segs: Seq<(usize, usize)>, last_end: int, size: int)
    requires
        sorted_apart(segs),
        segs.len() > 0,
        !(last_end + size <= segs[0].0),
        size >= 0,
    ensures
        free_scan(segs, last_end, size) matches Some(r) ==> r >= segs[0].1,
    decreases segs.len(),
{
    let rest = segs.drop_first();
    assert(free_scan(segs, last_end, size) == free_scan(rest, segs[0].1 as int, size));
    if rest.len() > 0 {
        assert(rest[0] == segs[1]);
        assert(segs[0] == segs[1] || segs[0].1 <= segs[1].0);
        assert(segs[1].0 <= segs[1].1);
        if segs[0].1 + size <= rest[0].0 {
            assert(free_scan(rest, segs[0].1 as int, size) == Some(segs[0].1));
        } else {
            assert forall|i: int, j: int| 0 <= i < j < rest.len() implies
                (#[trigger] rest[i]) == (#[trigger] rest[j]) || rest[i].1 <= rest[j].0 by {
                assert(rest[i] == segs[i + 1] && rest[j] == segs[j + 1]);
            }
            assert forall|k: int| 0 <= k < rest.len() implies (#[trigger] rest[k]).0 <= rest[k].1 by {
                assert(rest[k] == segs[k + 1]);
            }
            lemma_free_scan_after_first(rest, segs[0].1 as int, size);
        }
    }
}

/// The gap a search finds starts at `last_end` or at the end of a range.
pub proof fn lemma_free_scan_bound(segs: Seq<(usize, usize)>, last_end: int, size: int)
    requires
        size >= 0,
        0 <= last_end,
        last_end + size <= usize::MAX,
        forall|k: int| 0 <= k < segs.len() ==> (#[trigger] segs[k]).1 + size <= usize::MAX,
    ensures
        free_scan(segs, last_end, size) matches Some(r) ==> r + size <= usize::MAX,
    decreases segs.len(),
{
    if segs.len() > 0 && !(last_end + size <= segs[0].0) {
        let rest = segs.drop_first();
        assert forall|k: int| 0 <= k < rest.len() implies (#[trigger] rest[k]).1 + size <= usize::MAX by {
            assert(rest[k] == segs[k + 1]);
        }
        lemma_free_scan_bound(rest, segs[0].1 as int, size);
    }
}

/// The gap a search finds keeps apart from every range it scanned.
pub proof fn lemma_free_scan_apart(segs: Seq<(usize, usize)>, last_end: int, size: int)
    requires
        sorted_apart(segs),
        forall|i: int, j: int| 0 <= i < j < segs.len() ==> (#[trigger] segs[i]).0 <= (#[trigger] segs[j]).0,
        size >= 0,
        0 <= last_end,
        last_end + size <= usize::MAX,
        forall|k: int| 0 <= k < segs.len() ==> (#[trigger] segs[k]).1 + size <= usize::MAX,
    ensures
        free_scan(segs, last_end, size) matches Some(r) ==> forall|k: int| 0 <= k < segs.len() ==>
            apart((r, (r + size) as usize), #[trigger] segs[k]),
    decreases segs.len(),
{
    if segs.len() == 0 {
    } else if last_end + size <= segs[0].0 {
        assert forall|k: int| 0 <= k < segs.len() implies apart((last_end as usize, (last_end + size) as usize), #[trigger] segs[k]) by {
            if k > 0 {
                assert(segs[0].0 <= segs[k].0);
            }
        }
    } else {
        let rest = segs.drop_first();
        assert forall|i: int, j: int| 0 <= i < j < rest.len() implies
            (#[trigger] rest[i]) == (#[trigger] rest[j]) || rest[i].1 <= rest[j].0 by {
            assert(rest[i] == segs[i + 1] && rest[j] == segs[j + 1]);
        }
        assert forall|i: int, j: int| 0 <= i < j < rest.len() implies (#[trigger] rest[i]).0 <= (#[trigger] rest[j]).0 by {
            assert(rest[i] == segs[i + 1] && rest[j] == segs[j + 1]);
        }
        assert forall|k: int| 0 <= k < rest.len() implies (#[trigger] rest[k]).0 <= rest[k].1 && rest[k].1 + size <= usize::MAX by {
            assert(rest[k] == segs[k + 1]);
        }
        lemma_free_scan_apart(rest, segs[0].1 as int, size);
        lemma_free_scan_after_first(segs, last_end, size);
        if free_scan(segs, last_end, size) is Some {
            let r = free_scan(segs, last_end, size)->0;
            assert forall|k: int| 0 <= k < segs.len() implies apart((r, (r + size) as usize), #[trigger] segs[k]) by {
                if k > 0 {
                    assert(rest[k - 1] == segs[k]);
                }
            }
        }
    }
}

/// Sorting ranges that keep apart in any order gives ranges that keep apart
/// in scan order.
pub proof fn lemma_sorted_segments_apart(segs: Seq<(usize, usize)>, sorted: Seq<(usize, usize)>)
    requires
        forall|k: int| 0 <= k < segs.len() ==> (#[trigger] segs[k]).0 <= segs[k].1,
        forall|i: int, j: int| 0 <= i < segs.len() && 0 <= j < segs.len() && i != j
            ==> apart(#[trigger] segs[i], #[trigger] segs[j]),
        vstd::relations::sorted_by(sorted, seg_order()),
        forall|x: (usize, usize)| sorted.contains(x) ==> segs.contains(x),
    ensures
        sorted_apart(sorted),
        forall|i: int, j: int| 0 <= i < j < sorted.len() ==> (#[trigger] sorted[i]).0 <= (#[trigger] sorted[j]).0,
{
    assert forall|k: int| 0 <= k < sorted.len() implies (#[trigger] sorted[k]).0 <= sorted[k].1 by {
        assert(sorted.contains(sorted[k]));
        let p = choose|p: int| 0 <= p < segs.len() && segs[p] == sorted[k];
        assert(segs[p].0 <= segs[p].1);
    }
    assert forall|i: int, j: int| 0 <= i < j < sorted.len() implies
        (#[trigger] sorted[i]) == (#[trigger] sorted[j]) || sorted[i].1 <= sorted[j].0 by {
        assert(seg_order()(sorted[i], sorted[j]));
        if sorted[i] != sorted[j] {
            assert(sorted.contains(sorted[i]));
            assert(sorted.contains(sorted[j]));
            let p = choose|p: int| 0 <= p < segs.len() && segs[p] == sorted[i];
            let q = choose|q: int| 0 <= q < segs.len() && segs[q] == sorted[j];
            assert(apart(segs[p], segs[q]));
            assert(segs[q].0 <= segs[q].1);
        }
    }
    assert forall|i: int, j: int| 0 <= i < j < sorted.len() implies (#[trigger] sorted[i]).0 <= (#[trigger] sorted[j]).0 by {
        assert(seg_order()(sorted[i], sorted[j]));
    }
}

/// The ranges of a well-formed address space keep apart from each other.
pub proof fn lemma_segments_apart(areas: Seq<AreaView>, att: Seq<AttachedMem>)
    requires
        areas_wf(areas),
        attached_wf(att),
        forall|i: int| 0 <= i < areas.len() ==> apart_from_attached(#[trigger] areas[i], att),
    ensures
        ({
            let segs = segments(areas, att);
            &&& forall|k: int| 0 <= k < segs.len() ==> (#[trigger] segs[k]).0 <= segs[k].1
            &&& forall|i: int, j: int| 0 <= i < segs.len() && 0 <= j < segs.len() && i != j
                ==> apart(#[trigger] segs[i], #[trigger] segs[j])
        }),
{
    let segs = segments(areas, att);
    let n = areas.len() as int;
    assert forall|k: int| 0 <= k < segs.len() implies (#[trigger] segs[k]).0 <= segs[k].1 by {
        if k < n {
            assert(segs[k] == seg_of_area(areas[k]));
        } else {
            assert(segs[k] == seg_of_attached(att[k - n]));
        }
    }
    assert forall|i: int, j: int| 0 <= i < segs.len() && 0 <= j < segs.len() && i != j
        implies apart(#[trigger] segs[i], #[trigger] segs[j]) by {
        if i < n && j < n {
            assert(segs[i] == seg_of_area(areas[i]));
            assert(segs[j] == seg_of_area(areas[j]));
            if i < j {
                assert(areas[i].end() <= areas[j].vaddr);
            } else {
                assert(areas[j].end() <= areas[i].vaddr);
            }
        } else if i < n {
            assert(segs[i] == seg_of_area(areas[i]));
            assert(segs[j] == seg_of_attached(att[j - n]));
            assert(apart_from_attached(areas[i], att));
        } else if j < n {
            assert(segs[j] == seg_of_area(areas[j]));
            assert(segs[i] == seg_of_attached(att[i - n]));
            assert(apart_from_attached(areas[j], att));
        } else {
            assert(segs[i] == seg_of_attached(att[i - n]));
            assert(segs[j] == seg_of_attached(att[j - n]));
        }
    }
}

/// Whether `x` comes before `y` as ranges.
fn seg_le_exec(x: (usize, usize), y: (usize, usize)) -> (b: bool)
    ensures
        b == seg_le(x, y),
{
    x.0 < y.0 || (x.0 == y.0 && x.1 <= y.1)
}

/// Sorts ranges by start, then by end.
fn sort_segments(v: Vec<(usize, usize)>) -> (r: Vec<(usize, usize)>)
    ensures
        r@ == v@.sort_by(seg_order()),
{
    let mut out: Vec<(usize, usize)> = Vec::new();
    let mut i: usize = 0;
    proof {
        assert(v@.take(0) =~= Seq::<(usize, usize)>::empty());
    }
    while i < v.len()
        invariant
            i <= v.len(),
            vstd::relations::sorted_by(out@, seg_order()),
            out@.to_multiset() == v@.take(i as int).to_multiset(),
        decreases v.len() - i,
    {
        let x = v[i];
        let mut k: usize = 0;
        while k < out.len() && seg_le_exec(out[k], x)
            invariant
                k <= out.len(),
                forall|j: int| 0 <= j < k ==> seg_le(#[trigger] out@[j], x),
            decreases out.len() - k,
        {
            k = k + 1;
        }
        let ghost before = out@;
        proof {
            if k < out.len() {
                assert(!seg_le(out@[k as int], x));
            }
        }
        out.insert(k, x);
        proof {
            assert(out@ == before.insert(k as int, x));
            assert forall|a: int, b: int| 0 <= a < b < out@.len() implies #[trigger] seg_order()(out@[a], out@[b]) by {
                if b < k {
                    assert(seg_order()(before[a], before[b]));
                } else if b == k {
                    assert(seg_le(before[a], x));
                } else if a == k {
                    assert(seg_order()(before[k as int], before[b - 1]) || b - 1 == k);
                } else if a < k {
                    assert(seg_order()(before[a], before[b - 1]));
                } else {
                    assert(seg_order()(before[a - 1], before[b - 1]));
                }
            }
            assert(v@.take(i + 1) =~= v@.take(i as int).push(x));
            vstd::seq_lib::to_multiset_insert(before, k as int, x);
            vstd::seq_lib::to_multiset_build(v@.take(i as int), x);
        }
        i = i + 1;
    }
    proof {
        assert(v@.take(v.len() as int) =~= v@);
        lemma_seg_order_total();
        v@.lemma_sort_by_ensures(seg_order());
        vstd::seq_lib::lemma_sorted_unique(out@, v@.sort_by(seg_order()), seg_order());
    }
    out
}

/// Unmapping `[start, end)` leaves no area reaching into the range, and an
/// address is held by an area afterwards exactly when it was before and lies
/// outside the range.
#[verifier::rlimit(60)]
#[verifier::spinoff_prover]
pub proof fn lemma_unmap_exact(s: Seq<AreaView>, start: int, end: int)
    requires
        areas_wf(s),
        split_ok(s, start, end),
        0 <= start < end <= usize::MAX,
    ensures
        forall|k: int| 0 <= k < split_all(s, start, end).len() ==>
            (#[trigger] split_all(s, start, end)[k]).end() <= start || end <= split_all(s, start, end)[k].vaddr,
        forall|q: int| #![trigger covers(split_all(s, start, end), q)] #![trigger covers(s, q)]
            covers(split_all(s, start, end), q) <==> (covers(s, q) && !(start <= q < end)),
        forall|q: int, f: usize| #![trigger holds_with(split_all(s, start, end), q, f)]
            holds_with(split_all(s, start, end), q, f) <==> (holds_with(s, q, f) && !(start <= q < end)),
    decreases s.len(),
{
    let r = split_all(s, start, end);
    if s.len() > 0 {
        let init = s.drop_last();
        let a = s.last();
        assert forall|i: int, j: int| 0 <= i < j < init.len() implies (#[trigger] init[i]).vaddr < (#[trigger] init[j]).vaddr
            && init[i].end() <= init[j].vaddr by {
            assert(init[i] == s[i] && init[j] == s[j]);
        }
        assert forall|i: int| 0 <= i < init.len() implies (#[trigger] init[i]).wf() && aligned(init[i].vaddr as int)
            && init[i].pages.len() > 0 by {
            assert(init[i] == s[i]);
        }
        assert forall|i: int| 0 <= i < init.len() && #[trigger] cuts_at_start(init[i], start, end) implies aligned(start) by {
            assert(init[i] == s[i]);
        }
        lemma_unmap_exact(init, start, end);
        assert(a == s[s.len() - 1]);
        if cuts_at_start(a, start, end) {
            assert(cuts_at_start(s[s.len() - 1], start, end));
        }
        lemma_split_pieces(a, start, end);
        let left = split_all(init, start, end);
        let p = split_pieces(a, start, end);
        assert(r == left + p);
        assert forall|k: int| 0 <= k < r.len() implies (#[trigger] r[k]).end() <= start || end <= r[k].vaddr by {
            if k < left.len() {
                assert(r[k] == left[k]);
            } else {
                assert(r[k] == p[k - left.len()]);
            }
        }
        assert forall|q: int| covers(r, q) <==> (covers(s, q) && !(start <= q < end)) by {
            if covers(r, q) {
                let k = choose|k: int| 0 <= k < r.len() && (#[trigger] r[k]).vaddr <= q < r[k].end();
                if k < left.len() {
                    assert(r[k] == left[k]);
                    assert(covers(left, q));
                    assert(covers(init, q) && !(start <= q < end));
                    let i = choose|i: int| 0 <= i < init.len() && (#[trigger] init[i]).vaddr <= q < init[i].end();
                    assert(s[i] == init[i]);
                } else {
                    assert(r[k] == p[k - left.len()]);
                    assert(covers(p, q));
                    assert(s[s.len() - 1].vaddr <= q < s[s.len() - 1].end());
                }
            }
            if covers(s, q) && !(start <= q < end) {
                let i = choose|i: int| 0 <= i < s.len() && (#[trigger] s[i]).vaddr <= q < s[i].end();
                if i < init.len() {
                    assert(init[i] == s[i]);
                    assert(covers(init, q));
                    let k = choose|k: int| 0 <= k < left.len() && (#[trigger] left[k]).vaddr <= q < left[k].end();
                    assert(r[k] == left[k]);
                } else {
                    assert(covers(p, q));
                    let k = choose|k: int| 0 <= k < p.len() && (#[trigger] p[k]).vaddr <= q < p[k].end();
                    assert(r[left.len() + k] == p[k]);
                }
            }
        }
        assert forall|q: int, f: usize| #[trigger] holds_with(r, q, f) <==> (holds_with(s, q, f) && !(start <= q < end)) by {
            if holds_with(r, q, f) {
                let k = choose|k: int| 0 <= k < r.len() && (#[trigger] r[k]).vaddr <= q < r[k].end() && r[k].flags == f;
                assert(covers(r, q));
                if k < left.len() {
                    assert(r[k] == left[k]);
                    assert(holds_with(left, q, f));
                    assert(holds_with(init, q, f));
                    let i = choose|i: int| 0 <= i < init.len() && (#[trigger] init[i]).vaddr <= q < init[i].end() && init[i].flags == f;
                    assert(s[i] == init[i]);
                } else {
                    assert(r[k] == p[k - left.len()]);
                    assert(covers(p, q));
                    assert(s[s.len() - 1].vaddr <= q < s[s.len() - 1].end());
                }
            }
            if holds_with(s, q, f) && !(start <= q < end) {
                let i = choose|i: int| 0 <= i < s.len() && (#[trigger] s[i]).vaddr <= q < s[i].end() && s[i].flags == f;
                if i < init.len() {
                    assert(init[i] == s[i]);
                    assert(holds_with(init, q, f));
                    assert(holds_with(left, q, f));
                    let k = choose|k: int| 0 <= k < left.len() && (#[trigger] left[k]).vaddr <= q < left[k].end() && left[k].flags == f;
                    assert(r[k] == left[k]);
                } else {
                    assert(covers(p, q));
                    let k = choose|k: int| 0 <= k < p.len() && (#[trigger] p[k]).vaddr <= q < p[k].end();
                    assert(r[left.len() + k] == p[k]);
                }
            }
        }
    } else {
        assert forall|q: int| covers(r, q) <==> (covers(s, q) && !(start <= q < end)) by {}
        assert forall|q: int, f: usize| #[trigger] holds_with(r, q, f) <==> (holds_with(s, q, f) && !(start <= q < end)) by {}
    }
}

/// Bytes that a mapping of `size` bytes takes: `size` rounded up to whole
/// pages.
pub open spec fn page_round(size: int) -> int {
    pages_for(size) * PAGE_SIZE_4K
}

/// Where a search for `len` free bytes from `hint` lands.
pub open spec fn mmap_target(areas: Seq<AreaView>, att: Seq<AttachedMem>, hint: usize, len: int) -> Option<usize> {
    free_scan(segments(areas, att).sort_by(seg_order()), search_start(hint) as int, len)
}

/// Page arithmetic for mappings.
pub proof fn lemma_page_round(size: int)
    requires
        size > 0,
        size + PAGE_SIZE_4K - 1 <= usize::MAX,
    ensures
        page_round(size) >= size,
        page_round(size) > 0,
        aligned(page_round(size)),
        pages_for(page_round(size)) == pages_for(size),
        page_round(size) + PAGE_SIZE_4K - 1 <= usize::MAX,
{
    let k = pages_for(size);
    assert(k * 4096 >= size && k >= 1) by (nonlinear_arith)
        requires
            k == (size + 4095) / 4096,
            size > 0,
    ;
    assert((k * 4096) % 4096 == 0) by (nonlinear_arith);
    assert((k * 4096 + 4095) / 4096 == k) by (nonlinear_arith);
    assert(k * 4096 <= size + 4095) by (nonlinear_arith)
        requires
            k == (size + 4095) / 4096,
    ;
    assert(usize::MAX == 0xffff_ffff || usize::MAX == 0xffff_ffff_ffff_ffff);
    assert(k * 4096 + 4095 <= usize::MAX) by (nonlinear_arith)
        requires
            k * 4096 <= size + 4095,
            size + 4095 <= usize::MAX,
            usize::MAX == 0xffff_ffff || usize::MAX == 0xffff_ffff_ffff_ffff,
    ;
}

/// A gap found from an aligned start among ranges with aligned ends is
/// aligned.
pub proof fn lemma_free_scan_aligned(segs: Seq<(usize, usize)>, last_end: int, size: int)
    requires
        aligned(last_end),
        0 <= last_end <= usize::MAX,
        forall|k: int| 0 <= k < segs.len() ==> aligned((#[trigger] segs[k]).1 as int),
    ensures
        free_scan(segs, last_end, size) matches Some(r) ==> aligned(r as int),
    decreases segs.len(),
{
    if segs.len() > 0 && !(last_end + size <= segs[0].0) {
        let rest = segs.drop_first();
        assert forall|k: int| 0 <= k < rest.len() implies aligned((#[trigger] rest[k]).1 as int) by {
            assert(rest[k] == segs[k + 1]);
        }
        lemma_free_scan_aligned(rest, segs[0].1 as int, size);
    }
}

/// The ranges of a well-formed address space end on page boundaries.
pub proof fn lemma_segments_aligned(areas: Seq<AreaView>, att: Seq<AttachedMem>)
    requires
        areas_wf(areas),
        attached_wf(att),
    ensures
        forall|k: int| 0 <= k < segments(areas, att).len() ==> aligned((#[trigger] segments(areas, att)[k]).1 as int),
{
    let segs = segments(areas, att);
    let n = areas.len() as int;
    assert forall|k: int| 0 <= k < segs.len() implies aligned((#[trigger] segs[k]).1 as int) by {
        if k < n {
            assert(segs[k] == seg_of_area(areas[k]));
            let a = areas[k];
            assert((a.vaddr + a.pages.len() * 4096) % 4096 == 0) by (nonlinear_arith)
                requires
                    a.vaddr % 4096 == 0,
            ;
        } else {
            assert(segs[k] == seg_of_attached(att[k - n]));
            let m = att[k - n];
            assert((m.addr + m.size) % 4096 == 0) by (nonlinear_arith)
                requires
                    m.addr % 4096 == 0,
                    m.size % 4096 == 0,
            ;
        }
    }
}

/// An area can join areas that all end before it starts or start after it
/// ends.
pub proof fn lemma_insertable_clear(t: Seq<AreaView>, region: AreaView)
    requires
        areas_wf(t),
        region.wf(),
        region.pages.len() > 0,
        aligned(region.vaddr as int),
        forall|k: int| 0 <= k < t.len() ==> (#[trigger] t[k]).end() <= region.vaddr || region.end() <= t[k].vaddr,
    ensures
        insertable(t, region),
{
    assert forall|i: int| 0 <= i < t.len() implies (#[trigger] t[i]).vaddr != region.vaddr by {
        assert(t[i].pages.len() > 0);
    }
}

/// Giving `[start, end)` new flags keeps which addresses are mapped, and an
/// address is mapped with flags `f` afterwards exactly when it is mapped and
/// `f` is the new flags inside the range, or the flags it had outside it.
#[verifier::rlimit(60)]
#[verifier::spinoff_prover]
pub proof fn lemma_protect_exact(s: Seq<AreaView>, start: int, end: int, flags: usize)
    requires
        areas_wf(s),
        split_ok(s, start, end),
        0 <= start < end <= usize::MAX,
    ensures
        forall|q: int| #![trigger covers(protect_all(s, start, end, flags), q)] #![trigger covers(s, q)]
            covers(protect_all(s, start, end, flags), q) <==> covers(s, q),
        forall|q: int, f: usize| #![trigger holds_with(protect_all(s, start, end, flags), q, f)]
            holds_with(protect_all(s, start, end, flags), q, f) <==>
            (covers(s, q) && if start <= q < end { f == flags } else { holds_with(s, q, f) }),
    decreases s.len(),
{
    let r = protect_all(s, start, end, flags);
    if s.len() > 0 {
        let init = s.drop_last();
        let a = s.last();
        assert forall|i: int, j: int| 0 <= i < j < init.len() implies (#[trigger] init[i]).vaddr < (#[trigger] init[j]).vaddr
            && init[i].end() <= init[j].vaddr by {
            assert(init[i] == s[i] && init[j] == s[j]);
        }
        assert forall|i: int| 0 <= i < init.len() implies (#[trigger] init[i]).wf() && aligned(init[i].vaddr as int)
            && init[i].pages.len() > 0 by {
            assert(init[i] == s[i]);
        }
        assert forall|i: int| 0 <= i < init.len() && #[trigger] cuts_at_start(init[i], start, end) implies aligned(start) by {
            assert(init[i] == s[i]);
        }
        lemma_protect_exact(init, start, end, flags);
        assert(a == s[s.len() - 1]);
        if cuts_at_start(a, start, end) {
            assert(cuts_at_start(s[s.len() - 1], start, end));
        }
        lemma_protect_pieces(a, start, end, flags);
        let left = protect_all(init, start, end, flags);
        let p = protect_pieces(a, start, end, flags);
        assert(r == left + p);
        assert forall|q: int| covers(r, q) <==> covers(s, q) by {
            if covers(r, q) {
                let k = choose|k: int| 0 <= k < r.len() && (#[trigger] r[k]).vaddr <= q < r[k].end();
                if k < left.len() {
                    assert(r[k] == left[k]);
                    assert(covers(left, q));
                    assert(covers(init, q));
                    let i = choose|i: int| 0 <= i < init.len() && (#[trigger] init[i]).vaddr <= q < init[i].end();
                    assert(s[i] == init[i]);
                } else {
                    assert(r[k] == p[k - left.len()]);
                    assert(covers(p, q));
                    assert(s[s.len() - 1].vaddr <= q < s[s.len() - 1].end());
                }
            }
            if covers(s, q) {
                let i = choose|i: int| 0 <= i < s.len() && (#[trigger] s[i]).vaddr <= q < s[i].end();
                if i < init.len() {
                    assert(init[i] == s[i]);
                    assert(covers(init, q));
                    assert(covers(left, q));
                    let k = choose|k: int| 0 <= k < left.len() && (#[trigger] left[k]).vaddr <= q < left[k].end();
                    assert(r[k] == left[k]);
                } else {
                    assert(covers(p, q));
                    let k = choose|k: int| 0 <= k < p.len() && (#[trigger] p[k]).vaddr <= q < p[k].end();
                    assert(r[left.len() + k] == p[k]);
                }
            }
        }
        assert forall|q: int, f: usize| #[trigger] holds_with(r, q, f) <==>
            (covers(s, q) && if start <= q < end { f == flags } else { holds_with(s, q, f) }) by {
            if holds_with(r, q, f) {
                let k = choose|k: int| 0 <= k < r.len() && (#[trigger] r[k]).vaddr <= q < r[k].end() && r[k].flags == f;
                assert(covers(r, q));
                if k < left.len() {
                    assert(r[k] == left[k]);
                    assert(holds_with(left, q, f));
                    assert(covers(init, q) && if start <= q < end { f == flags } else { holds_with(init, q, f) });
                    let i = choose|i: int| 0 <= i < init.len() && (#[trigger] init[i]).vaddr <= q < init[i].end();
                    assert(s[i] == init[i]);
                    if !(start <= q < end) {
                        let i2 = choose|i: int| 0 <= i < init.len() && (#[trigger] init[i]).vaddr <= q < init[i].end() && init[i].flags == f;
                        assert(s[i2] == init[i2]);
                    }
                } else {
                    let kk = k - left.len();
                    assert(r[k] == p[kk]);
                    assert(s[s.len() - 1].vaddr <= q < s[s.len() - 1].end());
                }
            }
            if covers(s, q) && (if start <= q < end { f == flags } else { holds_with(s, q, f) }) {
                let i = choose|i: int| 0 <= i < s.len() && (#[trigger] s[i]).vaddr <= q < s[i].end();
                if i < init.len() {
                    assert(init[i] == s[i]);
                    assert(covers(init, q));
                    if !(start <= q < end) {
                        let i2 = choose|i: int| 0 <= i < s.len() && (#[trigger] s[i]).vaddr <= q < s[i].end() && s[i].flags == f;
                        if i2 != i {
                            if i2 < i {
                                assert(s[i2].end() <= s[i].vaddr);
                            } else {
                                assert(s[i].end() <= s[i2].vaddr);
                            }
                        }
                        assert(holds_with(init, q, f));
                    }
                    assert(holds_with(left, q, f));
                    let k = choose|k: int| 0 <= k < left.len() && (#[trigger] left[k]).vaddr <= q < left[k].end() && left[k].flags == f;
                    assert(r[k] == left[k]);
                } else {
                    assert(covers(p, q));
                    let k = choose|k: int| 0 <= k < p.len() && (#[trigger] p[k]).vaddr <= q < p[k].end();
                    assert(r[left.len() + k] == p[k]);
                    if !(start <= q < end) {
                        let i2 = choose|i: int| 0 <= i < s.len() && (#[trigger] s[i]).vaddr <= q < s[i].end() && s[i].flags == f;
                        if i2 != i {
                            assert(s[i2].end() <= s[i].vaddr);
                        }
                    }
                }
            }
        }
    } else {
        assert forall|q: int| covers(r, q) <==> covers(s, q) by {}
        assert forall|q: int, f: usize| #[trigger] holds_with(r, q, f) <==>
            (covers(s, q) && if start <= q < end { f == flags } else { holds_with(s, q, f) }) by {}
    }
}

/// The write-backs that syncing `[start, end)` asks for among the first `n`
/// pages of area `a`, in page order: one for each page in the range that
/// has a frame, when the area has a file.
pub open spec fn page_syncs(a: AreaView, start: int, end: int, n: nat) -> Seq<SyncRequest>
    decreases n,
{
    if n == 0 {
        Seq::empty()
    } else {
        let i = (n - 1) as int;
        let page = a.vaddr + i * PAGE_SIZE_4K;
        page_syncs(a, start, end, (n - 1) as nat) + if start <= page < end {
            match (a.pages[i], a.backend) {
                (Some(frame), Some(b)) => seq![SyncRequest { file: b.file, offset: (i * PAGE_SIZE_4K) as u64, frame }],
                _ => Seq::empty(),
            }
        } else {
            Seq::empty()
        }
    }
}

/// The write-backs that syncing `[start, end)` asks for in area `a`.
pub open spec fn area_syncs(a: AreaView, start: int, end: int) -> Seq<SyncRequest> {
    if a.backend is Some && a.overlaps(start, end) {
        page_syncs(a, start, end, a.pages.len())
    } else {
        Seq::empty()
    }
}

/// The write-backs that syncing `[start, end)` asks for in `s`, in order.
pub open spec fn sync_all(s: Seq<AreaView>, start: int, end: int) -> Seq<SyncRequest>
    decreases s.len(),
{
    if s.len() == 0 {
        Seq::empty()
    } else {
        sync_all(s.drop_last(), start, end) + area_syncs(s.last(), start, end)
    }
}

/// Among the first `n` pages of area `a`, every page with a frame whose start
/// address lies in `[start, end)` has its write-back in `page_syncs`, when the
/// area has a file.
proof fn lemma_page_syncs_has(a: AreaView, start: int, end: int, n: nat, i: int)
    requires
        0 <= i < n,
        n <= a.pages.len(),
        a.backend is Some,
        a.pages[i] is Some,
        start <= a.vaddr + i * PAGE_SIZE_4K < end,
    ensures
        page_syncs(a, start, end, n).contains(SyncRequest {
            file: a.backend.unwrap().file,
            offset: (i * PAGE_SIZE_4K) as u64,
            frame: a.pages[i].unwrap(),
        }),
    decreases n,
{
    let r = SyncRequest { file: a.backend.unwrap().file, offset: (i * PAGE_SIZE_4K) as u64, frame: a.pages[i].unwrap() };
    let prev = page_syncs(a, start, end, (n - 1) as nat);
    if i < n - 1 {
        lemma_page_syncs_has(a, start, end, (n - 1) as nat, i);
        let k = choose|k: int| 0 <= k < prev.len() && prev[k] == r;
        assert(page_syncs(a, start, end, n)[k] == r);
    } else {
        assert(page_syncs(a, start, end, n) == prev + seq![r]);
        assert(page_syncs(a, start, end, n)[prev.len() as int] == r);
    }
}

/// Syncing `[start, end)` writes back every page with a frame of every area
/// with a file whose start address lies in the range, whether or not the
/// page ends inside it: the request names the area's file, the page's
/// offset in the area and the page's frame.
pub proof fn lemma_sync_covers_page_starts(s: Seq<AreaView>, start: int, end: int, k: int, i: int)
    requires
        0 <= k < s.len(),
        0 <= i < s[k].pages.len(),
        s[k].backend is Some,
        s[k].pages[i] is Some,
        start <= s[k].vaddr + i * PAGE_SIZE_4K < end,
    ensures
        sync_all(s, start, end).contains(SyncRequest {
            file: s[k].backend.unwrap().file,
            offset: (i * PAGE_SIZE_4K) as u64,
            frame: s[k].pages[i].unwrap(),
        }),
    decreases s.len(),
{
    let a = s[k];
    let r = SyncRequest { file: a.backend.unwrap().file, offset: (i * PAGE_SIZE_4K) as u64, frame: a.pages[i].unwrap() };
    let prev = sync_all(s.drop_last(), start, end);
    if k < s.len() - 1 {
        assert(s.drop_last()[k] == a);
        lemma_sync_covers_page_starts(s.drop_last(), start, end, k, i);
        let j = choose|j: int| 0 <= j < prev.len() && prev[j] == r;
        assert(sync_all(s, start, end)[j] == r);
    } else {
        assert(s.last() == a);
        assert(i * PAGE_SIZE_4K < a.pages.len() * PAGE_SIZE_4K) by (nonlinear_arith)
            requires
                i < a.pages.len(),
        ;
        assert(a.overlaps(start, end));
        lemma_page_syncs_has(a, start, end, a.pages.len(), i);
        let ps = area_syncs(a, start, end);
        let j = choose|j: int| 0 <= j < ps.len() && ps[j] == r;
        assert(sync_all(s, start, end)[prev.len() + j] == r);
    }
}

/// Whether area `a` holds address `q`.
pub open spec fn holds(a: AreaView, q: int) -> bool {
    a.vaddr <= q < a.end()
}

/// What a page fault that an area decided comes to: a refusal fails with
/// `BadAddress`, anything else goes on.
pub open spec fn fault_result(d: FaultDecision) -> Result<FaultDecision, MemError> {
    match d {
        FaultDecision::Denied => Err(MemError::BadAddress),
        FaultDecision::OutOfRange => Err(MemError::BadAddress),
        _ => Ok(d),
    }
}

/// Area `a` once the page holding `addr` has frame `frame`.
pub open spec fn with_frame(a: AreaView, addr: int, frame: usize) -> AreaView {
    AreaView { pages: a.pages.update((addr - a.vaddr) / (PAGE_SIZE_4K as int), Some(frame)), ..a }
}

/// The area that `new_without_alloc` makes.
pub open spec fn fixed_area(vaddr: usize, num_pages: usize, flags: usize, shared: bool) -> AreaView {
    AreaView { pages: Seq::new(num_pages as nat, |i: int| None::<usize>), vaddr, shared, flags, backend: None }
}

/// The old pages that a remap copies, paired with where they go: each page
/// from the one holding `old_start` to the one holding the last byte, and
/// the page at the same distance from `new_start`.
pub open spec fn remap_pairs(old_start: int, old_size: int, new_start: int) -> Seq<(usize, usize)> {
    let first = align_down_spec(old_start);
    let last = align_down_spec(old_start + old_size - 1);
    Seq::new(((last - first) / (PAGE_SIZE_4K as int) + 1) as nat,
        |i: int| ((first + i * PAGE_SIZE_4K) as usize, (new_start + i * PAGE_SIZE_4K) as usize))
}

/// The page starts from the one holding `start` to the one holding `end`.
pub open spec fn page_starts(start: int, end: int) -> Seq<usize> {
    let first = align_down_spec(start);
    let last = align_down_spec(end);
    Seq::new(((last - first) / (PAGE_SIZE_4K as int) + 1) as nat, |i: int| (first + i * PAGE_SIZE_4K) as usize)
}

/// What remains of well-formed areas after unmapping is well formed and
/// ends where the last area ended, at the latest.
pub proof fn lemma_split_all_sorted(s: Seq<AreaView>, start: int, end: int)
    requires
        areas_wf(s),
        split_ok(s, start, end),
        0 <= start < end <= usize::MAX,
    ensures
        areas_wf(split_all(s, start, end)),
        s.len() > 0 ==> forall|k: int| 0 <= k < split_all(s, start, end).len() ==>
            (#[trigger] split_all(s, start, end)[k]).end() <= s.last().end(),
    decreases s.len(),
{
    if s.len() > 0 {
        let init = s.drop_last();
        let a = s.last();
        assert forall|i: int, j: int| 0 <= i < j < init.len() implies (#[trigger] init[i]).vaddr < (#[trigger] init[j]).vaddr
            && init[i].end() <= init[j].vaddr by {
            assert(init[i] == s[i] && init[j] == s[j]);
        }
        assert forall|i: int| 0 <= i < init.len() implies (#[trigger] init[i]).wf() && aligned(init[i].vaddr as int)
            && init[i].pages.len() > 0 by {
            assert(init[i] == s[i]);
        }
        assert forall|i: int| 0 <= i < init.len() && #[trigger] cuts_at_start(init[i], start, end) implies aligned(start) by {
            assert(init[i] == s[i]);
        }
        lemma_split_all_sorted(init, start, end);
        assert(a == s[s.len() - 1]);
        if cuts_at_start(a, start, end) {
            assert(cuts_at_start(s[s.len() - 1], start, end));
        }
        lemma_split_pieces(a, start, end);
        let left = split_all(init, start, end);
        let p = split_pieces(a, start, end);
        assert(split_all(s, start, end) == left + p);
        if init.len() > 0 {
            assert(init.last() == s[s.len() - 2]);
            assert(s[s.len() - 2].end() <= s[s.len() - 1].vaddr);
            assert forall|k: int| 0 <= k < left.len() implies (#[trigger] left[k]).end() <= a.vaddr && left[k].vaddr < a.vaddr by {
                assert(left[k].pages.len() > 0);
            }
        }
        lemma_append_pieces(left, a, p, None);
        assert forall|k: int| 0 <= k < (left + p).len() implies (#[trigger] (left + p)[k]).end() <= a.end() by {
            if k < left.len() {
                assert((left + p)[k] == left[k]);
                if init.len() > 0 {
                    assert(s[s.len() - 2].end() <= s[s.len() - 1].vaddr);
                }
            } else {
                assert((left + p)[k] == p[k - left.len()]);
            }
        }
    }
}

/// Sorted areas none of which starts at `v` split around `v` somewhere.
pub proof fn lemma_insert_index(t: Seq<AreaView>, v: usize)
    requires
        forall|i: int, j: int| 0 <= i < j < t.len() ==> (#[trigger] t[i]).vaddr < (#[trigger] t[j]).vaddr,
        forall|i: int| 0 <= i < t.len() ==> (#[trigger] t[i]).vaddr != v,
    ensures
        splits_at(t, v, insert_index(t, v)),
    decreases t.len(),
{
    if t.len() == 0 {
        assert(splits_at(t, v, 0));
    } else if t.last().vaddr < v {
        assert(splits_at(t, v, t.len() as int));
    } else {
        let init = t.drop_last();
        assert forall|i: int, j: int| 0 <= i < j < init.len() implies (#[trigger] init[i]).vaddr < (#[trigger] init[j]).vaddr by {
            assert(init[i] == t[i] && init[j] == t[j]);
        }
        assert forall|i: int| 0 <= i < init.len() implies (#[trigger] init[i]).vaddr != v by {
            assert(init[i] == t[i]);
        }
        lemma_insert_index(init, v);
        let k = insert_index(init, v);
        assert(t.last() == t[t.len() - 1]);
        assert forall|i: int| 0 <= i < k implies (#[trigger] t[i]).vaddr < v by {
            assert(init[i] == t[i]);
        }
        assert forall|i: int| k <= i < t.len() implies (#[trigger] t[i]).vaddr > v by {
            if i < init.len() {
                assert(init[i] == t[i]);
            }
        }
        assert(splits_at(t, v, k));
    }
}

/// Entering an area: an address is held with flags `f` afterwards exactly
/// when the new area holds it and has flags `f`, or it was held with `f`.
pub proof fn lemma_insert_region(t: Seq<AreaView>, k: int, region: AreaView)
    requires
        0 <= k <= t.len(),
    ensures
        forall|q: int, f: usize| #[trigger] holds_with(t.insert(k, region), q, f) <==>
            ((region.vaddr <= q < region.end() && f == region.flags) || holds_with(t, q, f)),
{
    let r = t.insert(k, region);
    assert forall|q: int, f: usize| #[trigger] holds_with(r, q, f) <==>
        ((region.vaddr <= q < region.end() && f == region.flags) || holds_with(t, q, f)) by {
        if holds_with(r, q, f) {
            let i = choose|i: int| 0 <= i < r.len() && (#[trigger] r[i]).vaddr <= q < r[i].end() && r[i].flags == f;
            if i < k {
                assert(r[i] == t[i]);
            } else if i > k {
                assert(r[i] == t[i - 1]);
            }
        }
        if region.vaddr <= q < region.end() && f == region.flags {
            assert(r[k] == region);
        }
        if holds_with(t, q, f) {
            let i = choose|i: int| 0 <= i < t.len() && (#[trigger] t[i]).vaddr <= q < t[i].end() && t[i].flags == f;
            if i < k {
                assert(r[i] == t[i]);
            } else {
                assert(r[i + 1] == t[i]);
            }
        }
    }
}

/// A fixed mapping of `[start, start + len)` with flags `flags` replaces
/// whatever was there: afterwards an address in the range is held with
/// `flags` alone, and an address outside it with the flags it had.
pub proof fn lemma_mmap_fixed_exact(s: Seq<AreaView>, start: usize, len: int, region: AreaView)
    requires
        areas_wf(s),
        split_ok(s, start as int, start + len),
        len > 0,
        start + len <= usize::MAX,
        region.vaddr == start,
        region.end() == start + len,
        region.pages.len() > 0,
    ensures
        ({
            let t = split_all(s, start as int, start + len);
            let m = t.insert(insert_index(t, start), region);
            forall|q: int, f: usize| #[trigger] holds_with(m, q, f) <==>
                if start <= q < start + len { f == region.flags } else { holds_with(s, q, f) }
        }),
{
    let t = split_all(s, start as int, start + len);
    lemma_unmap_exact(s, start as int, start + len);
    let k = insert_index(t, start);
    lemma_split_all_sorted(s, start as int, start + len);
    assert forall|q: int| 0 <= q < t.len() implies (#[trigger] t[q]).vaddr != start by {
        assert(t[q].end() <= start || start + len <= t[q].vaddr);
        assert(t[q].pages.len() > 0);
    }
    lemma_insert_index(t, start);
    lemma_insert_region(t, k, region);
    let m = t.insert(k, region);
    assert forall|q: int, f: usize| #[trigger] holds_with(m, q, f) <==>
        if start <= q < start + len { f == region.flags } else { holds_with(s, q, f) } by {
        assert(holds_with(m, q, f) <==> ((region.vaddr <= q < region.end() && f == region.flags) || holds_with(t, q, f)));
        assert(holds_with(t, q, f) <==> (holds_with(s, q, f) && !(start <= q < start + len)));
    }
}

/// The models of a sequence of areas.
pub open spec fn views(v: Seq<MapArea>) -> Seq<AreaView> {
    v.map_values(|a: MapArea| a@)
}

/// An address space.
pub struct MemorySet {
    owned_mem: Vec<MapArea>,
    attached_mem: Vec<AttachedMem>,
    private_mem: BTreeMap<i32, u64>,
}

impl MemorySet {
    /// The areas, in address order.
    pub closed spec fn areas(&self) -> Seq<AreaView> {
        views(self.owned_mem@)
    }

    /// The attached shared memory segments, in the order they were attached.
    pub closed spec fn attached(&self) -> Seq<AttachedMem> {
        self.attached_mem@
    }

    /// The shared memory segments private to the process, by id, each
    /// named by its handle.
    pub closed spec fn private(&self) -> Map<i32, u64> {
        self.private_mem@
    }

    /// Whether the address space is well formed: the areas are in order and
    /// apart, and the attached segments fit the address space and keep
    /// apart from each other and from every area.
    pub open spec fn wf(&self) -> bool {
        &&& areas_wf(self.areas())
        &&& attached_wf(self.attached())
        &&& forall|i: int| 0 <= i < self.areas().len() ==> apart_from_attached(#[trigger] self.areas()[i], self.attached())
    }

    /// An address space without areas or segments.
    pub fn new_empty() -> (m: Self)
        ensures
            m.wf(),
            m.areas() == Seq::<AreaView>::empty(),
            m.attached() == Seq::<AttachedMem>::empty(),
            m.private() == Map::<i32, u64>::empty(),
    {
        let m = MemorySet { owned_mem: Vec::new(), attached_mem: Vec::new(), private_mem: BTreeMap::new() };
        assert(m.areas() =~= Seq::<AreaView>::empty());
        m
    }

    /// The end of the area with the highest start address, or 0 without
    /// areas.
    pub fn max_va(&self) -> (v: usize)
        requires
            self.wf(),
        ensures
            v == if self.areas().len() == 0 { 0 } else { self.areas().last().end() as usize },
    {
        let n = self.owned_mem.len();
        if n == 0 {
            0
        } else {
            let a = &self.owned_mem[n - 1];
            assert(self.areas()[n - 1] == a@);
            assert(a@.wf());
            a.end_va()
        }
    }

    /// Start, end and flags of each area, in address order.
    pub fn regions(&self) -> (r: Vec<(usize, usize, usize)>)
        requires
            self.wf(),
        ensures
            r@ == self.areas().map_values(|a: AreaView| (a.vaddr, a.end() as usize, a.flags)),
    {
        let mut r: Vec<(usize, usize, usize)> = Vec::new();
        let mut i: usize = 0;
        while i < self.owned_mem.len()
            invariant
                areas_wf(self.areas()),
                i <= self.areas().len(),
                r@ == self.areas().take(i as int).map_values(|a: AreaView| (a.vaddr, a.end() as usize, a.flags)),
            decreases self.areas().len() - i,
        {
            let a = &self.owned_mem[i];
            proof {
                assert(self.areas()[i as int] == a@);
            }
            r.push((a.start(), a.end_va(), a.map_flags()));
            proof {
                assert(self.areas().take(i + 1) =~= self.areas().take(i as int).push(a@));
                assert(r@ =~= self.areas().take(i + 1).map_values(|a: AreaView| (a.vaddr, a.end() as usize, a.flags)));
            }
            i = i + 1;
        }
        proof {
            assert(self.areas().take(self.areas().len() as int) =~= self.areas());
        }
        r
    }

    /// Adds area `area`, keeping the areas sorted.
    fn insert_area(&mut self, area: MapArea)
        requires
            old(self).wf(),
            insertable(old(self).areas(), area@),
            apart_from_attached(area@, old(self).attached()),
        ensures
            final(self).wf(),
            final(self).areas() == old(self).areas().insert(insert_index(old(self).areas(), area@.vaddr), area@),
            final(self).attached() == old(self).attached(),
            final(self).private() == old(self).private(),
    {
        let ghost s = self.areas();
        let ghost a = area@;
        let mut k: usize = 0;
        while k < self.owned_mem.len() && self.owned_mem[k].start() < area.start()
            invariant
                s == self.areas(),
                self.attached() == old(self).attached(),
                self.private() == old(self).private(),
                old(self).wf(),
                area@ == a,
                k <= s.len(),
                forall|i: int| 0 <= i < k ==> (#[trigger] s[i]).vaddr < a.vaddr,
            decreases s.len() - k,
        {
            k = k + 1;
        }
        proof {
            if k < s.len() {
                assert(s[k as int].vaddr >= a.vaddr);
                assert(s[k as int].vaddr != a.vaddr);
            }
            assert forall|i: int| k <= i < s.len() implies (#[trigger] s[i]).vaddr > a.vaddr by {
                if i > k {
                    assert(s[k as int].vaddr < s[i].vaddr);
                }
            }
            let kk = insert_index(s, a.vaddr);
            assert(splits_at(s, a.vaddr, k as int));
            if kk != k as int {
                if kk < k as int {
                    assert(s[kk].vaddr < a.vaddr);
                    assert(s[kk].vaddr > a.vaddr);
                } else {
                    assert(s[k as int].vaddr < a.vaddr);
                    assert(s[k as int].vaddr > a.vaddr);
                }
            }
        }
        self.owned_mem.insert(k, area);
        proof {
            let t = s.insert(k as int, a);
            assert(self.areas() =~= t);
            assert forall|i: int| 0 <= i < t.len() implies (#[trigger] t[i]).wf() && aligned(t[i].vaddr as int)
                && t[i].pages.len() > 0 by {
                if i > k {
                    assert(t[i] == s[i - 1]);
                }
            }
            assert forall|i: int, j: int| 0 <= i < j < t.len() implies (#[trigger] t[i]).vaddr < (#[trigger] t[j]).vaddr
                && t[i].end() <= t[j].vaddr by {
                if j < k {
                } else if i < k && j == k {
                } else if i < k && j > k {
                    assert(t[j] == s[j - 1]);
                } else if i == k {
                    assert(t[j] == s[j - 1]);
                } else {
                    assert(t[i] == s[i - 1]);
                    assert(t[j] == s[j - 1]);
                }
            }
            assert(areas_wf(t));
            assert(areas_wf(self.areas()));
            assert forall|i: int| 0 <= i < t.len() implies apart_from_attached(#[trigger] t[i], self.attached()) by {
                if i > k {
                    assert(t[i] == s[i - 1]);
                } else if i < k {
                    assert(t[i] == s[i]);
                }
            }
        }
    }

    /// Allocates the region `[vaddr, vaddr + size)` rounded up to whole
    /// pages: over the frames from `frame` on when data was supplied,
    /// lazily otherwise.
    pub fn new_region(&mut self, vaddr: usize, size: usize, shared: bool, flags: usize, frame: Option<usize>, backend: Option<MemBackend>) -> (op: PtOp)
        requires
            old(self).wf(),
            size + PAGE_SIZE_4K - 1 <= usize::MAX,
            vaddr + pages_for(size as int) * PAGE_SIZE_4K <= usize::MAX,
            pages_for(size as int) > 0,
            frame matches Some(f) ==> f + pages_for(size as int) * PAGE_SIZE_4K <= usize::MAX,
            insertable(old(self).areas(), region_area(vaddr, size, shared, flags, frame, backend)),
            apart_from_attached(region_area(vaddr, size, shared, flags, frame, backend), old(self).attached()),
        ensures
            final(self).wf(),
            final(self).areas() == old(self).areas().insert(
                insert_index(old(self).areas(), vaddr),
                region_area(vaddr, size, shared, flags, frame, backend),
            ),
            final(self).attached() == old(self).attached(),
            final(self).private() == old(self).private(),
            op == region_op(vaddr, size, flags, frame),
    {
        let num_pages = (size + (PAGE_SIZE_4K - 1)) / PAGE_SIZE_4K;
        let (mut area, op) = match frame {
            Some(f) => MapArea::new_alloc(vaddr, f, num_pages, flags, backend),
            None => MapArea::new_lazy(vaddr, num_pages, flags, backend),
        };
        if shared {
            area.set_shared(shared);
        }
        assert(area@ =~= region_area(vaddr, size, shared, flags, frame, backend));
        self.insert_area(area);
        op
    }

    /// Makes `[start, start + size)` unmapped: areas inside it go, areas
    /// that hold it lose their middle, areas reaching into it are cut back.
    /// Returns the page-table edits, in address order.
    pub fn split_for_area(&mut self, start: usize, size: usize) -> (ops: Vec<PtOp>)
        requires
            old(self).wf(),
            size > 0,
            start + size <= usize::MAX,
            split_ok(old(self).areas(), start as int, start + size),
        ensures
            final(self).wf(),
            final(self).areas() == split_all(old(self).areas(), start as int, start + size),
            final(self).attached() == old(self).attached(),
            final(self).private() == old(self).private(),
            ops@ == split_ops(old(self).areas(), start as int, start + size),
    {
        let end = start + size;
        let ghost s = self.areas();
        let ghost e = end as int;
        let mut rest: Vec<MapArea> = Vec::new();
        std::mem::swap(&mut rest, &mut self.owned_mem);
        let mut out: Vec<MapArea> = Vec::new();
        let mut ops: Vec<PtOp> = Vec::new();
        proof {
            assert(s.take(0) =~= Seq::<AreaView>::empty());
            assert(views(rest@) =~= s.skip(0));
            assert(views(out@) =~= Seq::<AreaView>::empty());
        }
        while rest.len() > 0
            invariant
                areas_wf(s),
                split_ok(s, start as int, e),
                e == start + size,
                end == e,
                size > 0,
                rest.len() <= s.len(),
                views(rest@) == s.skip(s.len() - rest.len()),
                views(out@) == split_all(s.take(s.len() - rest.len()), start as int, e),
                ops@ == split_ops(s.take(s.len() - rest.len()), start as int, e),
                areas_wf(views(out@)),
                forall|k: int| 0 <= k < out.len() ==> apart_from_attached(#[trigger] views(out@)[k], self.attached()),
                attached_wf(self.attached()),
                forall|i: int| 0 <= i < s.len() ==> apart_from_attached(#[trigger] s[i], self.attached()),
                rest.len() > 0 ==> forall|k: int| 0 <= k < out.len() ==>
                    (#[trigger] views(out@)[k]).end() <= s[s.len() - rest.len()].vaddr
                    && views(out@)[k].vaddr < s[s.len() - rest.len()].vaddr,
                self.attached() == old(self).attached(),
                self.private() == old(self).private(),
            decreases rest.len(),
        {
            let ghost i = s.len() - rest.len();
            let ghost before = views(out@);
            let ghost ops_before = ops@;
            let ghost rest_before = rest@;
            let mut area = rest.remove(0);
            let ghost a = area@;
            proof {
                assert(views(rest_before)[0] == s.skip(i)[0]);
                assert(views(rest@) =~= views(rest_before).skip(1));
                assert(views(rest@) =~= s.skip(i + 1));
                assert(a == s[i]);
                assert(a.wf() && aligned(a.vaddr as int) && a.pages.len() > 0);
                assert(s.take(i + 1).drop_last() =~= s.take(i));
                assert(s.take(i + 1).last() == s[i]);
                if cuts_at_start(a, start as int, e) {
                    assert(cuts_at_start(s[i], start as int, e));
                }
                lemma_split_pieces(a, start as int, e);
            }
            if area.overlap_with(start, end) {
                if area.contained_in(start, end) {
                    let op = area.dealloc();
                    ops.push(op);
                } else if area.strict_contain(start, end) {
                    let (right, op) = area.remove_mid(start, end);
                    ops.push(op);
                    out.push(area);
                    out.push(right);
                } else if start <= area.start() && area.start() < end {
                    let op = area.shrink_left(end);
                    ops.push(op);
                    out.push(area);
                } else {
                    let op = area.shrink_right(start);
                    ops.push(op);
                    out.push(area);
                }
            } else {
                out.push(area);
            }
            proof {
                let pieces = split_pieces(a, start as int, e);
                assert(views(out@) =~= before + pieces);
                assert(ops@ =~= ops_before + split_op(a, start as int, e));
                assert forall|k: int| 0 <= k < before.len() implies (#[trigger] before[k]).end() <= a.vaddr
                    && before[k].vaddr < a.vaddr by {
                    assert(before[k] == views(out@)[k]);
                }
                let next = if i + 1 < s.len() { Some(s[i + 1]) } else { None };
                lemma_append_pieces(before, a, pieces, next);
                assert(apart_from_attached(s[i], self.attached()));
                assert forall|k: int| 0 <= k < out.len() implies apart_from_attached(#[trigger] views(out@)[k], self.attached()) by {
                    if k >= before.len() {
                        assert(views(out@)[k] == pieces[k - before.len()]);
                        lemma_apart_inner(a, pieces[k - before.len()], self.attached());
                    } else {
                        assert(views(out@)[k] == before[k]);
                    }
                }
            }
        }
        proof {
            assert(s.take(s.len() as int) =~= s);
        }
        self.owned_mem = out;
        ops
    }

    /// Whether a search for `size` bytes from `hint` stays within the
    /// address space at every step, as `find_free_area` and `mmap` need.
    pub fn search_fits_check(&self, hint: usize, size: usize) -> (b: bool)
        requires
            self.wf(),
        ensures
            b == search_fits(segments(self.areas(), self.attached()), hint, size),
    {
        let ghost segs = segments(self.areas(), self.attached());
        let ghost na = self.areas().len();
        let start = if hint > USER_MEMORY_START { hint } else { USER_MEMORY_START };
        if size > usize::MAX - start {
            return false;
        }
        let mut i: usize = 0;
        while i < self.owned_mem.len()
            invariant
                self.wf(),
                segs == segments(self.areas(), self.attached()),
                na == self.areas().len(),
                i <= na,
                forall|k: int| 0 <= k < i ==> (#[trigger] segs[k]).1 + size <= usize::MAX,
            decreases na - i,
        {
            let a = &self.owned_mem[i];
            proof {
                assert(self.areas()[i as int] == a@);
                assert(segs[i as int] == seg_of_area(a@));
            }
            let e = a.end_va();
            if size > usize::MAX - e {
                return false;
            }
            i = i + 1;
        }
        let mut j: usize = 0;
        while j < self.attached_mem.len()
            invariant
                self.wf(),
                segs == segments(self.areas(), self.attached()),
                na == self.areas().len(),
                j <= self.attached().len(),
                forall|k: int| 0 <= k < na + j ==> (#[trigger] segs[k]).1 + size <= usize::MAX,
            decreases self.attached().len() - j,
        {
            let m = self.attached_mem[j];
            proof {
                assert(self.attached()[j as int] == m);
                assert(segs[na + j] == seg_of_attached(m));
            }
            if size > usize::MAX - (m.addr + m.size) {
                return false;
            }
            j = j + 1;
        }
        true
    }

    /// Looks for `size` free bytes: scans the areas' and attached segments'
    /// ranges in address order and returns the first gap, starting from
    /// `hint` but not below `USER_MEMORY_START`.
    pub fn find_free_area(&self, hint: usize, size: usize) -> (r: Option<usize>)
        requires
            self.wf(),
            search_fits(segments(self.areas(), self.attached()), hint, size),
        ensures
            r == free_scan(segments(self.areas(), self.attached()).sort_by(seg_order()), search_start(hint) as int, size as int),
            r matches Some(x) ==> {
                &&& x + size <= usize::MAX
                &&& forall|i: int| 0 <= i < self.areas().len() ==>
                    apart((x, (x + size) as usize), seg_of_area(#[trigger] self.areas()[i]))
                &&& forall|j: int| 0 <= j < self.attached().len() ==>
                    apart((x, (x + size) as usize), seg_of_attached(#[trigger] self.attached()[j]))
            },
    {
        let ghost areas = self.areas();
        let ghost att = self.attached();
        let mut segs: Vec<(usize, usize)> = Vec::new();
        let mut i: usize = 0;
        while i < self.owned_mem.len()
            invariant
                areas == self.areas(),
                areas_wf(areas),
                i <= areas.len(),
                segs@ =~= areas.take(i as int).map_values(|a: AreaView| seg_of_area(a)),
            decreases areas.len() - i,
        {
            let a = &self.owned_mem[i];
            proof {
                assert(areas[i as int] == a@);
            }
            segs.push((a.start(), a.end_va()));
            proof {
                assert(areas.take(i + 1) =~= areas.take(i as int).push(a@));
            }
            i = i + 1;
        }
        let mut j: usize = 0;
        proof {
            assert(areas.take(areas.len() as int) =~= areas);
        }
        while j < self.attached_mem.len()
            invariant
                att == self.attached(),
                attached_wf(att),
                j <= att.len(),
                segs@ =~= areas.map_values(|a: AreaView| seg_of_area(a)) + att.take(j as int).map_values(|m: AttachedMem| seg_of_attached(m)),
            decreases att.len() - j,
        {
            let m = self.attached_mem[j];
            proof {
                assert(att[j as int] == m);
            }
            segs.push((m.addr, m.addr + m.size));
            proof {
                assert(att.take(j + 1) =~= att.take(j as int).push(m));
            }
            j = j + 1;
        }
        proof {
            assert(att.take(att.len() as int) =~= att);
            assert(segs@ =~= segments(areas, att));
        }
        let ghost unsorted = segs@;
        let sorted = sort_segments(segs);
        let ghost start0 = search_start(hint) as int;
        proof {
            lemma_seg_order_total();
            unsorted.lemma_sort_by_ensures(seg_order());
            assert forall|q: int| 0 <= q < sorted@.len() implies (#[trigger] sorted@[q]).1 + size <= usize::MAX by {
                assert(sorted@.contains(sorted@[q]));
            }
            lemma_segments_apart(areas, att);
            assert forall|x: (usize, usize)| sorted@.contains(x) implies unsorted.contains(x) by {}
            lemma_sorted_segments_apart(unsorted, sorted@);
            lemma_free_scan_apart(sorted@, start0, size as int);
            if free_scan(sorted@, start0, size as int) is Some {
                let x = free_scan(sorted@, start0, size as int)->0;
                assert(x + size <= usize::MAX) by {
                    lemma_free_scan_bound(sorted@, start0, size as int);
                }
                assert forall|q: int| 0 <= q < unsorted.len() implies
                    apart((x, (x + size) as usize), #[trigger] unsorted[q]) by {
                    vstd::seq_lib::to_multiset_contains(unsorted, unsorted[q]);
                    vstd::seq_lib::to_multiset_contains(sorted@, unsorted[q]);
                    assert(unsorted.contains(unsorted[q]));
                    let p = choose|p: int| 0 <= p < sorted@.len() && sorted@[p] == unsorted[q];
                    assert(apart((x, (x + size) as usize), sorted@[p]));
                }
                assert forall|i: int| 0 <= i < areas.len() implies
                    apart((x, (x + size) as usize), seg_of_area(#[trigger] areas[i])) by {
                    assert(unsorted[i] == seg_of_area(areas[i]));
                }
                assert forall|j: int| 0 <= j < att.len() implies
                    apart((x, (x + size) as usize), seg_of_attached(#[trigger] att[j])) by {
                    assert(unsorted[areas.len() + j] == seg_of_attached(att[j]));
                }
            }
        }
        let mut last_end: usize = if hint > USER_MEMORY_START { hint } else { USER_MEMORY_START };
        let mut k: usize = 0;
        proof {
            assert(sorted@.skip(0) =~= sorted@);
        }
        while k < sorted.len()
            invariant
                k <= sorted@.len(),
                free_scan(sorted@, start0, size as int) == free_scan(sorted@.skip(k as int), last_end as int, size as int),
                last_end + size <= usize::MAX,
                forall|q: int| 0 <= q < sorted@.len() ==> (#[trigger] sorted@[q]).1 + size <= usize::MAX,
                sorted@ == segments(self.areas(), self.attached()).sort_by(seg_order()),
                start0 == search_start(hint) as int,
                free_scan(sorted@, start0, size as int) matches Some(x) ==> {
                    &&& x + size <= usize::MAX
                    &&& forall|i: int| 0 <= i < self.areas().len() ==>
                        apart((x, (x + size) as usize), seg_of_area(#[trigger] self.areas()[i]))
                    &&& forall|j: int| 0 <= j < self.attached().len() ==>
                        apart((x, (x + size) as usize), seg_of_attached(#[trigger] self.attached()[j]))
                },
            decreases sorted@.len() - k,
        {
            let (st, en) = sorted[k];
            proof {
                assert(sorted@.skip(k as int)[0] == sorted@[k as int]);
                assert(sorted@.skip(k as int).drop_first() =~= sorted@.skip(k + 1));
            }
            if last_end + size <= st {
                assert(free_scan(sorted@.skip(k as int), last_end as int, size as int) == Some(last_end));
                return Some(last_end);
            }
            last_end = en;
            k = k + 1;
        }
        None
    }

    /// Unmaps `[start, start + size)`, the size rounded up to whole pages.
    pub fn munmap(&mut self, start: usize, size: usize) -> (ops: Vec<PtOp>)
        requires
            old(self).wf(),
            size > 0,
            size + PAGE_SIZE_4K - 1 <= usize::MAX,
            start + page_round(size as int) <= usize::MAX,
            split_ok(old(self).areas(), start as int, start + page_round(size as int)),
        ensures
            final(self).wf(),
            final(self).areas() == split_all(old(self).areas(), start as int, start + page_round(size as int)),
            final(self).attached() == old(self).attached(),
            final(self).private() == old(self).private(),
            ops@ == split_ops(old(self).areas(), start as int, start + page_round(size as int)),
    {
        proof {
            lemma_page_round(size as int);
        }
        let len = (size + (PAGE_SIZE_4K - 1)) / PAGE_SIZE_4K * PAGE_SIZE_4K;
        self.split_for_area(start, len)
    }

    /// Maps `size` bytes, rounded up to whole pages, loaded lazily: at
    /// `start` when `fixed`, after unmapping what was there, or else in the
    /// first gap large enough from `start` on. Returns the start of the
    /// mapping and the page-table edits.
    pub fn mmap(&mut self, start: usize, size: usize, flags: usize, shared: bool, fixed: bool, backend: Option<MemBackend>) -> (r: Result<(usize, Vec<PtOp>), MemError>)
        requires
            old(self).wf(),
            size > 0,
            size + PAGE_SIZE_4K - 1 <= usize::MAX,
            aligned(start as int),
            backend matches Some(b) ==> b.offset + page_round(size as int) <= u64::MAX,
            fixed ==> start + page_round(size as int) <= usize::MAX,
            fixed ==> split_ok(old(self).areas(), start as int, start + page_round(size as int)),
            fixed ==> apart_from_attached(
                region_area(start, page_round(size as int) as usize, shared, flags, None, backend),
                old(self).attached(),
            ),
            !fixed ==> search_fits(segments(old(self).areas(), old(self).attached()), start, page_round(size as int) as usize),
        ensures
            final(self).wf(),
            final(self).attached() == old(self).attached(),
            final(self).private() == old(self).private(),
            ({
                let len = page_round(size as int);
                let s = old(self).areas();
                if fixed {
                    let t = split_all(s, start as int, start + len);
                    &&& r matches Ok((addr, ops)) && addr == start
                        && ops@ == split_ops(s, start as int, start + len).push(region_op(start, len as usize, flags, None))
                    &&& final(self).areas() == t.insert(insert_index(t, start),
                        region_area(start, len as usize, shared, flags, None, backend))
                } else {
                    match mmap_target(s, old(self).attached(), start, len) {
                        None => r == Err::<(usize, Vec<PtOp>), MemError>(MemError::NoMemory) && final(self).areas() == s,
                        Some(x) => {
                            &&& r matches Ok((addr, ops)) && addr == x && ops@ == seq![region_op(x, len as usize, flags, None)]
                            &&& final(self).areas() == s.insert(insert_index(s, x),
                                region_area(x, len as usize, shared, flags, None, backend))
                        },
                    }
                }
            }),
    {
        proof {
            lemma_page_round(size as int);
        }
        let len = (size + (PAGE_SIZE_4K - 1)) / PAGE_SIZE_4K * PAGE_SIZE_4K;
        let ghost s = self.areas();
        if fixed {
            let mut ops = self.split_for_area(start, len);
            proof {
                lemma_unmap_exact(s, start as int, start + len);
                let region = region_area(start, len, shared, flags, None, backend);
                assert(region.pages.len() == pages_for(len as int));
                lemma_insertable_clear(self.areas(), region);
            }
            let op = self.new_region(start, len, shared, flags, None, backend);
            ops.push(op);
            Ok((start, ops))
        } else {
            let found = self.find_free_area(start, len);
            match found {
                Some(x) => {
                    proof {
                        let region = region_area(x, len, shared, flags, None, backend);
                        assert(region.pages.len() == pages_for(len as int));
                        lemma_segments_aligned(s, self.attached());
                        lemma_seg_order_total();
                        segments(s, self.attached()).lemma_sort_by_ensures(seg_order());
                        let sorted = segments(s, self.attached()).sort_by(seg_order());
                        assert forall|k: int| 0 <= k < sorted.len() implies aligned((#[trigger] sorted[k]).1 as int) by {
                            assert(sorted.contains(sorted[k]));
                        }
                        lemma_free_scan_aligned(sorted, search_start(start) as int, len as int);
                        assert forall|k: int| 0 <= k < s.len() implies (#[trigger] s[k]).end() <= region.vaddr
                            || region.end() <= s[k].vaddr by {
                            assert(apart((x, (x + len) as usize), seg_of_area(s[k])));
                        }
                        lemma_insertable_clear(s, region);
                        assert(apart_from_attached(region, self.attached())) by {
                            assert forall|j: int| 0 <= j < self.attached().len() implies
                                apart(seg_of_area(region), seg_of_attached(#[trigger] self.attached()[j])) by {
                                assert(apart((x, (x + len) as usize), seg_of_attached(self.attached()[j])));
                            }
                        }
                    }
                    let op = self.new_region(x, len, shared, flags, None, backend);
                    let mut ops: Vec<PtOp> = Vec::new();
                    ops.push(op);
                    proof {
                        assert(ops@ =~= seq![region_op(x, len, flags, None)]);
                    }
                    Ok((x, ops))
                },
                None => Err(MemError::NoMemory),
            }
        }
    }

    /// Gives `[start, start + size)` mapping flags `flags`: areas inside it
    /// change whole, areas reaching into it are split at its bounds and only
    /// the part inside changes. Returns the page-table edits, in address
    /// order.
    pub fn mprotect(&mut self, start: usize, size: usize, flags: usize) -> (ops: Vec<PtOp>)
        requires
            old(self).wf(),
            size > 0,
            start + size <= usize::MAX,
            split_ok(old(self).areas(), start as int, start + size),
        ensures
            final(self).wf(),
            final(self).areas() == protect_all(old(self).areas(), start as int, start + size, flags),
            final(self).attached() == old(self).attached(),
            final(self).private() == old(self).private(),
            ops@ == protect_ops(old(self).areas(), start as int, start + size, flags),
    {
        let end = start + size;
        let ghost s = self.areas();
        let ghost e = end as int;
        let mut rest: Vec<MapArea> = Vec::new();
        std::mem::swap(&mut rest, &mut self.owned_mem);
        let mut out: Vec<MapArea> = Vec::new();
        let mut ops: Vec<PtOp> = Vec::new();
        proof {
            assert(s.take(0) =~= Seq::<AreaView>::empty());
            assert(views(rest@) =~= s.skip(0));
            assert(views(out@) =~= Seq::<AreaView>::empty());
        }
        while rest.len() > 0
            invariant
                areas_wf(s),
                split_ok(s, start as int, e),
                e == start + size,
                end == e,
                size > 0,
                rest.len() <= s.len(),
                views(rest@) == s.skip(s.len() - rest.len()),
                views(out@) == protect_all(s.take(s.len() - rest.len()), start as int, e, flags),
                ops@ == protect_ops(s.take(s.len() - rest.len()), start as int, e, flags),
                areas_wf(views(out@)),
                forall|k: int| 0 <= k < out.len() ==> apart_from_attached(#[trigger] views(out@)[k], self.attached()),
                attached_wf(self.attached()),
                forall|i: int| 0 <= i < s.len() ==> apart_from_attached(#[trigger] s[i], self.attached()),
                rest.len() > 0 ==> forall|k: int| 0 <= k < out.len() ==>
                    (#[trigger] views(out@)[k]).end() <= s[s.len() - rest.len()].vaddr
                    && views(out@)[k].vaddr < s[s.len() - rest.len()].vaddr,
                self.attached() == old(self).attached(),
                self.private() == old(self).private(),
            decreases rest.len(),
        {
            let ghost i = s.len() - rest.len();
            let ghost before = views(out@);
            let ghost ops_before = ops@;
            let ghost rest_before = rest@;
            let mut area = rest.remove(0);
            let ghost a = area@;
            proof {
                assert(views(rest_before)[0] == s.skip(i)[0]);
                assert(views(rest@) =~= views(rest_before).skip(1));
                assert(views(rest@) =~= s.skip(i + 1));
                assert(a == s[i]);
                assert(a.wf() && aligned(a.vaddr as int) && a.pages.len() > 0);
                assert(s.take(i + 1).drop_last() =~= s.take(i));
                assert(s.take(i + 1).last() == s[i]);
                if cuts_at_start(a, start as int, e) {
                    assert(cuts_at_start(s[i], start as int, e));
                }
                lemma_protect_pieces(a, start as int, e, flags);
            }
            if area.overlap_with(start, end) {
                if area.contained_in(start, end) {
                    let op = area.update_flags(flags);
                    ops.push(op);
                    out.push(area);
                } else if area.strict_contain(start, end) {
                    let (mut mid, right) = area.split3(start, end);
                    let op = mid.update_flags(flags);
                    ops.push(op);
                    out.push(area);
                    out.push(mid);
                    out.push(right);
                } else if start <= area.start() && area.start() < end {
                    let right = area.split(end);
                    let op = area.update_flags(flags);
                    ops.push(op);
                    out.push(area);
                    out.push(right);
                } else {
                    let mut right = area.split(start);
                    let op = right.update_flags(flags);
                    ops.push(op);
                    out.push(area);
                    out.push(right);
                }
            } else {
                out.push(area);
            }
            proof {
                let pieces = protect_pieces(a, start as int, e, flags);
                assert(views(out@) =~= before + pieces);
                assert(ops@ =~= ops_before + protect_op(a, start as int, e, flags));
                assert forall|k: int| 0 <= k < before.len() implies (#[trigger] before[k]).end() <= a.vaddr
                    && before[k].vaddr < a.vaddr by {
                    assert(before[k] == views(out@)[k]);
                }
                let next = if i + 1 < s.len() { Some(s[i + 1]) } else { None };
                lemma_append_pieces(before, a, pieces, next);
                assert(apart_from_attached(s[i], self.attached()));
                assert forall|k: int| 0 <= k < out.len() implies apart_from_attached(#[trigger] views(out@)[k], self.attached()) by {
                    if k >= before.len() {
                        assert(views(out@)[k] == pieces[k - before.len()]);
                        lemma_apart_inner(a, pieces[k - before.len()], self.attached());
                    } else {
                        assert(views(out@)[k] == before[k]);
                    }
                }
            }
        }
        proof {
            assert(s.take(s.len() as int) =~= s);
        }
        self.owned_mem = out;
        ops
    }

    /// The write-backs that syncing `[start, start + size)` to the backing
    /// files asks for: each page in the range that has a frame, of each area
    /// with a file, in address order. The caller writes those whose file is
    /// writable.
    pub fn msync(&self, start: usize, size: usize) -> (reqs: Vec<SyncRequest>)
        requires
            self.wf(),
            start + size <= usize::MAX,
        ensures
            reqs@ == sync_all(self.areas(), start as int, start + size),
            forall|k: int, i: int| 0 <= k < self.areas().len() && 0 <= i < self.areas()[k].pages.len()
                && self.areas()[k].backend is Some && #[trigger] self.areas()[k].pages[i] is Some
                && start <= self.areas()[k].vaddr + i * PAGE_SIZE_4K < start + size
                ==> reqs@.contains(SyncRequest {
                    file: self.areas()[k].backend.unwrap().file,
                    offset: (i * PAGE_SIZE_4K) as u64,
                    frame: self.areas()[k].pages[i].unwrap(),
                }),
    {
        let end = start + size;
        let ghost s = self.areas();
        let mut reqs: Vec<SyncRequest> = Vec::new();
        let mut i: usize = 0;
        proof {
            assert(s.take(0) =~= Seq::<AreaView>::empty());
        }
        while i < self.owned_mem.len()
            invariant
                s == self.areas(),
                areas_wf(s),
                end == start + size,
                i <= s.len(),
                reqs@ == sync_all(s.take(i as int), start as int, end as int),
            decreases s.len() - i,
        {
            let area = &self.owned_mem[i];
            let ghost a = area@;
            proof {
                assert(s[i as int] == a);
                assert(s.take(i + 1).drop_last() =~= s.take(i as int));
                assert(s.take(i + 1).last() == a);
            }
            let ghost before = reqs@;
            if area.file_backend().is_some() && area.overlap_with(start, end) {
                let n = area.page_count();
                let mut idx: usize = 0;
                while idx < n
                    invariant
                        n == a.pages.len(),
                        a == area@,
                        a.wf(),
                        end == start + size,
                        idx <= n,
                        reqs@ == before + page_syncs(a, start as int, end as int, idx as nat),
                    decreases n - idx,
                {
                    assert(idx * 4096 < a.pages.len() * 4096) by (nonlinear_arith)
                        requires
                            idx < a.pages.len(),
                    ;
                    let page_vaddr = area.start() + idx * PAGE_SIZE_4K;
                    if page_vaddr >= start && page_vaddr < end {
                        let r = area.sync_page_with_backend(idx);
                        match r {
                            Some(req) => {
                                reqs.push(req);
                            },
                            None => {},
                        }
                    }
                    proof {
                        assert(reqs@ =~= before + page_syncs(a, start as int, end as int, (idx + 1) as nat));
                    }
                    idx = idx + 1;
                }
            }
            proof {
                assert(reqs@ =~= before + area_syncs(a, start as int, end as int));
            }
            i = i + 1;
        }
        proof {
            assert(s.take(s.len() as int) =~= s);
            assert forall|k: int, i: int| 0 <= k < s.len() && 0 <= i < s[k].pages.len()
                && s[k].backend is Some && #[trigger] s[k].pages[i] is Some
                && start <= s[k].vaddr + i * PAGE_SIZE_4K < start + size
                implies reqs@.contains(SyncRequest {
                    file: s[k].backend.unwrap().file,
                    offset: (i * PAGE_SIZE_4K) as u64,
                    frame: s[k].pages[i].unwrap(),
                }) by {
                lemma_sync_covers_page_starts(s, start as int, end as int, k, i);
            }
        }
        reqs
    }

    /// The position of the area holding `addr`, if any.
    pub fn find_area(&self, addr: usize) -> (r: Option<usize>)
        requires
            self.wf(),
        ensures
            r is None ==> !covers(self.areas(), addr as int),
            r matches Some(i) ==> i < self.areas().len() && holds(self.areas()[i as int], addr as int),
    {
        let mut i: usize = 0;
        while i < self.owned_mem.len()
            invariant
                areas_wf(self.areas()),
                i <= self.areas().len(),
                forall|k: int| 0 <= k < i ==> !holds(#[trigger] self.areas()[k], addr as int),
            decreases self.areas().len() - i,
        {
            let a = &self.owned_mem[i];
            proof {
                assert(self.areas()[i as int] == a@);
            }
            if a.start() <= addr && addr < a.end_va() {
                return Some(i);
            }
            i = i + 1;
        }
        None
    }

    /// Decides a page fault at `addr` needing access `flags`: it fails with
    /// `BadAddress` outside every area or when the area refuses it, and
    /// otherwise says whether a page must be loaded.
    pub fn handle_page_fault(&self, addr: usize, flags: usize) -> (r: Result<FaultDecision, MemError>)
        requires
            self.wf(),
        ensures
            !covers(self.areas(), addr as int) ==> r == Err::<FaultDecision, MemError>(MemError::BadAddress),
            forall|i: int| 0 <= i < self.areas().len() && holds(#[trigger] self.areas()[i], addr as int) ==>
                r == fault_result(self.areas()[i].fault_spec(addr as int, flags)),
    {
        match self.find_area(addr) {
            None => Err(MemError::BadAddress),
            Some(i) => {
                let a = &self.owned_mem[i];
                proof {
                    assert(self.areas()[i as int] == a@);
                    assert forall|k: int| 0 <= k < self.areas().len() && holds(#[trigger] self.areas()[k], addr as int)
                        implies k == i by {
                        if k < i {
                            assert(self.areas()[k].end() <= self.areas()[i as int].vaddr);
                        } else if k > i {
                            assert(self.areas()[i as int].end() <= self.areas()[k].vaddr);
                        }
                    }
                }
                let d = a.handle_page_fault(addr, flags);
                match d {
                    FaultDecision::Denied => Err(MemError::BadAddress),
                    FaultDecision::OutOfRange => Err(MemError::BadAddress),
                    _ => Ok(d),
                }
            },
        }
    }

    /// Forces the allocation of the page holding `addr`, given what the page
    /// table holds for it and the flags of its entry: `InvalidInput` outside
    /// every area or without an entry; nothing to do (`None`) when the entry
    /// is present; and otherwise the area's decision on a fault with those
    /// flags, as `handle_page_fault` gives it, for the caller to carry out.
    pub fn manual_alloc_for_lazy(&self, addr: usize, entry: EntryCheck, entry_flags: usize) -> (r: Result<
        Option<FaultDecision>,
        MemError,
    >)
        requires
            self.wf(),
        ensures
            !covers(self.areas(), addr as int) ==> r == Err::<Option<FaultDecision>, MemError>(MemError::InvalidInput),
            covers(self.areas(), addr as int) && entry is NoMemory ==> r == Err::<Option<FaultDecision>, MemError>(
                MemError::InvalidInput,
            ),
            covers(self.areas(), addr as int) && entry is Present ==> r == Ok::<Option<FaultDecision>, MemError>(None),
            entry is NotMapped ==> forall|i: int|
                0 <= i < self.areas().len() && holds(#[trigger] self.areas()[i], addr as int) ==> r == match fault_result(
                    self.areas()[i].fault_spec(addr as int, entry_flags),
                ) {
                    Ok(d) => Ok::<Option<FaultDecision>, MemError>(Some(d)),
                    Err(e) => Err(e),
                },
    {
        match self.find_area(addr) {
            None => Err(MemError::InvalidInput),
            Some(_) => match entry {
                EntryCheck::NoMemory => Err(MemError::InvalidInput),
                EntryCheck::Present => Ok(None),
                EntryCheck::NotMapped => match self.handle_page_fault(addr, entry_flags) {
                    Ok(d) => Ok(Some(d)),
                    Err(e) => Err(e),
                },
            },
        }
    }

    /// Records that the page holding `addr` now has frame `frame`, and
    /// returns the page-table entry to install for it.
    pub fn install_page(&mut self, addr: usize, frame: usize) -> (op: PtOp)
        requires
            old(self).wf(),
            covers(old(self).areas(), addr as int),
        ensures
            final(self).wf(),
            final(self).attached() == old(self).attached(),
            final(self).private() == old(self).private(),
            forall|i: int| 0 <= i < old(self).areas().len() && holds(#[trigger] old(self).areas()[i], addr as int) ==> {
                &&& final(self).areas() == old(self).areas().update(i, with_frame(old(self).areas()[i], addr as int, frame))
                &&& op == (PtOp::MapPage {
                    vaddr: align_down_spec(addr as int) as usize,
                    paddr: frame,
                    flags: old(self).areas()[i].flags,
                })
            },
    {
        let ghost s = self.areas();
        let found = self.find_area(addr);
        let i = match found {
            Some(i) => i,
            None => {
                proof {
                    assert(false);
                }
                0
            },
        };
        proof {
            assert forall|k: int| 0 <= k < s.len() && holds(#[trigger] s[k], addr as int) implies k == i by {
                if k < i {
                    assert(s[k].end() <= s[i as int].vaddr);
                } else if k > i {
                    assert(s[i as int].end() <= s[k].vaddr);
                }
            }
        }
        let mut a = self.owned_mem.remove(i);
        proof {
            assert(a@ == s[i as int]);
        }
        let op = a.install_page(addr, frame);
        self.owned_mem.insert(i, a);
        proof {
            let t = s.update(i as int, with_frame(s[i as int], addr as int, frame));
            assert(self.areas() =~= t);
            assert forall|k: int| 0 <= k < t.len() implies (#[trigger] t[k]).wf() && aligned(t[k].vaddr as int)
                && t[k].pages.len() > 0 by {
                if k != i {
                    assert(t[k] == s[k]);
                }
            }
            assert forall|x: int, y: int| 0 <= x < y < t.len() implies (#[trigger] t[x]).vaddr < (#[trigger] t[y]).vaddr
                && t[x].end() <= t[y].vaddr by {
                assert(s[x].vaddr < s[y].vaddr && s[x].end() <= s[y].vaddr);
            }
            assert forall|k: int| 0 <= k < t.len() implies apart_from_attached(#[trigger] t[k], self.attached()) by {
                assert(apart_from_attached(s[k], self.attached()));
                assert(seg_of_area(t[k]) == seg_of_area(s[k]));
            }
        }
        op
    }

    /// Removes every area; each leaves the page table whole. Returns the
    /// page-table edits, in address order.
    pub fn unmap_user_areas(&mut self) -> (ops: Vec<PtOp>)
        requires
            old(self).wf(),
        ensures
            final(self).wf(),
            final(self).areas() == Seq::<AreaView>::empty(),
            final(self).attached() == old(self).attached(),
            final(self).private() == old(self).private(),
            ops@ == old(self).areas().map_values(|a: AreaView| PtOp::Unmap { start: a.vaddr, size: a.size() as usize }),
    {
        let ghost s = self.areas();
        let mut rest: Vec<MapArea> = Vec::new();
        std::mem::swap(&mut rest, &mut self.owned_mem);
        let mut ops: Vec<PtOp> = Vec::new();
        proof {
            assert(views(rest@) =~= s.skip(0));
        }
        while rest.len() > 0
            invariant
                areas_wf(s),
                rest.len() <= s.len(),
                views(rest@) == s.skip(s.len() - rest.len()),
                ops@ == s.take(s.len() - rest.len()).map_values(|a: AreaView| PtOp::Unmap { start: a.vaddr, size: a.size() as usize }),
                self.areas() == Seq::<AreaView>::empty(),
                self.attached() == old(self).attached(),
                self.private() == old(self).private(),
            decreases rest.len(),
        {
            let ghost i = s.len() - rest.len();
            let ghost rest_before = rest@;
            let ghost ops_before = ops@;
            let mut area = rest.remove(0);
            proof {
                assert(views(rest_before)[0] == s.skip(i)[0]);
                assert(views(rest@) =~= views(rest_before).skip(1));
                assert(views(rest@) =~= s.skip(i + 1));
                assert(area@ == s[i]);
            }
            let op = area.dealloc();
            ops.push(op);
            proof {
                assert(ops@ =~= s.take(i + 1).map_values(|a: AreaView| PtOp::Unmap { start: a.vaddr, size: a.size() as usize }));
            }
        }
        proof {
            assert(s.take(s.len() as int) =~= s);
        }
        ops
    }

    /// Attaches a shared memory segment of `size` bytes at `addr`, over the
    /// physical memory from `paddr` on; returns the page-table edit.
    pub fn attach_shared_mem(&mut self, addr: usize, flags: usize, shmid: i32, size: usize, paddr: usize) -> (op: PtOp)
        requires
            old(self).wf(),
            addr + size <= usize::MAX,
            aligned(addr as int),
            aligned(size as int),
            forall|i: int| 0 <= i < old(self).areas().len() ==>
                apart((addr, (addr + size) as usize), seg_of_area(#[trigger] old(self).areas()[i])),
            forall|j: int| 0 <= j < old(self).attached().len() ==>
                apart((addr, (addr + size) as usize), seg_of_attached(#[trigger] old(self).attached()[j])),
        ensures
            final(self).wf(),
            final(self).areas() == old(self).areas(),
            final(self).attached() == old(self).attached().push(AttachedMem { addr, flags, shmid, size, paddr }),
            final(self).private() == old(self).private(),
            op == (PtOp::MapRegion { start: addr, paddr, size, flags }),
    {
        let ghost att = self.attached();
        let m = AttachedMem { addr, flags, shmid, size, paddr };
        self.attached_mem.push(m);
        proof {
            let t = self.attached();
            assert(t == att.push(m));
            assert(seg_of_attached(m) == (addr, (addr + size) as usize));
            assert forall|i: int, j: int| 0 <= i < t.len() && 0 <= j < t.len() && i != j
                implies apart(seg_of_attached(#[trigger] t[i]), seg_of_attached(#[trigger] t[j])) by {
                if i < att.len() && j < att.len() {
                    assert(t[i] == att[i] && t[j] == att[j]);
                } else if i < att.len() {
                    assert(t[i] == att[i]);
                } else {
                    assert(t[j] == att[j]);
                }
            }
            assert forall|k: int| 0 <= k < t.len() implies (#[trigger] t[k]).addr + t[k].size <= usize::MAX
                && aligned(t[k].addr as int) && aligned(t[k].size as int) by {
                if k < att.len() {
                    assert(t[k] == att[k]);
                }
            }
            assert forall|k: int| 0 <= k < self.areas().len() implies apart_from_attached(#[trigger] self.areas()[k], t) by {
                assert(apart_from_attached(self.areas()[k], att));
                assert forall|j: int| 0 <= j < t.len() implies apart(seg_of_area(self.areas()[k]), seg_of_attached(#[trigger] t[j])) by {
                    if j < att.len() {
                        assert(t[j] == att[j]);
                    }
                }
            }
        }
        PtOp::MapRegion { start: addr, paddr, size, flags }
    }

    /// Adds an area of `num_pages` pages at `vaddr` over the physical memory
    /// from `paddr` on, which needs no frame of its own; `shared` says whether
    /// child processes share it. Returns the page-table edit.
    fn map_without_alloc(&mut self, vaddr: usize, paddr: usize, num_pages: usize, flags: usize, shared: bool) -> (op: PtOp)
        requires
            old(self).wf(),
            vaddr + num_pages * PAGE_SIZE_4K <= usize::MAX,
            insertable(old(self).areas(), fixed_area(vaddr, num_pages, flags, shared)),
            apart_from_attached(fixed_area(vaddr, num_pages, flags, shared), old(self).attached()),
        ensures
            final(self).wf(),
            final(self).areas() == old(self).areas().insert(
                insert_index(old(self).areas(), vaddr),
                fixed_area(vaddr, num_pages, flags, shared),
            ),
            final(self).attached() == old(self).attached(),
            final(self).private() == old(self).private(),
            op == (PtOp::MapRegion { start: vaddr, paddr, size: (num_pages * PAGE_SIZE_4K) as usize, flags }),
    {
        let (area, op) = if shared {
            MapArea::new_without_alloc_shared(vaddr, paddr, num_pages, flags)
        } else {
            MapArea::new_without_alloc(vaddr, paddr, num_pages, flags)
        };
        assert(area@ =~= fixed_area(vaddr, num_pages, flags, shared));
        self.insert_area(area);
        op
    }

    /// Maps `num_pages` pages at `vaddr` onto the physical memory from
    /// `paddr` on, as an area of its own so that nothing else takes the
    /// range. Returns the page-table edit.
    pub fn map_attach_page_without_alloc(&mut self, vaddr: usize, paddr: usize, num_pages: usize, flags: usize) -> (r: Result<PtOp, MemError>)
        requires
            old(self).wf(),
            vaddr + num_pages * PAGE_SIZE_4K <= usize::MAX,
            insertable(old(self).areas(), fixed_area(vaddr, num_pages, flags, false)),
            apart_from_attached(fixed_area(vaddr, num_pages, flags, false), old(self).attached()),
        ensures
            final(self).wf(),
            final(self).areas() == old(self).areas().insert(
                insert_index(old(self).areas(), vaddr),
                fixed_area(vaddr, num_pages, flags, false),
            ),
            final(self).attached() == old(self).attached(),
            final(self).private() == old(self).private(),
            r == Ok::<PtOp, MemError>(PtOp::MapRegion { start: vaddr, paddr, size: (num_pages * PAGE_SIZE_4K) as usize, flags }),
    {
        Ok(self.map_without_alloc(vaddr, paddr, num_pages, flags, false))
    }

    /// Like `map_attach_page_without_alloc`, for an area that child
    /// processes share.
    pub fn map_attach_shared_page_without_alloc(&mut self, vaddr: usize, paddr: usize, num_pages: usize, flags: usize) -> (r: Result<PtOp, MemError>)
        requires
            old(self).wf(),
            vaddr + num_pages * PAGE_SIZE_4K <= usize::MAX,
            insertable(old(self).areas(), fixed_area(vaddr, num_pages, flags, true)),
            apart_from_attached(fixed_area(vaddr, num_pages, flags, true), old(self).attached()),
        ensures
            final(self).wf(),
            final(self).areas() == old(self).areas().insert(
                insert_index(old(self).areas(), vaddr),
                fixed_area(vaddr, num_pages, flags, true),
            ),
            final(self).attached() == old(self).attached(),
            final(self).private() == old(self).private(),
            r == Ok::<PtOp, MemError>(PtOp::MapRegion { start: vaddr, paddr, size: (num_pages * PAGE_SIZE_4K) as usize, flags }),
    {
        Ok(self.map_without_alloc(vaddr, paddr, num_pages, flags, true))
    }

    /// The first step of moving the mapping at `old_start` to a region of
    /// `new_size` bytes: finds a gap from `old_start` on and maps a lazily
    /// loaded region there, readable and writable by the user. Returns its
    /// start, the page-table edit, and the old pages to copy paired with
    /// their new places, or `None` when no gap is large enough (the move
    /// then fails and nothing changes). The caller copies the pages that are
    /// present and ends the move with `mremap_finish`.
    pub fn mremap_prepare(&mut self, old_start: usize, old_size: usize, new_size: usize) -> (r: Option<(usize, PtOp, Vec<(usize, usize)>)>)
        requires
            old(self).wf(),
            old_size > 0,
            old_start + old_size <= usize::MAX,
            new_size > 0,
            aligned(old_start as int),
            aligned(new_size as int),
            search_fits(segments(old(self).areas(), old(self).attached()), old_start, new_size),
            mmap_target(old(self).areas(), old(self).attached(), old_start, new_size as int) matches Some(x) ==>
                x + (align_down_spec(old_start + old_size - 1) - old_start) <= usize::MAX,
        ensures
            final(self).wf(),
            final(self).attached() == old(self).attached(),
            final(self).private() == old(self).private(),
            ({
                let s = old(self).areas();
                match mmap_target(s, old(self).attached(), old_start, new_size as int) {
                    None => r is None && final(self).areas() == s,
                    Some(x) => {
                        &&& r matches Some((addr, op, pairs)) && addr == x
                            && op == region_op(x, new_size, REMAP_FLAGS, None)
                            && pairs@ == remap_pairs(old_start as int, old_size as int, x as int)
                        &&& final(self).areas() == s.insert(insert_index(s, x),
                            region_area(x, new_size, false, REMAP_FLAGS, None, None))
                    },
                }
            }),
    {
        let ghost s = self.areas();
        let found = self.find_free_area(old_start, new_size);
        match found {
            None => None,
            Some(x) => {
                proof {
                    let region = region_area(x, new_size, false, REMAP_FLAGS, None, None);
                    assert(((new_size + 4095) / 4096) * 4096 == new_size) by (nonlinear_arith)
                        requires
                            new_size % 4096 == 0,
                    ;
                    assert(region.pages.len() == pages_for(new_size as int));
                    assert(pages_for(new_size as int) > 0) by (nonlinear_arith)
                        requires
                            new_size > 0,
                            pages_for(new_size as int) == (new_size + 4095) / 4096,
                    ;
                    lemma_segments_aligned(s, self.attached());
                    lemma_seg_order_total();
                    segments(s, self.attached()).lemma_sort_by_ensures(seg_order());
                    let sorted = segments(s, self.attached()).sort_by(seg_order());
                    assert forall|k: int| 0 <= k < sorted.len() implies aligned((#[trigger] sorted[k]).1 as int) by {
                        assert(sorted.contains(sorted[k]));
                    }
                    lemma_free_scan_aligned(sorted, search_start(old_start) as int, new_size as int);
                    assert forall|k: int| 0 <= k < s.len() implies (#[trigger] s[k]).end() <= region.vaddr
                        || region.end() <= s[k].vaddr by {
                        assert(apart((x, (x + new_size) as usize), seg_of_area(s[k])));
                    }
                    lemma_insertable_clear(s, region);
                    assert(apart_from_attached(region, self.attached())) by {
                        assert forall|j: int| 0 <= j < self.attached().len() implies
                            apart(seg_of_area(region), seg_of_attached(#[trigger] self.attached()[j])) by {
                            assert(apart((x, (x + new_size) as usize), seg_of_attached(self.attached()[j])));
                        }
                    }
                    assert(new_size + 4095 <= usize::MAX) by (nonlinear_arith)
                        requires
                            x + new_size <= usize::MAX,
                            x % 4096 == 0,
                            new_size % 4096 == 0,
                            usize::MAX == 0xffff_ffff || usize::MAX == 0xffff_ffff_ffff_ffff,
                    ;
                }
                let op = self.new_region(x, new_size, false, REMAP_FLAGS, None, None);
                let first = align_down_4k(old_start);
                let last = align_down_4k(old_start + old_size - 1);
                proof {
                    assert(first == old_start);
                    assert(aligned(last as int));
                    assert(first <= last);
                    lemma_aligned_sub(first as int, last as int);
                    lemma_page_multiple((last - first) as int);
                }
                let count = (last - first) / PAGE_SIZE_4K + 1;
                let mut pairs: Vec<(usize, usize)> = Vec::new();
                let mut i: usize = 0;
                while i < count
                    invariant
                        count == (last - first) / 4096 + 1,
                        ((last - first) / 4096) * 4096 == last - first,
                        first <= last,
                        x + (last - first) <= usize::MAX,
                        i <= count,
                        pairs@.len() == i,
                        forall|k: int| 0 <= k < i ==> #[trigger] pairs@[k]
                            == ((first + k * PAGE_SIZE_4K) as usize, (x + k * PAGE_SIZE_4K) as usize),
                    decreases count - i,
                {
                    assert(i * 4096 <= last - first) by (nonlinear_arith)
                        requires
                            i < count,
                            count == (last - first) / 4096 + 1,
                            ((last - first) / 4096) * 4096 == last - first,
                    ;
                    pairs.push((first + i * PAGE_SIZE_4K, x + i * PAGE_SIZE_4K));
                    i = i + 1;
                }
                proof {
                    assert(pairs@ =~= remap_pairs(old_start as int, old_size as int, x as int));
                }
                Some((x, op, pairs))
            },
        }
    }
    /// Records segment `handle` as private to the process under `shmid`,
    /// which names none of its segments yet.
    pub fn add_private_shared_mem(&mut self, shmid: i32, handle: u64)
        requires
            !old(self).private().contains_key(shmid),
        ensures
            final(self).private() == old(self).private().insert(shmid, handle),
            final(self).areas() == old(self).areas(),
            final(self).attached() == old(self).attached(),
            final(self).wf() == old(self).wf(),
    {
        self.private_mem.insert(shmid, handle);
    }

    /// The private segment named `shmid`, if any.
    pub fn get_private_shared_mem(&self, shmid: i32) -> (r: Option<u64>)
        ensures
            r == if self.private().contains_key(shmid) { Some(self.private()[shmid]) } else { None },
    {
        match self.private_mem.get(&shmid) {
            Some(h) => Some(*h),
            None => None,
        }
    }

    /// Ends a move begun by `mremap_prepare` that found the region at
    /// `new_start`: unmaps the old range `[old_start, old_start + old_size)`
    /// (the size rounded up to whole pages) and returns the new start with
    /// the page-table edits. Afterwards no area reaches into the old range,
    /// and an address outside it is held as before.
    pub fn mremap_finish(&mut self, old_start: usize, old_size: usize, new_start: usize) -> (r: (usize, Vec<PtOp>))
        requires
            old(self).wf(),
            old_size > 0,
            aligned(old_start as int),
            old_size + PAGE_SIZE_4K - 1 <= usize::MAX,
            old_start + page_round(old_size as int) <= usize::MAX,
        ensures
            final(self).wf(),
            r.0 == new_start,
            final(self).areas() == split_all(old(self).areas(), old_start as int, old_start + page_round(old_size as int)),
            final(self).attached() == old(self).attached(),
            final(self).private() == old(self).private(),
            r.1@ == split_ops(old(self).areas(), old_start as int, old_start + page_round(old_size as int)),
            forall|k: int| 0 <= k < final(self).areas().len() ==> (#[trigger] final(self).areas()[k]).end() <= old_start
                || old_start + old_size <= final(self).areas()[k].vaddr,
            forall|q: int| !(old_start <= q < old_start + page_round(old_size as int)) ==> (covers(final(self).areas(), q)
                <==> #[trigger] covers(old(self).areas(), q)),
    {
        let ghost s = self.areas();
        let ghost end = old_start + page_round(old_size as int);
        proof {
            lemma_page_round(old_size as int);
            assert(aligned(end)) by (nonlinear_arith)
                requires
                    aligned(old_start as int),
                    aligned(page_round(old_size as int)),
                    end == old_start + page_round(old_size as int),
            ;
            assert(split_ok(s, old_start as int, end));
            lemma_unmap_exact(s, old_start as int, end);
        }
        let ops = self.munmap(old_start, old_size);
        proof {
            assert forall|q: int| !(old_start <= q < end) implies (covers(self.areas(), q)
                <==> #[trigger] covers(s, q)) by {
                assert(covers(split_all(s, old_start as int, end), q) <==> (covers(s, q) && !(old_start <= q < end)));
            }
        }
        (new_start, ops)
    }

    /// The address space of a child process: `children`, the copies of the
    /// areas in order (each with its area's start, number of pages,
    /// sharing, flags and backing file), the same shared memory segments
    /// attached again, and
    /// the same private segments. Returns it with the page-table edits that
    /// attach the segments.
    pub fn clone_with(&self, children: Vec<MapArea>) -> (r: (MemorySet, Vec<PtOp>))
        requires
            self.wf(),
            children@.len() == self.areas().len(),
            forall|i: int| 0 <= i < children@.len() ==> {
                let c = (#[trigger] children@[i])@;
                &&& clone_of(c, self.areas()[i])
                &&& c.wf()
            },
        ensures
            r.0.wf(),
            r.0.areas() == views(children@),
            r.0.attached() == self.attached(),
            r.0.private() == self.private(),
            r.1@ == self.attached().map_values(|m: AttachedMem| PtOp::MapRegion { start: m.addr, paddr: m.paddr, size: m.size, flags: m.flags }),
    {
        let ghost s = self.areas();
        let mut child = MemorySet { owned_mem: children, attached_mem: Vec::new(), private_mem: self.private_mem.clone() };
        proof {
            let t = child.areas();
            assert forall|i: int| 0 <= i < t.len() implies (#[trigger] t[i]).wf() && aligned(t[i].vaddr as int)
                && t[i].pages.len() > 0 by {
                assert(t[i] == child.owned_mem@[i]@);
                assert(s[i].wf() && aligned(s[i].vaddr as int) && s[i].pages.len() > 0);
            }
            assert forall|i: int, j: int| 0 <= i < j < t.len() implies (#[trigger] t[i]).vaddr < (#[trigger] t[j]).vaddr
                && t[i].end() <= t[j].vaddr by {
                assert(t[i] == child.owned_mem@[i]@);
                assert(t[j] == child.owned_mem@[j]@);
                assert(s[i].vaddr < s[j].vaddr && s[i].end() <= s[j].vaddr);
            }
            assert(areas_wf(t));
            assert(child.attached() =~= Seq::<AttachedMem>::empty());
        }
        let mut ops: Vec<PtOp> = Vec::new();
        let mut j: usize = 0;
        while j < self.attached_mem.len()
            invariant
                self.wf(),
                s == self.areas(),
                child.areas() == views(children@),
                child.areas().len() == s.len(),
                areas_wf(child.areas()),
                forall|i: int| 0 <= i < child.areas().len() ==> seg_of_area(#[trigger] child.areas()[i]) == seg_of_area(s[i]),
                j <= self.attached().len(),
                child.attached() == self.attached().take(j as int),
                child.private() == self.private(),
                ops@ == self.attached().take(j as int).map_values(|m: AttachedMem| PtOp::MapRegion { start: m.addr, paddr: m.paddr, size: m.size, flags: m.flags }),
                child.wf(),
            decreases self.attached().len() - j,
        {
            let m = self.attached_mem[j];
            proof {
                let att = self.attached();
                assert(att[j as int] == m);
                assert forall|i: int| 0 <= i < child.areas().len() implies
                    apart((m.addr, (m.addr + m.size) as usize), seg_of_area(#[trigger] child.areas()[i])) by {
                    assert(apart_from_attached(s[i], att));
                    assert(apart(seg_of_area(s[i]), seg_of_attached(att[j as int])));
                    assert(seg_of_area(child.areas()[i]) == seg_of_area(s[i]));
                }
                assert forall|k: int| 0 <= k < child.attached().len() implies
                    apart((m.addr, (m.addr + m.size) as usize), seg_of_attached(#[trigger] child.attached()[k])) by {
                    assert(child.attached()[k] == att[k]);
                    assert(apart(seg_of_attached(att[k]), seg_of_attached(att[j as int])));
                }
            }
            let op = child.attach_shared_mem(m.addr, m.flags, m.shmid, m.size, m.paddr);
            ops.push(op);
            proof {
                assert(self.attached().take(j + 1) =~= self.attached().take(j as int).push(m));
                assert(ops@ =~= self.attached().take(j + 1).map_values(|m: AttachedMem| PtOp::MapRegion { start: m.addr, paddr: m.paddr, size: m.size, flags: m.flags }));
            }
            j = j + 1;
        }
        proof {
            assert(self.attached().take(self.attached().len() as int) =~= self.attached());
        }
        (child, ops)
    }
}


/// The page starts that forcing the allocation of `[start, end]` visits, or
/// `InvalidInput` when `start` lies past `end`.
pub fn manual_alloc_range_pages(start: usize, end: usize) -> (r: Result<Vec<usize>, MemError>)
    ensures
        start > end ==> r == Err::<Vec<usize>, MemError>(MemError::InvalidInput),
        start <= end ==> (r matches Ok(v) && v@ == page_starts(start as int, end as int)),
{
    if start > end {
        return Err(MemError::InvalidInput);
    }
    let first = align_down_4k(start);
    let last = align_down_4k(end);
    proof {
        assert(aligned(first as int) && aligned(last as int)) by (nonlinear_arith)
            requires
                first == start - start % 4096,
                last == end - end % 4096,
        ;
        assert(first <= last) by (nonlinear_arith)
            requires
                first == start - start % 4096,
                last == end - end % 4096,
                start <= end,
        ;
        lemma_aligned_sub(first as int, last as int);
        lemma_page_multiple((last - first) as int);
    }
    let count = (last - first) / PAGE_SIZE_4K + 1;
    let mut pages: Vec<usize> = Vec::new();
    let mut i: usize = 0;
    while i < count
        invariant
            count == (last - first) / 4096 + 1,
            ((last - first) / 4096) * 4096 == last - first,
            first <= last,
            i <= count,
            pages@.len() == i,
            forall|k: int| 0 <= k < i ==> #[trigger] pages@[k] == (first + k * PAGE_SIZE_4K) as usize,
        decreases count - i,
    {
        assert(i * 4096 <= last - first) by (nonlinear_arith)
            requires
                i < count,
                count == (last - first) / 4096 + 1,
                ((last - first) / 4096) * 4096 == last - first,
        ;
        pages.push(first + i * PAGE_SIZE_4K);
        i = i + 1;
    }
    proof {
        assert(pages@ =~= page_starts(start as int, end as int));
    }
    Ok(pages)
}

/// The page starts that forcing the allocation of an object of `size`
/// bytes at `start` visits: those of `[start, start + size - 1]`.
pub fn manual_alloc_type_pages(start: usize, size: usize) -> (r: Result<Vec<usize>, MemError>)
    requires
        size >= 1,
        start + size - 1 <= usize::MAX,
    ensures
        r matches Ok(v) && v@ == page_starts(start as int, start + size - 1),
{
    manual_alloc_range_pages(start, start + (size - 1))
}

} // verus!
