//! A contiguous virtual area of user memory: one slot per 4 KiB page holding
//! the physical frame backing the page once it is allocated, the mapping
//! flags of the area and the file that backs it, if any.
//!
//! The page table itself is hardware state that the kernel edits; every
//! operation here that changes what the page table must hold returns the
//! edit, as a `PtOp`, for the kernel to apply.
use vstd::prelude::*;

verus! {

/// Size of a base page.
pub const PAGE_SIZE_4K: usize = 4096;

/// Whether `x` is a multiple of the page size.
pub open spec fn aligned(x: int) -> bool {
    x % (PAGE_SIZE_4K as int) == 0
}

/// Whether the address `x` is aligned to 4 KiB.
pub fn is_aligned_4k(x: usize) -> (b: bool)
    ensures
        b == aligned(x as int),
{
    x % PAGE_SIZE_4K == 0
}

/// Whether flag set `a` holds every flag of `b`.
pub open spec fn flags_contain(a: usize, b: usize) -> bool {
    a & b == b
}

/// Whether flag set `a` holds every flag of `b`.
pub fn contains_flags(a: usize, b: usize) -> (r: bool)
    ensures
        r == flags_contain(a, b),
{
    a & b == b
}

/// The file that backs an area: which file, and the offset in it of the
/// area's first byte.
#[derive(Debug, Clone, Copy, PartialEq, Eq, Structural)]
pub struct MemBackend {
    pub file: usize,
    pub offset: u64,
}

/// A page-table edit that the kernel applies.
#[derive(Debug, Clone, Copy, PartialEq, Eq, Structural)]
pub enum PtOp {
    /// Map `[start, start + size)` with entries that fault on access.
    MapFaultRegion { start: usize, size: usize, flags: usize },
    /// Map `[start, start + size)` onto physical memory from `paddr` on.
    MapRegion { start: usize, paddr: usize, size: usize, flags: usize },
    /// Map the page at `vaddr` onto the frame at `paddr`, replacing any entry.
    MapPage { vaddr: usize, paddr: usize, flags: usize },
    /// Map the page at `vaddr` with an entry that faults on access.
    MapFaultPage { vaddr: usize, flags: usize },
    /// Remove the entries of `[start, start + size)`.
    Unmap { start: usize, size: usize },
    /// Set the flags of `[start, start + size)`.
    Update { start: usize, size: usize, flags: usize },
}


/// What a page fault in an area calls for.
#[derive(Debug, Clone, Copy, PartialEq, Eq, Structural)]
pub enum FaultDecision {
    /// The access needs flags the area does not grant; the fault fails.
    Denied,
    /// The page index lies past the area's pages; the fault fails.
    OutOfRange,
    /// The page already has a frame; nothing to do.
    Present,
    /// Page `index` needs a frame, filled from `file` at `offset` when the
    /// area has a backing file and with zeros otherwise.
    Load { index: usize, file: Option<MemBackend> },
}

/// How a child process gets its copy of an area.
#[derive(Debug, Clone, Copy, PartialEq, Eq, Structural)]
pub enum CloneKind {
    /// The child maps the same frames; pages without a frame are first
    /// faulted in, unless the parent already maps them.
    Shared,
    /// Every page has a frame: the child gets a contiguous run of fresh
    /// frames holding a copy of the area.
    Contiguous,
    /// The child gets a fresh frame, holding a copy, for each page with a
    /// frame, and a faulting entry for each page without.
    PerPage,
}

/// A request to write page `index` of an area back to its file: the frame
/// to write and where in the file.
#[derive(Debug, Clone, Copy, PartialEq, Eq, Structural)]
pub struct SyncRequest {
    pub file: usize,
    pub offset: u64,
    pub frame: usize,
}

/// Address `addr` rounded down to a page boundary.
pub open spec fn align_down_spec(addr: int) -> int {
    addr - addr % (PAGE_SIZE_4K as int)
}

/// Address `addr` rounded down to a page boundary.
pub fn align_down_4k(addr: usize) -> (r: usize)
    ensures
        r == align_down_spec(addr as int),
{
    addr - addr % PAGE_SIZE_4K
}

/// A continuous virtual area in user memory.
pub struct MapArea {
    /// Physical frames of the pages of this area, `None` while not allocated.
    pub pages: Vec<Option<usize>>,
    /// Start virtual address.
    pub vaddr: usize,
    /// Whether the area is shared with child processes.
    shared: bool,
    /// Mapping flags of the area.
    pub flags: usize,
    /// The file backing the area, if any.
    pub backend: Option<MemBackend>,
}

/// The model of an area.
pub struct AreaView {
    pub pages: Seq<Option<usize>>,
    pub vaddr: usize,
    pub shared: bool,
    pub flags: usize,
    pub backend: Option<MemBackend>,
}

/// The addresses of the pages without a frame among the first `n` pages of
/// area `a`, in order.
pub open spec fn unloaded(a: AreaView, n: nat) -> Seq<usize>
    decreases n,
{
    if n == 0 {
        Seq::empty()
    } else {
        let i = (n - 1) as int;
        unloaded(a, (n - 1) as nat) + if a.pages[i] is None {
            seq![(a.vaddr + i * PAGE_SIZE_4K) as usize]
        } else {
            Seq::empty()
        }
    }
}

/// The copy of area `a` that a child process gets page by page, given
/// `frames`: for a shared area the parent's frames, with `frames[i]`
/// the frame the parent maps at page `i` when the page has none of its own;
/// otherwise a fresh frame `frames[i]` for each page that has a frame.
pub open spec fn paged_clone(a: AreaView, frames: Seq<usize>) -> AreaView {
    if a.shared {
        a
    } else {
        AreaView {
            pages: Seq::new(a.pages.len(), |i: int| match a.pages[i] {
                Some(_) => Some(frames[i]),
                None => None,
            }),
            ..a
        }
    }
}

/// Whether area `c` is a child's copy of area `a`: the same start, number of
/// pages, sharing, flags and backing file.
pub open spec fn clone_of(c: AreaView, a: AreaView) -> bool {
    &&& c.vaddr == a.vaddr
    &&& c.pages.len() == a.pages.len()
    &&& c.shared == a.shared
    &&& c.flags == a.flags
    &&& c.backend == a.backend
}

/// The page-table edit in the child for page `i` of area `a`, given
/// `frames` as in `paged_clone`.
pub open spec fn paged_clone_op(a: AreaView, frames: Seq<usize>, i: int) -> PtOp {
    let vaddr = (a.vaddr + i * PAGE_SIZE_4K) as usize;
    if a.shared {
        PtOp::MapPage {
            vaddr,
            paddr: match a.pages[i] {
                Some(f) => f,
                None => frames[i],
            },
            flags: a.flags,
        }
    } else {
        match a.pages[i] {
            Some(_) => PtOp::MapPage { vaddr, paddr: frames[i], flags: a.flags },
            None => PtOp::MapFaultPage { vaddr, flags: a.flags },
        }
    }
}

impl AreaView {
    /// Size of the area in bytes.
    pub open spec fn size(self) -> int {
        self.pages.len() * (PAGE_SIZE_4K as int)
    }

    /// End address of the area.
    pub open spec fn end(self) -> int {
        self.vaddr + self.size()
    }

    /// Whether the area's bounds fit the address space and the file offsets
    /// of its bytes fit a file position.
    pub open spec fn wf(self) -> bool {
        &&& self.end() <= usize::MAX
        &&& (self.backend matches Some(b) ==> b.offset + self.size() <= u64::MAX)
    }

    /// Whether `[start, end)` overlaps the area, as `overlap_with` decides.
    pub open spec fn overlaps(self, start: int, end: int) -> bool {
        (self.vaddr <= start && start < self.end()) || (start <= self.vaddr && self.vaddr < end)
    }

    /// Whether `[start, end]` contains the area.
    pub open spec fn inside(self, start: int, end: int) -> bool {
        start <= self.vaddr && self.end() <= end
    }

    /// Whether the area strictly contains `[start, end]`.
    pub open spec fn strictly_holds(self, start: int, end: int) -> bool {
        self.vaddr < start && end < self.end()
    }

    /// The backend seen from `delta` bytes further into the area.
    pub open spec fn backend_at(self, delta: int) -> Option<MemBackend> {
        match self.backend {
            Some(b) => Some(MemBackend { file: b.file, offset: (b.offset + delta) as u64 }),
            None => None,
        }
    }


    /// Whether moving the file offset `delta` bytes further stays a valid
    /// file position.
    pub open spec fn seek_ok(self, delta: int) -> bool {
        self.backend matches Some(b) ==> b.offset + delta <= u64::MAX
    }

    /// The area after its pages before `new_start` are cut off.
    pub open spec fn front_cut(self, new_start: int) -> AreaView {
        let delete = new_start - self.vaddr;
        AreaView {
            pages: self.pages.subrange(delete / (PAGE_SIZE_4K as int), self.pages.len() as int),
            vaddr: new_start as usize,
            backend: self.backend_at(delete),
            ..self
        }
    }

    /// The area after its pages from `new_end` on are cut off.
    pub open spec fn back_cut(self, new_end: int) -> AreaView {
        let delete_pages = (self.end() - new_end) / (PAGE_SIZE_4K as int);
        AreaView { pages: self.pages.subrange(0, self.pages.len() - delete_pages), ..self }
    }

    /// The pages of the area from index `(addr - vaddr) / 4 KiB` on, as an
    /// area starting at `addr`.
    pub open spec fn tail_from(self, addr: int) -> AreaView {
        let idx = (addr - self.vaddr) / (PAGE_SIZE_4K as int);
        AreaView {
            pages: self.pages.subrange(idx, self.pages.len() as int),
            vaddr: addr as usize,
            backend: self.backend_at(addr - self.vaddr),
            ..self
        }
    }

    /// The pages of the area before index `(addr - vaddr) / 4 KiB`.
    pub open spec fn head_to(self, addr: int) -> AreaView {
        let idx = (addr - self.vaddr) / (PAGE_SIZE_4K as int);
        AreaView { pages: self.pages.subrange(0, idx), ..self }
    }


    /// What a fault at `addr` with access flags `flags` calls for.
    pub open spec fn fault_spec(self, addr: int, flags: usize) -> FaultDecision {
        let index = (addr - self.vaddr) / (PAGE_SIZE_4K as int);
        if !flags_contain(self.flags, flags) {
            FaultDecision::Denied
        } else if index >= self.pages.len() {
            FaultDecision::OutOfRange
        } else if self.pages[index] is Some {
            FaultDecision::Present
        } else {
            FaultDecision::Load {
                index: index as usize,
                file: match self.backend {
                    Some(b) => Some(MemBackend { file: b.file, offset: (b.offset + index * PAGE_SIZE_4K) as u64 }),
                    None => None,
                },
            }
        }
    }

    /// The part of the area from `addr` on.
    pub open spec fn right_of(self, addr: int) -> AreaView {
        let count = (self.end() - addr) / (PAGE_SIZE_4K as int);
        AreaView {
            pages: self.pages.subrange(self.pages.len() - count, self.pages.len() as int),
            vaddr: addr as usize,
            shared: self.shared,
            flags: self.flags,
            backend: self.backend_at(addr - self.vaddr),
        }
    }

    /// The part of the area before `addr`.
    pub open spec fn left_of(self, addr: int) -> AreaView {
        let count = (self.end() - addr) / (PAGE_SIZE_4K as int);
        AreaView { pages: self.pages.subrange(0, self.pages.len() - count), ..self }
    }
}

impl MapArea {
    /// The model of the area.
    pub closed spec fn view(&self) -> AreaView {
        AreaView {
            pages: self.pages@,
            vaddr: self.vaddr,
            shared: self.shared,
            flags: self.flags,
            backend: self.backend,
        }
    }

    /// An area of `num_pages` pages at `start` whose pages are all missing.
    fn with_empty_pages(start: usize, num_pages: usize, flags: usize, shared: bool, backend: Option<MemBackend>) -> (a: Self)
        ensures
            a@ == (AreaView {
                pages: Seq::new(num_pages as nat, |i: int| None::<usize>),
                vaddr: start,
                shared,
                flags,
                backend,
            }),
    {
        let mut pages: Vec<Option<usize>> = Vec::with_capacity(num_pages);
        let mut i: usize = 0;
        while i < num_pages
            invariant
                i <= num_pages,
                pages@ =~= Seq::new(i as nat, |k: int| None::<usize>),
            decreases num_pages - i,
        {
            pages.push(None);
            i = i + 1;
        }
        MapArea { pages, vaddr: start, shared, flags, backend }
    }

    /// Creates a lazily loaded area; the page table gets entries that fault
    /// on first access.
    pub fn new_lazy(start: usize, num_pages: usize, flags: usize, backend: Option<MemBackend>) -> (r: (Self, PtOp))
        requires
            start + num_pages * PAGE_SIZE_4K <= usize::MAX,
            backend matches Some(b) ==> b.offset + num_pages * PAGE_SIZE_4K <= u64::MAX,
        ensures
            r.0@ == (AreaView {
                pages: Seq::new(num_pages as nat, |i: int| None::<usize>),
                vaddr: start,
                shared: false,
                flags,
                backend,
            }),
            r.0@.wf(),
            r.1 == (PtOp::MapFaultRegion { start, size: (num_pages * PAGE_SIZE_4K) as usize, flags }),
    {
        let a = Self::with_empty_pages(start, num_pages, flags, false, backend);
        (a, PtOp::MapFaultRegion { start, size: num_pages * PAGE_SIZE_4K, flags })
    }

    /// Creates an area over physical memory from `paddr` on that needs no
    /// frame of its own.
    pub fn new_without_alloc(start: usize, paddr: usize, num_pages: usize, flags: usize) -> (r: (Self, PtOp))
        requires
            start + num_pages * PAGE_SIZE_4K <= usize::MAX,
        ensures
            r.0@ == (AreaView {
                pages: Seq::new(num_pages as nat, |i: int| None::<usize>),
                vaddr: start,
                shared: false,
                flags,
                backend: None,
            }),
            r.0@.wf(),
            r.1 == (PtOp::MapRegion { start, paddr, size: (num_pages * PAGE_SIZE_4K) as usize, flags }),
    {
        let a = Self::with_empty_pages(start, num_pages, flags, false, None);
        (a, PtOp::MapRegion { start, paddr, size: num_pages * PAGE_SIZE_4K, flags })
    }

    /// Like `new_without_alloc`, for an area shared with child processes.
    pub fn new_without_alloc_shared(start: usize, paddr: usize, num_pages: usize, flags: usize) -> (r: (Self, PtOp))
        requires
            start + num_pages * PAGE_SIZE_4K <= usize::MAX,
        ensures
            r.0@ == (AreaView {
                pages: Seq::new(num_pages as nat, |i: int| None::<usize>),
                vaddr: start,
                shared: true,
                flags,
                backend: None,
            }),
            r.0@.wf(),
            r.1 == (PtOp::MapRegion { start, paddr, size: (num_pages * PAGE_SIZE_4K) as usize, flags }),
    {
        let a = Self::with_empty_pages(start, num_pages, flags, true, None);
        (a, PtOp::MapRegion { start, paddr, size: num_pages * PAGE_SIZE_4K, flags })
    }

    /// Creates an area backed by `num_pages` physically contiguous frames
    /// starting at `first_frame`.
    pub fn new_alloc(start: usize, first_frame: usize, num_pages: usize, flags: usize, backend: Option<MemBackend>) -> (r: (Self, PtOp))
        requires
            num_pages > 0,
            start + num_pages * PAGE_SIZE_4K <= usize::MAX,
            first_frame + num_pages * PAGE_SIZE_4K <= usize::MAX,
            backend matches Some(b) ==> b.offset + num_pages * PAGE_SIZE_4K <= u64::MAX,
        ensures
            r.0@ == (AreaView {
                pages: Seq::new(num_pages as nat, |i: int| Some((first_frame + i * PAGE_SIZE_4K) as usize)),
                vaddr: start,
                shared: false,
                flags,
                backend,
            }),
            r.0@.wf(),
            r.1 == (PtOp::MapRegion { start, paddr: first_frame, size: (num_pages * PAGE_SIZE_4K) as usize, flags }),
    {
        let mut pages: Vec<Option<usize>> = Vec::with_capacity(num_pages);
        let mut i: usize = 0;
        while i < num_pages
            invariant
                i <= num_pages,
                first_frame + num_pages * PAGE_SIZE_4K <= usize::MAX,
                pages@ =~= Seq::new(i as nat, |k: int| Some((first_frame + k * PAGE_SIZE_4K) as usize)),
            decreases num_pages - i,
        {
            assert(i * PAGE_SIZE_4K <= num_pages * PAGE_SIZE_4K) by (nonlinear_arith)
                requires
                    i < num_pages,
            ;
            pages.push(Some(first_frame + i * PAGE_SIZE_4K));
            i = i + 1;
        }
        let a = MapArea { pages, vaddr: start, shared: false, flags, backend };
        (a, PtOp::MapRegion { start, paddr: first_frame, size: num_pages * PAGE_SIZE_4K, flags })
    }

    /// Sets whether the area is shared with child processes.
    pub fn set_shared(&mut self, shared: bool)
        ensures
            final(self)@ == (AreaView { shared, ..old(self)@ }),
    {
        self.shared = shared;
    }

    /// Whether the area is shared with child processes.
    pub fn is_shared(&self) -> (b: bool)
        ensures
            b == self@.shared,
    {
        self.shared
    }

    /// Start virtual address of the area.
    pub fn start(&self) -> (v: usize)
        ensures
            v == self@.vaddr,
    {
        self.vaddr
    }

    /// Mapping flags of the area.
    pub fn map_flags(&self) -> (f: usize)
        ensures
            f == self@.flags,
    {
        self.flags
    }

    /// The file backing the area, if any.
    pub fn file_backend(&self) -> (b: Option<MemBackend>)
        ensures
            b == self@.backend,
    {
        self.backend
    }

    /// Number of pages of the area.
    pub fn page_count(&self) -> (n: usize)
        ensures
            n == self@.pages.len(),
    {
        self.pages.len()
    }

    /// Size of the area in bytes, counting 4 KiB per page.
    pub fn size(&self) -> (s: usize)
        requires
            self@.wf(),
        ensures
            s == self@.size(),
    {
        self.pages.len() * PAGE_SIZE_4K
    }

    /// End virtual address of the area.
    pub fn end_va(&self) -> (e: usize)
        requires
            self@.wf(),
        ensures
            e == self@.end(),
    {
        self.vaddr + self.size()
    }

    /// Whether every page of the area has a frame.
    pub fn allocated(&self) -> (b: bool)
        ensures
            b == (forall|i: int| 0 <= i < self@.pages.len() ==> (#[trigger] self@.pages[i]) is Some),
    {
        let mut i: usize = 0;
        while i < self.pages.len()
            invariant
                i <= self@.pages.len(),
                forall|k: int| 0 <= k < i ==> (#[trigger] self@.pages[k]) is Some,
            decreases self@.pages.len() - i,
        {
            if self.pages[i].is_none() {
                return false;
            }
            i = i + 1;
        }
        true
    }

    /// The addresses of the pages without a frame, in order.
    pub fn unloaded_pages(&self) -> (v: Vec<usize>)
        requires
            self@.wf(),
        ensures
            v@ == unloaded(self@, self@.pages.len()),
    {
        let mut v: Vec<usize> = Vec::new();
        let mut i: usize = 0;
        while i < self.pages.len()
            invariant
                self@.wf(),
                i <= self@.pages.len(),
                v@ == unloaded(self@, i as nat),
            decreases self@.pages.len() - i,
        {
            assert(i * 4096 < self@.pages.len() * 4096) by (nonlinear_arith)
                requires
                    i < self@.pages.len(),
            ;
            if self.pages[i].is_none() {
                v.push(self.vaddr + i * PAGE_SIZE_4K);
            }
            proof {
                assert(v@ =~= unloaded(self@, (i + 1) as nat));
            }
            i = i + 1;
        }
        v
    }

    /// How a child process gets its copy of the area.
    pub fn clone_kind(&self) -> (k: CloneKind)
        ensures
            k == if self@.shared {
                CloneKind::Shared
            } else if forall|i: int| 0 <= i < self@.pages.len() ==> (#[trigger] self@.pages[i]) is Some {
                CloneKind::Contiguous
            } else {
                CloneKind::PerPage
            },
    {
        if self.shared {
            CloneKind::Shared
        } else if self.allocated() {
            CloneKind::Contiguous
        } else {
            CloneKind::PerPage
        }
    }

    /// The child's copy of a fully allocated area, over the contiguous
    /// frames from `first_frame` on that hold a copy of it.
    pub fn clone_contiguous(&self, first_frame: usize) -> (r: (Self, PtOp))
        requires
            self@.wf(),
            self@.pages.len() > 0,
            first_frame + self@.pages.len() * PAGE_SIZE_4K <= usize::MAX,
        ensures
            r.0@ == (AreaView {
                pages: Seq::new(self@.pages.len(), |i: int| Some((first_frame + i * PAGE_SIZE_4K) as usize)),
                vaddr: self@.vaddr,
                shared: false,
                flags: self@.flags,
                backend: self@.backend,
            }),
            r.0@.wf(),
            !self@.shared ==> clone_of(r.0@, self@),
            r.1 == (PtOp::MapRegion { start: self@.vaddr, paddr: first_frame, size: self@.size() as usize, flags: self@.flags }),
    {
        MapArea::new_alloc(self.vaddr, first_frame, self.pages.len(), self.flags, self.backend)
    }

    /// The child's copy of the area page by page, given `frames` as
    /// `paged_clone` describes, with the child's page-table edits in page
    /// order.
    pub fn clone_paged(&self, frames: &[usize]) -> (r: (Self, Vec<PtOp>))
        requires
            self@.wf(),
            frames@.len() == self@.pages.len(),
        ensures
            r.0@ == paged_clone(self@, frames@),
            r.0@.wf(),
            clone_of(r.0@, self@),
            r.1@ == Seq::new(self@.pages.len(), |i: int| paged_clone_op(self@, frames@, i)),
            !self@.shared ==> forall|i: int| 0 <= i < self@.pages.len() ==> #[trigger] r.0@.pages[i]
                == if self@.pages[i] is Some { Some(frames@[i]) } else { None },
            !self@.shared ==> forall|i: int| 0 <= i < self@.pages.len() && self@.pages[i] is Some
                ==> #[trigger] r.1@[i] == (PtOp::MapPage {
                    vaddr: (self@.vaddr + i * PAGE_SIZE_4K) as usize,
                    paddr: frames@[i],
                    flags: self@.flags,
                }),
    {
        let mut pages: Vec<Option<usize>> = Vec::new();
        let mut ops: Vec<PtOp> = Vec::new();
        let mut i: usize = 0;
        while i < self.pages.len()
            invariant
                self@.wf(),
                frames@.len() == self@.pages.len(),
                i <= self@.pages.len(),
                pages@ =~= paged_clone(self@, frames@).pages.take(i as int),
                ops@ =~= Seq::new(i as nat, |k: int| paged_clone_op(self@, frames@, k)),
            decreases self@.pages.len() - i,
        {
            assert(i * 4096 < self@.pages.len() * 4096) by (nonlinear_arith)
                requires
                    i < self@.pages.len(),
            ;
            let vaddr = self.vaddr + i * PAGE_SIZE_4K;
            let (page, op) = if self.shared {
                match self.pages[i] {
                    Some(f) => (Some(f), PtOp::MapPage { vaddr, paddr: f, flags: self.flags }),
                    None => (None, PtOp::MapPage { vaddr, paddr: frames[i], flags: self.flags }),
                }
            } else {
                match self.pages[i] {
                    Some(_) => (Some(frames[i]), PtOp::MapPage { vaddr, paddr: frames[i], flags: self.flags }),
                    None => (None, PtOp::MapFaultPage { vaddr, flags: self.flags }),
                }
            };
            pages.push(page);
            ops.push(op);
            i = i + 1;
        }
        let child = MapArea { pages, vaddr: self.vaddr, shared: self.shared, flags: self.flags, backend: self.backend };
        assert(paged_clone(self@, frames@).pages.take(self@.pages.len() as int) =~= paged_clone(self@, frames@).pages);
        assert(child@ =~= paged_clone(self@, frames@));
        (child, ops)
    }

    /// Whether `[start, end)` overlaps the area.
    pub fn overlap_with(&self, start: usize, end: usize) -> (b: bool)
        requires
            self@.wf(),
        ensures
            b == self@.overlaps(start as int, end as int),
    {
        self.vaddr <= start && start < self.end_va() || start <= self.vaddr && self.vaddr < end
    }

    /// Whether `[start, end]` contains the area.
    pub fn contained_in(&self, start: usize, end: usize) -> (b: bool)
        requires
            self@.wf(),
        ensures
            b == self@.inside(start as int, end as int),
    {
        start <= self.vaddr && self.end_va() <= end
    }

    /// Whether the area contains `[start, end]`.
    pub fn contains(&self, start: usize, end: usize) -> (b: bool)
        requires
            self@.wf(),
        ensures
            b == (self@.vaddr <= start && end <= self@.end()),
    {
        self.vaddr <= start && end <= self.end_va()
    }

    /// Whether the area strictly contains `[start, end]`: neither bound is
    /// one of the area's.
    pub fn strict_contain(&self, start: usize, end: usize) -> (b: bool)
        requires
            self@.wf(),
        ensures
            b == self@.strictly_holds(start as int, end as int),
    {
        self.vaddr < start && end < self.end_va()
    }


    /// Cuts off the pages before `new_start`; the area then starts at
    /// `new_start`, its file offset moves along, and the cut range leaves the
    /// page table.
    pub fn shrink_left(&mut self, new_start: usize) -> (op: PtOp)
        requires
            old(self)@.wf(),
            aligned(new_start as int),
            old(self)@.vaddr <= new_start,
            (new_start - old(self)@.vaddr) / (PAGE_SIZE_4K as int) <= old(self)@.pages.len(),
            old(self)@.seek_ok(new_start - old(self)@.vaddr),
            old(self)@.front_cut(new_start as int).wf(),
        ensures
            final(self)@ == old(self)@.front_cut(new_start as int),
            final(self)@.wf(),
            op == (PtOp::Unmap { start: old(self)@.vaddr, size: (new_start - old(self)@.vaddr) as usize }),
    {
        let delete_size = new_start - self.vaddr;
        let delete_pages = delete_size / PAGE_SIZE_4K;
        self.backend = match self.backend {
            Some(b) => Some(MemBackend { file: b.file, offset: b.offset + delete_size as u64 }),
            None => None,
        };
        let rest = self.pages.split_off(delete_pages);
        self.pages = rest;
        let op = PtOp::Unmap { start: self.vaddr, size: delete_size };
        self.vaddr = new_start;
        op
    }

    /// Cuts off the pages from `new_end` on; the cut range leaves the page
    /// table.
    pub fn shrink_right(&mut self, new_end: usize) -> (op: PtOp)
        requires
            old(self)@.wf(),
            aligned(new_end as int),
            new_end <= old(self)@.end(),
            (old(self)@.end() - new_end) / (PAGE_SIZE_4K as int) <= old(self)@.pages.len(),
        ensures
            final(self)@ == old(self)@.back_cut(new_end as int),
            final(self)@.wf(),
            op == (PtOp::Unmap { start: new_end, size: (old(self)@.end() - new_end) as usize }),
    {
        let delete_size = self.end_va() - new_end;
        let delete_pages = delete_size / PAGE_SIZE_4K;
        let keep = self.pages.len() - delete_pages;
        self.pages.truncate(keep);
        PtOp::Unmap { start: new_end, size: delete_size }
    }

    /// Splits the area at `addr`: the pages from `addr` on move to the
    /// returned area.
    pub fn split(&mut self, addr: usize) -> (right: Self)
        requires
            old(self)@.wf(),
            aligned(addr as int),
            old(self)@.vaddr <= addr <= old(self)@.end(),
            (old(self)@.end() - addr) / (PAGE_SIZE_4K as int) <= old(self)@.pages.len(),
            old(self)@.seek_ok(addr - old(self)@.vaddr),
            old(self)@.right_of(addr as int).wf(),
        ensures
            final(self)@ == old(self)@.left_of(addr as int),
            right@ == old(self)@.right_of(addr as int),
            final(self)@.wf(),
            right@.wf(),
    {
        let right_count = (self.end_va() - addr) / PAGE_SIZE_4K;
        let at = self.pages.len() - right_count;
        let right_pages = self.pages.split_off(at);
        let backend = match self.backend {
            Some(b) => Some(MemBackend { file: b.file, offset: b.offset + (addr - self.vaddr) as u64 }),
            None => None,
        };
        MapArea { pages: right_pages, vaddr: addr, flags: self.flags, shared: self.shared, backend }
    }

    /// Splits the area into three at `start` and `end`: the area keeps the
    /// pages before `start`, the first returned area the pages of
    /// `[start, end)`, the second the pages from `end` on.
    pub fn split3(&mut self, start: usize, end: usize) -> (r: (Self, Self))
        requires
            old(self)@.wf(),
            aligned(start as int),
            aligned(end as int),
            start < end,
            old(self)@.vaddr < start,
            end < old(self)@.end(),
            (old(self)@.end() - end) / (PAGE_SIZE_4K as int) <= old(self)@.pages.len(),
            (old(self)@.left_of(end as int).end() - start) / (PAGE_SIZE_4K as int) <= old(self)@.left_of(end as int).pages.len(),
            old(self)@.seek_ok(end - old(self)@.vaddr),
            old(self)@.left_of(end as int).right_of(start as int).wf(),
            old(self)@.right_of(end as int).wf(),
        ensures
            final(self)@ == old(self)@.left_of(end as int).left_of(start as int),
            r.0@ == old(self)@.left_of(end as int).right_of(start as int),
            r.1@ == old(self)@.right_of(end as int),
            final(self)@.wf(),
            r.0@.wf(),
            r.1@.wf(),
    {
        let right = self.split(end);
        let mid = self.split(start);
        (mid, right)
    }

    /// Takes `[left_end, right_start)` out of the area: the pages from
    /// `right_start` on move to the returned area, those in between are
    /// dropped and leave the page table.
    pub fn remove_mid(&mut self, left_end: usize, right_start: usize) -> (r: (Self, PtOp))
        requires
            old(self)@.wf(),
            aligned(left_end as int),
            aligned(right_start as int),
            old(self)@.vaddr <= left_end <= right_start,
            (right_start - old(self)@.vaddr) / (PAGE_SIZE_4K as int) <= old(self)@.pages.len(),
            old(self)@.seek_ok(right_start - old(self)@.vaddr),
            old(self)@.tail_from(right_start as int).wf(),
        ensures
            final(self)@ == old(self)@.head_to(left_end as int),
            r.0@ == old(self)@.tail_from(right_start as int),
            final(self)@.wf(),
            r.0@.wf(),
            r.1 == (PtOp::Unmap { start: left_end, size: (right_start - left_end) as usize }),
    {
        let delete_size = right_start - left_end;
        let l_idx = (left_end - self.vaddr) / PAGE_SIZE_4K;
        let r_idx = (right_start - self.vaddr) / PAGE_SIZE_4K;
        assert((left_end - self.vaddr) / 4096 <= (right_start - self.vaddr) / 4096) by (nonlinear_arith)
            requires
                left_end - self.vaddr <= right_start - self.vaddr,
                0 <= left_end - self.vaddr,
        ;
        let pages = self.pages.split_off(r_idx);
        let backend = match self.backend {
            Some(b) => Some(MemBackend { file: b.file, offset: b.offset + (right_start - self.vaddr) as u64 }),
            None => None,
        };
        let right_area = MapArea { pages, vaddr: right_start, flags: self.flags, shared: self.shared, backend };
        self.pages.truncate(l_idx);
        assert(self@.pages =~= old(self)@.pages.subrange(0, l_idx as int));
        (right_area, PtOp::Unmap { start: left_end, size: delete_size })
    }


    /// Decides what a page fault at `addr` needing access `flags` calls for.
    pub fn handle_page_fault(&self, addr: usize, flags: usize) -> (d: FaultDecision)
        requires
            self@.wf(),
            self@.vaddr <= addr < self@.end(),
        ensures
            d == self@.fault_spec(addr as int, flags),
            d matches FaultDecision::Load { index, file } ==> index < self@.pages.len(),
    {
        if !contains_flags(self.flags, flags) {
            return FaultDecision::Denied;
        }
        let index = (addr - self.vaddr) / PAGE_SIZE_4K;
        if index >= self.pages.len() {
            return FaultDecision::OutOfRange;
        }
        if self.pages[index].is_some() {
            return FaultDecision::Present;
        }
        assert(index * 4096 <= self.pages@.len() * 4096) by (nonlinear_arith)
            requires
                index < self.pages@.len(),
        ;
        let file = match self.backend {
            Some(b) => Some(MemBackend { file: b.file, offset: b.offset + (index * PAGE_SIZE_4K) as u64 }),
            None => None,
        };
        FaultDecision::Load { index, file }
    }

    /// Records that the page holding `addr` now has frame `frame`, and
    /// returns the page-table entry to install for it.
    pub fn install_page(&mut self, addr: usize, frame: usize) -> (op: PtOp)
        requires
            old(self)@.wf(),
            old(self)@.vaddr <= addr < old(self)@.end(),
        ensures
            final(self)@ == (AreaView {
                pages: old(self)@.pages.update((addr - old(self)@.vaddr) / (PAGE_SIZE_4K as int), Some(frame)),
                ..old(self)@
            }),
            final(self)@.wf(),
            op == (PtOp::MapPage { vaddr: align_down_spec(addr as int) as usize, paddr: frame, flags: old(self)@.flags }),
    {
        let index = (addr - self.vaddr) / PAGE_SIZE_4K;
        assert(index < self.pages@.len()) by (nonlinear_arith)
            requires
                addr - self.vaddr < self.pages@.len() * 4096,
                0 <= addr - self.vaddr,
                index == (addr - self.vaddr) / 4096,
        ;
        self.pages.set(index, Some(frame));
        PtOp::MapPage { vaddr: align_down_4k(addr), paddr: frame, flags: self.flags }
    }

    /// The write-back of page `page_index` to the backing file, if the page
    /// has a frame and the area has a file; the caller writes only when the
    /// file is writable.
    pub fn sync_page_with_backend(&self, page_index: usize) -> (r: Option<SyncRequest>)
        requires
            self@.wf(),
            page_index < self@.pages.len(),
        ensures
            r == match (self@.pages[page_index as int], self@.backend) {
                (Some(frame), Some(b)) => Some(SyncRequest { file: b.file, offset: (page_index * PAGE_SIZE_4K) as u64, frame }),
                _ => None,
            },
    {
        assert(page_index * 4096 <= self.pages@.len() * 4096) by (nonlinear_arith)
            requires
                page_index < self.pages@.len(),
        ;
        match self.pages[page_index] {
            Some(frame) => match self.backend {
                Some(b) => Some(SyncRequest { file: b.file, offset: (page_index * PAGE_SIZE_4K) as u64, frame }),
                None => None,
            },
            None => None,
        }
    }

    /// Drops every page; the whole area leaves the page table.
    pub fn dealloc(&mut self) -> (op: PtOp)
        requires
            old(self)@.wf(),
        ensures
            final(self)@ == (AreaView { pages: Seq::empty(), ..old(self)@ }),
            op == (PtOp::Unmap { start: old(self)@.vaddr, size: old(self)@.size() as usize }),
    {
        let op = PtOp::Unmap { start: self.vaddr, size: self.size() };
        self.pages.clear();
        op
    }

    /// Sets the mapping flags of the area; the page table follows.
    pub fn update_flags(&mut self, flags: usize) -> (op: PtOp)
        requires
            old(self)@.wf(),
        ensures
            final(self)@ == (AreaView { flags, ..old(self)@ }),
            op == (PtOp::Update { start: old(self)@.vaddr, size: old(self)@.size() as usize, flags }),
    {
        self.flags = flags;
        PtOp::Update { start: self.vaddr, size: self.size(), flags }
    }
}

/// A child's private copy never maps a frame of the parent: given fresh
/// frames (none of those supplied for the parent's loaded pages is a frame
/// of the parent's area), each loaded page of the copy holds the fresh frame
/// supplied for it, which differs from the parent's frame there, no page of
/// the copy holds any frame of the parent's area, pages without a frame stay
/// without one, and the child's page table maps each loaded page to its
/// fresh frame and leaves each other page to fault.
pub proof fn lemma_private_clone_fresh(a: AreaView, frames: Seq<usize>)
    requires
        !a.shared,
        frames.len() == a.pages.len(),
        forall|i: int, j: int| 0 <= i < a.pages.len() && 0 <= j < a.pages.len() && a.pages[i] is Some
            ==> #[trigger] a.pages[j] != Some(#[trigger] frames[i]),
    ensures
        paged_clone(a, frames).pages.len() == a.pages.len(),
        forall|i: int| 0 <= i < a.pages.len() && a.pages[i] is Some ==> {
            &&& #[trigger] paged_clone(a, frames).pages[i] == Some(frames[i])
            &&& paged_clone(a, frames).pages[i] != a.pages[i]
        },
        forall|i: int| 0 <= i < a.pages.len() && a.pages[i] is None ==> #[trigger] paged_clone(a, frames).pages[i] is None,
        forall|i: int, j: int| 0 <= i < a.pages.len() && 0 <= j < a.pages.len() && a.pages[j] is Some
            ==> #[trigger] paged_clone(a, frames).pages[i] != #[trigger] a.pages[j],
        forall|i: int| 0 <= i < a.pages.len() ==> #[trigger] paged_clone_op(a, frames, i) == if a.pages[i] is Some {
            PtOp::MapPage { vaddr: (a.vaddr + i * PAGE_SIZE_4K) as usize, paddr: frames[i], flags: a.flags }
        } else {
            PtOp::MapFaultPage { vaddr: (a.vaddr + i * PAGE_SIZE_4K) as usize, flags: a.flags }
        },
{
    let c = paged_clone(a, frames);
    assert forall|i: int| 0 <= i < a.pages.len() && a.pages[i] is Some implies
        c.pages[i] == Some(frames[i]) && c.pages[i] != a.pages[i] by {
        assert(a.pages[i] != Some(frames[i]));
    }
    assert forall|i: int, j: int| 0 <= i < a.pages.len() && 0 <= j < a.pages.len() && a.pages[j] is Some
        implies #[trigger] c.pages[i] != #[trigger] a.pages[j] by {
        if a.pages[i] is Some {
            assert(a.pages[j] != Some(frames[i]));
        }
    }
}

} // verus!
