use async_os::mm_area::{
    align_down_4k, is_aligned_4k, CloneKind, FaultDecision, MapArea, MemBackend, PtOp, SyncRequest,
};
use async_os::vdso::{table_entry, vdso_page_entries};
use async_os::mm_set::{
    check_entry, manual_alloc_range_pages, REMAP_FLAGS, manual_alloc_type_pages, EntryCheck, MemError, MemorySet,
};

const R: usize = 0b0010;
const RW: usize = 0b0110;
const RX: usize = 0b1010;

#[test]
fn mmap_finds_gaps_from_user_start() {
    let mut ms = MemorySet::new_empty();
    assert_eq!(ms.mmap(0, 0x1000, RW, false, false, None), Err(MemError::NoMemory));
    ms.mmap(0x100000, 0x1000, R, false, true, None).unwrap();
    let (a, ops) = ms.mmap(0, 5000, RW, false, false, None).unwrap();
    assert_eq!(a, 0x1000);
    assert_eq!(ops, vec![PtOp::MapFaultRegion { start: 0x1000, size: 0x2000, flags: RW }]);
    let (b2, _) = ms.mmap(0, 0x1000, R, false, false, None).unwrap();
    assert_eq!(b2, 0x3000);
    assert_eq!(ms.regions(), vec![(0x1000, 0x3000, RW), (0x3000, 0x4000, R), (0x100000, 0x101000, R)]);
    assert_eq!(ms.max_va(), 0x101000);
    let (c, _) = ms.mmap(0x10000, 0x1000, R, false, false, None).unwrap();
    assert_eq!(c, 0x4000);
}

#[test]
fn mmap_fixed_replaces_what_was_there() {
    let mut ms = MemorySet::new_empty();
    ms.mmap(0x1000, 0x4000, RW, false, true, None).unwrap();
    let (a, ops) = ms.mmap(0x2000, 0x1000, RX, false, true, None).unwrap();
    assert_eq!(a, 0x2000);
    assert_eq!(
        ops,
        vec![
            PtOp::Unmap { start: 0x2000, size: 0x1000 },
            PtOp::MapFaultRegion { start: 0x2000, size: 0x1000, flags: RX },
        ]
    );
    assert_eq!(ms.regions(), vec![(0x1000, 0x2000, RW), (0x2000, 0x3000, RX), (0x3000, 0x5000, RW)]);
}

#[test]
fn munmap_cuts_and_drops_areas() {
    let mut ms = MemorySet::new_empty();
    ms.mmap(0x1000, 0x2000, RW, false, true, None).unwrap();
    ms.mmap(0x4000, 0x2000, R, false, true, None).unwrap();
    let ops = ms.munmap(0x2000, 0x3000);
    assert_eq!(
        ops,
        vec![PtOp::Unmap { start: 0x2000, size: 0x1000 }, PtOp::Unmap { start: 0x4000, size: 0x1000 }]
    );
    assert_eq!(ms.regions(), vec![(0x1000, 0x2000, RW), (0x5000, 0x6000, R)]);
    let ops = ms.munmap(0x1000, 1);
    assert_eq!(ops, vec![PtOp::Unmap { start: 0x1000, size: 0x1000 }]);
    assert_eq!(ms.regions(), vec![(0x5000, 0x6000, R)]);
}

#[test]
fn split_for_area_removes_middle_of_area() {
    let mut ms = MemorySet::new_empty();
    ms.mmap(0x1000, 0x5000, RW, false, true, None).unwrap();
    let ops = ms.split_for_area(0x2000, 0x2000);
    assert_eq!(ops, vec![PtOp::Unmap { start: 0x2000, size: 0x2000 }]);
    assert_eq!(ms.regions(), vec![(0x1000, 0x2000, RW), (0x4000, 0x6000, RW)]);
}

#[test]
fn mprotect_changes_flags_only_in_range() {
    let mut ms = MemorySet::new_empty();
    ms.mmap(0x1000, 0x4000, RW, false, true, None).unwrap();
    let ops = ms.mprotect(0x2000, 0x1000, R);
    assert_eq!(ops, vec![PtOp::Update { start: 0x2000, size: 0x1000, flags: R }]);
    assert_eq!(ms.regions(), vec![(0x1000, 0x2000, RW), (0x2000, 0x3000, R), (0x3000, 0x5000, RW)]);
    let ops = ms.mprotect(0x1000, 0x4000, RX);
    assert_eq!(ops.len(), 3);
    assert_eq!(ms.regions(), vec![(0x1000, 0x2000, RX), (0x2000, 0x3000, RX), (0x3000, 0x5000, RX)]);
    let ops = ms.mprotect(0x4000, 0x2000, R);
    assert_eq!(ops, vec![PtOp::Update { start: 0x4000, size: 0x1000, flags: R }]);
}

#[test]
fn page_faults_load_then_find_present() {
    let mut ms = MemorySet::new_empty();
    ms.mmap(0x1000, 0x2000, RW, false, true, None).unwrap();
    assert_eq!(ms.handle_page_fault(0x9000, R), Err(MemError::BadAddress));
    assert_eq!(ms.handle_page_fault(0x1000, RX), Err(MemError::BadAddress));
    assert_eq!(ms.handle_page_fault(0x2010, R), Ok(FaultDecision::Load { index: 1, file: None }));
    let op = ms.install_page(0x2010, 0x8000_0000);
    assert_eq!(op, PtOp::MapPage { vaddr: 0x2000, paddr: 0x8000_0000, flags: RW });
    assert_eq!(ms.handle_page_fault(0x2fff, R), Ok(FaultDecision::Present));
    assert_eq!(ms.find_area(0x2fff), Some(0));
    assert_eq!(ms.find_area(0x3000), None);
}

#[test]
fn file_backed_fault_reads_at_page_offset() {
    let mut ms = MemorySet::new_empty();
    let backend = MemBackend { file: 3, offset: 0x100 };
    ms.mmap(0x1000, 0x3000, RW, false, true, Some(backend)).unwrap();
    assert_eq!(
        ms.handle_page_fault(0x3004, R),
        Ok(FaultDecision::Load { index: 2, file: Some(MemBackend { file: 3, offset: 0x2100 }) })
    );
}

#[test]
fn msync_asks_for_loaded_pages_in_range() {
    let mut ms = MemorySet::new_empty();
    let backend = MemBackend { file: 7, offset: 0 };
    ms.new_region(0x1000, 0x3000, false, RW, Some(0x10_0000), Some(backend));
    let reqs = ms.msync(0x2000, 0x2000);
    assert_eq!(
        reqs,
        vec![
            SyncRequest { file: 7, offset: 0x1000, frame: 0x10_1000 },
            SyncRequest { file: 7, offset: 0x2000, frame: 0x10_2000 },
        ]
    );
    assert!(ms.msync(0x8000, 0x1000).is_empty());
}

#[test]
fn attached_segments_are_avoided_by_searches() {
    let mut ms = MemorySet::new_empty();
    ms.mmap(0x100000, 0x1000, R, false, true, None).unwrap();
    let op = ms.attach_shared_mem(0x1000, R, 5, 0x2000, 0x9000_0000);
    assert_eq!(op, PtOp::MapRegion { start: 0x1000, paddr: 0x9000_0000, size: 0x2000, flags: R });
    assert_eq!(ms.find_free_area(0, 0x1000), Some(0x3000));
    let (a, _) = ms.mmap(0, 0x1000, RW, false, false, None).unwrap();
    assert_eq!(a, 0x3000);
    assert_eq!(ms.find_free_area(0, 0x1000), Some(0x4000));
}

#[test]
fn mmap_reports_no_memory_when_nothing_fits() {
    let mut ms = MemorySet::new_empty();
    ms.mmap(0x1000, 0x1000, RW, false, true, None).unwrap();
    let before = ms.regions();
    assert_eq!(ms.find_free_area(0x1000, 0x1000), None);
    assert_eq!(ms.mmap(0x1000, 0x1000, RW, false, false, None), Err(MemError::NoMemory));
    assert_eq!(ms.regions(), before);
}

#[test]
fn unmap_user_areas_unmaps_everything() {
    let mut ms = MemorySet::new_empty();
    ms.mmap(0x1000, 0x1000, RW, false, true, None).unwrap();
    ms.mmap(0x5000, 0x2000, R, false, true, None).unwrap();
    let ops = ms.unmap_user_areas();
    assert_eq!(
        ops,
        vec![PtOp::Unmap { start: 0x1000, size: 0x1000 }, PtOp::Unmap { start: 0x5000, size: 0x2000 }]
    );
    assert!(ms.regions().is_empty());
    assert_eq!(ms.max_va(), 0);
}

#[test]
fn map_attach_pages_make_areas_over_given_memory() {
    let mut ms = MemorySet::new_empty();
    let op = ms.map_attach_page_without_alloc(0x4000, 0x8800_0000, 2, RX).unwrap();
    assert_eq!(op, PtOp::MapRegion { start: 0x4000, paddr: 0x8800_0000, size: 0x2000, flags: RX });
    let op = ms.map_attach_shared_page_without_alloc(0x8000, 0x8900_0000, 1, R).unwrap();
    assert_eq!(op, PtOp::MapRegion { start: 0x8000, paddr: 0x8900_0000, size: 0x1000, flags: R });
    assert_eq!(ms.regions(), vec![(0x4000, 0x6000, RX), (0x8000, 0x9000, R)]);
}

#[test]
fn mremap_maps_new_region_and_pairs_pages() {
    let mut ms = MemorySet::new_empty();
    ms.mmap(0x1000, 0x2000, RW, false, true, None).unwrap();
    assert!(ms.mremap_prepare(0x1000, 0x1800, 0x3000).is_none());
    ms.mmap(0x100000, 0x1000, R, false, true, None).unwrap();
    let (addr, op, pairs) = ms.mremap_prepare(0x1000, 0x1800, 0x3000).unwrap();
    assert_eq!(addr, 0x3000);
    assert_eq!(op, PtOp::MapFaultRegion { start: 0x3000, size: 0x3000, flags: REMAP_FLAGS });
    assert_eq!(pairs, vec![(0x1000, 0x3000), (0x2000, 0x4000)]);
    assert_eq!(ms.regions().len(), 3);
    let (start, ops) = ms.mremap_finish(0x1000, 0x1800, addr);
    assert_eq!(start, 0x3000);
    assert_eq!(ops, vec![PtOp::Unmap { start: 0x1000, size: 0x2000 }]);
    assert_eq!(ms.regions(), vec![(0x3000, 0x6000, REMAP_FLAGS), (0x100000, 0x101000, R)]);
}

#[test]
fn manual_alloc_range_visits_each_page() {
    assert_eq!(manual_alloc_range_pages(0x1234, 0x3001), Ok(vec![0x1000, 0x2000, 0x3000]));
    assert_eq!(manual_alloc_range_pages(0x1000, 0x1000), Ok(vec![0x1000]));
    assert_eq!(manual_alloc_range_pages(0x2000, 0x1fff), Err(MemError::InvalidInput));
}

#[test]
fn clone_copies_areas_by_kind() {
    let (lazy, op) = MapArea::new_lazy(0x1000, 2, RW, None);
    assert_eq!(op, PtOp::MapFaultRegion { start: 0x1000, size: 0x2000, flags: RW });
    assert_eq!(lazy.clone_kind(), CloneKind::PerPage);
    assert_eq!(lazy.unloaded_pages(), vec![0x1000, 0x2000]);
    let (child, ops) = lazy.clone_paged(&[0, 0]);
    assert_eq!(ops, vec![
        PtOp::MapFaultPage { vaddr: 0x1000, flags: RW },
        PtOp::MapFaultPage { vaddr: 0x2000, flags: RW },
    ]);
    assert_eq!(child.start(), 0x1000);
    assert!(!child.allocated());

    let (full, _) = MapArea::new_alloc(0x4000, 0x7000_0000, 2, R, None);
    assert_eq!(full.clone_kind(), CloneKind::Contiguous);
    let (copy, op) = full.clone_contiguous(0x7100_0000);
    assert_eq!(op, PtOp::MapRegion { start: 0x4000, paddr: 0x7100_0000, size: 0x2000, flags: R });
    assert!(copy.allocated());

    let (mut shared, _) = MapArea::new_lazy(0x9000, 1, R, None);
    shared.set_shared(true);
    assert_eq!(shared.clone_kind(), CloneKind::Shared);
    let (_, ops) = shared.clone_paged(&[0x6600_0000]);
    assert_eq!(ops, vec![PtOp::MapPage { vaddr: 0x9000, paddr: 0x6600_0000, flags: R }]);

    let mut ms = MemorySet::new_empty();
    ms.mmap(0x1000, 0x2000, RW, false, true, None).unwrap();
    ms.attach_shared_mem(0x8000, R, 1, 0x1000, 0x5000_0000);
    let (child_area, _) = MapArea::new_lazy(0x1000, 2, RW, None);
    let (child_ms, ops) = ms.clone_with(vec![child_area]);
    assert_eq!(ops, vec![PtOp::MapRegion { start: 0x8000, paddr: 0x5000_0000, size: 0x1000, flags: R }]);
    assert_eq!(child_ms.regions(), vec![(0x1000, 0x3000, RW)]);
}

#[test]
fn page_helpers() {
    assert_eq!(align_down_4k(0x1fff), 0x1000);
    assert_eq!(align_down_4k(0x2000), 0x2000);
    assert!(is_aligned_4k(0x3000));
    assert!(!is_aligned_4k(0x3001));
}

#[test]
fn entry_checks_classify_page_table_walks() {
    assert_eq!(check_entry(false, false), EntryCheck::NoMemory);
    assert_eq!(check_entry(false, true), EntryCheck::NoMemory);
    assert_eq!(check_entry(true, false), EntryCheck::NotMapped);
    assert_eq!(check_entry(true, true), EntryCheck::Present);
}

#[test]
fn manual_alloc_for_lazy_decides_per_entry() {
    let mut ms = MemorySet::new_empty();
    ms.mmap(0x1000, 0x2000, RW, false, true, None).unwrap();
    assert_eq!(ms.manual_alloc_for_lazy(0x9000, EntryCheck::NotMapped, R), Err(MemError::InvalidInput));
    assert_eq!(ms.manual_alloc_for_lazy(0x1000, EntryCheck::NoMemory, R), Err(MemError::InvalidInput));
    assert_eq!(ms.manual_alloc_for_lazy(0x1000, EntryCheck::Present, R), Ok(None));
    assert_eq!(
        ms.manual_alloc_for_lazy(0x2010, EntryCheck::NotMapped, R),
        Ok(Some(FaultDecision::Load { index: 1, file: None }))
    );
    assert_eq!(ms.manual_alloc_for_lazy(0x2010, EntryCheck::NotMapped, RX), Err(MemError::BadAddress));
}

#[test]
fn manual_alloc_type_covers_the_object() {
    assert_eq!(manual_alloc_type_pages(0x1ff8, 16), Ok(vec![0x1000, 0x2000]));
    assert_eq!(manual_alloc_type_pages(0x3000, 1), Ok(vec![0x3000]));
}

#[test]
fn vdso_boot_entries() {
    assert_eq!(
        vdso_page_entries(0x8000_0000, 0x8000_2000, 0x8000_2000, 0x8000_3000),
        vec![(0x8000_0000u64 >> 2) | 0xe7, (0x8000_1000u64 >> 2) | 0xe7, (0x8000_2000u64 >> 2) | 0xef]
    );
    assert_eq!(vdso_page_entries(0x1000, 0x1800, 0x3000, 0x3000), vec![(0x1000u64 >> 2) | 0xe7]);
    assert_eq!(vdso_page_entries(0, 0, 0, 0), Vec::<u64>::new());
    assert_eq!(table_entry(0x8020_0000), (0x8020_0000u64 >> 2) | 1);
}

#[test]
fn private_segments_are_kept_and_copied() {
    let mut ms = MemorySet::new_empty();
    assert_eq!(ms.get_private_shared_mem(3), None);
    ms.add_private_shared_mem(3, 0x77);
    ms.add_private_shared_mem(5, 0x99);
    assert_eq!(ms.get_private_shared_mem(3), Some(0x77));
    let (child, _) = ms.clone_with(vec![]);
    assert_eq!(child.get_private_shared_mem(3), Some(0x77));
    assert_eq!(child.get_private_shared_mem(5), Some(0x99));
    assert_eq!(child.get_private_shared_mem(4), None);
}

#[test]
fn search_fits_is_checked() {
    let mut ms = MemorySet::new_empty();
    ms.mmap(0x1000, 0x2000, RW, false, true, None).unwrap();
    assert!(ms.search_fits_check(0, 0x1000));
    assert!(!ms.search_fits_check(0, usize::MAX));
    assert!(!ms.search_fits_check(usize::MAX - 0x800, 0x1000));
    assert!(ms.search_fits_check(0, usize::MAX - 0x3000));
    assert!(!ms.search_fits_check(0, usize::MAX - 0x2fff));
}
