use indominus::aslr;
use indominus::memory::map::{
    build_memory_map, FirmwareRegion, MemoryMap, MemoryRegion, MemoryRegionKind, PhysAddr,
};
use indominus::memory::pmm;
use indominus::memory::relocate::fixup_pic_relocations;
use indominus::memory::vmm::{
    create_empty_pml4, create_user_pml4, frame_of, page_frame_of, init_kernel_page_tables, is_canonical,
    phys_to_virt, remove_identity_map, table_index, virt_to_phys, MapStep, Mapping, Walk, WalkStep,
};
use indominus::memory::{
    phys_to_kernel_virt, FLAG_NO_EXECUTE, FLAG_PRESENT, FLAG_USER, FLAG_WRITABLE, USER_HEAP_BASE,
    USER_MMAP_BASE, USER_STACK_TOP,
};
use indominus::mmio::{mmio_to_virt, MmioRegion};
use indominus::process::spawn::map_user_stack;

fn usable(start: u64, pages: u64) -> MemoryRegion {
    MemoryRegion {
        start: PhysAddr::new(start),
        length: pages * 4096,
        kind: MemoryRegionKind::Usable,
    }
}

fn small() -> MemoryMap {
    MemoryMap { regions: vec![usable(0x1000, 8)] }
}

#[test]
fn firmware_types_are_mapped() {
    let map = build_memory_map(&[
        FirmwareRegion { ty: 7, phys_start: 0x1000, page_count: 3 },
        FirmwareRegion { ty: 0, phys_start: 0x9000, page_count: 1 },
    ]);
    assert_eq!(map.regions.len(), 2);
    assert_eq!(map.regions[0].kind, MemoryRegionKind::Usable);
    assert_eq!(map.regions[0].length, 3 * 4096);
    assert_eq!(map.regions[1].kind, MemoryRegionKind::Reserved);
}

#[test]
fn frames_are_handed_out_once() {
    let mut p = pmm::init(&small());
    assert_eq!(pmm::free_frames(&p), 8);
    assert_eq!(pmm::total_usable_bytes(&p), 8 * 4096);
    let a = pmm::alloc_frame(&mut p).unwrap();
    let b = pmm::alloc_frame(&mut p).unwrap();
    assert_eq!((a.as_u64(), b.as_u64()), (0x1000, 0x2000));
    assert!(pmm::is_allocated(&p, a));
    assert_eq!(pmm::free_frames(&p), 6);
    for _ in 0..6 {
        assert!(pmm::alloc_frame(&mut p).is_some());
    }
    assert!(pmm::alloc_frame(&mut p).is_none());
}

#[test]
fn freed_frame_comes_back() {
    let mut p = pmm::init(&small());
    let a = pmm::alloc_frame(&mut p).unwrap();
    pmm::free_frame(&mut p, a);
    assert!(!pmm::is_allocated(&p, a));
    assert_eq!(pmm::free_frames(&p), 8);
    assert_eq!(pmm::alloc_frame(&mut p), Some(a));
}

#[test]
fn frame_zero_is_never_given() {
    let mut p = pmm::init(&MemoryMap { regions: vec![usable(0, 2)] });
    assert_eq!(pmm::alloc_frame(&mut p).map(|f| f.as_u64()), Some(0x1000));
    assert!(pmm::alloc_frame(&mut p).is_none());
    pmm::free_frame(&mut p, PhysAddr::new(0));
    assert!(pmm::alloc_frame(&mut p).is_none());
}

#[test]
fn contiguous_frames() {
    let mut p = pmm::init(&small());
    pmm::mark_region_used(&mut p, 0x2000, 0x3000);
    assert_eq!(pmm::alloc_contiguous(&mut p, 3).map(|f| f.as_u64()), Some(0x3000));
    assert!(pmm::is_allocated(&p, PhysAddr::new(0x5000)));
    assert!(!pmm::is_allocated(&p, PhysAddr::new(0x6000)));
    assert!(pmm::alloc_contiguous(&mut p, 4).is_none());
}

#[test]
fn canonical_addresses() {
    assert!(is_canonical(0));
    assert!(is_canonical(0x0000_7FFF_FFFF_FFFF));
    assert!(!is_canonical(0x0000_8000_0000_0000));
    assert!(is_canonical(0xFFFF_8000_0000_0000));
}

#[test]
fn table_indices() {
    let addr = 0xFFFF_FFFF_8020_1123;
    assert_eq!(table_index(addr, 4), 511);
    assert_eq!(table_index(addr, 3), 510);
    assert_eq!(table_index(addr, 2), 1);
    assert_eq!(table_index(addr, 1), 1);
    assert_eq!(frame_of(0x5003), Some(0x5000));
    assert_eq!(frame_of(0x5002), None);
    assert_eq!(frame_of(0x5083), None);
    assert_eq!(page_frame_of(0x5083), Some(0x5000));
    assert_eq!(page_frame_of(0x5002), Some(0x5000));
    assert_eq!(page_frame_of(0), None);
    assert_eq!(virt_to_phys(phys_to_virt(0x1234)).as_u64(), 0x1234);
}

#[test]
fn walk_follows_tables() {
    let addr = 0xFFFF_FFFF_8020_1123;
    let (mut walk, mut step) = Walk::start(0x1000, addr);
    let mut entries = vec![0x2001u64, 0x3001, 0x4001, 0x9001].into_iter();
    let mut asked = Vec::new();
    loop {
        match step {
            WalkStep::Read(at) => {
                asked.push(at);
                step = walk.feed(entries.next().unwrap());
            }
            WalkStep::Mapped(phys) => {
                assert_eq!(phys, 0x9123);
                break;
            }
            WalkStep::NotMapped => panic!("not mapped"),
        }
    }
    assert_eq!(asked, vec![0x1000 + 511 * 8, 0x2000 + 510 * 8, 0x3000 + 8, 0x4000 + 8]);
    let (mut walk, _) = Walk::start(0x1000, addr);
    assert_eq!(walk.feed(0), WalkStep::NotMapped);
}

#[test]
fn user_tables_share_kernel_half() {
    let mut p = pmm::init(&small());
    let mut kernel: Vec<u64> = (0..512).map(|i| i * 0x1000 + 3).collect();
    let (frame, entries) = create_user_pml4(&mut p, &kernel).unwrap();
    assert_eq!(frame.as_u64(), 0x1000);
    assert!(entries[..256].iter().all(|e| *e == 0));
    assert_eq!(entries[256..], kernel[256..]);
    let (_, empty) = create_empty_pml4(&mut p).unwrap();
    assert!(empty.iter().all(|e| *e == 0));
    remove_identity_map(&mut kernel);
    assert_eq!(kernel[0], 0);
    assert_eq!(kernel[1], 0x1003);
    assert_eq!(kernel[511], 511 * 0x1000 + 3);
}

#[test]
fn kernel_mappings_come_in_order() {
    let mut p = pmm::init(&MemoryMap { regions: vec![usable(0x10_0000, 64)] });
    let mut plan = init_kernel_page_tables(0x20_0000, 0x20_2000);
    let mut first = None;
    let mut count = 0u64;
    while count < 3 {
        match plan.next(&mut p) {
            MapStep::Page(m) => {
                if first.is_none() {
                    first = Some(m);
                }
                count += 1;
            }
            MapStep::OutOfMemory | MapStep::Done => break,
        }
    }
    assert!(first.is_some());
    let m: Mapping = first.unwrap();
    assert_eq!(m.flags & FLAG_PRESENT, FLAG_PRESENT);
}

#[test]
fn kernel_addresses() {
    assert_eq!(phys_to_kernel_virt(0x20_1000, 0x20_0000), 0xFFFF_FFFF_8000_1000);
    assert_eq!(mmio_to_virt(0xFEE0_0000), 0xFFFF_FFFF_FEE0_0000);
    assert_ne!(mmio_to_virt(0xFEC0_0000), mmio_to_virt(0xFEE0_0000));
    let (region, mapping) = MmioRegion::new(0xFEB0_0123, None);
    assert_eq!(region.base, 0xFFFF_FFFF_FEB0_0000);
    assert_eq!(mapping.unwrap().phys, 0xFEB0_0000);
    assert_eq!(region.reg_addr(0x10), 0xFFFF_FFFF_FEB0_0010);
    assert_eq!(region.set_bits(0x10, 3), 0x13);
    assert_eq!(region.clear_bits(0x13, 1), 0x12);
    assert!(MmioRegion::new(0xFEB0_0000, Some(7)).1.is_none());
}

#[test]
fn relocations_become_virtual() {
    let base = 0xFFFF_FFFF_8000_0000u64;
    let mut image = vec![0u8; 64];
    // One entry at 0: the word at 40 is relative.
    image[0..8].copy_from_slice(&(base + 40).to_le_bytes());
    image[8..16].copy_from_slice(&8u64.to_le_bytes());
    image[40..48].copy_from_slice(&0x20_0010u64.to_le_bytes());
    image[48..56].copy_from_slice(&0x77u64.to_le_bytes());
    fixup_pic_relocations(&mut image, base, 0x20_0000, base, 24);
    assert_eq!(image[40..48], 0xFFFF_FFFF_8000_0010u64.to_le_bytes());
    assert_eq!(image[48..56], 0x77u64.to_le_bytes());
}

#[test]
fn random_layout_stays_in_range() {
    let mut prng = aslr::init(1);
    let x = aslr::next_u64(&mut prng);
    assert_eq!(x, 0x4082_2041);
    assert_ne!(prng.state, 0);
    for _ in 0..100 {
        let stack = aslr::randomize_stack_base(&mut prng);
        assert!(stack <= USER_STACK_TOP && stack > USER_STACK_TOP - 16 * 4096);
        assert_eq!(stack % 4096, 0);
        let mmap = aslr::randomize_mmap_base(&mut prng);
        assert!(mmap >= USER_MMAP_BASE && mmap < USER_MMAP_BASE + 32 * 4096);
        let heap = aslr::randomize_heap_base(&mut prng);
        assert!(heap >= USER_HEAP_BASE && heap < USER_HEAP_BASE + 64 * 4096);
    }
    assert_eq!(aslr::rand_range(&mut prng, 0), 0);
    let state = prng.state;
    assert_eq!(aslr::random_page_offset(&mut prng, 0), 0);
    assert_eq!(prng.state, state);
    assert_eq!(aslr::random_page_offset(&mut prng, 1), 0);
    assert_ne!(prng.state, state);
}

#[test]
fn user_stack_has_a_guard() {
    let mut p = pmm::init(&small());
    let top = 0x7FFF_FFFF_0000u64;
    let pages = map_user_stack(&mut p, top).unwrap();
    assert_eq!(pages.len(), 5);
    assert_eq!(pages[0].virt, top - 5 * 4096);
    assert_eq!(pages[0].flags, FLAG_PRESENT);
    assert_eq!(pages[4].virt, top - 4096);
    let flags = FLAG_PRESENT | FLAG_WRITABLE | FLAG_USER | FLAG_NO_EXECUTE;
    assert!(pages[1..].iter().all(|m| m.flags == flags));
    assert_eq!(pmm::free_frames(&p), 3);
    assert!(map_user_stack(&mut p, top).is_none());
}

#[test]
fn mapped_registers_have_addresses() {
    let region = MmioRegion::from_virt(0xFFFF_FFFF_FEB0_0000);
    assert_eq!(region.base, 0xFFFF_FFFF_FEB0_0000);
    assert_eq!(region.reg_addr(0x118), 0xFFFF_FFFF_FEB0_0118);
    assert_eq!(region.set_bits(0x11, 0x14), 0x15);
    assert_eq!(region.clear_bits(0x15, 0x14), 0x01);
}
