use indominus::boot::{
    apply_relocations, entry_phys, find_rsdp, get_elf_entry, is_readable, kernel_layout,
    load_kernel, query_framebuffer, BootError, ConfigTable, FramebufferInfo, PixelFormat,
};
use indominus::elf::{
    load_elf, load_page, parse_ehdr, parse_phdr, segment_page, segment_pages, validate_elf,
    validate_elf_header, ElfError,
};
use indominus::initrd::{load_initrd, parse_header, parse_hex8, report_created, ArchiveEnd, EntryKind};
use indominus::memory::map::{MemoryMap, MemoryRegion, MemoryRegionKind, PhysAddr};
use indominus::memory::pmm;
use indominus::memory::{FLAG_NO_EXECUTE, FLAG_PRESENT, FLAG_USER, FLAG_WRITABLE};

fn put(data: &mut [u8], at: usize, value: u64, len: usize) {
    data[at..at + len].copy_from_slice(&value.to_le_bytes()[..len]);
}

/// An ELF file with one segment: 0x1000 bytes of file at offset 0x1000, 0x2800 bytes of
/// memory at 0x40_0100.
fn program() -> Vec<u8> {
    let mut d = vec![0u8; 0x2000];
    d[0..4].copy_from_slice(&[0x7F, 0x45, 0x4C, 0x46]);
    d[4] = 2;
    d[5] = 1;
    put(&mut d, 16, 2, 2);
    put(&mut d, 24, 0x40_0200, 8);
    put(&mut d, 32, 64, 8);
    put(&mut d, 54, 56, 2);
    put(&mut d, 56, 1, 2);
    put(&mut d, 64, 1, 4);
    put(&mut d, 68, 5, 4);
    put(&mut d, 72, 0x1000, 8);
    put(&mut d, 80, 0x40_0100, 8);
    put(&mut d, 96, 0x1000, 8);
    put(&mut d, 104, 0x2800, 8);
    for i in 0..0x1000 {
        d[0x1000 + i] = (i % 199) as u8;
    }
    d
}

#[test]
fn good_program_loads() {
    let d = program();
    let (image, segments) = load_elf(&d).unwrap();
    assert_eq!(image.entry, 0x40_0200);
    assert_eq!(image.max_addr, 0x40_2900);
    assert_eq!(segments.len(), 1);
    assert_eq!(validate_elf(&d), Ok((0x40_0200, 0x2800)));
    assert_eq!(validate_elf_header(&d), Ok((0x40_0200, 1)));
    let h = parse_ehdr(&d).unwrap();
    assert_eq!(parse_phdr(&d, &h, 0).unwrap().p_vaddr, 0x40_0100);
}

#[test]
fn segment_bytes_have_their_places() {
    let d = program();
    let (_, segments) = load_elf(&d).unwrap();
    let p = &segments[0];
    assert_eq!(segment_pages(p), 3);
    let mut memory = vec![0xEEu8; 3 * 4096];
    for i in 0..3 {
        let page = segment_page(p, i);
        assert_eq!(page.virt, 0x40_0000 + i * 4096);
        let at = (page.virt - 0x40_0000 + page.dst_offset) as usize;
        let n = page.data_len as usize;
        let src = page.src_offset as usize;
        memory[at..at + n].copy_from_slice(&d[src..src + n]);
        for b in &mut memory[at + n..at + n + page.bss_len as usize] {
            *b = 0;
        }
        assert_eq!(page.flags, FLAG_PRESENT | FLAG_USER);
    }
    assert_eq!(memory[0x100..0x1100], d[0x1000..0x2000]);
    assert!(memory[0x1100..0x2900].iter().all(|b| *b == 0));
    assert_eq!(memory[0xFF], 0xEE);
}

#[test]
fn page_flags_follow_the_segment() {
    let mut d = program();
    put(&mut d, 68, 6, 4);
    let (_, segments) = load_elf(&d).unwrap();
    let flags = segment_page(&segments[0], 0).flags;
    assert_eq!(flags, FLAG_PRESENT | FLAG_USER | FLAG_WRITABLE | FLAG_NO_EXECUTE);
}

#[test]
fn page_needs_a_frame() {
    let d = program();
    let (_, segments) = load_elf(&d).unwrap();
    let region = MemoryRegion {
        start: PhysAddr::new(0x5000),
        length: 4096,
        kind: MemoryRegionKind::Usable,
    };
    let mut p = pmm::init(&MemoryMap { regions: vec![region] });
    assert_eq!(load_page(&mut p, &segments[0], 0).unwrap().0, PhysAddr::new(0x5000));
    assert_eq!(load_page(&mut p, &segments[0], 1), Err(ElfError::MapFailed));
}

#[test]
fn bad_programs_are_refused() {
    let bad = |at: usize, value: u64, len: usize| {
        let mut d = program();
        put(&mut d, at, value, len);
        validate_elf(&d)
    };
    assert_eq!(bad(0, 0, 1), Err(ElfError::BadMagic));
    assert_eq!(bad(4, 1, 1), Err(ElfError::NotElf64));
    assert_eq!(bad(5, 2, 1), Err(ElfError::NotLittleEndian));
    assert_eq!(bad(16, 4, 2), Err(ElfError::NotExecutable));
    assert_eq!(bad(56, 0, 2), Err(ElfError::NoProgramHeaders));
    assert_eq!(bad(72, 0x1001, 8), Err(ElfError::SegmentOutOfBounds));
    assert_eq!(bad(80, 0x0000_8000_0000_0000, 8), Err(ElfError::SegmentOverlap));
    assert_eq!(bad(24, 0x50_0000, 8), Err(ElfError::SegmentOutOfBounds));
    assert_eq!(validate_elf(&[0x7F, 0x45, 0x4C, 0x46, 2, 1]), Err(ElfError::BadMagic));
    assert_eq!(ElfError::BadMagic.description().is_empty(), false);
}

#[test]
fn kernel_image_is_laid_out() {
    let mut d = program();
    put(&mut d, 24, 0xFFFF_FFFF_8000_0010, 8);
    put(&mut d, 80, 0xFFFF_FFFF_8000_0000, 8);
    let layout = kernel_layout(&d).unwrap();
    assert_eq!(layout.min_vaddr, 0xFFFF_FFFF_8000_0000);
    assert_eq!(layout.max_vaddr, 0xFFFF_FFFF_8000_2800);
    assert_eq!(layout.total_pages, 3);
    let (image, loaded) = load_kernel(&d, &layout, 0x20_0000);
    assert_eq!(image.len(), 3 * 4096);
    assert_eq!(image[0..0x1000], d[0x1000..0x2000]);
    assert!(image[0x1000..].iter().all(|b| *b == 0));
    assert_eq!(loaded.phys_start.as_u64(), 0x20_0000);
    assert_eq!(loaded.phys_end.as_u64(), 0x20_2800);
    let entry = get_elf_entry(&d).unwrap();
    assert_eq!(entry_phys(entry, loaded.load_offset), 0x20_0010);
}

#[test]
fn gaps_between_segments_are_counted() {
    let mut d = program();
    put(&mut d, 56, 2, 2);
    put(&mut d, 80, 0x40_0000, 8);
    put(&mut d, 120, 1, 4);
    put(&mut d, 128, 0x1000, 8);
    put(&mut d, 136, 0x41_0000, 8);
    put(&mut d, 152, 0x10, 8);
    put(&mut d, 160, 0x1000, 8);
    let layout = kernel_layout(&d).unwrap();
    assert_eq!((layout.min_vaddr, layout.max_vaddr), (0x40_0000, 0x41_1000));
    assert_eq!(layout.total_pages, 17);
    assert!(is_readable(&d));
    let (image, _) = load_kernel(&d, &layout, 0x20_0000);
    assert_eq!(image.len(), 17 * 4096);
    assert_eq!(image[0x1_0000..0x1_0010], d[0x1000..0x1010]);
}

#[test]
fn bad_kernels_are_refused() {
    assert!(matches!(kernel_layout(&[0u8; 10]), Err(BootError::BadMagic)));
    let mut d = program();
    d[0] = 0;
    assert!(matches!(kernel_layout(&d), Err(BootError::BadMagic)));
    let mut d = program();
    d[4] = 1;
    assert!(matches!(kernel_layout(&d), Err(BootError::NotElf64)));
    let mut d = program();
    put(&mut d, 64, 2, 4);
    assert!(matches!(kernel_layout(&d), Err(BootError::NoSegments)));
    let mut d = program();
    put(&mut d, 32, 0x1_0000, 8);
    assert!(matches!(kernel_layout(&d), Err(BootError::HeaderOutOfBounds)));
    assert!(matches!(get_elf_entry(&[0u8; 10]), Err(BootError::TooSmall)));
}

#[test]
fn readable_kernels_are_told_apart() {
    assert!(is_readable(&program()));
    assert!(is_readable(&[0u8; 10]));
    assert!(!is_readable(&[0x7F, 0x45, 0x4C, 0x46]));
    assert!(is_readable(&[0x7F, 0x45, 0x4C, 0x46, 1]));
    assert!(!is_readable(&program()[..63]));
    assert!(is_readable(&program()[..64]));
    let mut d = program();
    put(&mut d, 54, 47, 2);
    assert!(!is_readable(&d));
    let mut d = program();
    put(&mut d, 80, u64::MAX - 0x27FF, 8);
    assert!(!is_readable(&d));
    put(&mut d, 80, u64::MAX - 0x2800, 8);
    assert!(is_readable(&d));
    let mut d = program();
    put(&mut d, 80, 0, 8);
    put(&mut d, 104, u64::MAX - 4094, 8);
    assert!(!is_readable(&d));
    put(&mut d, 104, u64::MAX - 4095, 8);
    assert!(is_readable(&d));
}

#[test]
fn loadable_kernels_are_told_apart() {
    let d = program();
    let layout = kernel_layout(&d).unwrap();
    assert!(layout.is_loadable(&d, 0x20_0000));
    assert!(layout.is_loadable(&d, u64::MAX - 0x2800));
    assert!(!layout.is_loadable(&d, u64::MAX - 0x27FF));
    assert!(!layout.is_loadable(&d[..0x1FFF], 0x20_0000));
    assert!(!layout.is_loadable(&d[..63], 0x20_0000));
    let mut sections = d.clone();
    put(&mut sections, 40, 0x200, 8);
    put(&mut sections, 58, 63, 2);
    put(&mut sections, 60, 1, 2);
    assert!(!layout.is_loadable(&sections, 0x20_0000));
    put(&mut sections, 58, 64, 2);
    assert!(layout.is_loadable(&sections, 0x20_0000));
    put(&mut sections, 0x204, 4, 4);
    put(&mut sections, 0x200 + 24, 0x400, 8);
    put(&mut sections, 0x200 + 32, 48, 8);
    put(&mut sections, 0x200 + 56, 23, 8);
    assert!(!layout.is_loadable(&sections, 0x20_0000));
    put(&mut sections, 0x200 + 56, 24, 8);
    assert!(layout.is_loadable(&sections, 0x20_0000));
}

#[test]
fn image_without_relocations_is_unchanged() {
    let d = program();
    let mut image = vec![5u8; 64];
    apply_relocations(&d, &mut image, 0x20_0000, 0x40_0100);
    assert_eq!(image, vec![5u8; 64]);
}

#[test]
fn newest_rsdp_wins() {
    assert_eq!(
        find_rsdp(&[(ConfigTable::Acpi1, 0x100), (ConfigTable::Acpi2, 0x200)]).as_u64(),
        0x200
    );
    assert_eq!(find_rsdp(&[(ConfigTable::Other, 9), (ConfigTable::Acpi1, 0x100)]).as_u64(), 0x100);
    assert_eq!(find_rsdp(&[]).as_u64(), 0);
}

#[test]
fn missing_framebuffer_is_empty() {
    let none = query_framebuffer(None);
    assert_eq!((none.width, none.height, none.size), (0, 0, 0));
    assert_eq!(none.pixel_format, PixelFormat::Unknown);
    let found = FramebufferInfo {
        base: PhysAddr::new(0x8000_0000),
        size: 100,
        width: 5,
        height: 4,
        stride: 5,
        pixel_format: PixelFormat::Bgr,
    };
    assert_eq!(query_framebuffer(Some(found)), found);
}

fn record(out: &mut Vec<u8>, name: &str, mode: u64, data: &[u8]) {
    let size = name.len() + 1;
    let mut h = String::from("070701");
    for (i, v) in [0, mode, 0, 0, 1, 0, data.len() as u64, 0, 0, 0, 0, size as u64, 0].iter().enumerate() {
        assert!(i < 13);
        h.push_str(&format!("{:08x}", v));
    }
    out.extend_from_slice(h.as_bytes());
    out.extend_from_slice(name.as_bytes());
    out.extend_from_slice(&[0, 0, 0, 0][..1 + (4 - size % 4) % 4]);
    out.extend_from_slice(data);
    out.extend_from_slice(&[0, 0, 0][..(4 - data.len() % 4) % 4]);
}

#[test]
fn archive_is_read() {
    let mut a = Vec::new();
    record(&mut a, "bin/", 0o040755, b"");
    record(&mut a, "bin/init", 0o100755, b"program");
    record(&mut a, "../up", 0o100755, b"no");
    record(&mut a, "TRAILER!!!", 0, b"");
    let mut out = Vec::new();
    let (entries, end) = load_initrd(&a, &mut out);
    assert_eq!(end, ArchiveEnd::Trailer);
    assert_eq!(entries.len(), 3);
    assert_eq!(entries[0].kind, EntryKind::Directory);
    assert_eq!(entries[1].kind, EntryKind::File);
    assert_eq!(entries[2].kind, EntryKind::Traversal);
    let e = &entries[1];
    assert_eq!(&a[e.name_start..e.name_start + e.name_len], b"bin/init");
    assert_eq!(&a[e.data_start..e.data_start + e.data_len], b"program");
    let created = [Ok(()), Ok(()), Err(0)];
    assert_eq!(report_created(&a, &entries, end, &created, &mut out), (1, 1));
    let text = String::from_utf8(out).unwrap();
    assert!(text.starts_with("[INITRD] Loading initrd: 0x"));
    assert!(text.ends_with(
        " bytes\n[INITRD] Creating dir: 'bin'\n[INITRD]   -> OK\n\
         [INITRD] Creating file: 'bin/init'\n[INITRD]   -> OK\n\
         [INITRD] WARN: skipping path with ..: ../up\r\n\
         [INITRD] Loaded 0x0000000000000001 files, 0x0000000000000001 dirs\n"
    ));
    let refused = [Err(17), Err(28), Err(0)];
    let mut out = Vec::new();
    assert_eq!(report_created(&a, &entries, ArchiveEnd::BadHeader(4), &refused, &mut out), (0, 1));
    let text = String::from_utf8(out).unwrap();
    assert!(text.contains("[INITRD]   -> Err 0x0000000000000011\r\n"));
    assert!(text.contains("failed to create 'bin/init': error 0x000000000000001C\r\n"));
    assert!(text.contains("[INITRD] ERROR: bad header at offset 0x0000000000000004\r\n"));
}

#[test]
fn broken_archives_end() {
    let mut a = Vec::new();
    record(&mut a, "x", 0o100755, b"abc");
    assert_eq!(load_initrd(&a, &mut Vec::new()).1, ArchiveEnd::EndOfData);
    let whole = a.len();
    a.extend_from_slice(b"0707");
    assert_eq!(load_initrd(&a, &mut Vec::new()).1, ArchiveEnd::TruncatedHeader(whole));
    let mut b = a[..whole].to_vec();
    b[0] = b'9';
    assert_eq!(load_initrd(&b, &mut Vec::new()).1, ArchiveEnd::BadHeader(0));
    assert!(parse_header(&b, 0).is_err());
    assert!(parse_header(&a, 0).is_ok());
}

#[test]
fn hex_fields() {
    assert_eq!(parse_hex8(b"0000001f", 0), Ok(31));
    assert_eq!(parse_hex8(b"xx0000abcd", 2), Ok(0xABCD));
    assert_eq!(parse_hex8(b"0000001F", 0), Err(()));
}
