use indominus::block::ramdisk::RamDisk;
use indominus::block::registry::{register_device, BlockDeviceRegistry};
use indominus::block::{BlockDevice, BlockError};
use indominus::process::process::FdType;
use indominus::process::scheduler::Scheduler;
use indominus::selftest::disk::{
    ahci_report, phase91_block_test, phase93_ahci_test, read_disk, AhciReads, DiskVerdict,
};
use indominus::selftest::fat::{
    phase94_fat32_init_standalone, storage_report, storage_summary, DeepWay, DiskReads, FailedMount, FatReads,
    FileWay, Listing, ShortReads, TreeReads, Triple,
};
use indominus::selftest::files::{
    phase92_vfs_file_test, phase92b_fd_semantics_test, phase95_fd_syscall_test, FdTable, FileReads,
    HandleReads, PastEnd, SharedRead, StartRead, TreeFile,
};
use indominus::selftest::programs::{
    phase11_fat_write_test, phase96_elf_persistent_test, phase97_shell_infrastructure_test,
    phase98_init_pid1_test, phase99_persistence_test, regression_gs_base_spawn, DirRead, ElfReads,
    HeaderRead, InitReads, KeptReads, MissingRead, ShellReads, Started, StartedTwice,
};
use indominus::selftest::report::{has_text, starts_with, Report};
use indominus::selftest::storage::{phase94_fat32_init, TreeAnswers};
use indominus::selftest::volume::read_volume;
use indominus::vfs::VfsError;

fn shown(r: &Report) -> String {
    String::from_utf8(r.text.clone()).unwrap()
}

fn fds() -> FdTable {
    FdTable { types: [FdType::Closed; 8], flags: [0; 8], handles: [false; 16] }
}

fn elf_file() -> Vec<u8> {
    vec![0x7F, 0x45, 0x4C, 0x46, 2, 1]
}

fn boot() -> [u8; 512] {
    let mut b = [0u8; 512];
    b[0] = 0xEB;
    b[12] = 2;
    b[13] = 1;
    b[16] = 2;
    b[446] = 0x80;
    b[510] = 0x55;
    b[511] = 0xAA;
    b
}

fn good_disk() -> DiskReads {
    let three = || Some(Triple { a: boot(), b: boot(), c: boot() });
    DiskReads {
        mbr: Some(boot()),
        boot: Some(boot()),
        gap: [true; 4],
        scattered_mbr: Some(boot()),
        scattered: [true; 4],
        boot_three: three(),
        past_end_refused: true,
        short_buffer_refused: true,
        mbr_three: three(),
        boot_again_three: three(),
    }
}

fn names(list: &[&str]) -> Vec<Vec<u8>> {
    list.iter().map(|n| n.as_bytes().to_vec()).collect()
}

fn good_volume() -> FatReads {
    let root = || names(&["EFI", "NvVars", "startup.nsh"]);
    FatReads {
        said: b"[FAT] one\r\n".to_vec(),
        name: b"FAT16".to_vec(),
        remount_said: b"[FAT] two\r\n".to_vec(),
        remount_name: Some(b"FAT16".to_vec()),
        root: Some(root()),
        root_again: Some((root(), root())),
        efi: Some((true, Some(names(&["BOOT"])))),
        deep: DeepWay::Found { is_file: true, is_dir: false },
        loader: FileWay::Read { data: b"MZ".to_vec(), again: Some(b"MZ".to_vec()) },
        kernel: FileWay::Read { data: elf_file(), again: Some(elf_file()) },
    }
}

fn good_tree() -> TreeReads {
    TreeReads {
        mounted: true,
        said: vec![],
        disk: Some(true),
        efi: Some(true),
        script: Some((b"x".to_vec(), b"x".to_vec())),
        listing: Listing::Read { data: b"EFI\0startup.nsh\0".to_vec() },
        loader: Some((b"MZ".to_vec(), b"MZ".to_vec())),
        missing: Some(VfsError::NotFound),
        traversal_resolved: false,
    }
}

#[test]
fn ram_disk_test_passes() {
    let mut registry: BlockDeviceRegistry<RamDisk> = BlockDeviceRegistry::new();
    let mut r = Report::new();
    assert!(phase91_block_test(&mut r, &mut registry));
    assert!(shown(&r).ends_with("[TEST] Phase 9.1: ALL TESTS PASSED\r\n"));
    assert!(registry.get(0).is_none());
}

#[test]
fn good_storage_passes() {
    let mut r = Report::new();
    assert!(storage_report(&mut r, &Some(good_disk()), &Ok(good_volume()), &good_tree()));
    assert_eq!((r.passed, r.failed), (26, 0));
    assert!(shown(&r).contains("FAT16 Filesystem --\r\n[FAT] one\r\n[T]   PASS: T2.0 FAT16"));
    assert!(shown(&r).contains("mounted\r\n[FAT] two\r\n[T]   PASS: T2.0b"));
    storage_summary(&mut r);
    assert!(shown(&r).contains("=== ALL PHASE 9.4 TESTS PASSED ==="));
}

#[test]
fn bad_storage_fails() {
    let mut disk = good_disk();
    disk.mbr = None;
    if let Some(t) = &mut disk.boot_three {
        t.c[7] = 1;
    }
    disk.gap[2] = false;
    let mut volume = good_volume();
    volume.name = b"FAT32".to_vec();
    volume.kernel = FileWay::Read { data: elf_file(), again: Some(vec![1]) };
    let mut tree = good_tree();
    tree.traversal_resolved = true;
    let mut r = Report::new();
    assert!(storage_report(&mut r, &Some(disk), &Ok(volume), &tree));
    assert_eq!(r.failed, 7);
    let text = shown(&r);
    assert!(text.contains("[T]   FAIL: T1.1 MBR read failed\r\n"));
    assert!(text.contains("[T]   FAIL: T1.5 Triple read consistency failed\r\n"));
    assert!(text.contains("[T]   FAIL: T2.0b FAT re-mount name mismatch\r\n"));
    assert!(text.contains("[T]   FAIL: T3.7 VFS should reject ../ paths\r\n"));
}

fn failed() -> Result<FatReads, FailedMount> {
    Err(FailedMount { errno: 5, said: b"[FAT] nothing\r\n".to_vec() })
}

#[test]
fn missing_storage_aborts() {
    let mut r = Report::new();
    assert!(!storage_report(&mut r, &None, &failed(), &good_tree()));
    assert!(shown(&r).ends_with("=== ABORT: No AHCI disk ===\r\n"));
    let mut r = Report::new();
    assert!(!storage_report(&mut r, &Some(good_disk()), &failed(), &good_tree()));
    assert!(shown(&r).contains("[FAT] nothing\r\n[T]   FAIL: T2.0 FAT16 mount failed\r\n"));
    assert!(shown(&r).contains("errno=0x0000000000000005\r\n"));
    assert_eq!((r.passed, r.failed), (9, 1));
}

#[test]
fn short_repetition() {
    let mut r = Report::new();
    let s = ShortReads { mounted: true, said: vec![], disk: Some(true), script: Some(vec![1]), missing_refused: true };
    phase94_fat32_init_standalone(&mut r, &s);
    assert!(shown(&r).ends_with("[T]   Phase 9.4 regression: ALL PASSED\r\n"));
    let mut r = Report::new();
    let s = ShortReads { mounted: false, said: vec![], disk: None, script: None, missing_refused: false };
    phase94_fat32_init_standalone(&mut r, &s);
    assert_eq!((r.passed, r.failed), (0, 4));
}

#[test]
fn disk_verdicts() {
    let good = || AhciReads {
        name: b"ahci0".to_vec(),
        total_sectors: 100,
        sector_size: 512,
        first: Ok(boot()),
        past_end_refused: true,
        short_buffer_refused: true,
    };
    let end = |a: Option<AhciReads>| ahci_report(&mut Report::new(), &a);
    assert_eq!(end(None), DiskVerdict::Skipped);
    assert_eq!(end(Some(good())), DiskVerdict::Passed);
    assert_eq!(end(Some(AhciReads { name: b"ram".to_vec(), ..good() })), DiskVerdict::BadName);
    assert_eq!(end(Some(AhciReads { first: Ok([0; 512]), ..good() })), DiskVerdict::NoSignature);
    assert_eq!(end(Some(AhciReads { past_end_refused: false, ..good() })), DiskVerdict::PastEndRead);
    assert_eq!(end(Some(AhciReads { short_buffer_refused: false, ..good() })), DiskVerdict::ShortRead);
    let mut r = Report::new();
    let failed = Some(AhciReads { first: Err(BlockError::IoError), ..good() });
    assert_eq!(ahci_report(&mut r, &failed), DiskVerdict::ReadFailed);
    assert!(shown(&r).ends_with("error=0xFFFFFFFFFFFFFFFB\r\n"));
}

#[test]
fn ram_disk_is_no_ahci_disk() {
    let mut registry: BlockDeviceRegistry<RamDisk> = BlockDeviceRegistry::new();
    assert_eq!(phase93_ahci_test(&mut Report::new(), &registry), DiskVerdict::Skipped);
    register_device(&mut registry, RamDisk::new(4, 512), &mut Vec::new()).unwrap();
    assert_eq!(phase93_ahci_test(&mut Report::new(), &registry), DiskVerdict::BadName);
}

fn put(buf: &mut [u8], at: usize, value: u32, len: usize) {
    buf[at..at + len].copy_from_slice(&value.to_le_bytes()[..len]);
}

/// A FAT16 volume at sector 63 with a file of 700 bytes at `EFI/BOOT/BOOTX64.EFI`.
fn volume_disk() -> RamDisk {
    let mut disk = RamDisk::new(200, 512);
    let mut mbr = [0u8; 512];
    mbr[446] = 0x80;
    mbr[450] = 6;
    put(&mut mbr, 454, 63, 4);
    mbr[510] = 0x55;
    mbr[511] = 0xAA;
    disk.write_sector(0, &mbr).unwrap();
    let mut b = boot();
    put(&mut b, 14, 1, 2);
    put(&mut b, 17, 16, 2);
    put(&mut b, 19, 100, 2);
    put(&mut b, 22, 1, 2);
    disk.write_sector(63, &b).unwrap();
    let mut fat = [0u8; 512];
    for (cluster, next) in [(2, 0xFFFF), (3, 0xFFFF), (4, 5), (5, 0xFFFF)] {
        put(&mut fat, cluster * 2, next, 2);
    }
    disk.write_sector(64, &fat).unwrap();
    disk.write_sector(65, &fat).unwrap();
    let entry = |name: &[u8; 11], attributes: u8, cluster: u32, size: u32| {
        let mut e = [0u8; 512];
        e[0..11].copy_from_slice(name);
        e[11] = attributes;
        put(&mut e, 26, cluster, 2);
        put(&mut e, 28, size, 4);
        e
    };
    disk.write_sector(66, &entry(b"EFI        ", 0x10, 2, 0)).unwrap();
    disk.write_sector(67, &entry(b"BOOT       ", 0x10, 3, 0)).unwrap();
    disk.write_sector(68, &entry(b"BOOTX64 EFI", 0x20, 4, 700)).unwrap();
    let mut data = [0x4Du8; 512];
    data[1] = 0x5A;
    disk.write_sector(69, &data).unwrap();
    disk.write_sector(70, &[7u8; 512]).unwrap();
    disk
}

#[test]
fn disk_is_read_for_the_checks() {
    let disk = volume_disk();
    let d = read_disk(&disk);
    assert_eq!(d.mbr.unwrap()[510], 0x55);
    assert_eq!(d.boot.unwrap()[0], 0xEB);
    assert_eq!(d.gap, [true; 4]);
    assert_eq!(d.scattered, [true, false, false, false]);
    assert!(d.boot_three.is_some() && d.past_end_refused && d.short_buffer_refused);
}

#[test]
fn volume_is_read_for_the_checks() {
    let mut registry = BlockDeviceRegistry::new();
    assert!(registry.register(volume_disk()).is_ok());
    let f = match read_volume(&registry, 0) {
        Ok(f) => f,
        Err(_) => panic!("no volume"),
    };
    assert_eq!(f.name, b"FAT16");
    assert_eq!(f.remount_name.unwrap(), b"FAT16");
    assert_eq!(f.root.unwrap(), names(&["efi"]));
    let mut empty = BlockDeviceRegistry::new();
    assert!(empty.register(RamDisk::new(100, 512)).is_ok());
    match read_volume(&empty, 0) {
        Ok(_) => panic!("mounted"),
        Err(said) => assert!(said.ends_with(b"[FAT] Invalid boot signature\r\n")),
    }
}

fn good_handles() -> HandleReads {
    HandleReads { first: 10, duplicate: 0, one: 10, other: b"ABCDEFGHIJ".to_vec(), inherited: 0 }
}

fn good_file() -> TreeFile {
    TreeFile {
        created: true,
        written: Some(36),
        opened: true,
        sought: true,
        read: Some(b"Hello Indominus! This is a VFS test.".to_vec()),
        root_opened: true,
        listing: Some(b"test_phase92.txt".to_vec()),
        missing: Some(VfsError::NotFound),
    }
}

#[test]
fn whole_storage_is_checked() {
    let mut registry = BlockDeviceRegistry::new();
    assert!(registry.register(volume_disk()).is_ok());
    let mut ram = BlockDeviceRegistry::new();
    let t = TreeAnswers { tree: good_tree(), file: good_file(), handles: good_handles(), io_errno: 5 };
    let mut r = Report::new();
    // A RAM disk is not taken for an AHCI disk.
    let end = phase94_fat32_init(&mut r, &registry, &t, &mut ram, true, &mut fds());
    assert_eq!(end, Some(DiskVerdict::BadName));
    assert!(shown(&r).contains("[TEST] Phase 9.2b: ALL TESTS PASSED\r\n"));
    let none: BlockDeviceRegistry<RamDisk> = BlockDeviceRegistry::new();
    let mut r = Report::new();
    assert_eq!(phase94_fat32_init(&mut r, &none, &t, &mut ram, true, &mut fds()), None);
}

#[test]
fn file_test_stops_at_the_first_failure() {
    let mut r = Report::new();
    let mut table = fds();
    phase92_vfs_file_test(&mut r, &good_file(), &good_handles(), true, &mut table);
    let text = shown(&r);
    assert!(text.contains("[TEST] Phase 9.2: ALL TESTS PASSED\r\n"));
    assert!(text.ends_with("[TEST] Phase 9.2b: ALL TESTS PASSED\r\n"));
    assert_eq!(table.types, [FdType::Closed; 8]);
    let tail = |f: TreeFile| {
        let mut r = Report::new();
        phase92_vfs_file_test(&mut r, &f, &good_handles(), true, &mut fds());
        String::from(shown(&r).lines().last().unwrap())
    };
    assert!(tail(TreeFile { created: false, ..good_file() }).contains("create_file"));
    assert!(tail(TreeFile { written: Some(3), ..good_file() }).contains("wrong byte count"));
    assert!(tail(TreeFile { read: Some(vec![0; 36]), ..good_file() }).contains("doesn't match"));
    assert!(tail(TreeFile { listing: Some(vec![0xFF]), ..good_file() }).contains("not found"));
    assert!(tail(TreeFile { missing: Some(VfsError::IoError), ..good_file() }).contains("wrong error"));
}

#[test]
fn descriptor_flags_need_room() {
    let last = |h: HandleReads, found: bool, table: &mut FdTable| {
        let mut r = Report::new();
        phase92b_fd_semantics_test(&mut r, &h, found, table);
        String::from(shown(&r).lines().last().unwrap())
    };
    assert!(last(good_handles(), false, &mut fds()).contains("PID 1 not found"));
    let mut full = fds();
    full.types = [FdType::Null; 8];
    assert!(last(good_handles(), true, &mut full).contains("no free FD slots"));
    let mut one = fds();
    one.types = [FdType::Null; 8];
    one.types[3] = FdType::Closed;
    assert!(last(good_handles(), true, &mut one).contains("no free slot for dup2"));
    assert_eq!(one.types[3], FdType::FsFile { index: 0 });
    assert_eq!((one.flags[3], one.handles[0]), (1, true));
    let shared = HandleReads { duplicate: 10, ..good_handles() };
    assert!(last(shared, true, &mut fds()).contains("T1b"));
}

fn good_files() -> FileReads {
    let pair = || Some((b"abc".to_vec(), b"abc".to_vec()));
    let shared = || Some(SharedRead { first: vec![1; 16], again: vec![2; 4] });
    FileReads {
        script: Some(vec![1]),
        script_twice: pair(),
        kernel: StartRead::Read { data: elf_file() },
        kernel_twice: (Some(elf_file()), Some(elf_file())),
        fresh: Some(vec![1]),
        past_end: PastEnd::Read { n: 0 },
        missing: Some(VfsError::NotFound),
        empty_path_refused: false,
        deep_missing_refused: true,
        reopened: pair(),
        independent: pair(),
        duplicated: shared(),
        forked: shared(),
        flag_file: true,
    }
}

#[test]
fn open_files_pass() {
    let mut r = Report::new();
    let mut table = fds();
    phase95_fd_syscall_test(&mut r, &good_files(), true, &mut table);
    assert_eq!((r.passed, r.failed), (14, 0));
    assert!(shown(&r).contains("=== ALL PHASE 9.5 TESTS PASSED ==="));
    let mut r = Report::new();
    phase95_fd_syscall_test(&mut r, &FileReads { duplicated: None, ..good_files() }, true, &mut fds());
    assert_eq!((r.passed, r.failed), (14, 0));
    let mut r = Report::new();
    phase95_fd_syscall_test(&mut r, &FileReads { forked: None, ..good_files() }, true, &mut fds());
    assert_eq!((r.passed, r.failed), (14, 0));
    let mut r = Report::new();
    phase95_fd_syscall_test(&mut r, &FileReads { script: None, flag_file: false, ..good_files() }, true, &mut fds());
    assert_eq!((r.passed, r.failed), (12, 2));
}

#[test]
fn programs_on_the_disk() {
    let mut header = [0u8; 512];
    header[0..6].copy_from_slice(&elf_file());
    header[16] = 2;
    header[56] = 1;
    let mut loader = [0u8; 512];
    loader[0..2].copy_from_slice(b"MZ");
    let f = ElfReads {
        kernel: HeaderRead::Read { n: 512, header },
        loader: HeaderRead::Read { n: 512, header: loader },
        kernel_again: HeaderRead::NotOpened { errno: 1 },
        shell: Some(Some(3)),
        missing: MissingRead::Failed { error: VfsError::NotFound, errno: 2 },
    };
    let mut ram = BlockDeviceRegistry::new();
    let mut r = Report::new();
    phase96_elf_persistent_test(&mut r, &f, &mut ram);
    assert_eq!((r.passed, r.failed), (8, 0));
    let text = shown(&r);
    assert!(text.contains("T6.2 Non-ELF file (MZ) correctly rejected by validate_elf"));
    assert!(text.contains("T6.7 Non-executable ELF type → NotExecutable"));
    assert!(text.contains("[TEST] Phase 9.1: ALL TESTS PASSED"));
    let f = ElfReads {
        kernel: HeaderRead::NotRead { errno: 9 },
        loader: HeaderRead::Read { n: 512, header },
        kernel_again: HeaderRead::Read { n: 3, header },
        shell: Some(None),
        missing: MissingRead::Data,
    };
    let mut r = Report::new();
    phase96_elf_persistent_test(&mut r, &f, &mut ram);
    assert_eq!(r.failed, 4);
}

#[test]
fn shell_checks() {
    let f = ShellReads {
        shell: None,
        flat_shell: Some(elf_file()),
        spawned: Some(Some(2)),
        script: Some(vec![1, 2]),
        disk: DirRead::Listed { names: names(&["EFI", "startup.nsh"]) },
        missing: Some(VfsError::NotFound),
        shell_again: Some(vec![0; 2000]),
    };
    let mut r = Report::new();
    phase97_shell_infrastructure_test(&mut r, &f);
    assert_eq!((r.passed, r.failed), (6, 0));
    assert!(shown(&r).contains("[T]       EFI\r\n[T]       startup.nsh\r\n"));
    let f = ShellReads {
        shell: Some(vec![1]),
        flat_shell: None,
        spawned: None,
        script: Some(vec![]),
        disk: DirRead::NotDirectory,
        missing: None,
        shell_again: Some(vec![]),
    };
    let mut r = Report::new();
    phase97_shell_infrastructure_test(&mut r, &f);
    assert_eq!((r.passed, r.failed), (0, 6));
}

#[test]
fn first_program_checks() {
    let mut s = Scheduler::new();
    s.init();
    s.spawn_idle(0, Some(0x1_0000), 0x9000, 0, &mut Vec::new());
    let f = InitReads { init: None, flat_init: Some(elf_file()), shell: None, flat_shell: None };
    let mut r = Report::new();
    phase98_init_pid1_test(&mut r, &f, &s);
    // Only the first program is there, and it is cut off.
    assert_eq!((r.passed, r.failed), (2, 5));
    s.spawn_kernel(0, Some(0x2_0000), 0x9000, 0, &mut Vec::new());
    let mut r = Report::new();
    phase98_init_pid1_test(&mut r, &f, &s);
    assert_eq!((r.passed, r.failed), (4, 3));
}

#[test]
fn kept_files() {
    let f = KeptReads {
        mounted: true,
        said: vec![],
        script: Some(b"echo".to_vec()),
        loader: Some(b"MZ".to_vec()),
        script_twice: Some((vec![1], vec![2])),
        disk: DirRead::Listed { names: names(&["EFI", "startup.nsh"]) },
    };
    let mut ram = BlockDeviceRegistry::new();
    let mut r = Report::new();
    phase99_persistence_test(&mut r, &f, &mut ram);
    assert_eq!((r.passed, r.failed), (6, 0));
    let f = KeptReads {
        mounted: false,
        said: vec![],
        script: None,
        loader: Some(vec![]),
        script_twice: Some((vec![1], vec![])),
        disk: DirRead::NotListed,
    };
    let mut r = Report::new();
    phase99_persistence_test(&mut r, &f, &mut ram);
    assert_eq!((r.passed, r.failed), (1, 5));
}

#[test]
fn spawned_tests_are_reported() {
    let mut r = Report::new();
    phase11_fat_write_test(&mut r, &Err(2));
    assert!(shown(&r).ends_with("not found, errno=0x0000000000000002\r\n"));
    let mut r = Report::new();
    phase11_fat_write_test(&mut r, &Ok(Started { size: 1, pid: Some(7) }));
    assert!(shown(&r).contains("PASS: test_fat_write spawned successfully"));
    let mut r = Report::new();
    regression_gs_base_spawn(&mut r, &Ok(StartedTwice { size: 1, first: Some(1), second: None }));
    assert!(shown(&r).ends_with("stress test 0x0000000000000001\r\n"));
    assert!(has_text(b"abc", "bc") && !has_text(b"abc", "cb"));
    assert!(starts_with(b"ahci0", b"ahci") && !starts_with(b"ah", b"ahci"));
}
