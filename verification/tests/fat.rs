use indominus::block::ramdisk::RamDisk;
use indominus::block::registry::{register_device, BlockDeviceRegistry};
use indominus::block::BlockDevice;
use indominus::fat32::bpb::{FatBpb, FatVariant};
use indominus::fat32::data::{read_chain_bytes, read_file_data, write_file_data};
use indominus::fat32::dir::{
    append_dir_entry, delete_dir_entry, find_free_dir_slot_in_raw, parse_dir_entries,
    read_dir_entries_from_chain, search_dir, update_dir_entry, update_dir_entry_size,
};
use indominus::fat32::entry::FatDirEntry;
use indominus::fat32::fs::Fat32Fs;
use indominus::fat32::inode::{FatDirInode, FatFileInode, FatInode};
use indominus::fat32::table::{
    allocate_cluster, count_free_clusters, extend_chain, free_cluster_chain, read_cluster_chain,
    read_fat_entry, write_fat_entry,
};
use indominus::vfs::{Errnos, VfsError};

const BASE: u64 = 10;

const ERRNOS: Errnos = Errnos { io: 5, no_space: 28 };

fn put16(buf: &mut [u8], at: usize, value: u16) {
    buf[at..at + 2].copy_from_slice(&value.to_le_bytes());
}

fn put32(buf: &mut [u8], at: usize, value: u32) {
    buf[at..at + 4].copy_from_slice(&value.to_le_bytes());
}

fn entry(name: &[u8; 11], attributes: u8, cluster: u16, size: u32) -> [u8; 32] {
    let mut e = [0u8; 32];
    e[0..11].copy_from_slice(name);
    e[11] = attributes;
    put16(&mut e, 26, cluster);
    put32(&mut e, 28, size);
    e
}

fn boot_sector() -> [u8; 512] {
    let mut b = [0u8; 512];
    b[0] = 0xEB;
    put16(&mut b, 11, 512);
    b[13] = 1;
    put16(&mut b, 14, 1);
    b[16] = 2;
    put16(&mut b, 17, 16);
    put16(&mut b, 19, 100);
    put16(&mut b, 22, 1);
    b[510] = 0x55;
    b[511] = 0xAA;
    b
}

fn text(i: usize) -> u8 {
    (i * 7 % 251) as u8
}

/// A FAT16 volume at sector 10: `hello.txt` of 600 bytes in clusters 2 and 3, and the
/// directory `sub` in cluster 4 with `a.bin` of 3 bytes in cluster 5.
fn volume() -> RamDisk {
    let mut disk = RamDisk::new(200, 512);
    let mut mbr = [0u8; 512];
    mbr[446 + 4] = 0x06;
    put32(&mut mbr, 446 + 8, BASE as u32);
    mbr[510] = 0x55;
    mbr[511] = 0xAA;
    disk.write_sector(0, &mbr).unwrap();
    disk.write_sector(BASE, &boot_sector()).unwrap();
    let mut fat = [0u8; 512];
    put16(&mut fat, 0, 0xFFF8);
    put16(&mut fat, 2, 0xFFFF);
    put16(&mut fat, 4, 3);
    put16(&mut fat, 6, 0xFFFF);
    put16(&mut fat, 8, 0xFFFF);
    put16(&mut fat, 10, 0xFFFF);
    disk.write_sector(BASE + 1, &fat).unwrap();
    disk.write_sector(BASE + 2, &fat).unwrap();
    let mut root = [0u8; 512];
    root[0..32].copy_from_slice(&entry(b"HELLO   TXT", 0x20, 2, 600));
    root[32..64].copy_from_slice(&entry(b"SUB        ", 0x10, 4, 0));
    disk.write_sector(BASE + 3, &root).unwrap();
    let mut data = [0u8; 1024];
    for i in 0..600 {
        data[i] = text(i);
    }
    disk.write_sector(BASE + 4, &data[0..512]).unwrap();
    disk.write_sector(BASE + 5, &data[512..1024]).unwrap();
    let mut sub = [0u8; 512];
    sub[0..32].copy_from_slice(&entry(b".          ", 0x10, 4, 0));
    sub[32..64].copy_from_slice(&entry(b"..         ", 0x10, 0, 0));
    sub[64..96].copy_from_slice(&entry(b"A       BIN", 0x20, 5, 3));
    disk.write_sector(BASE + 6, &sub).unwrap();
    let mut small = [0u8; 512];
    small[0..3].copy_from_slice(b"xyz");
    disk.write_sector(BASE + 7, &small).unwrap();
    disk
}

fn mounted() -> (BlockDeviceRegistry<RamDisk>, Fat32Fs) {
    let mut registry = BlockDeviceRegistry::new();
    register_device(&mut registry, volume(), &mut Vec::new()).unwrap();
    let fs = match Fat32Fs::new(&registry, 0, &mut Vec::new()) {
        Ok(fs) => fs,
        Err(_) => panic!("no volume"),
    };
    (registry, fs)
}

fn bpb() -> FatBpb {
    FatBpb::parse(&boot_sector(), BASE as u32, &mut Vec::new()).unwrap()
}

fn as_file(x: FatInode) -> FatFileInode {
    match x {
        FatInode::File(f) => f,
        FatInode::Dir(_) => panic!("a directory"),
    }
}

fn as_dir(x: FatInode) -> FatDirInode {
    match x {
        FatInode::Dir(d) => d,
        FatInode::File(_) => panic!("a file"),
    }
}

fn read_all(f: &FatFileInode, registry: &BlockDeviceRegistry<RamDisk>) -> Vec<u8> {
    let mut handle = match f.open(registry) {
        Ok(h) => h,
        Err(_) => panic!("not opened"),
    };
    let mut out = Vec::new();
    let mut buf = [0u8; 100];
    loop {
        let n = handle.read(&mut buf).unwrap();
        if n == 0 {
            return out;
        }
        out.extend_from_slice(&buf[..n]);
    }
}

#[test]
fn boot_sector_geometry() {
    let b = bpb();
    assert_eq!(b.variant, FatVariant::Fat16);
    assert_eq!(b.bytes_per_cluster, 512);
    assert_eq!(b.root_dir_start_sector, 3);
    assert_eq!(b.root_dir_sectors, 1);
    assert_eq!(b.data_start_sector, 4);
    assert_eq!(b.total_sectors, 100);
    assert_eq!(b.fat_area_sectors(), 3);
    assert_eq!(b.cluster_to_sector(2), 14);
    assert_eq!(b.cluster_to_sector(9), 21);
    assert_eq!(b.eoc(), 0xFFF8);
    assert_eq!(b.max_cluster(), 0xFFF0);
}

#[test]
fn fat32_boot_sector() {
    let mut b = [0u8; 512];
    put16(&mut b, 11, 512);
    b[13] = 8;
    put16(&mut b, 14, 32);
    b[16] = 2;
    put32(&mut b, 32, 1_000_000);
    put32(&mut b, 36, 1000);
    put32(&mut b, 44, 2);
    let bpb = FatBpb::parse(&b, 63, &mut Vec::new()).unwrap();
    assert_eq!(bpb.variant, FatVariant::Fat32);
    assert_eq!(bpb.data_start_sector, 2032);
    assert_eq!(bpb.root_cluster, 2);
    assert_eq!(bpb.cluster_to_sector(3), 63 + 2032 + 8);
    assert_eq!(bpb.eoc(), 0x0FFF_FFF8);
    assert_eq!(bpb.variant.as_str(), "FAT32");
}

#[test]
fn bad_boot_sectors() {
    assert_eq!(FatBpb::parse(&[0u8; 511], 0, &mut Vec::new()), Err(VfsError::IoError));
    assert_eq!(FatBpb::parse(&[0u8; 512], 0, &mut Vec::new()), Err(VfsError::IoError));
    let mut b = boot_sector();
    b[13] = 0;
    assert_eq!(FatBpb::parse(&b, 0, &mut Vec::new()), Err(VfsError::IoError));
    let mut b = boot_sector();
    put16(&mut b, 22, 0);
    assert_eq!(FatBpb::parse(&b, 0, &mut Vec::new()), Err(VfsError::IoError));
}

#[test]
fn mount_finds_partition() {
    let (_, fs) = mounted();
    assert_eq!(fs.name(), "FAT16");
    assert_eq!(fs.inner.bpb.base_sector, BASE as u32);
}

#[test]
fn mount_needs_signature() {
    let mut disk = volume();
    let mut mbr = [0u8; 512];
    disk.read_sector(0, &mut mbr).unwrap();
    mbr[511] = 0;
    disk.write_sector(0, &mbr).unwrap();
    let mut registry = BlockDeviceRegistry::new();
    register_device(&mut registry, disk, &mut Vec::new()).unwrap();
    assert!(matches!(Fat32Fs::new(&registry, 0, &mut Vec::new()), Err(VfsError::IoError)));
    assert!(matches!(Fat32Fs::new(&registry, 3, &mut Vec::new()), Err(VfsError::IoError)));
}

#[test]
fn unpartitioned_volume_mounts() {
    let mut disk = RamDisk::new(100, 512);
    disk.write_sector(0, &boot_sector()).unwrap();
    let mut registry = BlockDeviceRegistry::new();
    register_device(&mut registry, disk, &mut Vec::new()).unwrap();
    let fs = match Fat32Fs::new(&registry, 0, &mut Vec::new()) {
        Ok(fs) => fs,
        Err(_) => panic!("no volume"),
    };
    assert_eq!(fs.inner.bpb.base_sector, 0);
}

#[test]
fn directories_list_names() {
    let (registry, fs) = mounted();
    let root = fs.root();
    assert_eq!(root.readdir(&registry).unwrap(), vec!["hello.txt", "sub"]);
    let sub = as_dir(root.lookup(&registry, "sub").unwrap());
    let names = sub.readdir(&registry).unwrap();
    assert!(names.contains(&String::from("a.bin")));
    let mut handle = match root.open(&registry) {
        Ok(h) => h,
        Err(_) => panic!("not opened"),
    };
    let mut buf = [0u8; 64];
    let n = handle.read(&mut buf).unwrap();
    assert_eq!(&buf[..n], b"hello.txt\0sub\0");
    assert_eq!(handle.write(&buf), Err(VfsError::PermissionDenied));
}

#[test]
fn files_read_back() {
    let (registry, fs) = mounted();
    let root = fs.root();
    let hello = as_file(root.lookup(&registry, "hello.txt").unwrap());
    assert_eq!(hello.size(), 600);
    let data = read_all(&hello, &registry);
    assert_eq!(data.len(), 600);
    assert!(data.iter().enumerate().all(|(i, b)| *b == text(i)));
    let sub = as_dir(root.lookup(&registry, "sub").unwrap());
    let a = as_file(sub.lookup(&registry, "a.bin").unwrap());
    assert_eq!(read_all(&a, &registry), b"xyz");
    assert!(matches!(root.lookup(&registry, "nothing"), Err(VfsError::NotFound)));
    assert!(matches!(hello.lookup("x"), Err(VfsError::NotDirectory)));
    assert!(hello.is_file() && !hello.is_dir() && sub.is_dir() && !sub.is_file());
}

#[test]
fn seek_moves_position() {
    let (registry, fs) = mounted();
    let hello = as_file(fs.root().lookup(&registry, "hello.txt").unwrap());
    let mut handle = match hello.open(&registry) {
        Ok(h) => h,
        Err(_) => panic!("not opened"),
    };
    handle.seek(598).unwrap();
    let mut buf = [0u8; 10];
    assert_eq!(handle.read(&mut buf), Ok(2));
    assert_eq!(buf[0], text(598));
    assert_eq!(handle.read(&mut buf), Ok(0));
}

#[test]
fn written_file_reads_back_after_close() {
    let (mut registry, fs) = mounted();
    let sub = as_dir(fs.root().lookup(&registry, "sub").unwrap());
    let mut handle = match sub.create_child_file(&registry, "a.bin") {
        Ok(h) => h,
        Err(_) => panic!("not opened"),
    };
    let data: Vec<u8> = (0..900).map(|i| (i % 13) as u8).collect();
    assert_eq!(handle.write(&data), Ok(900));
    handle.close(&mut registry, &ERRNOS, &mut Vec::new());
    let a = as_file(sub.lookup(&registry, "a.bin").unwrap());
    assert_eq!(a.size(), 900);
    assert_eq!(read_all(&a, &registry), data);
    // The other file is untouched.
    let hello = as_file(fs.root().lookup(&registry, "hello.txt").unwrap());
    assert_eq!(read_all(&hello, &registry).len(), 600);
}

#[test]
fn deleted_file_is_gone() {
    let (mut registry, fs) = mounted();
    let sub = as_dir(fs.root().lookup(&registry, "sub").unwrap());
    assert_eq!(sub.delete_child_file(&mut registry, "a.bin", &mut Vec::new()), Ok(()));
    assert!(matches!(sub.lookup(&registry, "a.bin"), Err(VfsError::NotFound)));
    let b = bpb();
    assert_eq!(read_fat_entry(registry.get(0).unwrap(), &b, 5), Ok(0));
    assert_eq!(sub.delete_child_file(&mut registry, "a.bin", &mut Vec::new()), Err(VfsError::NotFound));
}

#[test]
fn table_entry_reads_back() {
    let mut disk = volume();
    let b = bpb();
    assert_eq!(read_fat_entry(&disk, &b, 2), Ok(3));
    assert_eq!(write_fat_entry(&mut disk, &b, 9, 0x1234), Ok(()));
    assert_eq!(read_fat_entry(&disk, &b, 9), Ok(0x1234));
    assert_eq!(read_fat_entry(&disk, &b, 8), Ok(0));
    assert_eq!(read_fat_entry(&disk, &b, 10), Ok(0));
    // Both copies of the table hold the entry.
    let mut buf = [0u8; 512];
    disk.read_sector(BASE + 2, &mut buf).unwrap();
    assert_eq!(&buf[18..20], &[0x34, 0x12]);
}

#[test]
fn chains_grow_and_go() {
    let mut disk = volume();
    let b = bpb();
    assert_eq!(read_cluster_chain(&disk, &b, 2), Ok(vec![2, 3]));
    let c = allocate_cluster(&mut disk, &b, 2, &mut Vec::new()).unwrap();
    assert_eq!(c, 6);
    assert_eq!(extend_chain(&mut disk, &b, 3, c), Ok(()));
    assert_eq!(read_cluster_chain(&disk, &b, 2), Ok(vec![2, 3, 6]));
    assert_eq!(free_cluster_chain(&mut disk, &b, 2), Ok(()));
    for cluster in [2, 3, 6] {
        assert_eq!(read_fat_entry(&disk, &b, cluster), Ok(0));
    }
    assert_eq!(read_fat_entry(&disk, &b, 5), Ok(0xFFFF));
}

#[test]
fn chain_data_reads_back() {
    let mut disk = volume();
    let b = bpb();
    let data: Vec<u8> = (0..700).map(|i| (i % 97) as u8).collect();
    assert_eq!(write_file_data(&mut disk, &b, &[2, 3], 0, &data), Ok(700));
    let mut buf = vec![0u8; 700];
    assert_eq!(read_file_data(&disk, &b, &[2, 3], &mut buf), Ok(700));
    assert_eq!(buf, data);
    assert_eq!(read_chain_bytes(&disk, &b, &[5]).unwrap()[0..3], *b"xyz");
}

#[test]
fn free_clusters_are_counted() {
    let b = bpb();
    let empty = RamDisk::new(400, 512);
    assert_eq!(count_free_clusters(&empty, &b), Ok(0xFFF0 - 1));
    // A table that does not reach to the last cluster cannot be counted.
    assert_eq!(count_free_clusters(&volume(), &b), Err(VfsError::IoError));
}

#[test]
fn unreadable_table_fails() {
    let disk = RamDisk::new(5, 512);
    let b = bpb();
    assert_eq!(read_fat_entry(&disk, &b, 2), Err(VfsError::IoError));
    assert_eq!(read_cluster_chain(&disk, &b, 2), Err(VfsError::IoError));
}

#[test]
fn short_names() {
    assert_eq!(FatDirEntry::name_to_83("hello.txt"), Ok(*b"HELLO   TXT"));
    assert_eq!(FatDirEntry::name_to_83("sub"), Ok(*b"SUB        "));
    assert_eq!(FatDirEntry::name_to_83("muchtoolong.txt"), Err(VfsError::BadPath));
    assert_eq!(FatDirEntry::name_to_83("a.text"), Err(VfsError::BadPath));
    assert_eq!(FatDirEntry::name_to_83(""), Err(VfsError::BadPath));
}

#[test]
fn entries_parse() {
    let e = FatDirEntry::parse(&entry(b"HELLO   TXT", 0x20, 2, 600)).unwrap();
    assert_eq!(e.name, "hello.txt");
    assert_eq!((e.first_cluster, e.size, e.is_lfn), (2, 600, false));
    assert!(!e.is_dir());
    assert!(FatDirEntry::parse(&entry(b"\xE5ELLO   TXT", 0x20, 2, 600)).is_none());
    assert!(FatDirEntry::parse(&entry(b"VOLUME     ", 0x08, 0, 0)).is_none());
    assert!(FatDirEntry::parse(&[1u8; 31]).is_none());
    assert!(FatDirEntry::parse(&entry(b"\x01L\0o\0n\0g\0  ", 0x0F, 0, 0)).unwrap().is_lfn);
}

#[test]
fn raw_directories() {
    let mut raw = vec![0u8; 512];
    raw[0..32].copy_from_slice(&entry(b"ONE        ", 0x20, 2, 1));
    raw[32..64].copy_from_slice(&entry(b"\xE5WO        ", 0x20, 3, 1));
    raw[64..96].copy_from_slice(&entry(b"THREE      ", 0x20, 4, 1));
    let list = parse_dir_entries(&raw).unwrap();
    let names: Vec<&str> = list.iter().map(|e| e.name.as_str()).collect();
    assert_eq!(names, vec!["one", "three"]);
    assert_eq!(search_dir(&raw, "three", true).map(|(at, _)| at), Some(64));
    assert!(search_dir(&raw, "four", true).is_none());
    assert_eq!(find_free_dir_slot_in_raw(&raw), Some(32));
    assert_eq!(find_free_dir_slot_in_raw(&[1u8; 64]), None);
}

#[test]
fn new_file_is_empty_until_closed() {
    let (registry, fs) = mounted();
    let handle = match fs.create_file(&registry, "new.txt") {
        Ok(h) => h,
        Err(_) => panic!("not created"),
    };
    assert!(handle.is_new);
    assert_eq!(handle.data.len(), 0);
    assert_eq!(handle.first_cluster, 0);
    assert!(matches!(fs.root().lookup(&registry, "new.txt"), Err(VfsError::NotFound)));
}

#[test]
fn appended_entry_is_listed() {
    let mut disk = volume();
    let b = bpb();
    let mut chain = vec![4u32];
    let before = read_dir_entries_from_chain(&disk, &b, &chain).unwrap();
    let mut new = parse_dir_entries(&entry(b"NEW     TXT", 0x20, 7, 9)).unwrap().remove(0);
    assert_eq!(new.to_bytes(), Ok(*b"NEW     TXT"));
    let short = FatDirEntry::name_to_83("new.txt").unwrap();
    append_dir_entry(&mut disk, &b, &mut chain, &new, short, &mut Vec::new()).unwrap();
    assert_eq!(chain, vec![4]);
    let after = read_dir_entries_from_chain(&disk, &b, &chain).unwrap();
    assert_eq!(after.len(), before.len() + 1);
    let last = after.last().unwrap();
    assert_eq!((last.name.as_str(), last.first_cluster, last.size), ("new.txt", 7, 9));
    new.name.push_str(".much.too.long.a.name");
    assert_eq!(new.to_bytes(), Err(VfsError::BadPath));
}

#[test]
fn full_directory_gets_a_cluster() {
    let mut disk = volume();
    let b = bpb();
    let mut full = [0u8; 512];
    for i in 0..16 {
        full[32 * i..32 * i + 32].copy_from_slice(&entry(b"F       TXT", 0x20, 0, 0));
        full[32 * i + 1] = b'A' + i as u8;
    }
    disk.write_sector(BASE + 6, &full).unwrap();
    let new = parse_dir_entries(&entry(b"NEW     TXT", 0x20, 7, 9)).unwrap().remove(0);
    let mut chain = vec![4u32];
    append_dir_entry(&mut disk, &b, &mut chain, &new, *b"NEW     TXT", &mut Vec::new()).unwrap();
    assert_eq!(chain, vec![4, 6]);
    assert_eq!(read_cluster_chain(&disk, &b, 4), Ok(vec![4, 6]));
    let entries = read_dir_entries_from_chain(&disk, &b, &chain).unwrap();
    assert_eq!(entries.len(), 17);
    assert_eq!(entries[16].name, "new.txt");
}

fn numbers(len: usize) -> Vec<u8> {
    (0..len).map(|i| (i % 241) as u8).collect()
}

/// Opens a file of a directory, writes it whole and closes it.
fn store(dir: &FatDirInode, registry: &mut BlockDeviceRegistry<RamDisk>, name: &str, data: &[u8]) {
    let mut handle = match dir.create_child_file(registry, name) {
        Ok(h) => h,
        Err(_) => panic!("not opened"),
    };
    assert_eq!(handle.write(data), Ok(data.len()));
    handle.close(registry, &ERRNOS, &mut Vec::new());
    assert!(!handle.dirty && !handle.is_new);
    // A second close writes nothing.
    let before = all_sectors(registry.get(0).unwrap());
    handle.close(registry, &ERRNOS, &mut Vec::new());
    assert_eq!(all_sectors(registry.get(0).unwrap()), before);
}

fn all_sectors(disk: &RamDisk) -> Vec<[u8; 512]> {
    (0..disk.total_sectors())
        .map(|i| {
            let mut buf = [0u8; 512];
            disk.read_sector(i, &mut buf).unwrap();
            buf
        })
        .collect()
}

#[test]
fn new_file_reads_back_after_close() {
    let (mut registry, fs) = mounted();
    let root = fs.root();
    let sub = as_dir(root.lookup(&registry, "sub").unwrap());
    for dir in [root, sub] {
        store(&dir, &mut registry, "new.txt", &numbers(1300));
        let f = as_file(dir.lookup(&registry, "new.txt").unwrap());
        assert_eq!(f.size(), 1300);
        assert_eq!(read_all(&f, &registry), numbers(1300));
    }
    assert_eq!(
        root.readdir(&registry).unwrap(),
        vec!["hello.txt", "sub", "new.txt"]
    );
    let hello = as_file(root.lookup(&registry, "hello.txt").unwrap());
    assert_eq!(read_all(&hello, &registry).len(), 600);
}

#[test]
fn new_file_without_a_write_is_not_listed() {
    let (mut registry, fs) = mounted();
    let before = all_sectors(registry.get(0).unwrap());
    let mut handle = match fs.create_file(&registry, "empty.txt") {
        Ok(h) => h,
        Err(_) => panic!("not created"),
    };
    handle.close(&mut registry, &ERRNOS, &mut Vec::new());
    assert!(handle.is_new);
    assert_eq!(all_sectors(registry.get(0).unwrap()), before);
    assert!(matches!(fs.root().lookup(&registry, "empty.txt"), Err(VfsError::NotFound)));
    // It gets its entry once something was written, even if nothing is left of it.
    handle.write(b"x").unwrap();
    handle.data.clear();
    handle.close(&mut registry, &ERRNOS, &mut Vec::new());
    let f = as_file(fs.root().lookup(&registry, "empty.txt").unwrap());
    assert_eq!((f.first_cluster, f.size()), (0, 0));
    // It gets a first cluster with its first contents.
    store(&fs.root(), &mut registry, "empty.txt", b"some");
    let f = as_file(fs.root().lookup(&registry, "empty.txt").unwrap());
    assert_eq!(f.first_cluster, 6);
    assert_eq!(read_all(&f, &registry), b"some");
}

#[test]
fn new_file_needs_a_short_name() {
    let (mut registry, fs) = mounted();
    let before = all_sectors(registry.get(0).unwrap());
    let mut handle = match fs.create_file(&registry, "much too long a name") {
        Ok(h) => h,
        Err(_) => panic!("not created"),
    };
    handle.write(b"abc").unwrap();
    handle.close(&mut registry, &ERRNOS, &mut Vec::new());
    assert!(handle.dirty && handle.is_new);
    assert_eq!(all_sectors(registry.get(0).unwrap()), before);
}

#[test]
fn long_chain_grows_at_its_end() {
    let (mut registry, fs) = mounted();
    let sub = as_dir(fs.root().lookup(&registry, "sub").unwrap());
    let b = bpb();
    store(&sub, &mut registry, "a.bin", &numbers(900));
    assert_eq!(read_cluster_chain(registry.get(0).unwrap(), &b, 5), Ok(vec![5, 6]));
    store(&sub, &mut registry, "a.bin", &numbers(2000));
    assert_eq!(read_cluster_chain(registry.get(0).unwrap(), &b, 5), Ok(vec![5, 6, 7, 8]));
    let a = as_file(sub.lookup(&registry, "a.bin").unwrap());
    assert_eq!(read_all(&a, &registry), numbers(2000));
}

#[test]
fn emptied_file_gives_its_clusters_back() {
    let (mut registry, fs) = mounted();
    let sub = as_dir(fs.root().lookup(&registry, "sub").unwrap());
    let b = bpb();
    let mut handle = match sub.create_child_file(&registry, "a.bin") {
        Ok(h) => h,
        Err(_) => panic!("not opened"),
    };
    handle.data = Vec::new();
    handle.dirty = true;
    handle.close(&mut registry, &ERRNOS, &mut Vec::new());
    assert_eq!(read_fat_entry(registry.get(0).unwrap(), &b, 5), Ok(0));
    let a = as_file(sub.lookup(&registry, "a.bin").unwrap());
    assert_eq!((a.first_cluster, a.size()), (0, 0));
    store(&sub, &mut registry, "a.bin", b"again");
    let a = as_file(sub.lookup(&registry, "a.bin").unwrap());
    assert_eq!(read_all(&a, &registry), b"again");
}

#[test]
fn sectors_of_other_sizes_are_no_obstacle() {
    let mut disk = volume();
    let mut boot = boot_sector();
    put16(&mut boot, 11, 256);
    put16(&mut boot, 17, 8);
    disk.write_sector(BASE, &boot).unwrap();
    let mut registry = BlockDeviceRegistry::new();
    register_device(&mut registry, disk, &mut Vec::new()).unwrap();
    let fs = match Fat32Fs::new(&registry, 0, &mut Vec::new()) {
        Ok(fs) => fs,
        Err(_) => panic!("no volume"),
    };
    let sub = as_dir(fs.root().lookup(&registry, "sub").unwrap());
    store(&sub, &mut registry, "a.bin", &numbers(1500));
    let a = as_file(sub.lookup(&registry, "a.bin").unwrap());
    assert_eq!(read_all(&a, &registry), numbers(1500));
    assert_eq!(sub.delete_child_file(&mut registry, "a.bin", &mut Vec::new()), Ok(()));
}

#[test]
fn write_at_an_offset_keeps_the_rest() {
    let mut disk = volume();
    let b = bpb();
    let before = read_chain_bytes(&disk, &b, &[2, 3]).unwrap();
    let sectors = all_sectors(&disk);
    assert_eq!(write_file_data(&mut disk, &b, &[2, 3], 500, &[7u8; 30]), Ok(30));
    let after = read_chain_bytes(&disk, &b, &[2, 3]).unwrap();
    assert_eq!(after[..500], before[..500]);
    assert_eq!(after[500..530], [7u8; 30]);
    assert_eq!(after[530..], before[530..]);
    let now = all_sectors(&disk);
    assert_eq!(now[..BASE as usize + 4], sectors[..BASE as usize + 4]);
    assert_eq!(now[BASE as usize + 6..], sectors[BASE as usize + 6..]);
    // Only what the chain has room for.
    assert_eq!(write_file_data(&mut disk, &b, &[2, 3], 1020, &[9u8; 30]), Ok(4));
    assert_eq!(write_file_data(&mut disk, &b, &[2, 3], 1024, &[9u8; 30]), Ok(0));
    assert_eq!(write_file_data(&mut disk, &b, &[2, 3], 512, b"second"), Ok(6));
    assert_eq!(read_chain_bytes(&disk, &b, &[3]).unwrap()[..6], *b"second");
}

#[test]
fn created_directory_is_listed() {
    let (mut registry, fs) = mounted();
    assert_eq!(fs.create_dir(&mut registry, "docs", &mut Vec::new()), Ok(()));
    assert_eq!(fs.create_dir(&mut registry, "docs", &mut Vec::new()), Err(VfsError::AlreadyExists));
    assert_eq!(fs.create_dir(&mut registry, "a.long.name", &mut Vec::new()), Err(VfsError::BadPath));
    let root = fs.root();
    assert_eq!(root.readdir(&registry).unwrap(), vec!["hello.txt", "sub", "docs"]);
    let docs = as_dir(root.lookup(&registry, "docs").unwrap());
    let list = docs.read_entries(&registry).unwrap();
    let seen: Vec<(&str, u8, u32)> =
        list.iter().map(|e| (e.name.as_str(), e.attributes, e.first_cluster)).collect();
    assert_eq!(seen, vec![(".", 0x10, 6), ("..", 0x10, 0)]);
    // A directory in a directory, and a file in that.
    assert_eq!(docs.create_child_dir(&mut registry, "deep", &mut Vec::new()), Ok(()));
    let deep = as_dir(docs.lookup(&registry, "deep").unwrap());
    let list = deep.read_entries(&registry).unwrap();
    let seen: Vec<(&str, u32)> =
        list.iter().map(|e| (e.name.as_str(), e.first_cluster)).collect();
    assert_eq!(seen, vec![(".", 7), ("..", 6)]);
    store(&deep, &mut registry, "x.txt", b"contents");
    let x = as_file(deep.lookup(&registry, "x.txt").unwrap());
    assert_eq!(read_all(&x, &registry), b"contents");
}

#[test]
fn full_root_takes_no_directory() {
    let (mut registry, fs) = mounted();
    for i in 0..14 {
        assert_eq!(fs.create_dir(&mut registry, &format!("d{}", i), &mut Vec::new()), Ok(()));
    }
    assert_eq!(fs.create_dir(&mut registry, "more", &mut Vec::new()), Err(VfsError::NoSpace));
    assert!(matches!(fs.root().lookup(&registry, "more"), Err(VfsError::NotFound)));
}

#[test]
fn new_directory_needs_a_cluster() {
    let (mut registry, fs) = mounted();
    // Clusters beyond the end of the disk cannot be laid out.
    let b = bpb();
    let disk = registry.get_mut(0).unwrap();
    for cluster in 6..256 {
        write_fat_entry(disk, &b, cluster, 0xFFFF).unwrap();
    }
    assert_eq!(fs.create_dir(&mut registry, "docs", &mut Vec::new()), Err(VfsError::IoError));
    assert!(matches!(fs.root().lookup(&registry, "docs"), Err(VfsError::NotFound)));
}

#[test]
fn changed_entry_is_found() {
    let mut disk = volume();
    let b = bpb();
    assert_eq!(update_dir_entry(&mut disk, &b, &[4], "a.bin", 0x0102_0304, 77), Ok(()));
    let list = read_dir_entries_from_chain(&disk, &b, &[4]).unwrap();
    let e = list.iter().find(|e| e.name == "a.bin").unwrap();
    assert_eq!((e.first_cluster, e.size), (0x0102_0304, 77));
    assert_eq!(
        update_dir_entry(&mut disk, &b, &[4], "b.bin", 1, 1),
        Err(VfsError::NotFound)
    );
    assert_eq!(update_dir_entry_size(&mut disk, &b, &[4], "a.bin", 78), Ok(()));
    assert_eq!(delete_dir_entry(&mut disk, &b, &[4], "a.bin"), Ok(()));
    assert_eq!(delete_dir_entry(&mut disk, &b, &[4], "a.bin"), Err(VfsError::NotFound));
}

#[test]
fn freed_clusters_are_counted_again() {
    let mut b = bpb();
    b.num_fats = 1;
    let mut disk = RamDisk::new(400, 512);
    for (cluster, next) in [(5u32, 9u32), (9, 7), (7, 0xFFFF)] {
        write_fat_entry(&mut disk, &b, cluster, next).unwrap();
    }
    let before = count_free_clusters(&disk, &b).unwrap();
    assert_eq!(free_cluster_chain(&mut disk, &b, 5), Ok(()));
    assert_eq!(count_free_clusters(&disk, &b), Ok(before + 3));
}

#[test]
fn file_in_fat16_root_keeps_its_clusters_when_deleted() {
    let (mut registry, fs) = mounted();
    assert_eq!(fs.root().delete_child_file(&mut registry, "hello.txt", &mut Vec::new()), Ok(()));
    assert!(matches!(fs.root().lookup(&registry, "hello.txt"), Err(VfsError::NotFound)));
    let b = bpb();
    assert_eq!(read_fat_entry(registry.get(0).unwrap(), &b, 2), Ok(3));
}

fn long_slot(number: u8, text: &str) -> [u8; 32] {
    let mut e = [0xFFu8; 32];
    e[0] = number;
    e[11] = 0x0F;
    let places = [1, 3, 5, 7, 9, 14, 16, 18, 20, 22, 24, 28, 30];
    for (k, c) in text.bytes().chain([0u8]).take(13).enumerate() {
        put16(&mut e, places[k], c as u16);
    }
    e
}

#[test]
fn long_names_are_put_in_order() {
    let mut raw = vec![0u8; 512];
    raw[0..32].copy_from_slice(&long_slot(0x43, "end.txt"));
    raw[32..64].copy_from_slice(&long_slot(2, "rds in the mi"));
    raw[64..96].copy_from_slice(&long_slot(1, "several   wo-"));
    raw[96..128].copy_from_slice(&entry(b"SEVERA~1TXT", 0x20, 2, 1));
    raw[128..160].copy_from_slice(&long_slot(0xE5, "gone"));
    raw[160..192].copy_from_slice(&entry(b"PLAIN   TXT", 0x20, 3, 1));
    let list = parse_dir_entries(&raw).unwrap();
    let names: Vec<&str> = list.iter().map(|e| e.name.as_str()).collect();
    assert_eq!(names, vec!["several   wo-rds in the miend.txt", "plain.txt"]);
    assert_eq!(
        search_dir(&raw, "several   wo-rds in the miend.txt", true).map(|(at, _)| at),
        Some(96)
    );
    assert_eq!(search_dir(&raw, "plain.txt", true).map(|(at, _)| at), Some(160));
}

#[test]
fn mount_is_noted_on_the_console() {
    let mut registry = BlockDeviceRegistry::new();
    register_device(&mut registry, volume(), &mut Vec::new()).unwrap();
    let mut out = Vec::new();
    assert!(Fat32Fs::new(&registry, 0, &mut out).is_ok());
    let text = String::from_utf8(out).unwrap();
    assert!(text.starts_with(
        "[FAT] dev=ramdisk ssize=0x0000000000000200 tot=0x00000000000000C8\r\n\
         [FAT] MBR partition type=0x0x0000000000000006 at LBA=0x0x000000000000000A\r\n\
         [FAT] Detected: FAT16 bps=0x0000000000000200 spc="
    ));
    assert!(text.ends_with(
        " root_entries=0x0000000000000010 root_dir_sec=0x0000000000000003 \
         data_start=0x0000000000000004\r\n"
    ));
    let mut out = Vec::new();
    assert!(Fat32Fs::new(&registry, 5, &mut out).is_err());
    assert_eq!(out, b"");
    let mut disk = RamDisk::new(4, 512);
    let mut boot = [0u8; 512];
    boot[510] = 0x55;
    boot[511] = 0xAA;
    disk.write_sector(0, &boot).unwrap();
    register_device(&mut registry, disk, &mut Vec::new()).unwrap();
    let mut out = Vec::new();
    assert!(Fat32Fs::new(&registry, 1, &mut out).is_err());
    assert!(String::from_utf8(out).unwrap().ends_with(
        "[FAT] Not FAT BPB (jmp=0x0x0000000000000000), no FAT partition in MBR\r\n"
    ));
    let mut out = Vec::new();
    assert!(FatBpb::parse(&[0u8; 512], 0, &mut out).is_err());
    assert_eq!(out, b"[FAT] Invalid BPB (bps or spc is zero)\r\n");
}

#[test]
fn changes_are_noted_on_the_console() {
    let (mut registry, fs) = mounted();
    let mut out = Vec::new();
    assert_eq!(fs.create_dir(&mut registry, "docs", &mut out), Ok(()));
    let sub = as_dir(fs.root().lookup(&registry, "sub").unwrap());
    assert_eq!(sub.delete_child_file(&mut registry, "a.bin", &mut out), Ok(()));
    assert_eq!(fs.root().delete_child_file(&mut registry, "hello.txt", &mut out), Ok(()));
    assert_eq!(
        String::from_utf8(out).unwrap(),
        "[FAT] Created dir: docs cluster=0x0000000000000006\r\n[FAT] Deleted: a.bin\r\n"
    );
}

#[test]
fn full_volume_is_noted_on_the_console() {
    let mut b = bpb();
    b.num_fats = 1;
    let mut disk = RamDisk::new(400, 512);
    // The table and everything that is taken for it.
    for lba in 0..400 {
        disk.write_sector(lba, &[0xFFu8; 512]).unwrap();
    }
    let mut out = Vec::new();
    assert_eq!(allocate_cluster(&mut disk, &b, 2, &mut out), Err(VfsError::NoSpace));
    assert_eq!(out, b"[FAT] No free clusters\r\n");
}

#[test]
fn failed_close_is_noted_on_the_console() {
    let (mut registry, fs) = mounted();
    let sub = as_dir(fs.root().lookup(&registry, "sub").unwrap());
    let mut handle = match sub.create_child_file(&registry, "a.bin") {
        Ok(h) => h,
        Err(_) => panic!("not opened"),
    };
    // Two hundred clusters and more do not fit on the disk.
    handle.write(&numbers(512 * 230)).unwrap();
    let mut out = Vec::new();
    handle.close(&mut registry, &ERRNOS, &mut out);
    assert!(handle.dirty);
    assert_eq!(out, b"[FAT] close: write data failed\n");
    let a = as_file(sub.lookup(&registry, "a.bin").unwrap());
    assert_eq!(a.size(), 3);
}

#[test]
fn unreadable_chain_is_replaced() {
    let (mut registry, fs) = mounted();
    let sub = as_dir(fs.root().lookup(&registry, "sub").unwrap());
    let mut handle = match sub.create_child_file(&registry, "a.bin") {
        Ok(h) => h,
        Err(_) => panic!("not opened"),
    };
    handle.write(b"four").unwrap();
    // The chain leads to a cluster whose entry lies behind the end of the disk. What cannot
    // be read is replaced by a new cluster behind the first.
    let b = bpb();
    write_fat_entry(registry.get_mut(0).unwrap(), &b, 5, 0xFF00).unwrap();
    let mut out = Vec::new();
    handle.close(&mut registry, &ERRNOS, &mut out);
    assert!(!handle.dirty && out.is_empty());
    assert_eq!((handle.first_cluster, handle.disk_size), (5, 4));
    let disk = registry.get(0).unwrap();
    assert_eq!(read_cluster_chain(disk, &b, 5), Ok(vec![5, 6]));
    assert_eq!(read_chain_bytes(disk, &b, &[6]).unwrap()[..4], *b"four");
    let a = as_file(sub.lookup(&registry, "a.bin").unwrap());
    assert_eq!((a.first_cluster, a.size()), (5, 4));
}

#[test]
fn close_needs_a_readable_table() {
    let (mut registry, fs) = mounted();
    let sub = as_dir(fs.root().lookup(&registry, "sub").unwrap());
    let mut handle = match sub.create_child_file(&registry, "a.bin") {
        Ok(h) => h,
        Err(_) => panic!("not opened"),
    };
    handle.write(b"four").unwrap();
    // The search for a further cluster starts behind the end of the disk.
    handle.first_cluster = 0xFF00;
    let mut out = Vec::new();
    handle.close(&mut registry, &ERRNOS, &mut out);
    assert!(handle.dirty);
    assert_eq!(out, b"[FAT] close: alloc failed: 0x0000000000000005\r\n");
}

#[test]
fn clusters_are_reckoned_as_the_boot_sector_says() {
    let mut disk = volume();
    let mut boot = boot_sector();
    put16(&mut boot, 11, 256);
    put16(&mut boot, 17, 8);
    disk.write_sector(BASE, &boot).unwrap();
    let mut registry = BlockDeviceRegistry::new();
    register_device(&mut registry, disk, &mut Vec::new()).unwrap();
    let fs = match Fat32Fs::new(&registry, 0, &mut Vec::new()) {
        Ok(fs) => fs,
        Err(_) => panic!("no volume"),
    };
    let sub = as_dir(fs.root().lookup(&registry, "sub").unwrap());
    // Six clusters of 256 bytes.
    store(&sub, &mut registry, "a.bin", &numbers(1500));
    let b = fs.inner.bpb;
    let chain = read_cluster_chain(registry.get(0).unwrap(), &b, 5).unwrap();
    assert_eq!(chain.len(), 6);
}

#[test]
fn contents_are_written_before_the_entry() {
    let (mut registry, fs) = mounted();
    for i in 0..14 {
        assert_eq!(fs.create_dir(&mut registry, &format!("d{}", i), &mut Vec::new()), Ok(()));
    }
    let before = fs.root().readdir(&registry).unwrap();
    let mut handle = match fs.create_file(&registry, "new.txt") {
        Ok(h) => h,
        Err(_) => panic!("not created"),
    };
    handle.write(b"contents").unwrap();
    handle.close(&mut registry, &ERRNOS, &mut Vec::new());
    // There is no place for the entry, but the contents are there.
    assert!(handle.is_new && handle.dirty);
    assert_eq!(fs.root().readdir(&registry).unwrap(), before);
    let disk = registry.get(0).unwrap();
    let raw = read_chain_bytes(disk, &bpb(), &[handle.first_cluster]).unwrap();
    assert_eq!(raw[..8], *b"contents");
}
