//! FAT16 and FAT32 file systems on a block device.
//!
//! The variant is found once, when the boot sector is parsed, and decides the width of
//! a table entry, the end-of-chain mark and where the root directory lies. Files are
//! buffered in memory; closing a changed file takes the clusters that it needs, writes the
//! data, and the directory entry last.
pub mod bpb;
pub mod entry;
pub mod table;
pub mod data;
pub mod dir;
pub mod file;
pub mod inode;
pub mod flush;
pub mod fs;
pub mod laws;
