//! The BIOS parameter block: the geometry of a FAT volume.
use vstd::prelude::*;

use crate::bytes;
use crate::serial;
use crate::vfs::VfsError;

verus! {

/// FAT filesystem variant.
#[derive(Debug, Clone, Copy, PartialEq, Eq, Structural)]
pub enum FatVariant {
    Fat16,
    Fat32,
}

impl FatVariant {
    pub open spec fn text(self) -> Seq<char> {
        match self {
            FatVariant::Fat16 => "FAT16"@,
            FatVariant::Fat32 => "FAT32"@,
        }
    }

    pub fn as_str(&self) -> (r: &'static str)
        ensures
            r@ == self.text(),
    {
        match self {
            FatVariant::Fat16 => "FAT16",
            FatVariant::Fat32 => "FAT32",
        }
    }
}

/// The geometry of a FAT volume. Sector numbers below are counted from `base_sector`.
#[derive(Debug, Clone, Copy, PartialEq, Eq, Structural)]
pub struct FatBpb {
    pub variant: FatVariant,
    pub bytes_per_sector: u16,
    pub sectors_per_cluster: u8,
    pub reserved_sectors: u16,
    pub num_fats: u8,
    /// First cluster of the root directory of a FAT32 volume, else 0.
    pub root_cluster: u32,
    /// Sectors in each copy of the table.
    pub fat_size_sectors: u32,
    pub total_sectors: u32,
    /// Absolute LBA of the first sector of this FAT partition.
    pub base_sector: u32,
    /// First sector of the data area.
    pub data_start_sector: u64,
    pub bytes_per_cluster: u32,
    /// Entries in the root directory of a FAT16 volume, else 0.
    pub root_entry_count: u16,
    pub root_dir_start_sector: u64,
    pub root_dir_sectors: u32,
}

/// The variant that a boot sector describes, if it is one of the two.
pub open spec fn variant_of(buf: Seq<u8>) -> Option<FatVariant> {
    if bytes::le16(buf, 22) != 0 && bytes::le16(buf, 17) != 0 {
        Some(FatVariant::Fat16)
    } else if bytes::le32(buf, 36) != 0 {
        Some(FatVariant::Fat32)
    } else {
        None
    }
}

/// The geometry that a boot sector describes.
pub open spec fn bpb_of(buf: Seq<u8>, base_sector: u32) -> Option<FatBpb> {
    let bps = bytes::le16(buf, 11);
    let spc = buf[13];
    let rs = bytes::le16(buf, 14);
    let nf = buf[16];
    let entries = bytes::le16(buf, 17);
    if buf.len() < 512 || bps == 0 || spc == 0 {
        None
    } else {
        match variant_of(buf) {
            Some(FatVariant::Fat16) => {
                let fat_size = bytes::le16(buf, 22) as u32;
                let fat_end = rs + nf * fat_size;
                let root_sectors = (entries * 32 + bps - 1) / (bps as int);
                Some(
                    FatBpb {
                        variant: FatVariant::Fat16,
                        bytes_per_sector: bps,
                        sectors_per_cluster: spc,
                        reserved_sectors: rs,
                        num_fats: nf,
                        root_cluster: 0,
                        fat_size_sectors: fat_size,
                        total_sectors: if bytes::le16(buf, 19) != 0 {
                            bytes::le16(buf, 19) as u32
                        } else {
                            bytes::le32(buf, 32)
                        },
                        base_sector,
                        data_start_sector: (fat_end + root_sectors) as u64,
                        bytes_per_cluster: (bps * spc) as u32,
                        root_entry_count: entries,
                        root_dir_start_sector: fat_end as u64,
                        root_dir_sectors: root_sectors as u32,
                    },
                )
            },
            Some(FatVariant::Fat32) => {
                let fat_size = bytes::le32(buf, 36);
                Some(
                    FatBpb {
                        variant: FatVariant::Fat32,
                        bytes_per_sector: bps,
                        sectors_per_cluster: spc,
                        reserved_sectors: rs,
                        num_fats: nf,
                        root_cluster: bytes::le32(buf, 44),
                        fat_size_sectors: fat_size,
                        total_sectors: bytes::le32(buf, 32),
                        base_sector,
                        data_start_sector: (rs + nf * fat_size) as u64,
                        bytes_per_cluster: (bps * spc) as u32,
                        root_entry_count: entries,
                        root_dir_start_sector: 0,
                        root_dir_sectors: 0,
                    },
                )
            },
            None => None,
        }
    }
}

/// The console once the geometry of a volume has been noted.
pub open spec fn with_detected(out: Seq<u8>, bpb: FatBpb) -> Seq<u8> {
    let head = out + serial::text("[FAT] Detected: "@) + serial::text(bpb.variant.text())
        + serial::text(" bps="@) + serial::hex_text(bpb.bytes_per_sector as u64) + serial::text(
        " spc="@,
    ) + serial::hex_text(bpb.sectors_per_cluster as u64) + serial::text(" rs="@)
        + serial::hex_text(bpb.reserved_sectors as u64) + serial::text(" fats="@)
        + serial::hex_text(bpb.num_fats as u64) + serial::text(" fat_size="@) + serial::hex_text(
        bpb.fat_size_sectors as u64,
    ) + serial::text(" total="@) + serial::hex_text(bpb.total_sectors as u64);
    let root = match bpb.variant {
        FatVariant::Fat32 => head + serial::text(" root_cl="@) + serial::hex_text(
            bpb.root_cluster as u64,
        ),
        FatVariant::Fat16 => head + serial::text(" root_entries="@) + serial::hex_text(
            bpb.root_entry_count as u64,
        ) + serial::text(" root_dir_sec="@) + serial::hex_text(bpb.root_dir_start_sector),
    };
    root + serial::text(" data_start="@) + serial::hex_text(bpb.data_start_sector)
        + serial::line_end()
}

/// The console once a boot sector has been parsed.
pub open spec fn with_parsed(out: Seq<u8>, buf: Seq<u8>, base_sector: u32) -> Seq<u8> {
    if buf.len() < 512 {
        out
    } else if bytes::le16(buf, 11) == 0 || buf[13] == 0 {
        out + serial::text("[FAT] Invalid BPB (bps or spc is zero)"@) + serial::line_end()
    } else {
        match bpb_of(buf, base_sector) {
            Some(bpb) => with_detected(out, bpb),
            None => out + serial::text("[FAT] Unsupported: FAT12 or corrupt BPB"@)
                + serial::line_end(),
        }
    }
}

fn say_detected(bpb: &FatBpb, out: &mut Vec<u8>)
    ensures
        final(out)@ == with_detected(old(out)@, *bpb),
{
    serial::write_str(out, "[FAT] Detected: ");
    serial::write_str(out, bpb.variant.as_str());
    serial::write_str(out, " bps=");
    serial::write_hex(out, bpb.bytes_per_sector as u64);
    serial::write_str(out, " spc=");
    serial::write_hex(out, bpb.sectors_per_cluster as u64);
    serial::write_str(out, " rs=");
    serial::write_hex(out, bpb.reserved_sectors as u64);
    serial::write_str(out, " fats=");
    serial::write_hex(out, bpb.num_fats as u64);
    serial::write_str(out, " fat_size=");
    serial::write_hex(out, bpb.fat_size_sectors as u64);
    serial::write_str(out, " total=");
    serial::write_hex(out, bpb.total_sectors as u64);
    match bpb.variant {
        FatVariant::Fat32 => {
            serial::write_str(out, " root_cl=");
            serial::write_hex(out, bpb.root_cluster as u64);
        },
        FatVariant::Fat16 => {
            serial::write_str(out, " root_entries=");
            serial::write_hex(out, bpb.root_entry_count as u64);
            serial::write_str(out, " root_dir_sec=");
            serial::write_hex(out, bpb.root_dir_start_sector);
        },
    }
    serial::write_str(out, " data_start=");
    serial::write_hex(out, bpb.data_start_sector);
    serial::write_nl(out);
}

impl FatBpb {
    pub open spec fn wf(&self) -> bool {
        &&& self.bytes_per_sector > 0
        &&& self.sectors_per_cluster > 0
        &&& self.bytes_per_cluster > 0
        &&& self.bytes_per_cluster == self.bytes_per_sector * self.sectors_per_cluster
        &&& self.data_start_sector <= 0x200_0000_0000
        &&& self.root_dir_start_sector <= 0x200_0000_0000
    }

    /// The absolute LBA of the first sector of a cluster.
    pub open spec fn cluster_lba(&self, cluster: u32) -> int {
        self.base_sector + self.data_start_sector + (if cluster >= 2 {
            cluster - 2
        } else {
            0
        }) * self.sectors_per_cluster
    }

    /// The smallest table entry that ends a chain.
    pub open spec fn end_mark(&self) -> u32 {
        match self.variant {
            FatVariant::Fat16 => 0xFFF8,
            FatVariant::Fat32 => 0x0FFF_FFF8,
        }
    }

    /// The highest cluster number that an allocation considers.
    pub open spec fn top_cluster(&self) -> u32 {
        match self.variant {
            FatVariant::Fat16 => 0xFFF0,
            FatVariant::Fat32 => 0x0FFF_FFF0,
        }
    }

    /// Parse the parameter block in a boot sector. What was found is noted on the console.
    pub fn parse(buf: &[u8], base_sector: u32, out: &mut Vec<u8>) -> (r: Result<FatBpb, VfsError>)
        ensures
            final(out)@ == with_parsed(old(out)@, buf@, base_sector),
            match r {
                Ok(bpb) => bpb_of(buf@, base_sector) == Some(bpb) && bpb.wf(),
                Err(e) => bpb_of(buf@, base_sector) is None && e == VfsError::IoError,
            },
    {
        if buf.len() < 512 {
            return Err(VfsError::IoError);
        }
        let bps: u16 = bytes::read_u16(buf, 11);
        let spc: u8 = buf[13];
        let rs: u16 = bytes::read_u16(buf, 14);
        let nf: u8 = buf[16];
        if bps == 0 || spc == 0 {
            serial::write_str_nl(out, "[FAT] Invalid BPB (bps or spc is zero)");
            return Err(VfsError::IoError);
        }
        assert(bps * spc <= 0xFFFF * 0xFF && bps * spc >= 1) by (nonlinear_arith)
            requires
                1 <= bps <= 0xFFFF,
                1 <= spc <= 0xFF,
        ;
        let bpc: u32 = bps as u32 * spc as u32;
        let fat_sz32: u32 = bytes::read_u32(buf, 36);
        let fat_sz16: u16 = bytes::read_u16(buf, 22);
        let root_entry_count: u16 = bytes::read_u16(buf, 17);
        let variant: FatVariant;
        let fat_size_sectors: u32;
        let total_sectors: u32;
        let root_cluster: u32;
        if fat_sz16 != 0 && root_entry_count != 0 {
            variant = FatVariant::Fat16;
            fat_size_sectors = fat_sz16 as u32;
            let ts16: u16 = bytes::read_u16(buf, 19);
            total_sectors = if ts16 != 0 {
                ts16 as u32
            } else {
                bytes::read_u32(buf, 32)
            };
            root_cluster = 0;
        } else if fat_sz32 != 0 {
            variant = FatVariant::Fat32;
            fat_size_sectors = fat_sz32;
            total_sectors = bytes::read_u32(buf, 32);
            root_cluster = bytes::read_u32(buf, 44);
        } else {
            serial::write_str_nl(out, "[FAT] Unsupported: FAT12 or corrupt BPB");
            return Err(VfsError::IoError);
        }
        assert(0 <= nf * fat_size_sectors <= 0xFF * 0xFFFF_FFFF) by (nonlinear_arith)
            requires
                0 <= nf <= 0xFF,
                0 <= fat_size_sectors <= 0xFFFF_FFFF,
        ;
        let fat_area_end: u64 = rs as u64 + nf as u64 * fat_size_sectors as u64;
        let root_dir_start_sector: u64;
        let root_dir_sectors: u32;
        let data_start_sector: u64;
        if variant == FatVariant::Fat16 {
            root_dir_start_sector = fat_area_end;
            root_dir_sectors = (root_entry_count as u32 * 32 + (bps as u32 - 1)) / bps as u32;
            data_start_sector = fat_area_end + root_dir_sectors as u64;
        } else {
            root_dir_start_sector = 0;
            root_dir_sectors = 0;
            data_start_sector = fat_area_end;
        }
        let bpb = FatBpb {
            variant,
            bytes_per_sector: bps,
            sectors_per_cluster: spc,
            reserved_sectors: rs,
            num_fats: nf,
            root_cluster,
            fat_size_sectors,
            total_sectors,
            base_sector,
            data_start_sector,
            bytes_per_cluster: bpc,
            root_entry_count,
            root_dir_start_sector,
            root_dir_sectors,
        };
        say_detected(&bpb, out);
        Ok(bpb)
    }

    /// Given a cluster number, return the LBA of its first sector.
    pub fn cluster_to_sector(&self, cluster: u32) -> (r: u64)
        requires
            self.wf(),
        ensures
            r == self.cluster_lba(cluster),
            r <= 0x400_0000_0000,
    {
        let index: u32 = cluster.saturating_sub(2);
        assert(0 <= index * self.sectors_per_cluster <= 0xFFFF_FFFF * 0xFF) by (nonlinear_arith)
            requires
                0 <= index <= 0xFFFF_FFFF,
                0 <= self.sectors_per_cluster <= 0xFF,
        ;
        self.base_sector as u64 + self.data_start_sector + index as u64
            * self.sectors_per_cluster as u64
    }

    /// End-of-chain marker for this FAT variant.
    pub fn eoc(&self) -> (r: u32)
        ensures
            r == self.end_mark(),
    {
        match self.variant {
            FatVariant::Fat16 => 0xFFF8,
            FatVariant::Fat32 => 0x0FFF_FFF8,
        }
    }

    /// Maximum valid cluster number for this variant.
    pub fn max_cluster(&self) -> (r: u32)
        ensures
            r == self.top_cluster(),
    {
        match self.variant {
            FatVariant::Fat16 => 0xFFF0,
            FatVariant::Fat32 => 0x0FFF_FFF0,
        }
    }

    /// Sectors in front of the root directory or the data: the reserved ones and all
    /// copies of the table.
    pub fn fat_area_sectors(&self) -> (r: u64)
        ensures
            r == self.reserved_sectors + self.num_fats * self.fat_size_sectors,
    {
        assert(0 <= self.num_fats * self.fat_size_sectors <= 0xFF * 0xFFFF_FFFF)
            by (nonlinear_arith)
            requires
                0 <= self.num_fats <= 0xFF,
                0 <= self.fat_size_sectors <= 0xFFFF_FFFF,
        ;
        self.reserved_sectors as u64 + self.num_fats as u64 * self.fat_size_sectors as u64
    }
}

} // verus!
