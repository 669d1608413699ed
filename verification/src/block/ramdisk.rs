//! A block device in memory.
use vstd::prelude::*;

use crate::block::{BlockDevice, BlockError};
use crate::bytes::{copy_at, copy_range};
use crate::serial;

verus! {

/// The largest RAM disk, in bytes.
pub const MAX_RAMDISK_BYTES: u64 = 16 * 1024 * 1024;

/// A fixed amount of memory behind the block device interface.
pub struct RamDisk {
    data: Vec<u8>,
    sector_size: u32,
    total_sectors: u64,
}

/// The console once a RAM disk has been created.
pub open spec fn with_disk_text(out: Seq<u8>, num_sectors: u64, sector_size: u32) -> Seq<u8> {
    out + serial::text("[BLOCK] RamDisk created: sectors="@) + serial::hex_text(num_sectors)
        + serial::text(" sector_size="@) + serial::hex_text(sector_size as u64) + serial::text(
        " total="@,
    ) + serial::hex_text((num_sectors * sector_size) as u64) + serial::line_end()
}

impl RamDisk {
    /// Creates a disk of `num_sectors` sectors of `sector_size` bytes, all zero.
    pub fn new(num_sectors: u64, sector_size: u32) -> (r: Self)
        requires
            num_sectors > 0,
            sector_size > 0,
            num_sectors * sector_size <= MAX_RAMDISK_BYTES,
        ensures
            r.wf(),
            r.sector_bytes() == sector_size,
            r.sectors() == Seq::new(
                num_sectors as nat,
                |i: int| Seq::new(sector_size as nat, |j: int| 0u8),
            ),
    {
        let total_bytes: u64 = num_sectors * sector_size as u64;
        let data: Vec<u8> = vec![0u8; total_bytes as usize];
        let disk = RamDisk { data, sector_size, total_sectors: num_sectors };
        proof {
            assert forall|i: int| 0 <= i < num_sectors implies #[trigger] disk.sectors()[i]
                == Seq::new(sector_size as nat, |j: int| 0u8) by {
                lemma_sector_range(i, num_sectors as int, sector_size as int);
                assert(disk.sectors()[i] =~= Seq::new(sector_size as nat, |j: int| 0u8));
            }
            assert(disk.sectors() =~= Seq::new(
                num_sectors as nat,
                |i: int| Seq::new(sector_size as nat, |j: int| 0u8),
            ));
        }
        disk
    }

    /// Notes on the console that the disk was created.
    pub fn note_created(&self, out: &mut Vec<u8>)
        requires
            self.wf(),
        ensures
            final(out)@ == with_disk_text(
                old(out)@,
                self.sectors().len() as u64,
                self.sector_bytes() as u32,
            ),
    {
        serial::write_str(out, "[BLOCK] RamDisk created: sectors=");
        serial::write_hex(out, self.total_sectors);
        serial::write_str(out, " sector_size=");
        serial::write_hex(out, self.sector_size as u64);
        serial::write_str(out, " total=");
        assert(self.sector_bytes() == self.sector_size);
        serial::write_hex(out, self.data.len() as u64);
        serial::write_nl(out);
    }
}

proof fn lemma_sector_range(i: int, total: int, size: int)
    by (nonlinear_arith)
    requires
        0 <= i < total,
        0 <= size,
    ensures
        0 <= i * size,
        i * size + size <= total * size,
{
}

proof fn lemma_sector_apart(i: int, k: int, size: int)
    by (nonlinear_arith)
    requires
        i != k,
        0 <= size,
    ensures
        i * size + size <= k * size || k * size + size <= i * size,
{
}

impl BlockDevice for RamDisk {
    closed spec fn sectors(&self) -> Seq<Seq<u8>> {
        Seq::new(
            self.total_sectors as nat,
            |i: int|
                self.data@.subrange(
                    i * self.sector_size as int,
                    i * self.sector_size as int + self.sector_size as int,
                ),
        )
    }

    closed spec fn sector_bytes(&self) -> int {
        self.sector_size as int
    }

    open spec fn reliable(&self) -> bool {
        true
    }

    open spec fn label(&self) -> Seq<char> {
        "ramdisk"@
    }

    closed spec fn wf(&self) -> bool {
        &&& self.data@.len() == self.total_sectors * self.sector_size
        &&& self.data@.len() <= MAX_RAMDISK_BYTES
    }

    fn read_sector(&self, lba: u64, buf: &mut [u8]) -> (r: Result<(), BlockError>) {
        if buf.len() != self.sector_size as usize {
            return Err(BlockError::InvalidBufferSize);
        }
        if lba >= self.total_sectors {
            return Err(BlockError::OutOfBounds);
        }
        proof {
            lemma_sector_range(lba as int, self.total_sectors as int, self.sector_size as int);
        }
        let offset: usize = (lba * self.sector_size as u64) as usize;
        let size: usize = self.sector_size as usize;
        copy_range(buf, 0, &self.data, offset, size);
        assert(buf@ =~= self.sectors()[lba as int]);
        Ok(())
    }

    fn write_sector(&mut self, lba: u64, buf: &[u8]) -> (r: Result<(), BlockError>) {
        if buf.len() != self.sector_size as usize {
            return Err(BlockError::InvalidBufferSize);
        }
        if lba >= self.total_sectors {
            return Err(BlockError::OutOfBounds);
        }
        proof {
            lemma_sector_range(lba as int, self.total_sectors as int, self.sector_size as int);
        }
        let ghost before = *self;
        let offset: usize = (lba * self.sector_size as u64) as usize;
        copy_at(&mut self.data, offset, buf);
        proof {
            assert forall|i: int| 0 <= i < before.sectors().len() implies self.sectors()[i]
                == before.sectors().update(lba as int, buf@)[i] by {
                lemma_sector_range(i, before.total_sectors as int, before.sector_size as int);
                if i != lba {
                    lemma_sector_apart(i, lba as int, before.sector_size as int);
                }
                assert(self.sectors()[i] =~= before.sectors().update(lba as int, buf@)[i]);
            }
            assert(self.sectors() =~= before.sectors().update(lba as int, buf@));
        }
        Ok(())
    }

    fn sector_size(&self) -> (r: u32) {
        self.sector_size
    }

    fn total_sectors(&self) -> (r: u64) {
        self.total_sectors
    }

    fn name(&self) -> (r: &str) {
        "ramdisk"
    }
}

} // verus!
