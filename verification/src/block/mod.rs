//! Sector-addressed storage devices.
use vstd::prelude::*;

pub mod ramdisk;
pub mod registry;

verus! {

/// Block device error codes, independent of the hardware.
#[derive(Debug, Clone, Copy, PartialEq, Eq, Structural)]
pub enum BlockError {
    /// Buffer size does not match the device's sector size.
    InvalidBufferSize,
    /// Logical block address is out of device bounds.
    OutOfBounds,
    /// Device is not ready or not present.
    DeviceNotReady,
    /// I/O error at the hardware level.
    IoError,
    /// Device is read-only.
    ReadOnly,
    /// Device registry is full.
    TooManyDevices,
    /// Device with this ID already exists.
    DeviceAlreadyExists,
    /// No device found with the requested ID.
    NoSuchDevice,
}

impl BlockError {
    /// The negated Linux error number that a system call reports.
    pub open spec fn errno(self) -> int {
        match self {
            BlockError::InvalidBufferSize => -22,
            BlockError::OutOfBounds => -22,
            BlockError::DeviceNotReady => -19,
            BlockError::IoError => -5,
            BlockError::ReadOnly => -30,
            BlockError::TooManyDevices => -24,
            BlockError::DeviceAlreadyExists => -17,
            BlockError::NoSuchDevice => -19,
        }
    }

    pub open spec fn text(self) -> Seq<char> {
        match self {
            BlockError::InvalidBufferSize => "buffer size does not match sector size"@,
            BlockError::OutOfBounds => "logical block address out of device bounds"@,
            BlockError::DeviceNotReady => "device not ready or not present"@,
            BlockError::IoError => "I/O error"@,
            BlockError::ReadOnly => "device is read-only"@,
            BlockError::TooManyDevices => "device registry full"@,
            BlockError::DeviceAlreadyExists => "device already registered"@,
            BlockError::NoSuchDevice => "no device with requested ID"@,
        }
    }

    pub fn to_errno(self) -> (r: i64)
        ensures
            r == self.errno(),
    {
        match self {
            BlockError::InvalidBufferSize => -22,
            BlockError::OutOfBounds => -22,
            BlockError::DeviceNotReady => -19,
            BlockError::IoError => -5,
            BlockError::ReadOnly => -30,
            BlockError::TooManyDevices => -24,
            BlockError::DeviceAlreadyExists => -17,
            BlockError::NoSuchDevice => -19,
        }
    }

    pub fn description(&self) -> (r: &'static str)
        ensures
            r@ == self.text(),
    {
        match self {
            BlockError::InvalidBufferSize => "buffer size does not match sector size",
            BlockError::OutOfBounds => "logical block address out of device bounds",
            BlockError::DeviceNotReady => "device not ready or not present",
            BlockError::IoError => "I/O error",
            BlockError::ReadOnly => "device is read-only",
            BlockError::TooManyDevices => "device registry full",
            BlockError::DeviceAlreadyExists => "device already registered",
            BlockError::NoSuchDevice => "no device with requested ID",
        }
    }
}

/// The error that a request for sector `lba` with a buffer of `len` bytes gets from a
/// device of `total` sectors of `sector_bytes` bytes before the hardware is asked.
pub open spec fn request_error(sector_bytes: int, total: int, lba: int, len: int) -> Option<
    BlockError,
> {
    if len != sector_bytes {
        Some(BlockError::InvalidBufferSize)
    } else if lba >= total {
        Some(BlockError::OutOfBounds)
    } else {
        None
    }
}

/// What a read of one sector does to a buffer, on a device with the given sectors.
pub open spec fn sector_read(
    sectors: Seq<Seq<u8>>,
    sector_bytes: int,
    reliable: bool,
    lba: u64,
    before: Seq<u8>,
    after: Seq<u8>,
    r: Result<(), BlockError>,
) -> bool {
    &&& after.len() == before.len()
    &&& r is Ok ==> lba < sectors.len() && after == sectors[lba as int]
    &&& match request_error(sector_bytes, sectors.len() as int, lba as int, before.len() as int) {
        Some(e) => r == Err::<(), BlockError>(e) && after == before,
        None => reliable ==> r is Ok,
    }
}

/// What a write of one sector does to the sectors of a device.
pub open spec fn sector_written(
    before: Seq<Seq<u8>>,
    after: Seq<Seq<u8>>,
    sector_bytes: int,
    reliable: bool,
    lba: u64,
    data: Seq<u8>,
    r: Result<(), BlockError>,
) -> bool {
    &&& after.len() == before.len()
    &&& r is Ok ==> lba < before.len() && after == before.update(lba as int, data)
    &&& r is Err ==> forall|i: int|
        0 <= i < before.len() && i != lba ==> #[trigger] after[i] == before[i]
    &&& match request_error(sector_bytes, before.len() as int, lba as int, data.len() as int) {
        Some(e) => r == Err::<(), BlockError>(e) && after == before,
        None => reliable ==> r is Ok,
    }
}

/// After a successful write, reading that sector gives what was written, and reading any
/// other sector gives what it held before. On a reliable device the read succeeds.
pub proof fn law_read_after_write(
    before: Seq<Seq<u8>>,
    after: Seq<Seq<u8>>,
    sector_bytes: int,
    reliable: bool,
    lba: u64,
    data: Seq<u8>,
    at: u64,
    buf: Seq<u8>,
    filled: Seq<u8>,
    r: Result<(), BlockError>,
)
    requires
        sector_written(before, after, sector_bytes, reliable, lba, data, Ok(())),
        sector_read(after, sector_bytes, reliable, at, buf, filled, r),
    ensures
        r is Ok && at == lba ==> filled == data,
        r is Ok && at != lba ==> filled == before[at as int],
        reliable && buf.len() == sector_bytes && at < before.len() ==> r is Ok,
{
}

/// A write that failed changed no other sector than the one it was for, and none at all
/// if the request was refused.
pub proof fn law_failed_write(
    before: Seq<Seq<u8>>,
    after: Seq<Seq<u8>>,
    sector_bytes: int,
    reliable: bool,
    lba: u64,
    data: Seq<u8>,
    e: BlockError,
    at: int,
)
    requires
        sector_written(before, after, sector_bytes, reliable, lba, data, Err(e)),
        0 <= at < before.len(),
    ensures
        at != lba ==> after[at] == before[at],
        data.len() != sector_bytes || lba >= before.len() ==> after == before,
{
}

/// Hardware-agnostic block device interface.
///
/// Sector size is a property of the device, not of the interface. Callers provide a
/// buffer of exactly `sector_size()` bytes for each single-sector transfer.
///
/// The specification functions are the device's model. A driver for real hardware takes
/// the defaults, which say nothing: what such a device holds is known only by reading it.
pub trait BlockDevice: Sized {
    /// What the sectors hold.
    closed spec fn sectors(&self) -> Seq<Seq<u8>> {
        arbitrary()
    }

    /// Bytes in each sector.
    closed spec fn sector_bytes(&self) -> int {
        arbitrary()
    }

    /// Whether every valid request succeeds. A device whose hardware can fail is not
    /// reliable, and then a valid request may still be answered with an error.
    closed spec fn reliable(&self) -> bool {
        arbitrary()
    }

    /// The device's name.
    closed spec fn label(&self) -> Seq<char> {
        arbitrary()
    }

    closed spec fn wf(&self) -> bool {
        arbitrary()
    }

    /// Read a single sector from the device.
    fn read_sector(&self, lba: u64, buf: &mut [u8]) -> (r: Result<(), BlockError>)
        requires
            self.wf(),
        ensures
            sector_read(
                self.sectors(),
                self.sector_bytes(),
                self.reliable(),
                lba,
                old(buf)@,
                final(buf)@,
                r,
            ),
    ;

    /// Write a single sector to the device. A failed transfer leaves all the other
    /// sectors as they were.
    fn write_sector(&mut self, lba: u64, buf: &[u8]) -> (r: Result<(), BlockError>)
        requires
            old(self).wf(),
        ensures
            final(self).wf(),
            final(self).reliable() == old(self).reliable(),
            final(self).sector_bytes() == old(self).sector_bytes(),
            final(self).label() == old(self).label(),
            sector_written(
                old(self).sectors(),
                final(self).sectors(),
                old(self).sector_bytes(),
                old(self).reliable(),
                lba,
                buf@,
                r,
            ),
    ;

    /// Returns the size of each sector in bytes.
    fn sector_size(&self) -> (r: u32)
        requires
            self.wf(),
        ensures
            r == self.sector_bytes(),
    ;

    /// Returns the total number of sectors on the device.
    fn total_sectors(&self) -> (r: u64)
        requires
            self.wf(),
        ensures
            r == self.sectors().len(),
    ;

    /// Returns a human-readable device name.
    fn name(&self) -> (r: &str)
        ensures
            r@ == self.label(),
    ;
}

} // verus!
