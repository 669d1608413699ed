use indominus::block::ramdisk::RamDisk;
use indominus::block::registry::{get_device, register_device, unregister_device, BlockDeviceRegistry};
use indominus::block::{BlockDevice, BlockError};

#[test]
fn test_ramdisk_read_write() {
    let mut rd = RamDisk::new(8, 512);
    let mut read_buf = [0u8; 512];

    // Write known pattern to sector 0
    let mut write_buf = [0u8; 512];
    for i in 0..512 {
        write_buf[i] = (i % 256) as u8;
    }
    assert!(rd.write_sector(0, &write_buf).is_ok());

    // Read it back
    assert!(rd.read_sector(0, &mut read_buf).is_ok());
    assert_eq!(write_buf, read_buf);
}

#[test]
fn test_ramdisk_bounds_check() {
    let rd = RamDisk::new(4, 512);
    let mut buf = [0u8; 512];

    // Valid access
    assert!(rd.read_sector(3, &mut buf).is_ok());

    // Out of bounds
    assert_eq!(rd.read_sector(4, &mut buf), Err(BlockError::OutOfBounds));
    assert_eq!(rd.read_sector(100, &mut buf), Err(BlockError::OutOfBounds));
}

#[test]
fn test_ramdisk_wrong_buffer_size() {
    let rd = RamDisk::new(4, 512);
    let mut small_buf = [0u8; 256];
    let mut big_buf = [0u8; 1024];

    assert_eq!(rd.read_sector(0, &mut small_buf), Err(BlockError::InvalidBufferSize));
    assert_eq!(rd.read_sector(0, &mut big_buf), Err(BlockError::InvalidBufferSize));
}

#[test]
fn write_leaves_other_sectors() {
    let mut rd = RamDisk::new(4, 512);
    assert!(rd.write_sector(1, &[7u8; 512]).is_ok());
    assert!(rd.write_sector(2, &[9u8; 512]).is_ok());
    let mut buf = [0u8; 512];
    assert!(rd.read_sector(1, &mut buf).is_ok());
    assert_eq!(buf, [7u8; 512]);
    assert!(rd.read_sector(3, &mut buf).is_ok());
    assert_eq!(buf, [0u8; 512]);
}

#[test]
fn refused_write_changes_nothing() {
    let mut rd = RamDisk::new(2, 512);
    assert_eq!(rd.write_sector(2, &[1u8; 512]), Err(BlockError::OutOfBounds));
    assert_eq!(rd.write_sector(0, &[1u8; 100]), Err(BlockError::InvalidBufferSize));
    let mut buf = [5u8; 512];
    assert!(rd.read_sector(0, &mut buf).is_ok());
    assert_eq!(buf, [0u8; 512]);
    assert_eq!(rd.sector_size(), 512);
    assert_eq!(rd.total_sectors(), 2);
    assert_eq!(rd.name(), "ramdisk");
}

#[test]
fn registry_gives_first_free_id() {
    let mut registry: BlockDeviceRegistry<RamDisk> = BlockDeviceRegistry::new();
    assert_eq!(register_device(&mut registry, RamDisk::new(1, 512), &mut Vec::new()), Ok(0));
    assert_eq!(register_device(&mut registry, RamDisk::new(2, 512), &mut Vec::new()), Ok(1));
    assert_eq!(get_device(&registry, 1).map(|d| d.total_sectors()), Some(2));
    assert!(unregister_device(&mut registry, 0).is_some());
    assert!(get_device(&registry, 0).is_none());
    assert_eq!(register_device(&mut registry, RamDisk::new(3, 512), &mut Vec::new()), Ok(0));
    assert!(get_device(&registry, 16).is_none());
    assert!(unregister_device(&mut registry, 16).is_none());
}

#[test]
fn full_registry_refuses() {
    let mut registry: BlockDeviceRegistry<RamDisk> = BlockDeviceRegistry::new();
    for id in 0..16 {
        assert_eq!(register_device(&mut registry, RamDisk::new(1, 512), &mut Vec::new()), Ok(id));
    }
    assert_eq!(
        register_device(&mut registry, RamDisk::new(1, 512), &mut Vec::new()),
        Err(BlockError::TooManyDevices)
    );
}

#[test]
fn block_error_numbers() {
    assert_eq!(BlockError::InvalidBufferSize.to_errno(), -22);
    assert_eq!(BlockError::OutOfBounds.to_errno(), -22);
    assert_eq!(BlockError::DeviceNotReady.to_errno(), -19);
    assert_eq!(BlockError::IoError.to_errno(), -5);
    assert_eq!(BlockError::ReadOnly.to_errno(), -30);
    assert_eq!(BlockError::TooManyDevices.to_errno(), -24);
    assert_eq!(BlockError::DeviceAlreadyExists.to_errno(), -17);
    assert_eq!(BlockError::NoSuchDevice.to_errno(), -19);
    assert_eq!(BlockError::IoError.description(), "I/O error");
}

#[test]
fn disks_are_noted_on_the_console() {
    let mut registry = BlockDeviceRegistry::new();
    let mut out = Vec::new();
    let disk = RamDisk::new(8, 512);
    disk.note_created(&mut out);
    register_device(&mut registry, disk, &mut out).unwrap();
    assert_eq!(
        String::from_utf8(out).unwrap(),
        "[BLOCK] RamDisk created: sectors=0x0000000000000008 sector_size=0x0000000000000200 \
         total=0x0000000000001000\r\n\
         [BLOCK] Registered device id=0x0000000000000000 name=ramdisk\r\n"
    );
}
