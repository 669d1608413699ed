use indominus::acpi::madt::{parse_madt, InterruptOverride, MadtInfo};
use indominus::acpi::rsdp::{find_rsdp, scan_range, validate_rsdp};
use indominus::acpi::{
    acpi_state, init as acpi_init, is_search_mapped, madt_info, parse_rsdt, read_table, sums_to_zero,
};
use indominus::ahci::command::{
    build_fis, build_header, build_prdt, identify_device, issue_command, Command, CommandAccess,
    CommandRun, Outcome,
};
use indominus::ahci::hba::{HbaCmdHeader, PORT_IS_TFES};
use indominus::ahci::program::{enable_ahci, port_regs, reset_hba, stop_port, Access, Op, Runner};
use indominus::ahci::search::{disk_name, init as register_disk, Action, Answer, DiskSearch};
use indominus::ahci::{
    alloc_port_pages, device_detected, enable_bus_mastering, find_controller, init_port,
    port_count, AhciPort, DmaPages,
};
use indominus::block::ramdisk::RamDisk;
use indominus::block::registry::BlockDeviceRegistry;
use indominus::block::BlockError;
use indominus::cpu::{detect, enable_fpu, enable_smep_smap, print_features, Cpuid};
use indominus::interrupts::dispatch::{dispatch, is_hardware_irq, register, HandlerTable};
use indominus::interrupts::ioapic::{capabilities, mask_irq, set_irq, unmask_irq};
use indominus::interrupts::{gsi_table, init as interrupts_init, lapic, pit};
use indominus::kernel::{apic_addresses, rsdp_hint};
use indominus::memory::map::{MemoryMap, MemoryRegion, MemoryRegionKind, PhysAddr};
use indominus::memory::pmm;
use indominus::pci::{
    config_address, enumerate, pci_read_byte, pci_read_word, read_device, PciDevice, PciScan,
};

fn device(class: u8, subclass: u8, prog_if: u8, header_type: u8) -> PciDevice {
    let mut config = [0u32; 16];
    config[0] = 0x2922_8086;
    config[2] = (class as u32) << 24 | (subclass as u32) << 16 | (prog_if as u32) << 8 | 2;
    config[3] = (header_type as u32) << 16;
    config[4] = 0xC001;
    config[9] = 0xFEBF_1008;
    config[11] = 0x1100_1AF4;
    config[15] = 0x010B;
    read_device(0, 0, 0, &config).unwrap()
}

#[test]
fn pci_header_is_read() {
    let d = device(1, 6, 1, 0);
    assert_eq!((d.vendor_id, d.device_id), (0x8086, 0x2922));
    assert_eq!((d.class, d.subclass, d.prog_if, d.revision), (1, 6, 1, 2));
    assert_eq!((d.interrupt_line, d.interrupt_pin), (0x0B, 1));
    assert_eq!((d.subsystem_vendor_id, d.subsystem_id), (0x1AF4, 0x1100));
    assert_eq!(d.bar_address(0), 0xC000);
    assert_eq!(d.bar_type(0), "I/O");
    assert_eq!(d.bar_address(5), 0xFEBF_1000);
    assert_eq!(d.bar_type(5), "Memory");
    assert_eq!(d.bar_type(6), "Invalid");
    assert_eq!(d.bar_address(6), 0);
    assert_eq!(d.class_name(), "Mass Storage Controller");
    assert!(d.is_valid() && !d.is_multi_function());
    assert!(read_device(0, 0, 0, &[0xFFFF_FFFFu32; 16]).is_none());
}

#[test]
fn config_space_addresses() {
    assert_eq!(config_address(1, 2, 3, 0x3D), 0x8000_0000 | 1 << 16 | 2 << 11 | 3 << 8 | 0x3C);
    assert_eq!(pci_read_word(0x1234_5678, 2), 0x1234);
    assert_eq!(pci_read_byte(0x1234_5678, 1), 0x56);
}

#[test]
fn scan_finds_every_function() {
    let mut scan = PciScan::new();
    let mut asked = 0u32;
    while let Some((bus, dev, function)) = scan.position() {
        asked += 1;
        let found = match (bus, dev, function) {
            (0, 3, 0) => Some(device(1, 6, 1, 0x80)),
            (0, 3, 5) => Some(device(2, 0, 0, 0)),
            (255, 31, 0) => Some(device(6, 0, 0, 0)),
            _ => None,
        };
        scan.feed(found);
    }
    assert_eq!(asked, 256 * 32 + 7);
    let mut out = Vec::new();
    let devices = enumerate(&mut out, scan);
    let classes: Vec<u8> = devices.iter().map(|d| d.class).collect();
    assert_eq!(classes, vec![2, 1, 6]);
    assert_eq!(devices.len(), 3);
    let text = String::from_utf8(out).unwrap();
    assert!(text.starts_with("[PCI] Found 0x0000000000000003 devices\r\n"));
    assert!(text.contains("[Network Controller] vendor=0x0x0000000000008086"));
    assert_eq!(find_controller(&devices), Some(1));
    assert_eq!(find_controller(&devices[2..]), None);
}

fn sum_up(table: &mut [u8], at: usize) {
    table[at] = 0;
    let sum: u8 = table.iter().fold(0u8, |a, b| a.wrapping_add(*b));
    table[at] = 0u8.wrapping_sub(sum);
}

/// Physical memory with a root pointer at 0xE0000, a root table at 0x1000 and an
/// interrupt table at 0x2000.
fn tables() -> Vec<u8> {
    let mut m = vec![0u8; 0x10_0100];
    let mut madt = vec![0u8; 44 + 8 + 12 + 10];
    madt[0..4].copy_from_slice(b"MADT");
    let len = madt.len() as u32;
    madt[4..8].copy_from_slice(&len.to_le_bytes());
    madt[36..40].copy_from_slice(&0xFEE0_0000u32.to_le_bytes());
    madt[44..52].copy_from_slice(&[0, 8, 1, 7, 1, 0, 0, 0]);
    madt[52..54].copy_from_slice(&[1, 12]);
    madt[56..60].copy_from_slice(&0xFEC1_0000u32.to_le_bytes());
    madt[60..64].copy_from_slice(&24u32.to_le_bytes());
    madt[64..74].copy_from_slice(&[2, 10, 0, 0, 2, 0, 0, 0, 0, 0]);
    sum_up(&mut madt, 9);
    m[0x2000..0x2000 + madt.len()].copy_from_slice(&madt);
    let mut rsdt = vec![0u8; 40];
    rsdt[0..4].copy_from_slice(b"RSDT");
    rsdt[4..8].copy_from_slice(&40u32.to_le_bytes());
    rsdt[36..40].copy_from_slice(&0x2000u32.to_le_bytes());
    sum_up(&mut rsdt, 9);
    m[0x1000..0x1028].copy_from_slice(&rsdt);
    let mut rsdp = vec![0u8; 20];
    rsdp[0..8].copy_from_slice(b"RSD PTR ");
    rsdp[16..20].copy_from_slice(&0x1000u32.to_le_bytes());
    sum_up(&mut rsdp, 8);
    m[0xE_0000..0xE_0014].copy_from_slice(&rsdp);
    m
}

#[test]
fn acpi_tables_are_found() {
    let m = tables();
    assert!(validate_rsdp(&m, 0xE_0000));
    assert!(!validate_rsdp(&m, 0xE_0010));
    assert_eq!(find_rsdp(&m), Some(0xE_0000));
    assert_eq!(scan_range(&m, 0xE_0010, 0x10_0000), None);
    assert!(sums_to_zero(&m, 0x1000, 40));
    assert_eq!(parse_rsdt(&m, 0x1000), vec![0x2000]);
    let t = read_table(&m, 0x2000).unwrap();
    assert_eq!(t.header.signature_str(), "MADT");
    assert_eq!(t.header.oem_id_str(), "\0\0\0\0\0\0");
    let mut out = Vec::new();
    let state = acpi_init(&m, None, &mut out);
    let text = String::from_utf8(out).unwrap();
    assert!(text.starts_with(
        "[ACPI] Searching for RSDP...\n[ACPI] RSDP at 0x00000000000E0000\r\n\
         [ACPI] XSDT=0x0000000000000000 RSDT=0x0000000000001000\r\n\
         [ACPI] Found 0x0000000000000001 tables\n[ACPI]   MADT (rev=0x0000000000000000 len="
    ));
    assert!(text.contains("[ACPI]   LAPIC: id=0x0000000000000007 enabled=0x0000000000000001\r\n"));
    assert!(text.contains(" addr=0x00000000FEC10000 gsi_base=0x0000000000000018\r\n"));
    assert!(text.ends_with(
        "[ACPI] MADT: local_apic=0x00000000FEE00000 processors=0x0000000000000001\r\n"
    ));
    assert_eq!(acpi_state(&state).rsdp_phys, 0xE_0000);
    let info = madt_info(&state).unwrap();
    assert_eq!(info.local_apic_addr, 0xFEE0_0000);
    assert_eq!(info.io_apic_addr, 0xFEC1_0000);
    assert_eq!(info.io_apic_gsi_base, 24);
    assert_eq!(info.processors.len(), 1);
    assert_eq!(info.overrides.len(), 1);
    assert_eq!((info.overrides[0].source, info.overrides[0].global), (0, 2));
    let a = apic_addresses(Some(info));
    assert_eq!((a.local, a.io, a.gsi_base), (0xFEE0_0000, 0xFEC1_0000, 24));
}

#[test]
fn interrupt_records_are_read() {
    let mut madt = vec![0u8; 44 + 10 + 6 + 12];
    let len = madt.len() as u32;
    madt[4..8].copy_from_slice(&len.to_le_bytes());
    madt[44..54].copy_from_slice(&[2, 10, 0, 9, 20, 0, 0, 0, 0x0F, 0]);
    madt[54..60].copy_from_slice(&[4, 6, 0xFF, 5, 0, 1]);
    madt[60..62].copy_from_slice(&[5, 12]);
    madt[64..72].copy_from_slice(&0x1_2345_6000u64.to_le_bytes());
    let info = parse_madt(&madt, 0, &mut Vec::new());
    let o = info.overrides[0];
    assert_eq!((o.source, o.global, o.polarity, o.trigger), (9, 20, 3, 3));
    assert_eq!((info.nmis[0].processor, info.nmis[0].pin), (0xFF, 1));
    assert_eq!(info.local_apic_addr, 0x1_2345_6000);
}

#[test]
fn unmapped_acpi_tables_are_noticed() {
    let mut m = tables();
    assert!(is_search_mapped(&m, None));
    assert!(is_search_mapped(&m, Some(0)));
    assert!(is_search_mapped(&m, Some(0xE_0000)));
    assert!(!is_search_mapped(&m[..0x10_0000], None));
    assert!(is_search_mapped(&m[..0x10_0000], Some(0xE_0000)));
    assert!(!is_search_mapped(&m, Some(u64::MAX)));
    assert!(!is_search_mapped(&m, Some(0x10_0100 - 35)));
    m[0x1024..0x1028].copy_from_slice(&0x10_00F0u32.to_le_bytes());
    assert!(!is_search_mapped(&m, Some(0xE_0000)));
}

const PAGES: DmaPages = DmaPages {
    cmd_list: PhysAddr { addr: 0x1000 },
    rfis: PhysAddr { addr: 0x2000 },
    cmd_table: PhysAddr { addr: 0x3000 },
    dma_buf: PhysAddr { addr: 0x4000 },
};

#[test]
fn disk_search_starts_the_first_good_port() {
    let devices = vec![device(2, 0, 0, 0), device(1, 6, 1, 0)];
    let mut out = Vec::new();
    let mut s = DiskSearch::new(&mut out, &devices);
    assert_eq!(s.action(), Action::ReadCommand { index: 1 });
    s.answer(&mut out, Answer::Done);
    assert_eq!(s.action(), Action::ReadCommand { index: 1 });
    s.answer(&mut out, Answer::Value(1));
    assert_eq!(s.action(), Action::WriteCommand { index: 1, value: 7 });
    s.answer(&mut out, Answer::Done);
    assert_eq!(s.action(), Action::MapRegisters { abar: 0xFEBF_1000 });
    s.answer(&mut out, Answer::Done);
    assert_eq!(s.action(), Action::ReadRegister { reg: 0 });
    s.answer(&mut out, Answer::Value(3));
    assert_eq!(s.action(), Action::Reset);
    s.answer(&mut out, Answer::Ran { timed_out: false });
    assert_eq!(s.action(), Action::Enable);
    s.answer(&mut out, Answer::Ran { timed_out: false });
    assert_eq!(s.action(), Action::ReadRegister { reg: 0x128 });
    s.answer(&mut out, Answer::Value(0x110));
    assert_eq!(s.action(), Action::ReadRegister { reg: 0x1A8 });
    s.answer(&mut out, Answer::Value(0x113));
    assert_eq!(s.action(), Action::Stop { port: 1 });
    s.answer(&mut out, Answer::Ran { timed_out: true });
    assert_eq!(s.action(), Action::Allocate);
    s.answer(&mut out, Answer::Pages(Ok(PAGES)));
    assert_eq!(s.action(), Action::Clear { pages: PAGES });
    s.answer(&mut out, Answer::Done);
    assert_eq!(s.action(), Action::Start { port: 1, pages: PAGES });
    s.answer(&mut out, Answer::Ran { timed_out: false });
    assert_eq!(s.action(), Action::Identify { port: 1, pages: PAGES });
    s.answer(&mut out, Answer::Geometry { sector_size: 512, total_sectors: 0 });
    assert_eq!(s.action(), Action::ReadRegister { reg: 0x228 });
    s.answer(&mut out, Answer::Value(3));
    s.answer(&mut out, Answer::Done);
    s.answer(&mut out, Answer::Pages(Ok(PAGES)));
    s.answer(&mut out, Answer::Done);
    s.answer(&mut out, Answer::Done);
    s.answer(&mut out, Answer::Geometry { sector_size: 512, total_sectors: 2048 });
    let port = init_port(2, PAGES, 512, 2048).unwrap();
    assert_eq!(s.action(), Action::Finished { disk: Some(port) });
    s.answer(&mut out, Answer::Done);
    assert_eq!(s.action(), Action::Finished { disk: Some(port) });
    let text = String::from_utf8(out).unwrap();
    assert!(text.starts_with("[AHCI] Initializing...\r\n[AHCI] Searching for AHCI controller..."));
    assert!(text.contains("[AHCI] Port 0x0000000000000001 init failed: no sectors detected\r\n"));
    assert!(text.ends_with(" initialized OK\r\n"));
}

#[test]
fn disk_search_without_a_disk_ends() {
    let ended = Action::Finished { disk: None };
    let mut out = Vec::new();
    assert_eq!(DiskSearch::new(&mut out, &[]).action(), ended);
    let mut bare = device(1, 6, 1, 0);
    bare.bars[5] = 0;
    assert_eq!(DiskSearch::new(&mut out, &[bare]).action(), ended);
    let mut s = DiskSearch::new(&mut out, &[device(1, 6, 1, 0)]);
    s.answer(&mut out, Answer::Value(0));
    s.answer(&mut out, Answer::Done);
    s.answer(&mut out, Answer::Done);
    s.answer(&mut out, Answer::Value(0));
    assert_eq!(s.action(), Action::Reset);
    s.answer(&mut out, Answer::Ran { timed_out: true });
    assert_eq!(s.action(), ended);
    let mut s = DiskSearch::new(&mut out, &[device(1, 6, 1, 0)]);
    s.answer(&mut out, Answer::Value(0));
    s.answer(&mut out, Answer::Done);
    s.answer(&mut out, Answer::Done);
    s.answer(&mut out, Answer::Value(0));
    s.answer(&mut out, Answer::Ran { timed_out: false });
    s.answer(&mut out, Answer::Done);
    s.answer(&mut out, Answer::Value(3));
    s.answer(&mut out, Answer::Done);
    s.answer(&mut out, Answer::Pages(Err("alloc rfis")));
    assert_eq!(s.action(), ended);
    let text = String::from_utf8(out).unwrap();
    assert!(text.contains("[AHCI] No AHCI controller found\r\n"));
    assert!(text.contains("[AHCI] ERROR: ABAR is zero\r\n"));
    assert!(text.contains("[AHCI] HBA reset failed\r\n"));
    assert!(text.ends_with(" init failed: alloc rfis\r\n[AHCI] No SATA drives found\r\n"));
}

#[test]
fn found_disk_is_registered() {
    assert_eq!(disk_name(0), "ahci0");
    assert_eq!(disk_name(31), "ahci31");
    let mut registry = BlockDeviceRegistry::new();
    let mut out = Vec::new();
    for id in 0..16 {
        assert_eq!(register_disk(&mut out, &mut registry, Some(RamDisk::new(4, 512))), Some(Ok(id)));
    }
    out.clear();
    let full = register_disk(&mut out, &mut registry, Some(RamDisk::new(4, 512)));
    assert_eq!(full, Some(Err(BlockError::TooManyDevices)));
    assert_eq!(out, b"[AHCI] Register failed: device registry full\r\n");
    out.clear();
    assert_eq!(register_disk::<RamDisk>(&mut out, &mut registry, None), None);
    assert_eq!(out, b"[AHCI] No disks found\r\n");
}

#[test]
fn broken_acpi_tables_are_ignored() {
    let mut m = tables();
    m[0xE_0003] ^= 1;
    assert_eq!(find_rsdp(&m), None);
    let mut out = Vec::new();
    assert!(acpi_init(&m, None, &mut out).is_none());
    assert_eq!(out, b"[ACPI] Searching for RSDP...\n[ACPI] RSDP not found\n");
    assert!(madt_info(&None).is_none());
    assert_eq!(rsdp_hint(0), None);
    assert_eq!(rsdp_hint(5), Some(5));
}

#[test]
fn default_apic_addresses() {
    let a = apic_addresses(None);
    assert_eq!((a.local, a.io, a.gsi_base), (0xFEE0_0000, 0xFEC0_0000, 0));
    let info = MadtInfo {
        local_apic_addr: 1,
        io_apic_addr: 0,
        io_apic_gsi_base: 3,
        processors: vec![],
        overrides: vec![],
        nmis: vec![],
    };
    let a = apic_addresses(Some(&info));
    assert_eq!((a.local, a.io, a.gsi_base), (1, 0xFEC0_0000, 3));
}

#[test]
fn overrides_route_interrupts() {
    let o = InterruptOverride { bus: 0, source: 0, global: 2, polarity: 0, trigger: 0 };
    let table = gsi_table(&[o]);
    assert_eq!((table[0], table[1]), (2, 1));
    let (timer, keyboard, writes, _) = interrupts_init(&[o], 0);
    assert_eq!((timer.gsi, timer.entry), (2, 2));
    assert_eq!((keyboard.gsi, keyboard.entry), (1, 1));
    assert_eq!((writes[0].reg, writes[0].value), (0x14, 32));
    let (timer, _, _, _) = interrupts_init(&[], 0);
    assert_eq!(timer.entry, 0);
}

#[test]
fn redirection_entries() {
    let w = set_irq(1, 33, 2);
    assert_eq!((w[0].reg, w[0].value), (0x12, 33));
    assert_eq!((w[1].reg, w[1].value), (0x13, 2 << 24));
    let masked = mask_irq(1, 33);
    assert_eq!(masked.value, 0x1_0021);
    assert_eq!(unmask_irq(1, masked.value).value, 33);
    assert_eq!(capabilities(0x17_0020), (24, 0x20));
}

#[test]
fn local_apic_setup() {
    let w = lapic::init();
    assert_eq!(w[1].value, 0x127);
    assert_eq!(w[4].value, 746);
    assert_eq!(lapic::send_eoi().value, 0);
    assert_eq!(lapic::mask_lapic_timer(0x2_0020).value, 0x3_0020);
}

#[test]
fn timer_ticks() {
    assert_eq!(pit::divisor(), 11931);
    assert_eq!(pit::init()[0], (0x43, 0x34));
    let mut ticks = pit::Ticks { count: 7 };
    pit::on_tick(&mut ticks);
    assert_eq!(pit::tick_count(&ticks), 8);
    assert_eq!(pit::sleep_ms(&ticks, 50), 13);
}

#[test]
fn registered_handler_is_dispatched() {
    let mut t: HandlerTable<u32> = HandlerTable::new();
    register(&mut t, 1, 77);
    assert_eq!(dispatch(&t, 33), Some(77));
    assert_eq!(dispatch(&t, 34), None);
    assert_eq!(dispatch(&t, 48), None);
    assert!(is_hardware_irq(32) && is_hardware_irq(47) && !is_hardware_irq(31));
}

#[test]
fn cpu_features() {
    let id = Cpuid {
        max_leaf: 7,
        ebx: 0,
        ecx: 1,
        edx: 1 << 25 | 1 << 26,
        structured_ebx: 1 << 7 | 1 << 20,
        ext_edx: 1 << 20,
        power_edx: 0,
        address_eax: 40,
    };
    let f = detect(id);
    assert!(f.nx && f.smep && f.smap && f.sse && f.sse2 && f.sse3 && !f.avx);
    assert_eq!(f.maxphyaddr, 40);
    assert_eq!(enable_smep_smap(&f, 0x20), 0x30_0620);
    assert_eq!(enable_fpu(0x8000_0011) & 0xC, 0);
    let mut out = Vec::new();
    print_features(&mut out, &f);
    assert!(!out.is_empty());
}

#[test]
fn ahci_commands() {
    let fis = build_fis(Command::Read(0x0605_0403_0201));
    assert_eq!(fis[0..3], [0x27, 0x80, 0x25]);
    assert_eq!([fis[4], fis[5], fis[6], fis[8], fis[9], fis[10]], [1, 2, 3, 4, 5, 6]);
    assert_eq!(build_fis(Command::Write(0))[2], 0x35);
    assert_eq!(build_fis(Command::Identify)[2], 0xEC);
    let h = HbaCmdHeader { opts: 0xFFFF_FFFF, byte_count: 3, cmd_table_base_lo: 0, cmd_table_base_hi: 0 };
    let h = build_header(h, false, 0x1_2345_6000);
    assert_eq!(h.opts, 0x1_FFA5);
    assert_eq!((h.cmd_table_base_lo, h.cmd_table_base_hi), (0x2345_6000, 1));
    let e = build_prdt(0x9000, 512);
    assert_eq!((e.base_addr, e.byte_count), (0x9000, 0x8000_01FF));
}

fn run(mut value: impl FnMut(u32) -> u32, command: Command) -> (Outcome, Vec<(u32, u32)>) {
    let mut r = CommandRun::new(0, command);
    let mut writes = Vec::new();
    let mut last = 0;
    loop {
        match r.step(last) {
            CommandAccess::Read(reg) => last = value(reg),
            CommandAccess::Write(reg, v) => writes.push((reg, v)),
            CommandAccess::Finished(outcome) => return (outcome, writes),
        }
    }
}

#[test]
fn command_ends_in_every_case() {
    let (end, writes) = run(|_| 0, Command::Read(5));
    assert_eq!(end, Outcome::Complete);
    assert!(writes.contains(&(0x138, 1)));
    let (end, writes) = run(|reg| if reg == 0x120 { 0x80 } else { 0 }, Command::Read(5));
    assert_eq!(end, Outcome::NotReady);
    assert!(!writes.contains(&(0x138, 1)));
    let tfes = |reg| if reg == 0x138 { 1 } else if reg == 0x110 { PORT_IS_TFES } else { 0 };
    assert_eq!(run(tfes, Command::Write(5)).0, Outcome::Failed);
    assert_eq!(run(|reg| (reg == 0x138) as u32, Command::Identify).0, Outcome::TimedOut);
    assert_eq!(issue_command(Outcome::Complete), Ok(()));
    assert_eq!(issue_command(Outcome::NotReady), Err(BlockError::DeviceNotReady));
    assert_eq!(issue_command(Outcome::Failed), Err(BlockError::IoError));
    assert_eq!(issue_command(Outcome::TimedOut), Err(BlockError::IoError));
}

#[test]
fn register_programs_run() {
    let mut r = Runner::new(reset_hba());
    let mut ghc = 0u32;
    let mut last = 0;
    loop {
        match r.step(last) {
            Access::Read(_) => {
                last = ghc;
                ghc &= !1;
            }
            Access::Write(_, v) => ghc = v,
            Access::Again => {}
            Access::Finished => break,
        }
    }
    assert!(!r.timed_out);
    assert!(matches!(enable_ahci()[0], Op::SetBits { reg: 4, mask: 0x8000_0000 }));
    assert!(stop_port(1).len() > 1);
    assert_eq!(port_regs(2), 0x200);
}

#[test]
fn identify_data() {
    let mut words = [0u16; 256];
    words[83] = 1 << 10;
    words[100] = 0x5678;
    words[101] = 0x1234;
    let (size, total) = identify_device(Outcome::Complete, &words);
    assert_eq!((size, total), (512, 0x1234_5678));
    assert_eq!(identify_device(Outcome::Failed, &words).1, 0);
}

#[test]
fn ports_check_requests() {
    let page = PhysAddr::new(0x1000);
    let pages = DmaPages { cmd_list: page, rfis: page, cmd_table: page, dma_buf: page };
    let port: AhciPort = init_port(0, pages, 512, 100).unwrap();
    assert_eq!(port.check(99, 512), Ok(()));
    assert_eq!(port.check(100, 512), Err(BlockError::OutOfBounds));
    assert_eq!(port.check(0, 256), Err(BlockError::InvalidBufferSize));
    let idle = AhciPort { active: false, ..port };
    assert_eq!(idle.check(0, 512), Err(BlockError::DeviceNotReady));
    assert!(init_port(0, pages, 512, 0).is_err());
    assert_eq!(port_count(0x1F), 32);
    assert!(device_detected(0x113) && !device_detected(0x111));
    assert_eq!(enable_bus_mastering(0) & 6, 6);
    let region = MemoryRegion {
        start: PhysAddr::new(0x1000),
        length: 4 * 4096,
        kind: MemoryRegionKind::Usable,
    };
    let mut p = pmm::init(&MemoryMap { regions: vec![region] });
    let pages = alloc_port_pages(&mut p).unwrap();
    assert_ne!(pages.cmd_list, pages.dma_buf);
    assert!(alloc_port_pages(&mut p).is_err());
}
