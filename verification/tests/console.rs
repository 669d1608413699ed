use indominus::bytes;
use indominus::debug::paging_audit::{audit_stack_mapping, run_paging_audit, AuditInput};
use indominus::gdt;
use indominus::idt;
use indominus::process::trace;
use indominus::serial;

fn text(f: impl FnOnce(&mut Vec<u8>)) -> String {
    let mut out = Vec::new();
    f(&mut out);
    String::from_utf8(out).unwrap()
}

#[test]
fn numbers_are_written() {
    assert_eq!(text(|o| serial::write_hex(o, 0xDEAD_BEEF)), "0x00000000DEADBEEF");
    assert_eq!(text(|o| serial::write_u64(o, 0)), "0");
    assert_eq!(text(|o| serial::write_u64(o, 18_446_744_073_709_551_615)), "18446744073709551615");
    assert_eq!(text(|o| serial::write_str_nl(o, "x → y")), "x → y\r\n");
    assert_eq!(text(|o| serial::write_byte(o, b'z')), "z");
}

#[test]
fn debug_markers_only_while_debugging() {
    assert_eq!(text(|o| serial::ddbg(o, false, b'A')), "");
    assert!(text(|o| serial::ddbg(o, true, b'A')).contains('A'));
    assert_eq!(text(|o| serial::dump_rax(o, false, b'B', 7)), "");
    let dump = text(|o| serial::dump_rax(o, true, b'B', 7));
    assert_eq!(dump, "[B RAX=0x0x0000000000000007]\n");
    assert_eq!(text(|o| serial::write_marker_raw(o, false, b"mark")), "");
    assert_eq!(text(|o| serial::write_marker_raw(o, true, b"mark")), "mark");
    assert_eq!(serial::init().len(), 7);
}

#[test]
fn little_endian_numbers() {
    let d = [1u8, 2, 3, 4, 5, 6, 7, 8];
    assert_eq!(bytes::read_u16(&d, 1), 0x0302);
    assert_eq!(bytes::read_u32(&d, 2), 0x0605_0403);
    assert_eq!(bytes::read_u64(&d, 0), 0x0807_0605_0403_0201);
    let mut v = vec![0u8; 10];
    bytes::write_u64(&mut v, 1, 0x0807_0605_0403_0201);
    assert_eq!(v, vec![0, 1, 2, 3, 4, 5, 6, 7, 8, 0]);
}

#[test]
fn segments_and_selectors() {
    let (table, s) = gdt::init(0x0000_8900_0000_0067, 0);
    assert_eq!((s.kernel_code, s.kernel_data), (0x08, 0x10));
    assert_eq!((s.user_code, s.user_data), (0x1B, 0x23));
    assert_eq!(s.tss, 0x28);
    assert_eq!(gdt::kernel_code_selector(&s), 0x08);
    assert_eq!(gdt::user_code_selector(&s), 0x1B);
    assert_eq!(gdt::user_data_selector(&s), 0x23);
    let raw: Vec<u64> = table.entries().iter().map(|e| e.raw()).collect();
    assert_eq!(raw[1], 0x00AF_9B00_0000_FFFF);
    assert_eq!(raw[2], 0x00CF_9300_0000_FFFF);
    assert_eq!(raw[3], 0x00AF_FB00_0000_FFFF);
    assert_eq!(raw[4], 0x00CF_F300_0000_FFFF);
    assert_eq!(raw[5], 0x0000_8900_0000_0067);
    assert_eq!(raw.len(), 7);
}

#[test]
fn patched_segment_has_its_base() {
    // Busy, at another address.
    let (table, _) = gdt::init(0x1200_8B34_5678_0067, 7);
    let base = 0xFFFF_FFFF_8012_3456;
    let (low, high) = gdt::switch_gdt_to_virtual(&table, base);
    assert_eq!(gdt::tss_base(low, high), base);
    assert_eq!(low & 0x0000_FF00_0000_FFFF, 0x0000_8900_0000_0067);
    assert_eq!(gdt::double_fault_stack_top(0x20_1000, 0x20_0000), 0xFFFF_FFFF_8000_5000);
}

#[test]
fn faults_are_classified() {
    let mut out = Vec::new();
    assert_eq!(idt::gp_classify(&mut out, 0, 0x40_0000, 0x1B), 1);
    assert!(out.ends_with(b"USER FAULT: killing process\n"));
    let mut out = Vec::new();
    assert_eq!(idt::gp_classify(&mut out, 0, 1, 0x08), 0);
    let mut out = Vec::new();
    assert_eq!(idt::page_fault_classify(&mut out, 4, 0x1234, 0x40_0000, 0x1B), 1);
    let mut out = Vec::new();
    assert_eq!(idt::page_fault_classify(&mut out, 0, 0x1234, 0x40_0000, 0x08), 0);
    assert_eq!(
        text(|o| idt::breakpoint_handler(o, 1)),
        "[EXCEPTION] Breakpoint at 0x0x0000000000000001\r\n"
    );
}

#[test]
fn double_fault_report() {
    let frame = idt::FaultFrame { rip: 1, cs: 8, rflags: 2, rsp: 3, ss: 0x10 };
    let f = idt::DoubleFault { frame, error_code: 0, cr2: 0xABC, cr3: 0x1000, cs: 8, ss: 0x10 };
    let plain = text(|o| idt::double_fault_handler(o, f, None));
    assert!(plain.contains("0x0000000000000ABC"));
    let (_, selectors) = gdt::init(0, 0);
    let trace = idt::SwitchTrace {
        saved_rsp: 1,
        rsp_after_load: 2,
        rsp_before: 3,
        expected: 4,
        cs_in_frame: 8,
        rip_in_frame: 0x77,
        words: [0; 20],
        selectors,
    };
    assert!(text(|o| idt::double_fault_handler(o, f, Some(&trace))).len() > plain.len());
}

#[test]
fn switch_traces() {
    let f = trace::IretFrame { rip: 0x40_0000, cs: 0x1B, rflags: 0x202, rsp: 0x7000, ss: 0x23 };
    let line = text(|o| trace::dump_iret_before_iretq(o, f));
    assert!(line.contains("CS=0x0x000000000000001B(RPL=3)"));
    let d = trace::RawDescriptor { low: 0xFFFF, high: 0x00AF_FB00 };
    let line = text(|o| trace::dump_gdt(o, 0x1B, d));
    assert!(line.contains("DPL=0x0000000000000003 T=0x0x000000000000000B P=0x0000000000000001"));
    assert_eq!(text(|o| trace::dump_gdt_entry_info(o, 128, d)), " OUT_OF_BOUNDS");
    assert_eq!(trace::selector_index(0x1B), 3);
    let frame = text(|o| trace::dump_frame_before_pop(o, 0x1000, 0x77, 8, 0x202));
    assert!(frame.contains("[FRAME] RIP slot addr  = 0x0000000000001078\r\n"));
    assert!(frame.contains("[FRAME] Expected RSP & 0xFFF = 0x0000000000000090\r\n"));
    let all = trace::Descriptors {
        base: 0x5000,
        kernel_code: d,
        kernel_data: d,
        task_state: d,
        frame_code: d,
        frame_stack: d,
    };
    let t = text(|o| trace::print_iret_cpl_diagnostics(o, 0x1000, 8, f, all));
    assert!(t.contains("[CS] sel=0x0x000000000000001B idx=0x0000000000000003 DPL="));
    assert!(t.ends_with("── END ──\n"));
}

#[test]
fn audit_names_what_is_not_mapped() {
    let good = text(|o| audit_stack_mapping(o, 0x1000, Some(0x1000)));
    let bad = text(|o| audit_stack_mapping(o, 0x1000, None));
    assert_ne!(good, bad);
    let input = AuditInput {
        cr3: 0x1000,
        pcd: false,
        pwt: false,
        pml4: vec![0; 512],
        kernel_main_phys: 0x20_0100,
        kernel_phys_start: 0x20_0000,
        kernel_main: None,
        path: [0; 4],
        samples: [None; 4],
        rsp: 0x9000,
        stack: None,
    };
    assert!(text(|o| run_paging_audit(o, &input)).len() > good.len());
}
