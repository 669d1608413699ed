use indominus::elf::ElfError;
use indominus::kernel::{clean_test_processes, init_report, shell_report, test_program_report};
use indominus::keyboard::{
    handler, has_data, line_discipline_input, pop_byte, push_byte, read_line, wait_for_line,
    Keyboard, LineBuffer, RawBuffer,
};
use indominus::process::context_switch::{
    kill_process, plan_free, schedule, schedule_force, Decision, DeferredFree, Remains,
};
use indominus::process::init::reap_orphans;
use indominus::process::pipe::{alloc_pipe, free_pipe, PipeTable, PIPE_SIZE};
use indominus::process::process::{FdType, ProcessState, WakeReason};
use indominus::process::scheduler::Scheduler;
use indominus::process::spawn::spawn_user;
use indominus::process::wake::{keyboard_wake, pipe_close, release_process, send_signal_to_fg};
use indominus::selftest::programs::Started;
use indominus::selftest::report::Report;

/// Idle in slot 0 and `n` user processes behind it.
fn table(n: u64) -> Scheduler {
    let mut s = Scheduler::new();
    s.init();
    assert_eq!(s.spawn_idle(0x20_0000, Some(0x1_0000), 0x9000, 0x20_0000, &mut Vec::new()).map(|x| x.0), Some(0));
    for i in 1..=n {
        let r = s.spawn_user(0x40_0000 + i, 0x7000, 0x1000 * i, Some(0), Some(0x2_0000 * i), 0x1B, 0x23, &mut Vec::new());
        assert_eq!(r.map(|x| x.0), Some(i));
    }
    s
}

fn process_state(s: &Scheduler, pid: usize) -> ProcessState {
    s.processes()[pid].as_ref().unwrap().state
}

#[test]
fn first_frames() {
    let mut s = Scheduler::new();
    s.init();
    let (_, frame) = s.spawn_idle(0x20_0040, Some(0x1_0000), 0x9000, 0x20_0000, &mut Vec::new()).unwrap();
    assert_eq!(frame[15], 0xFFFF_FFFF_8000_0040);
    assert_eq!((frame[16], frame[17], frame[18], frame[19]), (0x08, 0x202, 0x1_2000, 0x10));
    let (_, frame) = s.spawn_user(0x40_0000, 0x7000, 0x5000, None, Some(0x2_0000), 0x1B, 0x23, &mut Vec::new()).unwrap();
    assert_eq!((frame[15], frame[16], frame[18], frame[19]), (0x40_0000, 0x1B, 0x7000, 0x23));
    let p = s.processes()[1].as_ref().unwrap();
    assert_eq!(p.stack_pointer, 0x2_2000 - 160);
    assert_eq!(p.fd_types[0..4], [FdType::Stdin, FdType::Stdout, FdType::Stderr, FdType::Closed]);
    assert!(s.spawn_user(1, 2, 3, None, None, 0x1B, 0x23, &mut Vec::new()).is_none());
}

#[test]
fn process_table_fills_up() {
    let mut s = table(31);
    assert!(s.spawn_user(1, 2, 3, None, Some(0), 0x1B, 0x23, &mut Vec::new()).is_none());
}

#[test]
fn round_robin_with_idle_last() {
    let mut s = table(2);
    assert_eq!(s.find_next_ready(0), Some(1));
    assert_eq!(s.find_next_ready(1), Some(2));
    assert_eq!(s.find_next_ready(2), Some(1));
    let none = table(0);
    assert_eq!(none.find_next_ready(0), Some(0));
}

#[test]
fn ticks_switch_after_the_quantum() {
    let mut s = table(2);
    let pipes = PipeTable::new();
    match schedule(&mut s, &pipes, 0x99, 1, false, 0x9000, &mut Vec::new()) {
        Decision::Resume { sp, load_cr3, deferred_cr3, rsp0, fpu_owner } => {
            assert_eq!(sp, 0x2_2000 - 160);
            assert_eq!((load_cr3, deferred_cr3), (None, Some(0x1000)));
            assert_eq!((rsp0, fpu_owner), (Some(0x2_2000), Some(1)));
        }
        Decision::Halt => panic!("halt"),
    }
    for now in 2..6 {
        assert!(matches!(
            schedule(&mut s, &pipes, 0x55, now, false, 0x1000, &mut Vec::new()),
            Decision::Resume { sp: 0x55, load_cr3: None, .. }
        ));
        assert_eq!(s.current_pid(), Some(1));
    }
    assert!(matches!(
        schedule(&mut s, &pipes, 0x56, 6, false, 0x1000, &mut Vec::new()),
        Decision::Resume { load_cr3: Some(0x2000), fpu_owner: Some(2), .. }
    ));
    assert_eq!(process_state(&s, 1), ProcessState::Ready);
    assert_eq!(process_state(&s, 2), ProcessState::Running);
    assert_eq!(s.processes()[1].as_ref().unwrap().stack_pointer, 0x56);
}

#[test]
fn forced_switch_does_not_wait() {
    let mut s = table(2);
    let pipes = PipeTable::new();
    schedule(&mut s, &pipes, 0, 1, false, 0x9000, &mut Vec::new());
    let mut deferred = DeferredFree::new();
    schedule_force(&mut s, &mut deferred, 0x77, 0x1000, &mut Vec::new());
    assert_eq!(s.current_pid(), Some(2));
    assert_eq!(deferred.slots.len(), 0);
}

#[test]
fn sleepers_wake_in_time() {
    let mut s = table(1);
    let pipes = PipeTable::new();
    {
        let p = s.processes_mut()[1].as_mut().unwrap();
        p.state = ProcessState::Blocked;
        p.wake_reason = WakeReason::Sleep { deadline: 10 };
    }
    schedule(&mut s, &pipes, 0, 1, false, 0x9000, &mut Vec::new());
    assert_eq!(s.current_pid(), Some(0));
    schedule(&mut s, &pipes, 0, 9, false, 0x9000, &mut Vec::new());
    assert_eq!(process_state(&s, 1), ProcessState::Blocked);
    schedule(&mut s, &pipes, 0, 10, false, 0x9000, &mut Vec::new());
    assert_ne!(process_state(&s, 1), ProcessState::Blocked);
}

#[test]
fn killed_process_becomes_a_zombie() {
    let mut s = table(2);
    let pipes = PipeTable::new();
    schedule(&mut s, &pipes, 0, 1, false, 0x9000, &mut Vec::new());
    s.processes_mut()[2].as_mut().unwrap().parent_pid = Some(1);
    let mut deferred = DeferredFree::new();
    kill_process(&mut s, &mut deferred, 0x1000, &mut Vec::new());
    assert_eq!(process_state(&s, 1), ProcessState::Zombie);
    assert_eq!(s.current_pid(), Some(2));
    assert_eq!(s.processes()[2].as_ref().unwrap().parent_pid, Some(1));
}

#[test]
fn deferred_resources_are_given_up_later() {
    let mut d = DeferredFree::new();
    assert!(d.defer_free(0x1_0000, 0x5000, true));
    for _ in 1..8 {
        assert!(d.defer_free(1, 2, false));
    }
    assert!(!d.defer_free(1, 2, false));
    let all = d.drain_deferred_free();
    assert_eq!(all.len(), 8);
    assert_eq!(all[0], Remains { kernel_stack: 0x1_0000, pml4: 0x5000, is_user: true });
    assert_eq!(d.drain_deferred_free().len(), 0);
    let plan = plan_free(all[0], 0x5000, 0x9000);
    assert_eq!((plan.free_space, plan.free_stack), (Some(0x5000), Some(0x1_0000)));
}

#[test]
fn init_reaps_orphans() {
    let mut s = table(3);
    for pid in [2, 3] {
        let p = s.processes_mut()[pid].as_mut().unwrap();
        p.state = ProcessState::Zombie;
        p.parent_pid = Some(if pid == 2 { 1 } else { 0 });
    }
    let mut out = Vec::new();
    let reaped = reap_orphans(&mut s, &mut out);
    assert_eq!(out, b"[SCHED] Reaped PID=2\r\n");
    assert_eq!(reaped.len(), 1);
    assert_eq!(reaped[0].pid, 2);
    assert!(s.processes()[2].is_none() && s.processes()[3].is_some());
}

#[test]
fn pipes_come_and_go() {
    let mut pipes = PipeTable::new();
    assert_eq!(alloc_pipe(&mut pipes), Some(0));
    for i in 1..16 {
        assert_eq!(alloc_pipe(&mut pipes), Some(i));
    }
    assert_eq!(alloc_pipe(&mut pipes), None);
    free_pipe(&mut pipes, 3);
    assert_eq!(alloc_pipe(&mut pipes), Some(3));
    let p = pipes.slots[0].as_ref().unwrap();
    assert!(!p.can_read() && p.can_write());
}

#[test]
fn closed_pipe_wakes_its_reader() {
    let mut s = table(1);
    let mut pipes = PipeTable::new();
    alloc_pipe(&mut pipes);
    {
        let p = s.processes_mut()[1].as_mut().unwrap();
        p.state = ProcessState::Blocked;
        p.wake_reason = WakeReason::PipeRead { pipe_idx: 0 };
    }
    keyboard_wake(&mut s, &pipes);
    assert_eq!(process_state(&s, 1), ProcessState::Blocked);
    pipe_close(&mut s, &mut pipes, 0, true);
    assert_eq!(process_state(&s, 1), ProcessState::Ready);
}

#[test]
fn closed_pipe_wakes_its_writer() {
    let mut s = table(1);
    let mut pipes = PipeTable::new();
    alloc_pipe(&mut pipes);
    pipes.slots[0].as_mut().unwrap().nwrite = PIPE_SIZE as u32;
    assert!(!pipes.slots[0].as_ref().unwrap().can_write());
    {
        let p = s.processes_mut()[1].as_mut().unwrap();
        p.state = ProcessState::Blocked;
        p.wake_reason = WakeReason::PipeWrite { pipe_idx: 0 };
    }
    keyboard_wake(&mut s, &pipes);
    assert_eq!(process_state(&s, 1), ProcessState::Blocked);
    pipe_close(&mut s, &mut pipes, 0, false);
    assert_eq!(process_state(&s, 1), ProcessState::Ready);
}

#[test]
fn quantum_is_five_ticks() {
    let mut s = table(2);
    let pipes = PipeTable::new();
    schedule(&mut s, &pipes, 0, 1, false, 0x9000, &mut Vec::new());
    assert_eq!(s.current_pid(), Some(1));
    for now in 2..6 {
        s.on_tick(now);
        assert_eq!(s.current_pid(), Some(1));
    }
    s.on_tick(6);
    assert_eq!(s.current_pid(), Some(2));
}

#[test]
fn control_bytes_are_ignored() {
    let mut s = table(1);
    let pipes = PipeTable::new();
    let mut line = LineBuffer::new();
    let mut out = Vec::new();
    for b in [b'a', 0x01, 0x1B, 0x80, 0xFF, b'b', b'\n'] {
        line_discipline_input(&mut line, b, &mut out, &mut s, &pipes);
    }
    assert_eq!(out.iter().filter(|b| **b == b'a' || **b == b'b').count(), 2);
    assert!(!out.contains(&0x01) && !out.contains(&0x1B) && !out.contains(&0x80));
    let mut buf = [0u8; 16];
    let n = read_line(&mut line, &mut buf).unwrap();
    assert_eq!(&buf[..n], b"ab");
}

#[test]
fn signals_reach_the_foreground() {
    let mut s = table(2);
    let pipes = PipeTable::new();
    schedule(&mut s, &pipes, 0, 1, false, 0x9000, &mut Vec::new());
    send_signal_to_fg(&mut s, &pipes, 2);
    assert_eq!(process_state(&s, 1), ProcessState::Zombie);
    assert!(s.processes()[1].as_ref().unwrap().terminated_by_signal);
    assert_eq!(process_state(&s, 2), ProcessState::Ready);
}

#[test]
fn released_process_gives_its_memory() {
    let mut s = table(1);
    let mut pipes = PipeTable::new();
    let p = *s.processes()[1].as_ref().unwrap();
    let (space, stack) = release_process(&mut s, &mut pipes, p);
    assert_eq!((stack, space), (Some(0x2_0000), Some(0x1000)));
}

#[test]
fn table_dump_names_processes() {
    let s = table(1);
    let mut out = Vec::new();
    s.dump_table(&mut out);
    let text = String::from_utf8(out).unwrap();
    assert!(text.contains("[SCHED] PID=1 state=Ready"));
    assert!(text.contains("active=2/32"));
}

#[test]
fn program_is_spawned_and_reported() {
    let mut s = table(0);
    let mut out = Vec::new();
    let r = spawn_user(&mut s, &mut out, Ok(0x40_0000), 0x7000_0000, 0x3000, Some(0), Some(0x5_0000), 0x1B, 0x23);
    assert_eq!(r.map(|x| x.0), Some(1));
    assert_eq!(s.processes()[1].as_ref().unwrap().user_rsp, Some(0x6FFF_FFF8));
    assert!(String::from_utf8(out).unwrap().contains("stack_guard=0x000000006FFFB000"));
    let mut out = Vec::new();
    let r = spawn_user(&mut s, &mut out, Err(ElfError::BadMagic), 0x7000_0000, 0x3000, None, None, 0x1B, 0x23);
    assert!(r.is_none());
    assert!(out.starts_with(b"[PROC] ELF load failed: "));
}

#[test]
fn test_processes_are_removed() {
    let mut s = table(2);
    let mut r = Report::new();
    clean_test_processes(&mut r, &mut s);
    assert!(s.processes()[0].is_some());
    assert!(s.processes()[1..].iter().all(|p| p.is_none()));
    assert_eq!(
        r.text,
        b"[KERNEL] Cleaning test PID=0x0000000000000001\r\n[KERNEL] Cleaning test PID=0x0000000000000002\r\n"
    );
}

#[test]
fn shell_falls_back() {
    let mut r = Report::new();
    let found = Ok(Started { size: 16, pid: Some(4) });
    assert!(!shell_report(&mut r, &found, &Err(2)));
    assert_eq!(
        r.text,
        b"[KERNEL] Shell binary found: 0x0000000000000010 bytes\r\n[KERNEL] Shell spawned as PID=0x0000000000000004\r\n"
    );
    let mut r = Report::new();
    assert!(shell_report(&mut r, &Err(2), &found));
    assert!(String::from_utf8(r.text).unwrap().contains("Found /indosh (flat)"));
    let mut r = Report::new();
    assert!(shell_report(&mut r, &Err(2), &Err(3)));
    assert!(r.text.ends_with(b"Falling back to test binaries\r\n"));
    let mut r = Report::new();
    init_report(&mut r, &Ok(Started { size: 1, pid: None }));
    assert!(r.text.ends_with(b"FAILED to spawn init (no slot)\r\n"));
    let mut r = Report::new();
    test_program_report(&mut r, 0, 5, None);
    assert!(r.text.ends_with(b"  -> FAILED (no slot)\n"));
}

#[test]
fn raw_buffer_is_a_queue() {
    let mut raw = RawBuffer::new();
    assert!(!has_data(&raw));
    push_byte(&mut raw, 1);
    push_byte(&mut raw, 2);
    assert_eq!((pop_byte(&mut raw), pop_byte(&mut raw), pop_byte(&mut raw)), (Some(1), Some(2), None));
    for i in 0..300u32 {
        push_byte(&mut raw, i as u8);
    }
    let mut n = 0;
    while pop_byte(&mut raw).is_some() {
        n += 1;
    }
    assert_eq!(n, 256);
}

#[test]
fn lines_are_edited_and_wake_readers() {
    let mut s = table(1);
    let pipes = PipeTable::new();
    schedule(&mut s, &pipes, 0, 1, false, 0x9000, &mut Vec::new());
    wait_for_line(&mut s);
    assert_eq!(process_state(&s, 1), ProcessState::Blocked);
    let mut line = LineBuffer::new();
    let mut out = Vec::new();
    let mut buf = [0u8; 16];
    for b in b"ab\x08c" {
        line_discipline_input(&mut line, *b, &mut out, &mut s, &pipes);
    }
    assert_eq!(process_state(&s, 1), ProcessState::Blocked);
    assert_eq!(read_line(&mut line, &mut buf), None);
    line_discipline_input(&mut line, b'\n', &mut out, &mut s, &pipes);
    assert_eq!(process_state(&s, 1), ProcessState::Ready);
    let n = read_line(&mut line, &mut buf).unwrap();
    assert_eq!(&buf[..n], b"ac");
}

#[test]
fn scancodes_become_characters() {
    let mut k = Keyboard::new();
    assert_eq!(k.translate(0x1E), Some(b'a'));
    k.translate(0x2A);
    assert!(k.shift);
    assert_eq!(k.translate(0x1E), Some(b'A'));
    k.translate(0xAA);
    assert!(!k.shift);
    assert_eq!(k.translate(0x9E), None);
    let mut s = table(0);
    let pipes = PipeTable::new();
    let mut out = Vec::new();
    handler(&mut k, 0x30, &mut out, &mut s, &pipes);
    assert_eq!(out, b"b");
}

#[test]
fn children_belong_to_a_generation() {
    let mut s = table(2);
    let pipes = PipeTable::new();
    schedule(&mut s, &pipes, 0, 1, false, 0x9000, &mut Vec::new());
    assert_eq!(s.current_pid(), Some(1));
    let generation = s.get_generation(1);
    assert_eq!(s.get_generation(32), 0);
    {
        let p = s.processes_mut()[2].as_mut().unwrap();
        p.parent_pid = Some(1);
        p.parent_generation = generation;
    }
    assert!(s.is_child_of(2, 1, generation));
    assert!(!s.is_child_of(2, 1, generation + 1));
    assert!(!s.is_child_of(2, 0, generation));
    assert!(!s.is_child_of(9, 1, generation));
    assert!(!s.is_child_of(40, 1, generation));
    assert_eq!(s.find_any_zombie_child(), None);
    {
        let p = s.processes_mut()[2].as_mut().unwrap();
        p.state = ProcessState::Zombie;
        p.exit_code = 5;
    }
    assert_eq!(s.find_any_zombie_child(), Some((2, 1, 5)));
    s.processes_mut()[2].as_mut().unwrap().parent_generation = generation + 1;
    assert_eq!(s.find_any_zombie_child(), None);
}

#[test]
fn spawned_processes_are_noted() {
    let mut s = Scheduler::new();
    s.init();
    let mut out = Vec::new();
    s.spawn_idle(0x20_0040, Some(0x1_0000), 0x9000, 0x20_0000, &mut out).unwrap();
    s.spawn_kernel(0x20_0040, Some(0x1_0000), 0x9000, 0x20_0000, &mut out).unwrap();
    s.spawn_user(0x40_0000, 0x7000, 0x5000, Some(1), Some(0x2_0000), 0x1B, 0x23, &mut out).unwrap();
    s.reparent_orphans_to_init(1, &mut out);
    let frame = "[PROC] stack frame: entry_phys=0x0000000000200040 virt=0xFFFFFFFF80000040 \
                 sp=0x0000000000011F60\r\n";
    let text = format!(
        "{}[SCHED] Idle process at PID 0\n{}[SCHED] Spawned kernel process PID=1\r\n\
         [SCHED] Spawned user process 2\r\n[SCHED] Re-parented PID 2 to init (PID 1)\r\n",
        frame, frame
    );
    assert_eq!(String::from_utf8(out).unwrap(), text);
}

#[test]
fn switch_without_a_stack_is_noted() {
    let mut s = table(1);
    let pipes = PipeTable::new();
    schedule(&mut s, &pipes, 0, 1, false, 0x9000, &mut Vec::new());
    let mut out = Vec::new();
    schedule(&mut s, &pipes, 0, 2, false, 0x1000, &mut out);
    let text = String::from_utf8(out).unwrap();
    assert!(text.starts_with("[SCHED] FATAL: new_sp=0 in schedule() for PID=1\r\n[SCHED] === "));
    assert!(!text.contains("HALT"));
    s.processes_mut()[0].as_mut().unwrap().stack_pointer = 0;
    let mut out = Vec::new();
    let mut deferred = DeferredFree::new();
    s.processes_mut()[1].as_mut().unwrap().state = ProcessState::Blocked;
    let d = schedule_force(&mut s, &mut deferred, 0, 0x1000, &mut out);
    assert_eq!(d, Decision::Halt);
    let text = String::from_utf8(out).unwrap();
    assert!(text.starts_with("[SCHED] FATAL: new_sp=0 in force_switch\n"));
    assert!(text.ends_with("[SCHED] HALT: no idle SP available in force_switch\n"));
}

#[test]
fn full_queue_of_remains_halts() {
    let mut s = table(1);
    let pipes = PipeTable::new();
    schedule(&mut s, &pipes, 0, 1, false, 0x9000, &mut Vec::new());
    let mut deferred = DeferredFree::new();
    while deferred.defer_free(1, 2, true) {}
    let mut out = Vec::new();
    assert_eq!(kill_process(&mut s, &mut deferred, 0x1000, &mut out), Decision::Halt);
    let text = String::from_utf8(out).unwrap();
    assert!(text.ends_with("  kstack=0x0x0000000000020000 pml4=0x0x0000000000001000\r\n"));
}
