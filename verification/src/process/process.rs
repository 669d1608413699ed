//! The process structure and the first stack frame of a process.
use vstd::prelude::*;

use crate::memory;
use crate::serial;

verus! {

/// Maximum number of concurrent processes.
pub const MAX_PROCESSES: usize = 32;

/// Size of each process's kernel stack.
pub const KERNEL_STACK_SIZE: u64 = 8192;

/// Maximum number of file descriptors per process.
pub const MAX_FDS: usize = 8;

/// Process identifier: the slot in the process table.
pub type Pid = u64;

/// File descriptor types.
#[derive(Debug, Clone, Copy, PartialEq, Eq, Structural)]
pub enum FdType {
    /// Not open.
    Closed,
    /// Stdin (keyboard input).
    Stdin,
    /// Stdout (serial output).
    Stdout,
    /// Stderr (serial output).
    Stderr,
    /// Null device (discards writes, returns EOF on read).
    Null,
    /// TTY (console input/output).
    Tty,
    /// Pipe endpoint: write end or read end.
    Pipe { pipe_idx: u8, writable: bool },
    /// File, by its index among the open files of the process.
    FsFile { index: u8 },
}

/// Reason a process is blocked.
#[derive(Debug, Clone, Copy, PartialEq, Eq, Structural)]
pub enum WakeReason {
    /// Not blocked, or stopped by a signal.
    NotWaiting,
    /// Sleeping: wake when the tick count reaches the deadline.
    Sleep { deadline: u64 },
    /// Waiting for keyboard input.
    Keyboard,
    /// Waiting for pipe data (read end).
    PipeRead { pipe_idx: u8 },
    /// Waiting for pipe space (write end).
    PipeWrite { pipe_idx: u8 },
    /// Waiting for a child to exit.
    WaitForChild { child_pid: u64 },
}

/// Process states.
#[derive(Debug, Clone, Copy, PartialEq, Eq, Structural)]
pub enum ProcessState {
    Ready,
    Running,
    Blocked,
    Zombie,
}

/// A kernel-mode or user-mode process.
#[derive(Debug, Clone, Copy)]
pub struct Process {
    pub pid: Pid,
    pub state: ProcessState,
    /// Points to saved registers on the kernel stack.
    pub stack_pointer: u64,
    /// Base of the kernel stack; 0 once it is given back.
    pub kernel_stack_base: u64,
    /// Page table of the process; 0 once it is given back.
    pub pml4_phys: u64,
    /// The page table that was active when the process was last preempted, or 0.
    pub saved_cr3: u64,
    pub user_rip: Option<u64>,
    pub user_rsp: Option<u64>,
    pub exit_code: u64,
    pub is_user: bool,
    pub parent_pid: Option<Pid>,
    /// Generation of the parent at spawn time.
    pub parent_generation: u32,
    /// How often the slot has been used. Keeps a new process from reaping the orphans
    /// of an earlier process in the same slot.
    pub generation: u32,
    pub wake_reason: WakeReason,
    pub fd_types: [FdType; 8],
    /// Process group; a process starts in a group of its own.
    pub pgid: u64,
    pub terminated_by_signal: bool,
    pub stop_signal: u8,
}

/// Whether the top of the kernel stack of a process has an address.
pub open spec fn stack_fits(p: Process) -> bool {
    p.kernel_stack_base + KERNEL_STACK_SIZE <= u64::MAX
}

/// Saved registers: fifteen general registers, all zero, then what `iretq` pops.
pub open spec fn first_frame(rip: u64, cs: u64, rsp: u64, ss: u64) -> Seq<u64> {
    Seq::new(
        20,
        |i: int|
            if i == 15 {
                rip
            } else if i == 16 {
                cs
            } else if i == 17 {
                0x202u64
            } else if i == 18 {
                rsp
            } else if i == 19 {
                ss
            } else {
                0u64
            },
    )
}

/// The address of the frame of twenty quadwords at the top of a stack.
pub open spec fn frame_address(stack_top: u64) -> u64 {
    (stack_top - 160) as u64
}

fn build_frame(rip: u64, cs: u64, rsp: u64, ss: u64) -> (r: [u64; 20])
    ensures
        r@ == first_frame(rip, cs, rsp, ss),
{
    let mut frame: [u64; 20] = [0u64; 20];
    frame[15] = rip;
    frame[16] = cs;
    frame[17] = 0x202;
    frame[18] = rsp;
    frame[19] = ss;
    assert(frame@ =~= first_frame(rip, cs, rsp, ss));
    frame
}

/// The console once the first frame of a kernel-mode process has been set up.
pub open spec fn with_frame_text(out: Seq<u8>, entry_phys: u64, entry_virt: u64, sp: u64) -> Seq<u8> {
    out + serial::text("[PROC] stack frame: entry_phys="@) + serial::hex_text(entry_phys)
        + serial::text(" virt="@) + serial::hex_text(entry_virt) + serial::text(" sp="@)
        + serial::hex_text(sp) + serial::line_end()
}

/// The first stack frame of a kernel-mode process (Ring 0): where it lies and what it
/// holds. When the context switch restores it, the process starts at `entry_point` with
/// interrupts enabled. It is noted on the console.
pub fn setup_initial_stack_frame_kernel(
    stack_top: u64,
    entry_point: u64,
    kernel_phys_start: u64,
    out: &mut Vec<u8>,
) -> (r: (u64, [u64; 20]))
    requires
        stack_top >= 160,
    ensures
        r.0 == frame_address(stack_top),
        r.1@ == first_frame(
            memory::kernel_virt(entry_point, kernel_phys_start),
            0x08,
            stack_top,
            0x10,
        ),
        final(out)@ == with_frame_text(
            old(out)@,
            entry_point,
            memory::kernel_virt(entry_point, kernel_phys_start),
            frame_address(stack_top),
        ),
{
    let entry_virt: u64 = memory::phys_to_kernel_virt(entry_point, kernel_phys_start);
    serial::write_str(out, "[PROC] stack frame: entry_phys=");
    serial::write_hex(out, entry_point);
    serial::write_str(out, " virt=");
    serial::write_hex(out, entry_virt);
    serial::write_str(out, " sp=");
    serial::write_hex(out, stack_top - 160);
    serial::write_nl(out);
    (stack_top - 160, build_frame(entry_virt, 0x08, stack_top, 0x10))
}

/// The first stack frame of a user-mode process (Ring 3). `user_cs` and `user_ss` are the
/// user code and data selectors.
pub fn setup_initial_stack_frame_user(
    stack_top: u64,
    user_rip: u64,
    user_rsp: u64,
    user_cs: u16,
    user_ss: u16,
) -> (r: (u64, [u64; 20]))
    requires
        stack_top >= 160,
    ensures
        r.0 == frame_address(stack_top),
        r.1@ == first_frame(user_rip, user_cs as u64, user_rsp, user_ss as u64),
{
    (stack_top - 160, build_frame(user_rip, user_cs as u64, user_rsp, user_ss as u64))
}

/// Stdin, stdout and stderr at 0, 1 and 2; the rest closed.
pub open spec fn standard_fds() -> Seq<FdType> {
    Seq::new(
        8,
        |i: int|
            if i == 0 {
                FdType::Stdin
            } else if i == 1 {
                FdType::Stdout
            } else if i == 2 {
                FdType::Stderr
            } else {
                FdType::Closed
            },
    )
}

/// A new kernel-mode process, with no open descriptors.
pub open spec fn is_new_kernel(p: Process, pid: Pid, stack_base: u64, pml4: u64) -> bool {
    &&& p == (Process {
        pid,
        state: ProcessState::Ready,
        stack_pointer: frame_address((stack_base + KERNEL_STACK_SIZE) as u64),
        kernel_stack_base: stack_base,
        pml4_phys: pml4,
        saved_cr3: 0,
        user_rip: None,
        user_rsp: None,
        exit_code: 0,
        is_user: false,
        parent_pid: None,
        parent_generation: 0,
        generation: 0,
        wake_reason: WakeReason::NotWaiting,
        fd_types: p.fd_types,
        pgid: pid,
        terminated_by_signal: false,
        stop_signal: 0,
    })
    &&& p.fd_types@ == Seq::new(8, |i: int| FdType::Closed)
}

/// A new user-mode process.
pub open spec fn is_new_user(
    p: Process,
    pid: Pid,
    user_rip: u64,
    user_rsp: u64,
    pml4: u64,
    parent_pid: Option<Pid>,
    parent_generation: u32,
    stack_base: u64,
) -> bool {
    &&& p == (Process {
        pid,
        state: ProcessState::Ready,
        stack_pointer: frame_address((stack_base + KERNEL_STACK_SIZE) as u64),
        kernel_stack_base: stack_base,
        pml4_phys: pml4,
        saved_cr3: 0,
        user_rip: Some(user_rip),
        user_rsp: Some(user_rsp),
        exit_code: 0,
        is_user: true,
        parent_pid,
        parent_generation,
        generation: 0,
        wake_reason: WakeReason::NotWaiting,
        fd_types: p.fd_types,
        pgid: pid,
        terminated_by_signal: false,
        stop_signal: 0,
    })
    &&& p.fd_types@ == standard_fds()
}

impl Process {
    /// Create a new kernel-mode process on a kernel stack, with the page table of the
    /// kernel. `None` if there was no memory for the stack.
    pub fn new_kernel(
        pid: Pid,
        entry_phys: u64,
        stack_base: Option<u64>,
        pml4: u64,
        kernel_phys_start: u64,
        out: &mut Vec<u8>,
    ) -> (r: Option<(Process, [u64; 20])>)
        requires
            stack_base matches Some(b) ==> b + KERNEL_STACK_SIZE <= u64::MAX,
        ensures
            final(out)@ == match stack_base {
                Some(base) => with_frame_text(
                    old(out)@,
                    entry_phys,
                    memory::kernel_virt(entry_phys, kernel_phys_start),
                    frame_address((base + KERNEL_STACK_SIZE) as u64),
                ),
                None => old(out)@,
            },
            match (r, stack_base) {
                (Some((p, frame)), Some(base)) => {
                    &&& is_new_kernel(p, pid, base, pml4)
                    &&& frame@ == first_frame(
                        memory::kernel_virt(entry_phys, kernel_phys_start),
                        0x08,
                        (base + KERNEL_STACK_SIZE) as u64,
                        0x10,
                    )
                },
                (None, None) => true,
                _ => false,
            },
    {
        let base: u64 = match stack_base {
            Some(base) => base,
            None => {
                return None;
            },
        };
        let stack_top: u64 = base + KERNEL_STACK_SIZE;
        let (sp, frame): (u64, [u64; 20]) = setup_initial_stack_frame_kernel(
            stack_top,
            entry_phys,
            kernel_phys_start,
            out,
        );
        let fd_types: [FdType; 8] = [FdType::Closed; 8];
        assert(fd_types@ =~= Seq::new(8, |i: int| FdType::Closed));
        Some(
            (
                Process {
                    pid,
                    state: ProcessState::Ready,
                    stack_pointer: sp,
                    kernel_stack_base: base,
                    pml4_phys: pml4,
                    saved_cr3: 0,
                    user_rip: None,
                    user_rsp: None,
                    exit_code: 0,
                    is_user: false,
                    parent_pid: None,
                    parent_generation: 0,
                    generation: 0,
                    wake_reason: WakeReason::NotWaiting,
                    fd_types,
                    pgid: pid,
                    terminated_by_signal: false,
                    stop_signal: 0,
                },
                frame,
            ),
        )
    }

    /// Create a new user-mode process on a kernel stack. `None` if there was no memory
    /// for the stack.
    pub fn new_user(
        pid: Pid,
        user_rip: u64,
        user_rsp: u64,
        pml4: u64,
        parent_pid: Option<Pid>,
        parent_generation: u32,
        stack_base: Option<u64>,
        user_cs: u16,
        user_ss: u16,
    ) -> (r: Option<(Process, [u64; 20])>)
        requires
            stack_base matches Some(b) ==> b + KERNEL_STACK_SIZE <= u64::MAX,
        ensures
            match (r, stack_base) {
                (Some((p, frame)), Some(base)) => {
                    &&& is_new_user(
                        p,
                        pid,
                        user_rip,
                        user_rsp,
                        pml4,
                        parent_pid,
                        parent_generation,
                        base,
                    )
                    &&& frame@ == first_frame(user_rip, user_cs as u64, user_rsp, user_ss as u64)
                },
                (None, None) => true,
                _ => false,
            },
    {
        let base: u64 = match stack_base {
            Some(base) => base,
            None => {
                return None;
            },
        };
        let stack_top: u64 = base + KERNEL_STACK_SIZE;
        let (sp, frame): (u64, [u64; 20]) = setup_initial_stack_frame_user(
            stack_top,
            user_rip,
            user_rsp,
            user_cs,
            user_ss,
        );
        let mut fd_types: [FdType; 8] = [FdType::Closed; 8];
        fd_types[0] = FdType::Stdin;
        fd_types[1] = FdType::Stdout;
        fd_types[2] = FdType::Stderr;
        assert(fd_types@ =~= standard_fds());
        Some(
            (
                Process {
                    pid,
                    state: ProcessState::Ready,
                    stack_pointer: sp,
                    kernel_stack_base: base,
                    pml4_phys: pml4,
                    saved_cr3: 0,
                    user_rip: Some(user_rip),
                    user_rsp: Some(user_rsp),
                    exit_code: 0,
                    is_user: true,
                    parent_pid,
                    parent_generation,
                    generation: 0,
                    wake_reason: WakeReason::NotWaiting,
                    fd_types,
                    pgid: pid,
                    terminated_by_signal: false,
                    stop_signal: 0,
                },
                frame,
            ),
        )
    }
}

} // verus!
