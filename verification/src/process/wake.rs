//! Waking blocked processes, signalling the foreground group, and closing what a dead
//! process held.
use vstd::prelude::*;

use crate::process::pipe;
use crate::process::pipe::{Pipe, PipeTable, MAX_PIPES};
use crate::process::process::{FdType, Process, ProcessState, WakeReason, MAX_FDS, MAX_PROCESSES};
use crate::process::scheduler;
use crate::process::scheduler::{Scheduler, SchedulerView};

verus! {

/// Whether a blocked process can go on.
pub open spec fn can_go_on(p: Process, procs: Seq<Option<Process>>, pipes: Seq<Option<Pipe>>) -> bool {
    &&& p.state == ProcessState::Blocked
    &&& match p.wake_reason {
        WakeReason::Keyboard => true,
        WakeReason::PipeRead { pipe_idx } => pipe_idx < MAX_PIPES && (
        pipes[pipe_idx as int] matches Some(q) && q.reader_ready()),
        WakeReason::PipeWrite { pipe_idx } => pipe_idx < MAX_PIPES && (
        pipes[pipe_idx as int] matches Some(q) && q.writer_ready()),
        WakeReason::WaitForChild { child_pid } => child_pid < MAX_PROCESSES
            && scheduler::in_state(procs[child_pid as int], ProcessState::Zombie),
        _ => false,
    }
}

/// A slot after a wake-up.
pub open spec fn after_wake(
    slot: Option<Process>,
    procs: Seq<Option<Process>>,
    pipes: Seq<Option<Pipe>>,
) -> Option<Process> {
    match slot {
        Some(p) => if can_go_on(p, procs, pipes) {
            Some(Process { state: ProcessState::Ready, wake_reason: WakeReason::NotWaiting, ..p })
        } else {
            Some(p)
        },
        None => None,
    }
}

/// The scheduler once every blocked process that can go on is ready.
pub open spec fn woken(s: SchedulerView, pipes: Seq<Option<Pipe>>) -> SchedulerView {
    SchedulerView {
        procs: Seq::new(s.procs.len(), |i: int| after_wake(s.procs[i], s.procs, pipes)),
        ..s
    }
}

fn goes_on(p: &Process, table: &[Option<Process>; 32], pipes: &PipeTable) -> (r: bool)
    ensures
        r == can_go_on(*p, table@, pipes.slots@),
{
    if p.state != ProcessState::Blocked {
        return false;
    }
    match p.wake_reason {
        WakeReason::Keyboard => true,
        WakeReason::PipeRead { pipe_idx } => if (pipe_idx as usize) < MAX_PIPES {
            match pipes.slots[pipe_idx as usize] {
                Some(q) => q.can_read(),
                None => false,
            }
        } else {
            false
        },
        WakeReason::PipeWrite { pipe_idx } => if (pipe_idx as usize) < MAX_PIPES {
            match pipes.slots[pipe_idx as usize] {
                Some(q) => q.can_write(),
                None => false,
            }
        } else {
            false
        },
        WakeReason::WaitForChild { child_pid } => if child_pid < MAX_PROCESSES as u64 {
            match table[child_pid as usize] {
                Some(c) => c.state == ProcessState::Zombie,
                None => false,
            }
        } else {
            false
        },
        _ => false,
    }
}

/// Wake all processes blocked on keyboard input, and those blocked on a pipe or a child
/// that can go on.
pub fn keyboard_wake(sched: &mut Scheduler, pipes: &PipeTable)
    requires
        old(sched)@.wf(),
    ensures
        final(sched)@.wf(),
        final(sched)@ == woken(old(sched)@, pipes.slots@),
{
    let ghost before = sched@;
    let table: [Option<Process>; 32] = sched.processes;
    let mut i: usize = 0;
    while i < MAX_PROCESSES
        invariant
            i <= MAX_PROCESSES,
            before == old(sched)@,
            before.wf(),
            table@ == before.procs,
            sched@ == (SchedulerView { procs: sched@.procs, ..before }),
            forall|k: int|
                0 <= k < i ==> #[trigger] sched@.procs[k] == after_wake(
                    before.procs[k],
                    before.procs,
                    pipes.slots@,
                ),
            forall|k: int| i <= k < MAX_PROCESSES ==> #[trigger] sched@.procs[k] == before.procs[k],
        decreases MAX_PROCESSES - i,
    {
        match table[i] {
            Some(p) => {
                if goes_on(&p, &table, pipes) {
                    sched.processes[i] = Some(
                        Process {
                            state: ProcessState::Ready,
                            wake_reason: WakeReason::NotWaiting,
                            ..p
                        },
                    );
                }
            },
            None => {},
        }
        i = i + 1;
    }
    assert(sched@.procs =~= woken(before, pipes.slots@).procs);
}

/// The group of the first user process in a given state from slot `i` on.
pub open spec fn first_group(procs: Seq<Option<Process>>, state: ProcessState, i: int) -> Option<u64>
    decreases procs.len() - i,
{
    if i >= procs.len() {
        None
    } else {
        match procs[i] {
            Some(p) if p.is_user && p.state == state => Some(p.pgid),
            _ => first_group(procs, state, i + 1),
        }
    }
}

/// The foreground group: that of the lowest running user process, or else of the lowest
/// ready one.
pub open spec fn foreground(procs: Seq<Option<Process>>) -> Option<u64> {
    match first_group(procs, ProcessState::Running, 1) {
        Some(g) => Some(g),
        None => first_group(procs, ProcessState::Ready, 1),
    }
}

/// A process after a signal: interrupt and quit kill it, stop blocks it, continue makes
/// a stopped one ready; other signals do nothing.
pub open spec fn after_signal(p: Process, signal: u8) -> Process {
    if signal == 2 || signal == 3 {
        Process {
            state: ProcessState::Zombie,
            exit_code: signal as u64,
            terminated_by_signal: true,
            ..p
        }
    } else if signal == 20 {
        Process {
            state: ProcessState::Blocked,
            wake_reason: WakeReason::NotWaiting,
            stop_signal: signal,
            ..p
        }
    } else if signal == 18 && p.state == ProcessState::Blocked && p.wake_reason
        == WakeReason::NotWaiting {
        Process { state: ProcessState::Ready, ..p }
    } else {
        p
    }
}

/// The table after a signal to a group. Slot 0, kernel processes and dead processes are
/// left alone.
pub open spec fn signalled(procs: Seq<Option<Process>>, group: Option<u64>, signal: u8) -> Seq<
    Option<Process>,
> {
    Seq::new(
        procs.len(),
        |i: int|
            match procs[i] {
                Some(p) if i >= 1 && p.is_user && group == Some(p.pgid) && p.state
                    != ProcessState::Zombie => Some(after_signal(p, signal)),
                slot => slot,
            },
    )
}

fn find_group(table: &[Option<Process>; 32], state: ProcessState) -> (r: Option<u64>)
    ensures
        r == first_group(table@, state, 1),
{
    let mut i: usize = 1;
    while i < MAX_PROCESSES
        invariant
            1 <= i <= MAX_PROCESSES,
            first_group(table@, state, 1) == first_group(table@, state, i as int),
        decreases MAX_PROCESSES - i,
    {
        match table[i] {
            Some(p) => {
                if p.is_user && p.state == state {
                    return Some(p.pgid);
                }
            },
            None => {},
        }
        i = i + 1;
    }
    None
}

/// Send a signal to all processes in the foreground process group.
pub fn send_signal_to_fg(sched: &mut Scheduler, pipes: &PipeTable, signal: u8)
    requires
        old(sched)@.wf(),
    ensures
        final(sched)@.wf(),
        final(sched)@ == woken(
            SchedulerView {
                procs: signalled(
                    old(sched)@.procs,
                    foreground(old(sched)@.procs),
                    signal,
                ),
                ..old(sched)@
            },
            pipes.slots@,
        ),
{
    let ghost before = sched@;
    let group: Option<u64> = match find_group(&sched.processes, ProcessState::Running) {
        Some(g) => Some(g),
        None => find_group(&sched.processes, ProcessState::Ready),
    };
    let ghost want = signalled(before.procs, group, signal);
    match group {
        Some(g) => {
            let mut i: usize = 1;
            while i < MAX_PROCESSES
                invariant
                    1 <= i <= MAX_PROCESSES,
                    before == old(sched)@,
                    before.wf(),
                    group == Some(g),
                    want == signalled(before.procs, group, signal),
                    sched@ == (SchedulerView { procs: sched@.procs, ..before }),
                    forall|k: int| 0 <= k < i ==> #[trigger] sched@.procs[k] == want[k],
                    forall|k: int|
                        i <= k < MAX_PROCESSES ==> #[trigger] sched@.procs[k] == before.procs[k],
                decreases MAX_PROCESSES - i,
            {
                match sched.processes[i] {
                    Some(p) => {
                        if p.is_user && p.pgid == g && p.state != ProcessState::Zombie {
                            let q: Process = if signal == 2 || signal == 3 {
                                Process {
                                    state: ProcessState::Zombie,
                                    exit_code: signal as u64,
                                    terminated_by_signal: true,
                                    ..p
                                }
                            } else if signal == 20 {
                                Process {
                                    state: ProcessState::Blocked,
                                    wake_reason: WakeReason::NotWaiting,
                                    stop_signal: signal,
                                    ..p
                                }
                            } else if signal == 18 && p.state == ProcessState::Blocked
                                && p.wake_reason == WakeReason::NotWaiting {
                                Process { state: ProcessState::Ready, ..p }
                            } else {
                                p
                            };
                            sched.processes[i] = Some(q);
                        }
                    },
                    None => {},
                }
                i = i + 1;
            }
            assert(sched@.procs =~= want);
        },
        None => {
            assert(before.procs =~= want);
        },
    }
    keyboard_wake(sched, pipes);
}

/// A pipe with one end closed.
pub open spec fn end_closed(p: Pipe, writable: bool) -> Pipe {
    if writable {
        Pipe { write_open: false, ..p }
    } else {
        Pipe { read_open: false, ..p }
    }
}

/// Close one end of a pipe and wake the other end, so that it can detect the close.
pub fn pipe_close(sched: &mut Scheduler, pipes: &mut PipeTable, idx: usize, writable: bool)
    requires
        old(sched)@.wf(),
        idx < MAX_PIPES,
        old(pipes).slots@[idx as int] is Some,
    ensures
        final(sched)@.wf(),
        final(pipes).slots@ == old(pipes).slots@.update(
            idx as int,
            Some(end_closed(old(pipes).slots@[idx as int].unwrap(), writable)),
        ),
        final(sched)@ == woken(old(sched)@, final(pipes).slots@),
{
    match pipes.slots[idx] {
        Some(p) => {
            if writable {
                pipes.slots[idx] = Some(Pipe { write_open: false, ..p });
            } else {
                pipes.slots[idx] = Some(Pipe { read_open: false, ..p });
            }
        },
        None => {},
    }
    keyboard_wake(sched, pipes);
}

/// Whether a process is blocked on one end of a pipe.
pub open spec fn blocked_on(slot: Option<Process>, idx: usize, writes: bool) -> bool {
    slot matches Some(p) && p.state == ProcessState::Blocked && match p.wake_reason {
        WakeReason::PipeRead { pipe_idx } => !writes && pipe_idx == idx,
        WakeReason::PipeWrite { pipe_idx } => writes && pipe_idx == idx,
        _ => false,
    }
}

/// Closing one end of a pipe wakes every process that is blocked on the other end: the
/// readers when the write end is closed, and the writers when the read end is.
pub proof fn law_close_wakes_peer(
    s: SchedulerView,
    pipes: Seq<Option<Pipe>>,
    idx: usize,
    writable: bool,
    i: int,
)
    requires
        s.wf(),
        idx < MAX_PIPES,
        pipes.len() == MAX_PIPES,
        pipes[idx as int] is Some,
        0 <= i < MAX_PROCESSES,
        blocked_on(s.procs[i], idx, !writable),
    ensures
        scheduler::in_state(
            woken(
                s,
                pipes.update(idx as int, Some(end_closed(pipes[idx as int].unwrap(), writable))),
            ).procs[i],
            ProcessState::Ready,
        ),
{
}

/// The scheduler and the pipes once one descriptor of a pipe is gone: the end is closed,
/// its peer woken, and the pipe freed with its last descriptor.
pub open spec fn fd_released(
    s: SchedulerView,
    pipes: Seq<Option<Pipe>>,
    fd: FdType,
) -> (SchedulerView, Seq<Option<Pipe>>) {
    match fd {
        FdType::Pipe { pipe_idx, writable } => match pipes[pipe_idx as int] {
            Some(p) => {
                let closed = end_closed(p, writable);
                let woke = woken(s, pipes.update(pipe_idx as int, Some(closed)));
                let left = if closed.refcount == 1 {
                    None
                } else {
                    Some(
                        Pipe {
                            refcount: ((closed.refcount + 0xFFFF) % 0x1_0000) as u16,
                            ..closed
                        },
                    )
                };
                (woke, pipes.update(pipe_idx as int, left))
            },
            None => (s, pipes),
        },
        _ => (s, pipes),
    }
}

/// The scheduler and the pipes once the first `n` descriptors of a process are gone.
pub open spec fn fds_released(
    s: SchedulerView,
    pipes: Seq<Option<Pipe>>,
    fds: Seq<FdType>,
    n: nat,
) -> (SchedulerView, Seq<Option<Pipe>>)
    decreases n,
{
    if n == 0 {
        (s, pipes)
    } else {
        let before = fds_released(s, pipes, fds, (n - 1) as nat);
        fd_released(before.0, before.1, fds[n - 1])
    }
}

/// Releases what a process held when it is removed: its pipe ends are closed here. The
/// page table and the kernel stack that are to be freed are returned.
pub fn release_process(sched: &mut Scheduler, pipes: &mut PipeTable, p: Process) -> (r: (
    Option<u64>,
    Option<u64>,
))
    requires
        old(sched)@.wf(),
        forall|i: int|
            0 <= i < MAX_FDS ==> (#[trigger] p.fd_types@[i] matches FdType::Pipe { pipe_idx, .. }
                ==> pipe_idx < MAX_PIPES),
    ensures
        final(sched)@.wf(),
        (final(sched)@, final(pipes).slots@) == fds_released(
            old(sched)@,
            old(pipes).slots@,
            p.fd_types@,
            MAX_FDS as nat,
        ),
        r.0 == if p.is_user && p.pml4_phys != 0 {
            Some(p.pml4_phys)
        } else {
            None
        },
        r.1 == if p.kernel_stack_base != 0 {
            Some(p.kernel_stack_base)
        } else {
            None
        },
{
    let mut i: usize = 0;
    while i < MAX_FDS
        invariant
            i <= MAX_FDS,
            sched@.wf(),
            forall|k: int|
                0 <= k < MAX_FDS ==> (#[trigger] p.fd_types@[k] matches FdType::Pipe {
                    pipe_idx,
                    ..
                } ==> pipe_idx < MAX_PIPES),
            (sched@, pipes.slots@) == fds_released(
                old(sched)@,
                old(pipes).slots@,
                p.fd_types@,
                i as nat,
            ),
        decreases MAX_FDS - i,
    {
        let ghost had = pipes.slots@;
        let ghost s0 = sched@;
        let fd: FdType = p.fd_types[i];
        assert(fd == p.fd_types@[i as int]);
        match fd {
            FdType::Pipe { pipe_idx, writable } => {
                let idx: usize = pipe_idx as usize;
                if pipes.slots[idx].is_some() {
                    pipe_close(sched, pipes, idx, writable);
                    match pipes.slots[idx] {
                        Some(q) => {
                            if q.refcount == 1 {
                                pipe::free_pipe(pipes, idx);
                            } else {
                                pipes.slots[idx] = Some(
                                    Pipe { refcount: q.refcount.wrapping_sub(1), ..q },
                                );
                            }
                        },
                        None => {},
                    }
                    assert(pipes.slots@ =~= fd_released(s0, had, fd).1);
                }
            },
            _ => {},
        }
        i = i + 1;
    }
    let space: Option<u64> = if p.is_user && p.pml4_phys != 0 {
        Some(p.pml4_phys)
    } else {
        None
    };
    let stack: Option<u64> = if p.kernel_stack_base != 0 {
        Some(p.kernel_stack_base)
    } else {
        None
    };
    (space, stack)
}

/// A wake-up only makes blocked processes ready: it runs none, kills none and leaves
/// every process that is not blocked as it was.
pub proof fn law_wake_only_unblocks(s: SchedulerView, pipes: Seq<Option<Pipe>>, i: int)
    requires
        s.wf(),
        0 <= i < MAX_PROCESSES,
    ensures
        !scheduler::in_state(s.procs[i], ProcessState::Blocked) ==> woken(s, pipes).procs[i]
            == s.procs[i],
        scheduler::in_state(s.procs[i], ProcessState::Blocked) ==> scheduler::in_state(
            woken(s, pipes).procs[i],
            ProcessState::Blocked,
        ) || scheduler::in_state(woken(s, pipes).procs[i], ProcessState::Ready),
        scheduler::only_current_runs(s) ==> scheduler::only_current_runs(woken(s, pipes)),
{
    if scheduler::only_current_runs(s) {
        assert forall|k: int|
            0 <= k < MAX_PROCESSES && scheduler::in_state(
                #[trigger] woken(s, pipes).procs[k],
                ProcessState::Running,
            ) implies s.current == Some(k as u64) by {
            assert(scheduler::in_state(s.procs[k], ProcessState::Running));
        }
    }
}

} // verus!
