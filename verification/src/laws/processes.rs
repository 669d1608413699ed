//! Who runs, who waits and for what, and what a process leaves behind.
use vstd::prelude::*;

use crate::laws::select::{lemma_selects, picks_of, selects};
use crate::process::context_switch::{
    first_dispatch, put_aside, remains_if_dead, remains_of_current, resume_current,
    schedule_outcome, target_table, with_fallback, Decision, Remains,
};
use crate::process::init::{orphaned_zombie, orphaned_zombies};
use crate::process::pipe::{is_new_pipe, Pipe};
use crate::process::process::{
    first_frame, frame_address, is_new_kernel, standard_fds, FdType, Pid, Process, ProcessState, WakeReason,
};
use crate::process::scheduler::{
    after_sleep, all_reparented, buried, free_slot, in_use, next_ready, preempted, running,
    switched, ticked, user_spawned, zombie_child, SchedulerView,
};
use crate::process::spawn::{first_rsp, stack_flags, stack_page};
use crate::process::wake::{
    after_signal, can_go_on, end_closed, fd_released, fds_released, foreground, signalled, woken,
};

verus! {

/// A sleeper becomes ready at its deadline and not before. No tick changes a process that
/// does not sleep, or anything of a sleeper but its state and what it waits for.
pub proof fn law_sleep_ends_at_deadline(p: Process, now: u64)
    ensures
        after_sleep(Some(p), now) matches Some(q) && {
            let sleeps = p.state == ProcessState::Blocked && p.wake_reason is Sleep;
            &&& sleeps && now < p.wake_reason->deadline ==> q == p
            &&& sleeps && now >= p.wake_reason->deadline ==> q.state == ProcessState::Ready
                && q.wake_reason == WakeReason::NotWaiting
            &&& !sleeps ==> q == p
            &&& q.pid == p.pid && q.stack_pointer == p.stack_pointer && q.pml4_phys == p.pml4_phys
            &&& q.fd_types == p.fd_types && q.parent_pid == p.parent_pid && q.pgid == p.pgid
        },
        after_sleep(None, now) is None,
{
}

/// A new process goes into the lowest free slot from `from` on; without one, all are taken.
pub proof fn law_lowest_free_slot(procs: Seq<Option<Process>>, from: int)
    requires
        0 <= from,
    ensures
        match free_slot(procs, from) {
            Some(i) => from <= i < procs.len() && procs[i] is None && forall|j: int|
                from <= j < i ==> #[trigger] procs[j] is Some,
            None => forall|j: int| from <= j < procs.len() ==> #[trigger] procs[j] is Some,
        },
    decreases procs.len() - from,
{
    if from < procs.len() && procs[from] is Some {
        law_lowest_free_slot(procs, from + 1);
    }
}

/// A process that stops running because another one is to run is ready, and nothing else of
/// it has changed. If it was not running, it stays as it was.
pub proof fn law_preemption(s: SchedulerView, pid: Pid, i: int)
    requires
        s.wf(),
        s.current == Some(pid),
        0 <= i < s.procs.len(),
    ensures
        preempted(s).len() == s.procs.len(),
        i != pid ==> preempted(s)[i] == s.procs[i],
        (s.procs[pid as int] matches Some(p) && p.state == ProcessState::Running) ==> (preempted(
            s,
        )[pid as int] matches Some(q) && q.state == ProcessState::Ready && q == (Process {
            state: ProcessState::Ready,
            ..s.procs[pid as int].unwrap()
        })),
        !(s.procs[pid as int] matches Some(p) && p.state == ProcessState::Running) ==> preempted(
            s,
        )[pid as int] == s.procs[pid as int],
{
}

/// The process that is given the processor is the current one and runs; nothing else of it
/// changes, and no other process does.
pub proof fn law_running(s: SchedulerView, procs: Seq<Option<Process>>, pid: Pid, i: int)
    requires
        0 <= pid < procs.len(),
        0 <= i < procs.len(),
    ensures
        ({
            let after = running(s, procs, pid);
            &&& after.current == Some(pid)
            &&& procs[pid as int] matches Some(p) ==> after.procs[pid as int] == Some(
                Process { state: ProcessState::Running, ..p },
            )
            &&& i != pid ==> after.procs[i] == procs[i]
            &&& after.tick == s.tick && after.idle == s.idle && after.generations == s.generations
        }),
{
}

/// A process that is alone ready besides idle keeps the processor when its time is up.
pub proof fn law_lone_process_goes_on(s: SchedulerView, pid: Pid)
    requires
        s.wf(),
        s.current == Some(pid),
        pid != s.idle,
        s.procs[pid as int] matches Some(p) && p.state == ProcessState::Running,
        forall|i: int|
            0 <= i < 32 && i != pid && i != s.idle ==> !(#[trigger] s.procs[i] matches Some(q)
                && q.state == ProcessState::Ready),
    ensures
        switched(s).current == Some(pid),
        switched(s).procs == s.procs,
{
    let procs = preempted(s);
    crate::process::scheduler::law_round_robin(procs, s.idle, pid, pid as int);
    let next = next_ready(procs, s.idle, pid).unwrap();
    if next != pid {
        assert(s.procs[next as int] == procs[next as int]);
    }
    assert(switched(s).procs =~= s.procs);
}

/// The children of a process that dies get init, process 1 of generation 1, as their
/// parent. No other process changes, and nothing else of the children.
pub proof fn law_children_to_init(procs: Seq<Option<Process>>, parent: Pid, i: int)
    requires
        0 <= i < procs.len(),
    ensures
        ({
            let after = all_reparented(procs, parent);
            &&& after.len() == procs.len()
            &&& match procs[i] {
                Some(p) => if p.parent_pid == Some(parent) {
                    after[i] == Some(
                        Process { parent_pid: Some(1u64), parent_generation: 1, ..p },
                    )
                } else {
                    after[i] == Some(p)
                },
                None => after[i] is None,
            }
        }),
{
}

/// The process that dies is a zombie and nothing else of it has changed but its parent, if
/// that was itself.
pub proof fn law_dead_is_zombie(s: SchedulerView, pid: Pid)
    requires
        s.wf(),
        s.current == Some(pid),
        s.procs[pid as int] is Some,
    ensures
        buried(s)[pid as int] matches Some(q) && {
            let p = s.procs[pid as int].unwrap();
            &&& q.state == ProcessState::Zombie
            &&& p.parent_pid != Some(pid) ==> q == (Process { state: ProcessState::Zombie, ..p })
        },
{
}

/// A parent collects a child only if the child is dead, is its child, and was that of this
/// generation of the parent.
pub proof fn law_who_is_collected(p: Process, parent: Pid, generation: u32)
    ensures
        zombie_child(Some(p), parent, generation) <==> {
            &&& p.state == ProcessState::Zombie
            &&& p.parent_pid == Some(parent)
            &&& p.parent_generation == generation
        },
        !zombie_child(None, parent, generation),
{
}

/// Whether some processes are those in the slots `picks`, and those are the dead children of
/// init.
pub open spec fn are_orphans(
    procs: Seq<Option<Process>>,
    found: Seq<Process>,
    picks: Seq<int>,
) -> bool {
    &&& selects(
        picks,
        procs.len() as int,
        |i: int|
            procs[i] matches Some(p) && p.parent_pid == Some(1u64) && p.state
                == ProcessState::Zombie,
    )
    &&& picks.len() == found.len()
    &&& forall|k: int| 0 <= k < picks.len() ==> Some(found[k]) == procs[#[trigger] picks[k]]
}

/// Init collects all its dead children.
pub proof fn law_init_collects_all(procs: Seq<Option<Process>>)
    ensures
        exists|picks: Seq<int>|
            #[trigger] are_orphans(procs, orphaned_zombies(procs, procs.len()), picks),
{
    let wanted = |i: int|
        procs[i] matches Some(p) && p.parent_pid == Some(1u64) && p.state == ProcessState::Zombie;
    let n = procs.len() as int;
    lemma_selects(n, wanted);
    lemma_orphans(procs, procs.len());
    assert(are_orphans(procs, orphaned_zombies(procs, procs.len()), picks_of(n, wanted)));
}

proof fn lemma_orphans(procs: Seq<Option<Process>>, n: nat)
    ensures
        ({
            let picks = picks_of(
                n as int,
                |i: int|
                    procs[i] matches Some(p) && p.parent_pid == Some(1u64) && p.state
                        == ProcessState::Zombie,
            );
            let found = orphaned_zombies(procs, n);
            &&& picks.len() == found.len()
            &&& forall|k: int| 0 <= k < picks.len() ==> Some(found[k]) == procs[#[trigger] picks[k]]
        }),
    decreases n,
{
    if n > 0 {
        lemma_orphans(procs, (n - 1) as nat);
    }
}

/// The slots in use are counted: a further process makes one more.
pub proof fn law_slots_counted(procs: Seq<Option<Process>>, p: Process, i: int, n: nat)
    requires
        0 <= i < n <= procs.len(),
        procs[i] is None,
    ensures
        in_use(procs.update(i, Some(p)), n) == in_use(procs, n) + 1,
        in_use(procs, 0) == 0,
    decreases n,
{
    let more = procs.update(i, Some(p));
    if i < n - 1 {
        law_slots_counted(procs, p, i, (n - 1) as nat);
    } else {
        lemma_same_count(procs, more, (n - 1) as nat);
    }
}

proof fn lemma_same_count(a: Seq<Option<Process>>, b: Seq<Option<Process>>, n: nat)
    requires
        forall|i: int| 0 <= i < n ==> #[trigger] a[i] == b[i],
    ensures
        in_use(a, n) == in_use(b, n),
    decreases n,
{
    if n > 0 {
        lemma_same_count(a, b, (n - 1) as nat);
    }
}

/// A reader can go on if there is a byte that was written and not read, or if nobody writes
/// any more. A writer can go on if fewer than 512 bytes wait to be read, or if nobody reads
/// any more.
pub proof fn law_pipe_ends_ready(p: Pipe)
    requires
        p.nread <= p.nwrite <= p.nread + 512,
        p.nread + 512 <= u32::MAX,
    ensures
        p.reader_ready() <==> p.nwrite - p.nread > 0 || !p.write_open,
        p.writer_ready() <==> p.nwrite - p.nread < 512 || !p.read_open,
        p.read_open && p.write_open ==> p.reader_ready() || p.writer_ready(),
{
}

/// Closing an end of a pipe closes that end and leaves the rest as it is.
pub proof fn law_end_closed(p: Pipe)
    ensures
        !end_closed(p, true).write_open,
        end_closed(p, true).read_open == p.read_open,
        !end_closed(p, false).read_open,
        end_closed(p, false).write_open == p.write_open,
        end_closed(p, true).reader_ready(),
        end_closed(p, false).writer_ready(),
        end_closed(p, true).nread == p.nread && end_closed(p, true).nwrite == p.nwrite,
        end_closed(p, true).refcount == p.refcount && end_closed(p, false).refcount == p.refcount,
        end_closed(p, true).data == p.data && end_closed(p, false).data == p.data,
{
}

/// A blocked process wakes for what it waits for, and for nothing else: for the keyboard
/// whenever it is asked, for a pipe if its end of it is ready, for a child if that
/// is dead. A sleeper or a stopped process does not wake.
pub proof fn law_who_wakes(
    p: Process,
    procs: Seq<Option<Process>>,
    pipes: Seq<Option<Pipe>>,
    q: Pipe,
    idx: int,
)
    requires
        procs.len() == 32,
        pipes.len() == 16,
        0 <= idx < 16,
        pipes[idx] == Some(q),
        p.state == ProcessState::Blocked,
    ensures
        p.wake_reason is Keyboard ==> can_go_on(p, procs, pipes),
        p.wake_reason is Sleep || p.wake_reason is NotWaiting ==> !can_go_on(p, procs, pipes),
        (p.wake_reason matches WakeReason::PipeRead { pipe_idx } && pipe_idx == idx) ==> (can_go_on(
            p,
            procs,
            pipes,
        ) <==> q.nread < q.nwrite || !q.write_open),
        (p.wake_reason matches WakeReason::PipeWrite { pipe_idx } && pipe_idx == idx
            && q.nread + 512 <= u32::MAX) ==> (can_go_on(p, procs, pipes) <==> q.nwrite < q.nread
            + 512 || !q.read_open),
        (p.wake_reason matches WakeReason::WaitForChild { child_pid } && child_pid < 32) ==> (can_go_on(
            p,
            procs,
            pipes,
        ) <==> (procs[p.wake_reason->child_pid as int] matches Some(c) && c.state
            == ProcessState::Zombie)),
{
}

/// A process that wakes is ready and waits for nothing. One that does not stays as it is.
pub proof fn law_wake_makes_ready(
    s: SchedulerView,
    pipes: Seq<Option<Pipe>>,
    i: int,
)
    requires
        0 <= i < s.procs.len(),
    ensures
        ({
            let after = woken(s, pipes);
            &&& after.procs.len() == s.procs.len()
            &&& after.current == s.current && after.tick == s.tick
            &&& match s.procs[i] {
                Some(p) => if can_go_on(p, s.procs, pipes) {
                    after.procs[i] == Some(
                        Process {
                            state: ProcessState::Ready,
                            wake_reason: WakeReason::NotWaiting,
                            ..p
                        },
                    )
                } else {
                    after.procs[i] == Some(p)
                },
                None => after.procs[i] is None,
            }
        }),
{
}

/// The foreground group is that of a user process that runs, the one in the lowest slot from
/// 1 on; without one it is that of the lowest user process that is ready.
pub proof fn law_foreground_group(procs: Seq<Option<Process>>)
    ensures
        match foreground(procs) {
            Some(g) => exists|i: int| #[trigger] leads(procs, i, g),
            None => forall|j: int|
                1 <= j < procs.len() ==> (#[trigger] procs[j] matches Some(p) ==> !(p.is_user && (
                p.state == ProcessState::Running || p.state == ProcessState::Ready))),
        },
{
    lemma_first_group(procs, ProcessState::Running, 1);
    lemma_first_group(procs, ProcessState::Ready, 1);
    if let Some(g) = foreground(procs) {
        let state = if crate::process::wake::first_group(procs, ProcessState::Running, 1) is Some {
            ProcessState::Running
        } else {
            ProcessState::Ready
        };
        let i = choose|i: int|
            1 <= i < procs.len() && (#[trigger] procs[i] matches Some(p) && p.is_user && p.state
                == state && p.pgid == g) && none_in_state(procs, state, 1, i);
        assert(leads(procs, i, g));
    }
}

/// Whether no user process in the slots from `from` to below `to` is in a state.
pub open spec fn none_in_state(
    procs: Seq<Option<Process>>,
    state: ProcessState,
    from: int,
    to: int,
) -> bool {
    forall|j: int|
        from <= j < to ==> (#[trigger] procs[j] matches Some(p) ==> !(p.is_user && p.state
            == state))
}

/// Whether slot `i` holds the user process whose group `g` is in the foreground.
pub open spec fn leads(procs: Seq<Option<Process>>, i: int, g: u64) -> bool {
    &&& 1 <= i < procs.len()
    &&& procs[i] matches Some(p) && p.is_user && p.pgid == g && {
        ||| p.state == ProcessState::Running && none_in_state(procs, ProcessState::Running, 1, i)
        ||| p.state == ProcessState::Ready && none_in_state(
            procs,
            ProcessState::Running,
            1,
            procs.len() as int,
        ) && none_in_state(procs, ProcessState::Ready, 1, i)
    }
}

proof fn lemma_first_group(procs: Seq<Option<Process>>, state: ProcessState, from: int)
    requires
        0 <= from,
    ensures
        match crate::process::wake::first_group(procs, state, from) {
            Some(g) => exists|i: int|
                from <= i < procs.len() && (#[trigger] procs[i] matches Some(p) && p.is_user
                    && p.state == state && p.pgid == g) && none_in_state(procs, state, from, i),
            None => none_in_state(procs, state, from, procs.len() as int),
        },
    decreases procs.len() - from,
{
    if from < procs.len() {
        lemma_first_group(procs, state, from + 1);
        let here = procs[from] matches Some(p) && p.is_user && p.state == state;
        if here {
            assert(none_in_state(procs, state, from, from));
        } else {
            if let Some(g) = crate::process::wake::first_group(procs, state, from + 1) {
                let i = choose|i: int|
                    from + 1 <= i < procs.len() && (#[trigger] procs[i] matches Some(p)
                        && p.is_user && p.state == state && p.pgid == g) && none_in_state(
                        procs,
                        state,
                        from + 1,
                        i,
                    );
                assert(none_in_state(procs, state, from, i));
            }
        }
    }
}

/// Interrupt (2) and quit (3) kill a process and leave the signal as its exit code; stop (20)
/// blocks it; continue (18) makes a stopped one ready; no other signal does anything.
pub proof fn law_signals(p: Process, signal: u8)
    ensures
        ({
            let q = after_signal(p, signal);
            &&& signal == 2 || signal == 3 ==> q.state == ProcessState::Zombie && q.exit_code
                == signal && q.terminated_by_signal
            &&& signal == 20 ==> q.state == ProcessState::Blocked && q.wake_reason
                == WakeReason::NotWaiting && q.stop_signal == 20 && q.exit_code == p.exit_code
            &&& signal == 18 && p.state == ProcessState::Blocked && p.wake_reason
                == WakeReason::NotWaiting ==> q.state == ProcessState::Ready && q.exit_code
                == p.exit_code
            &&& signal == 18 && !(p.state == ProcessState::Blocked && p.wake_reason
                == WakeReason::NotWaiting) ==> q == p
            &&& signal != 2 && signal != 3 && signal != 18 && signal != 20 ==> q == p
            &&& q.pid == p.pid && q.pgid == p.pgid && q.parent_pid == p.parent_pid
            &&& q.kernel_stack_base == p.kernel_stack_base && q.pml4_phys == p.pml4_phys
            &&& q.fd_types == p.fd_types
        }),
{
}

/// A process that was stopped and is told to continue is ready again.
pub proof fn law_stop_then_continue(p: Process)
    ensures
        after_signal(after_signal(p, 20), 18).state == ProcessState::Ready,
{
}

/// A signal reaches the living user processes of the group, and no other process.
pub proof fn law_signal_reaches_group(
    procs: Seq<Option<Process>>,
    group: u64,
    signal: u8,
    i: int,
)
    requires
        0 <= i < procs.len(),
    ensures
        signalled(procs, Some(group), signal).len() == procs.len(),
        signalled(procs, None, signal) == procs,
        match procs[i] {
            Some(p) => signalled(procs, Some(group), signal)[i] == Some(
                if i != 0 && p.is_user && p.pgid == group && p.state != ProcessState::Zombie {
                    after_signal(p, signal)
                } else {
                    p
                },
            ),
            None => signalled(procs, Some(group), signal)[i] is None,
        },
{
    assert(signalled(procs, None, signal) =~= procs);
}

/// A descriptor that is given up closes its end of its pipe and counts one less; the last
/// one frees the pipe. No other pipe changes, and other descriptors change none.
pub proof fn law_descriptor_released(
    s: SchedulerView,
    pipes: Seq<Option<Pipe>>,
    p: Pipe,
    idx: u8,
    writable: bool,
    other: int,
)
    requires
        idx < pipes.len(),
        pipes[idx as int] == Some(p),
        p.refcount > 0,
        0 <= other < pipes.len(),
    ensures
        ({
            let after = fd_released(s, pipes, FdType::Pipe { pipe_idx: idx, writable }).1;
            &&& after.len() == pipes.len()
            &&& other != idx ==> after[other] == pipes[other]
            &&& p.refcount == 1 ==> after[idx as int] is None
            &&& p.refcount > 1 ==> (after[idx as int] matches Some(q) && q.refcount == p.refcount
                - 1 && q.data == p.data && q.nread == p.nread && q.nwrite == p.nwrite && if writable {
                !q.write_open && q.read_open == p.read_open
            } else {
                !q.read_open && q.write_open == p.write_open
            })
        }),
        fd_released(s, pipes, FdType::Stdin) == (s, pipes),
        fd_released(s, pipes, FdType::Closed) == (s, pipes),
{
}

/// A new pipe is free again once both its descriptors have been given up.
pub proof fn law_pipe_freed_by_both_ends(
    s: SchedulerView,
    pipes: Seq<Option<Pipe>>,
    p: Pipe,
    idx: u8,
    first: bool,
)
    requires
        idx < pipes.len(),
        pipes[idx as int] == Some(p),
        is_new_pipe(p),
    ensures
        ({
            let one = fd_released(s, pipes, FdType::Pipe { pipe_idx: idx, writable: first });
            let two = fd_released(
                one.0,
                one.1,
                FdType::Pipe { pipe_idx: idx, writable: !first },
            );
            one.1[idx as int] is Some && two.1[idx as int] is None
        }),
{
}

/// The first frame of a process: fifteen registers that are zero, then what the return from
/// an interrupt takes: where to go on, the code segment, the flags with interrupts on, the
/// stack pointer and the stack segment. It ends where the stack does.
pub proof fn law_first_frame(rip: u64, cs: u64, rsp: u64, ss: u64, top: u64, i: int)
    requires
        top >= 160,
    ensures
        ({
            let frame = first_frame(rip, cs, rsp, ss);
            &&& frame.len() == 20
            &&& 0 <= i < 15 ==> frame[i] == 0
            &&& frame.subrange(15, 20) == seq![rip, cs, frame[17], rsp, ss]
            &&& frame[17] as int / 512 % 2 == 1
            &&& frame[17] as int / 2 % 2 == 1
            &&& frame[17] < 1024
            &&& frame[17] as int % 512 == 2
            &&& frame_address(top) + 8 * frame.len() == top
        }),
{
    let frame = first_frame(rip, cs, rsp, ss);
    assert(frame.subrange(15, 20) =~= seq![rip, cs, frame[17], rsp, ss]);
}

/// A user process starts with the console as its first three descriptors.
pub proof fn law_standard_descriptors(i: int)
    ensures
        standard_fds().len() == 8,
        standard_fds()[0] is Stdin,
        standard_fds()[1] is Stdout,
        standard_fds()[2] is Stderr,
        3 <= i < 8 ==> standard_fds()[i] is Closed,
{
}

/// The pages of a user stack lie one above the other up to its top. The lowest is closed to
/// the program; the others it can read and write, and not execute.
pub proof fn law_user_stack(top: u64, i: int)
    requires
        top >= 0x10_0000,
    ensures
        stack_page(top, i + 1) - stack_page(top, i) == 4096,
        stack_page(top, crate::process::spawn::STACK_PAGES as int) == top,
        ({
            let f = stack_flags(i) as int;
            &&& f % 2 == 1
            &&& i == 0 ==> f / 4 % 2 == 0 && f / 2 % 2 == 0
            &&& i > 0 ==> f / 2 % 2 == 1 && f / 4 % 2 == 1 && f / 0x8000_0000_0000_0000 == 1 && f
                % 0x8000_0000_0000_0000 == 7
        }),
        first_rsp(top) + 8 == top,
{
}

/// A process continues on the page table on which it was stopped, or else on its own, and its
/// interrupts come in at the top of its kernel stack. The table is loaded only if it is not
/// the one in use. When a process runs for the first time, it is loaded once the new stack is
/// in use.
pub proof fn law_resume(s: SchedulerView, p: Process, pid: Pid, sp: u64, cr3: u64)
    requires
        s.current == Some(pid),
        s.procs[pid as int] == Some(p),
        p.kernel_stack_base + 8192 <= u64::MAX,
    ensures
        p.saved_cr3 != 0 ==> target_table(p) == p.saved_cr3,
        p.saved_cr3 == 0 ==> target_table(p) == p.pml4_phys,
        resume_current(s, sp, cr3) matches Decision::Resume {
            sp: at,
            load_cr3,
            deferred_cr3,
            rsp0,
            fpu_owner,
        } && {
            &&& at == sp
            &&& load_cr3 is None <==> cr3 == target_table(p)
            &&& load_cr3 matches Some(t) ==> t == target_table(p)
            &&& deferred_cr3 is None
            &&& rsp0 matches Some(top) && top == p.kernel_stack_base + 8192
            &&& fpu_owner == Some(pid)
        },
        first_dispatch(s, pid, cr3) matches Decision::Resume {
            sp: at,
            load_cr3,
            deferred_cr3,
            rsp0,
            fpu_owner,
        } && {
            &&& at == p.stack_pointer
            &&& load_cr3 is None
            &&& deferred_cr3 is None <==> cr3 == p.pml4_phys
            &&& deferred_cr3 matches Some(t) ==> t == p.pml4_phys
            &&& rsp0 matches Some(top) && top == p.kernel_stack_base + 8192
            &&& fpu_owner == Some(pid)
        },
{
}

/// A process without a stack pointer gives way to idle, and if that has none either nothing
/// can go on. Any other decision stands.
pub proof fn law_fallback(s: SchedulerView, d: Decision)
    ensures
        (d matches Decision::Resume { sp, .. } && sp != 0) ==> with_fallback(s, d) == d,
        d is Halt ==> with_fallback(s, d) is Halt,
        with_fallback(s, d) matches Decision::Resume { sp, .. } ==> sp != 0,
        (d matches Decision::Resume { sp, .. } && sp == 0) && (s.procs[s.idle as int] matches Some(
            p,
        ) && p.stack_pointer != 0) ==> (with_fallback(s, d) matches Decision::Resume { sp, .. }
            && sp == s.procs[s.idle as int].unwrap().stack_pointer),
{
}

/// What a dead process leaves behind is its kernel stack and its page table, if it still has
/// one of them. It gives them up as soon as they are in the queue, and if there is no place
/// in the queue nothing can go on.
pub proof fn law_remains_put_aside(
    s: SchedulerView,
    queue: Seq<Remains>,
    p: Process,
    pid: Pid,
    d: Decision,
    other: int,
)
    requires
        s.current == Some(pid),
        pid < s.procs.len(),
        s.procs[pid as int] == Some(p),
        0 <= other < s.procs.len(),
    ensures
        remains_of_current(s) is Some <==> p.kernel_stack_base != 0 || p.pml4_phys != 0,
        remains_of_current(s) matches Some(left) ==> left.kernel_stack == p.kernel_stack_base
            && left.pml4 == p.pml4_phys && left.is_user == p.is_user,
        remains_if_dead(s) == if p.state == ProcessState::Zombie {
            remains_of_current(s)
        } else {
            None
        },
        put_aside(s, queue, pid, None, d) == (s, queue, d),
        ({
            let left = Remains {
                kernel_stack: p.kernel_stack_base,
                pml4: p.pml4_phys,
                is_user: p.is_user,
            };
            let (after, kept, decided) = put_aside(s, queue, pid, Some(left), d);
            if queue.len() >= 8 {
                kept == queue && after == s && decided is Halt
            } else {
                &&& kept == queue.push(left)
                &&& decided == d
                &&& after.procs[pid as int] == Some(
                    Process { kernel_stack_base: 0, pml4_phys: 0, ..p },
                )
                &&& other != pid ==> after.procs[other] == s.procs[other]
                &&& after.current == s.current
            }
        }),
{
}

/// A user process that is spawned is ready in the lowest free slot from 1 on. It starts at its
/// entry point with its stack, has the page table and the kernel stack that it was given,
/// and a generation that its slot has not had before. Its parent is the one given, of the
/// generation that the parent has. No other process changes.
#[verifier::rlimit(40)]
pub proof fn law_spawned_process(
    before: SchedulerView,
    after: SchedulerView,
    pid: Pid,
    frame: [u64; 20],
    rip: u64,
    rsp: u64,
    pml4: u64,
    parent: Option<Pid>,
    base: u64,
    cs: u16,
    ss: u16,
    i: int,
)
    requires
        before.wf(),
        before.generations_left(),
        base + 8192 <= u64::MAX,
        user_spawned(
            before,
            after,
            Some((pid, frame)),
            rip,
            rsp,
            pml4,
            parent,
            Some(base),
            cs,
            ss,
        ),
        0 <= i < 32,
    ensures
        1 <= pid < 32,
        before.procs[pid as int] is None,
        1 <= i < pid ==> before.procs[i] is Some,
        i != pid ==> after.procs[i] == before.procs[i] && after.generations[i]
            == before.generations[i],
        after.generations[pid as int] == before.generations[pid as int] + 1,
        after.current == before.current && after.tick == before.tick,
        frame@[15] == rip && frame@[16] == cs && frame@[18] == rsp && frame@[19] == ss,
        after.procs[pid as int] matches Some(p) && {
            &&& p.pid == pid
            &&& p.state == ProcessState::Ready
            &&& p.is_user
            &&& p.generation == before.generations[pid as int] + 1
            &&& p.pml4_phys == pml4
            &&& p.kernel_stack_base == base
            &&& p.stack_pointer + 160 == base + 8192
            &&& p.parent_pid == parent
            &&& (parent matches Some(q) && q < 32 && before.procs[q as int] is Some) ==> (
            p.parent_generation == before.procs[parent.unwrap() as int].unwrap().generation)
            &&& p.pgid == pid
            &&& p.exit_code == 0
            &&& p.wake_reason == WakeReason::NotWaiting
            &&& p.fd_types@[0] is Stdin && p.fd_types@[1] is Stdout && p.fd_types@[2] is Stderr
        },
{
    law_lowest_free_slot(before.procs, 1);
    let slot = free_slot(before.procs, 1).unwrap();
    assert(before.generations[slot] < u32::MAX);
    assert(after.procs[slot] is Some);
}

/// A process is not spawned without a free slot or without a kernel stack, and otherwise it
/// is.
pub proof fn law_spawn_succeeds(
    before: SchedulerView,
    after: SchedulerView,
    r: Option<(Pid, [u64; 20])>,
    rip: u64,
    rsp: u64,
    pml4: u64,
    parent: Option<Pid>,
    stack_base: Option<u64>,
    cs: u16,
    ss: u16,
)
    requires
        before.wf(),
        user_spawned(before, after, r, rip, rsp, pml4, parent, stack_base, cs, ss),
    ensures
        r is Some <==> stack_base is Some && exists|i: int|
            1 <= i < 32 && #[trigger] before.procs[i] is None,
        r is None ==> after == before,
{
    law_lowest_free_slot(before.procs, 1);
    if let Some(i) = free_slot(before.procs, 1) {
        assert(before.procs[i] is None);
    }
}

/// Where a process was interrupted is where it goes on: a timer interrupt saves the stack
/// pointer of the current process, and whichever process is current afterwards goes on at its
/// own stack pointer, if it has one.
#[verifier::rlimit(40)]
pub proof fn law_goes_on_where_interrupted(
    s: SchedulerView,
    pipes: Seq<Option<Pipe>>,
    saved: u64,
    now: u64,
    wake: bool,
    cr3: u64,
    pid: Pid,
)
    requires
        s.wf(),
        s.current == Some(pid),
        s.procs[pid as int] is Some,
    ensures
        ({
            let (after, d) = schedule_outcome(s, pipes, saved, now, wake, cr3);
            &&& after.procs[pid as int] matches Some(q) && q.stack_pointer == saved && q.pid
                == s.procs[pid as int].unwrap().pid
            &&& after.current matches Some(next) && next < 32 && (after.procs[next as int] matches Some(
                n,
            ) && n.stack_pointer != 0 ==> (d matches Decision::Resume { sp, .. } && sp
                == after.procs[next as int].unwrap().stack_pointer))
        }),
{
    let awake = if wake {
        woken(s, pipes)
    } else {
        s
    };
    let stored = crate::process::scheduler::with_saved_sp(awake, saved);
    assert(awake.wf());
    assert(stored.wf());
    lemma_tick_keeps_sp(stored, now, pid);
}

proof fn lemma_tick_keeps_sp(s: SchedulerView, now: u64, pid: Pid)
    requires
        s.wf(),
        s.current == Some(pid),
        s.procs[pid as int] is Some,
    ensures
        ({
            let after = ticked(s, now);
            &&& after.procs[pid as int] matches Some(q) && q.stack_pointer
                == s.procs[pid as int].unwrap().stack_pointer && q.pid
                == s.procs[pid as int].unwrap().pid
            &&& after.current matches Some(next) && next < 32
        }),
{
    let awake = SchedulerView {
        procs: crate::process::scheduler::all_after_sleep(s.procs, now),
        ..s
    };
    let reset = SchedulerView { tick: 0, ..awake };
    assert(crate::process::scheduler::table_ok(reset.procs));
    let procs = preempted(reset);
    assert(crate::process::scheduler::table_ok(procs));
    crate::process::scheduler::law_idle_last(procs, s.idle, pid, 0);
}

/// If no process is ready once the current one has stopped, idle runs.
pub proof fn law_idle_runs_alone(s: SchedulerView)
    requires
        s.wf(),
        forall|i: int|
            0 <= i < 32 && i != s.idle ==> !(#[trigger] s.procs[i] matches Some(q) && (q.state
                == ProcessState::Ready || q.state == ProcessState::Running)),
    ensures
        switched(s).current == Some(s.idle),
{
    let procs = preempted(s);
    let after = match s.current {
        Some(c) => c,
        None => 0,
    };
    crate::process::scheduler::law_idle_last(procs, s.idle, after, 0);
    if let Some(pid) = next_ready(procs, s.idle, after) {
        if pid != s.idle {
            assert(procs[pid as int] is Some);
            assert(s.procs[pid as int] is Some);
        }
    }
}

/// A process that is removed gives up all its descriptors: the pipe that one of them refers to
/// has that end closed and counts one less, if no other of its descriptors refers to it.
pub proof fn law_all_descriptors_released(
    s: SchedulerView,
    pipes: Seq<Option<Pipe>>,
    fds: Seq<FdType>,
    n: nat,
    j: int,
    idx: u8,
    writable: bool,
    p: Pipe,
)
    requires
        n <= fds.len(),
        0 <= j < n,
        fds[j] == (FdType::Pipe { pipe_idx: idx, writable }),
        idx < pipes.len(),
        pipes[idx as int] == Some(p),
        p.refcount > 1,
        forall|k: int|
            0 <= k < n && k != j ==> !(#[trigger] fds[k] matches FdType::Pipe { pipe_idx, .. }
                && pipe_idx == idx),
        forall|k: int|
            0 <= k < n ==> (#[trigger] fds[k] matches FdType::Pipe { pipe_idx, .. } ==> pipe_idx
                < pipes.len()),
    ensures
        fds_released(s, pipes, fds, n).1[idx as int] matches Some(q) && q.refcount == p.refcount - 1
            && if writable {
            !q.write_open && q.read_open == p.read_open
        } else {
            !q.read_open && q.write_open == p.write_open
        },
        fds_released(s, pipes, fds, n).1.len() == pipes.len(),
    decreases n,
{
    let before = fds_released(s, pipes, fds, (n - 1) as nat);
    if j < n - 1 {
        law_all_descriptors_released(s, pipes, fds, (n - 1) as nat, j, idx, writable, p);
        assert(!(fds[n - 1] matches FdType::Pipe { pipe_idx, .. } && pipe_idx == idx));
    } else {
        lemma_pipe_untouched(s, pipes, fds, (n - 1) as nat, idx);
    }
}

proof fn lemma_pipe_untouched(
    s: SchedulerView,
    pipes: Seq<Option<Pipe>>,
    fds: Seq<FdType>,
    n: nat,
    idx: u8,
)
    requires
        n <= fds.len(),
        idx < pipes.len(),
        forall|k: int|
            0 <= k < n ==> !(#[trigger] fds[k] matches FdType::Pipe { pipe_idx, .. } && pipe_idx
                == idx),
        forall|k: int|
            0 <= k < n ==> (#[trigger] fds[k] matches FdType::Pipe { pipe_idx, .. } ==> pipe_idx
                < pipes.len()),
    ensures
        fds_released(s, pipes, fds, n).1[idx as int] == pipes[idx as int],
        fds_released(s, pipes, fds, n).1.len() == pipes.len(),
    decreases n,
{
    if n > 0 {
        lemma_pipe_untouched(s, pipes, fds, (n - 1) as nat, idx);
        assert(!(fds[n - 1] matches FdType::Pipe { pipe_idx, .. } && pipe_idx == idx));
    }
}

/// While no process runs yet, a timer interrupt starts a ready one, with a full time slice,
/// at its own stack; if none is ready, what was interrupted goes on.
pub proof fn law_first_process(
    s: SchedulerView,
    pipes: Seq<Option<Pipe>>,
    saved: u64,
    now: u64,
    cr3: u64,
    other: int,
)
    requires
        s.wf(),
        s.current is None,
        0 <= other < 32,
    ensures
        ({
            let (after, d) = schedule_outcome(s, pipes, saved, now, false, cr3);
            match after.current {
                Some(pid) => {
                    &&& pid < 32
                    &&& s.procs[pid as int] matches Some(p) && p.state == ProcessState::Ready
                    &&& after.procs[pid as int] matches Some(q) && q.state == ProcessState::Running
                    &&& after.tick == 0
                    &&& d matches Decision::Resume { sp, .. } && sp
                        == s.procs[pid as int].unwrap().stack_pointer
                },
                None => {
                    &&& after == s
                    &&& d matches Decision::Resume { sp, load_cr3, .. } && sp == saved
                        && load_cr3 is None
                    &&& !(s.procs[other] matches Some(p) && p.state == ProcessState::Ready)
                },
            }
        }),
{
    crate::process::scheduler::law_idle_last(s.procs, s.idle, 0, other);
    if s.procs[other] matches Some(p) && p.state == ProcessState::Ready {
        crate::process::scheduler::law_round_robin(s.procs, s.idle, 0, other);
    }
}

/// The processes that init removes are its dead children.
pub proof fn law_who_init_removes(p: Process)
    ensures
        orphaned_zombie(Some(p)) <==> p.state == ProcessState::Zombie && p.parent_pid == Some(1u64),
        !orphaned_zombie(None),
{
}

/// A new kernel process is ready, with its frame at the top of its stack of 8192 bytes, the
/// page table that it was given, no parent and no open descriptor.
pub proof fn law_new_kernel_process(p: Process, pid: Pid, base: u64, pml4: u64, i: int)
    requires
        is_new_kernel(p, pid, base, pml4),
        base + 8192 <= u64::MAX,
    ensures
        p.pid == pid && p.pgid == pid,
        p.state == ProcessState::Ready && p.wake_reason == WakeReason::NotWaiting,
        !p.is_user && p.user_rip is None && p.user_rsp is None,
        p.stack_pointer + 160 == base + 8192,
        p.kernel_stack_base == base,
        p.pml4_phys == pml4,
        p.parent_pid is None,
        p.exit_code == 0,
        0 <= i < 8 ==> p.fd_types@[i] is Closed,
{
}

} // verus!
