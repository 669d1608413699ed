//! The init process (PID 1) collects dead processes whose parent is gone.
use vstd::prelude::*;

use crate::process::process::{Pid, Process, ProcessState, MAX_PROCESSES};
use crate::process::scheduler;
use crate::process::scheduler::{Scheduler, SchedulerView};

verus! {

/// Whether a slot holds a dead child of init.
pub open spec fn orphaned_zombie(slot: Option<Process>) -> bool {
    slot matches Some(p) && p.parent_pid == Some(1u64) && p.state == ProcessState::Zombie
}

/// The dead children of init in the first `n` slots.
pub open spec fn orphaned_zombies(procs: Seq<Option<Process>>, n: nat) -> Seq<Process>
    decreases n,
{
    if n == 0 {
        Seq::empty()
    } else {
        let front = orphaned_zombies(procs, (n - 1) as nat);
        match procs[n - 1] {
            Some(p) if orphaned_zombie(procs[n - 1]) => front.push(p),
            _ => front,
        }
    }
}

/// The console once the dead children of init in the first `n` slots have been removed.
pub open spec fn with_orphans_text(out: Seq<u8>, procs: Seq<Option<Process>>, n: nat) -> Seq<u8>
    decreases n,
{
    if n == 0 {
        out
    } else {
        let front = with_orphans_text(out, procs, (n - 1) as nat);
        if orphaned_zombie(procs[n - 1]) {
            scheduler::with_reaped_text(front, (n - 1) as u64)
        } else {
            front
        }
    }
}

/// One round of the reaper: every dead child of init is removed from the table and
/// handed back, to be released.
pub fn reap_orphans(sched: &mut Scheduler, out: &mut Vec<u8>) -> (r: Vec<Process>)
    requires
        old(sched)@.wf(),
    ensures
        final(sched)@.wf(),
        r@ == orphaned_zombies(old(sched)@.procs, MAX_PROCESSES as nat),
        final(out)@ == with_orphans_text(old(out)@, old(sched)@.procs, MAX_PROCESSES as nat),
        final(sched)@ == (SchedulerView {
            procs: Seq::new(
                32,
                |i: int|
                    if orphaned_zombie(old(sched)@.procs[i]) {
                        None
                    } else {
                        old(sched)@.procs[i]
                    },
            ),
            ..old(sched)@
        }),
{
    let ghost before = sched@;
    let mut reaped: Vec<Process> = Vec::new();
    let mut i: usize = 0;
    while i < MAX_PROCESSES
        invariant
            i <= MAX_PROCESSES,
            before == old(sched)@,
            before.wf(),
            sched@.wf(),
            sched@ == (SchedulerView { procs: sched@.procs, ..before }),
            reaped@ == orphaned_zombies(before.procs, i as nat),
            out@ == with_orphans_text(old(out)@, before.procs, i as nat),
            forall|k: int|
                0 <= k < i ==> #[trigger] sched@.procs[k] == if orphaned_zombie(before.procs[k]) {
                    None
                } else {
                    before.procs[k]
                },
            forall|k: int| i <= k < MAX_PROCESSES ==> #[trigger] sched@.procs[k] == before.procs[k],
        decreases MAX_PROCESSES - i,
    {
        match sched.processes[i] {
            Some(p) => {
                let ours: bool = match p.parent_pid {
                    Some(q) => q == 1,
                    None => false,
                };
                if ours && p.state == ProcessState::Zombie {
                    let pid: Pid = p.pid;
                    sched.reap_zombie(pid, out);
                    reaped.push(p);
                }
            },
            None => {},
        }
        i = i + 1;
    }
    assert(sched@.procs =~= Seq::new(
        32,
        |k: int|
            if orphaned_zombie(before.procs[k]) {
                None
            } else {
                before.procs[k]
            },
    ));
    reaped
}

} // verus!
