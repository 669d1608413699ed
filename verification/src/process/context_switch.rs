//! What a context switch decides: which stack to go on with, which page table to load,
//! and what to free once the dying stack is left.
use vstd::prelude::*;

use crate::process::pipe;
use crate::process::pipe::PipeTable;
use crate::process::process::{Pid, Process, ProcessState, KERNEL_STACK_SIZE, MAX_PROCESSES};
use crate::process::scheduler;
use crate::process::scheduler::{Scheduler, SchedulerView};
use crate::process::wake;
use crate::serial;

verus! {

/// Places for the resources of dead processes.
pub const MAX_DEFERRED: usize = 8;

/// What a dead process leaves behind: its kernel stack, its page table, and whether it
/// was a user process.
#[derive(Debug, Clone, Copy, PartialEq, Eq, Structural)]
pub struct Remains {
    pub kernel_stack: u64,
    pub pml4: u64,
    pub is_user: bool,
}

/// Resources that wait to be freed. They cannot be freed while the processor still runs
/// on the dead process's stack.
pub struct DeferredFree {
    pub slots: Vec<Remains>,
}

impl DeferredFree {
    pub open spec fn wf(&self) -> bool {
        self.slots@.len() <= MAX_DEFERRED
    }

    pub fn new() -> (r: DeferredFree)
        ensures
            r.wf(),
            r.slots@ == Seq::<Remains>::empty(),
    {
        DeferredFree { slots: Vec::new() }
    }

    /// Enqueue the resources of a dead process. `false` if all places are taken; then
    /// nothing can be freed safely and the system has to halt.
    pub fn defer_free(&mut self, kernel_stack: u64, pml4: u64, is_user: bool) -> (r: bool)
        requires
            old(self).wf(),
        ensures
            final(self).wf(),
            r == (old(self).slots@.len() < MAX_DEFERRED),
            final(self).slots@ == if r {
                old(self).slots@.push(Remains { kernel_stack, pml4, is_user })
            } else {
                old(self).slots@
            },
    {
        if self.slots.len() < MAX_DEFERRED {
            self.slots.push(Remains { kernel_stack, pml4, is_user });
            true
        } else {
            false
        }
    }

    /// Take all the enqueued resources, in order.
    pub fn drain_deferred_free(&mut self) -> (r: Vec<Remains>)
        requires
            old(self).wf(),
        ensures
            final(self).wf(),
            r@ == old(self).slots@,
            final(self).slots@ == Seq::<Remains>::empty(),
    {
        let mut taken: Vec<Remains> = Vec::new();
        taken.append(&mut self.slots);
        assert(taken@ =~= old(self).slots@);
        taken
    }
}

/// How to free the resources of one dead process.
#[derive(Debug, Clone, Copy, PartialEq, Eq, Structural)]
pub struct FreePlan {
    /// Whether the kernel page table has to be loaded first, and the old one after.
    pub switch_tables: bool,
    /// The user address space to free.
    pub free_space: Option<u64>,
    /// The kernel stack to free.
    pub free_stack: Option<u64>,
}

/// Freeing happens on the kernel page table. Only user processes have an address space
/// of their own.
pub fn plan_free(remains: Remains, cr3: u64, kernel_pml4: u64) -> (r: FreePlan)
    ensures
        r == (FreePlan {
            switch_tables: cr3 != kernel_pml4,
            free_space: if remains.is_user && remains.pml4 != 0 {
                Some(remains.pml4)
            } else {
                None
            },
            free_stack: if remains.kernel_stack != 0 {
                Some(remains.kernel_stack)
            } else {
                None
            },
        }),
{
    FreePlan {
        switch_tables: cr3 != kernel_pml4,
        free_space: if remains.is_user && remains.pml4 != 0 {
            Some(remains.pml4)
        } else {
            None
        },
        free_stack: if remains.kernel_stack != 0 {
            Some(remains.kernel_stack)
        } else {
            None
        },
    }
}

/// What the interrupt handler does once the scheduler has decided.
#[derive(Debug, Clone, Copy, PartialEq, Eq, Structural)]
pub enum Decision {
    /// Go on with the stack at `sp`.
    Resume {
        sp: u64,
        /// Page table to load now.
        load_cr3: Option<u64>,
        /// Page table to load once the new stack is in use.
        deferred_cr3: Option<u64>,
        /// Kernel stack for the next entry from user mode.
        rsp0: Option<u64>,
        /// The process whose FPU state is to be restored.
        fpu_owner: Option<Pid>,
    },
    /// No stack to go on with.
    Halt,
}

/// The page table that a process continues with: the one it was preempted on, or its
/// own.
pub open spec fn target_table(p: Process) -> u64 {
    if p.saved_cr3 != 0 {
        p.saved_cr3
    } else {
        p.pml4_phys
    }
}

/// The top of the kernel stack of a process.
pub open spec fn stack_top(p: Process) -> u64 {
    (p.kernel_stack_base + KERNEL_STACK_SIZE) as u64
}

/// The decision to go on with the current process of the scheduler at `sp`.
pub open spec fn resume_current(s: SchedulerView, sp: u64, cr3: u64) -> Decision {
    match s.current {
        Some(pid) => match s.procs[pid as int] {
            Some(p) => Decision::Resume {
                sp,
                load_cr3: if cr3 != target_table(p) {
                    Some(target_table(p))
                } else {
                    None
                },
                deferred_cr3: None,
                rsp0: Some(stack_top(p)),
                fpu_owner: Some(pid),
            },
            None => Decision::Resume {
                sp,
                load_cr3: None,
                deferred_cr3: None,
                rsp0: None,
                fpu_owner: None,
            },
        },
        None => Decision::Resume {
            sp,
            load_cr3: None,
            deferred_cr3: None,
            rsp0: None,
            fpu_owner: None,
        },
    }
}

/// The stack pointer to go on with: a process without one is replaced by idle, and
/// without idle the system halts.
pub open spec fn with_fallback(s: SchedulerView, d: Decision) -> Decision {
    match d {
        Decision::Resume { sp, load_cr3, deferred_cr3, rsp0, fpu_owner } if sp == 0 => {
            let idle_sp = scheduler::stack_pointer_of(s.procs[s.idle as int]);
            if idle_sp != 0 {
                Decision::Resume { sp: idle_sp, load_cr3, deferred_cr3, rsp0, fpu_owner }
            } else {
                Decision::Halt
            }
        },
        _ => d,
    }
}

fn resume(sched: &Scheduler, sp: u64, cr3: u64) -> (r: Decision)
    requires
        sched@.wf(),
    ensures
        r == resume_current(sched@, sp, cr3),
{
    match sched.current_process() {
        Some(p) => {
            let target: u64 = if p.saved_cr3 != 0 {
                p.saved_cr3
            } else {
                p.pml4_phys
            };
            Decision::Resume {
                sp,
                load_cr3: if cr3 != target {
                    Some(target)
                } else {
                    None
                },
                deferred_cr3: None,
                rsp0: Some(p.kernel_stack_base + KERNEL_STACK_SIZE),
                fpu_owner: sched.current_pid(),
            }
        },
        None => Decision::Resume {
            sp,
            load_cr3: None,
            deferred_cr3: None,
            rsp0: None,
            fpu_owner: None,
        },
    }
}

/// Where a switch was asked for.
#[derive(Debug, Clone, Copy, PartialEq, Eq, Structural)]
pub enum Switch {
    Timer,
    Forced,
}

/// The console once the stack pointer to go on with has been settled: a process without one
/// is noted, with the whole table, and so is it that idle has none either.
pub open spec fn with_fallback_text(
    out: Seq<u8>,
    s: SchedulerView,
    d: Decision,
    at: Switch,
) -> Seq<u8> {
    match d {
        Decision::Resume { sp, .. } if sp == 0 => {
            let fatal = match at {
                Switch::Timer => out + serial::text(
                    "[SCHED] FATAL: new_sp=0 in schedule() for PID="@,
                ) + serial::dec_text(
                    match s.current {
                        Some(pid) => pid as int,
                        None => 99,
                    },
                ) + serial::line_end(),
                Switch::Forced => out + serial::text(
                    "[SCHED] FATAL: new_sp=0 in force_switch\n"@,
                ),
            };
            let listed = scheduler::with_table(fatal, s);
            if scheduler::stack_pointer_of(s.procs[s.idle as int]) != 0 {
                listed
            } else {
                match at {
                    Switch::Timer => listed + serial::text(
                        "[SCHED] HALT: no idle SP available\n"@,
                    ),
                    Switch::Forced => listed + serial::text(
                        "[SCHED] HALT: no idle SP available in force_switch\n"@,
                    ),
                }
            }
        },
        _ => out,
    }
}

fn fall_back(sched: &Scheduler, d: Decision, at: Switch, out: &mut Vec<u8>) -> (r: Decision)
    requires
        sched@.wf(),
    ensures
        r == with_fallback(sched@, d),
        final(out)@ == with_fallback_text(old(out)@, sched@, d, at),
{
    match d {
        Decision::Resume { sp, load_cr3, deferred_cr3, rsp0, fpu_owner } => {
            if sp != 0 {
                return d;
            }
            match at {
                Switch::Timer => {
                    serial::write_str(out, "[SCHED] FATAL: new_sp=0 in schedule() for PID=");
                    serial::write_u64(
                        out,
                        match sched.current_pid() {
                            Some(pid) => pid,
                            None => 99,
                        },
                    );
                    serial::write_nl(out);
                },
                Switch::Forced => {
                    serial::write_str(out, "[SCHED] FATAL: new_sp=0 in force_switch\n");
                },
            }
            sched.dump_table(out);
            let idle_sp: u64 = match sched.processes[sched.idle_pid as usize] {
                Some(p) => p.stack_pointer,
                None => 0,
            };
            if idle_sp != 0 {
                Decision::Resume { sp: idle_sp, load_cr3, deferred_cr3, rsp0, fpu_owner }
            } else {
                match at {
                    Switch::Timer => {
                        serial::write_str(out, "[SCHED] HALT: no idle SP available\n");
                    },
                    Switch::Forced => {
                        serial::write_str(
                            out,
                            "[SCHED] HALT: no idle SP available in force_switch\n",
                        );
                    },
                }
                Decision::Halt
            }
        },
        Decision::Halt => d,
    }
}

/// The first dispatch: the boot stack is still in use, so the page table is loaded only
/// once the new stack is.
pub open spec fn first_dispatch(s: SchedulerView, pid: Pid, cr3: u64) -> Decision {
    match s.procs[pid as int] {
        Some(p) => Decision::Resume {
            sp: p.stack_pointer,
            load_cr3: None,
            deferred_cr3: if cr3 != p.pml4_phys {
                Some(p.pml4_phys)
            } else {
                None
            },
            rsp0: Some(stack_top(p)),
            fpu_owner: Some(pid),
        },
        None => Decision::Resume {
            sp: 0,
            load_cr3: None,
            deferred_cr3: None,
            rsp0: None,
            fpu_owner: None,
        },
    }
}

/// The scheduler and the decision after a timer interrupt.
pub open spec fn schedule_outcome(
    s: SchedulerView,
    pipes: Seq<Option<pipe::Pipe>>,
    saved_rsp: u64,
    now: u64,
    wake_pending: bool,
    cr3: u64,
) -> (SchedulerView, Decision) {
    let awake = if wake_pending {
        wake::woken(s, pipes)
    } else {
        s
    };
    match awake.current {
        None => match scheduler::next_ready(awake.procs, awake.idle, 0) {
            Some(pid) => {
                let started = SchedulerView {
                    tick: 0,
                    ..scheduler::running(awake, awake.procs, pid)
                };
                (started, first_dispatch(started, pid, cr3))
            },
            None => (
                awake,
                Decision::Resume {
                    sp: saved_rsp,
                    load_cr3: None,
                    deferred_cr3: None,
                    rsp0: None,
                    fpu_owner: None,
                },
            ),
        },
        Some(_) => {
            let after = scheduler::ticked(scheduler::with_saved_sp(awake, saved_rsp), now);
            (after, with_fallback(after, resume_current(after, after.current_sp(), cr3)))
        },
    }
}

/// The console after a timer interrupt.
pub open spec fn schedule_text(
    out: Seq<u8>,
    s: SchedulerView,
    pipes: Seq<Option<pipe::Pipe>>,
    saved_rsp: u64,
    now: u64,
    wake_pending: bool,
    cr3: u64,
) -> Seq<u8> {
    let awake = if wake_pending {
        wake::woken(s, pipes)
    } else {
        s
    };
    match awake.current {
        None => out,
        Some(_) => {
            let after = scheduler::ticked(scheduler::with_saved_sp(awake, saved_rsp), now);
            with_fallback_text(
                out,
                after,
                resume_current(after, after.current_sp(), cr3),
                Switch::Timer,
            )
        },
    }
}

/// The timer interrupt: wakes whoever an interrupt flagged, dispatches the first process
/// or gives the current one its tick. `now` is the tick count, `cr3` the page table that
/// is loaded.
pub fn schedule(
    sched: &mut Scheduler,
    pipes: &PipeTable,
    saved_rsp: u64,
    now: u64,
    wake_pending: bool,
    cr3: u64,
    out: &mut Vec<u8>,
) -> (r: Decision)
    requires
        old(sched)@.wf(),
    ensures
        final(sched)@.wf(),
        final(out)@ == schedule_text(
            old(out)@,
            old(sched)@,
            pipes.slots@,
            saved_rsp,
            now,
            wake_pending,
            cr3,
        ),
        (final(sched)@, r) == schedule_outcome(
            old(sched)@,
            pipes.slots@,
            saved_rsp,
            now,
            wake_pending,
            cr3,
        ),
{
    if wake_pending {
        wake::keyboard_wake(sched, pipes);
    }
    if sched.current_pid().is_none() {
        match sched.find_next_ready(0) {
            Some(first_pid) => {
                let sp: u64 = sched.dispatch_first(first_pid);
                return match sched.current_process() {
                    Some(p) => Decision::Resume {
                        sp,
                        load_cr3: None,
                        deferred_cr3: if cr3 != p.pml4_phys {
                            Some(p.pml4_phys)
                        } else {
                            None
                        },
                        rsp0: Some(p.kernel_stack_base + KERNEL_STACK_SIZE),
                        fpu_owner: Some(first_pid),
                    },
                    None => Decision::Resume {
                        sp,
                        load_cr3: None,
                        deferred_cr3: None,
                        rsp0: None,
                        fpu_owner: None,
                    },
                };
            },
            None => {
                return Decision::Resume {
                    sp: saved_rsp,
                    load_cr3: None,
                    deferred_cr3: None,
                    rsp0: None,
                    fpu_owner: None,
                };
            },
        }
    }
    sched.save_current_sp(saved_rsp);
    let new_sp: u64 = sched.on_tick(now);
    let d: Decision = resume(sched, new_sp, cr3);
    fall_back(sched, d, Switch::Timer, out)
}

/// What the current process leaves behind if it is dead.
pub open spec fn remains_if_dead(s: SchedulerView) -> Option<Remains> {
    match s.current {
        Some(pid) => match s.procs[pid as int] {
            Some(p) if p.state == ProcessState::Zombie && (p.kernel_stack_base != 0 || p.pml4_phys
                != 0) => Some(
                Remains {
                    kernel_stack: p.kernel_stack_base,
                    pml4: p.pml4_phys,
                    is_user: p.is_user,
                },
            ),
            _ => None,
        },
        None => None,
    }
}

/// The table with the resources of a process given up.
pub open spec fn stripped(procs: Seq<Option<Process>>, pid: Pid) -> Seq<Option<Process>> {
    match procs[pid as int] {
        Some(p) => procs.update(
            pid as int,
            Some(Process { kernel_stack_base: 0, pml4_phys: 0, ..p }),
        ),
        None => procs,
    }
}

/// The scheduler, the queue of resources and the decision once remains of the process
/// `pid` have been put aside.
pub open spec fn put_aside(
    s: SchedulerView,
    queue: Seq<Remains>,
    pid: Pid,
    remains: Option<Remains>,
    d: Decision,
) -> (SchedulerView, Seq<Remains>, Decision) {
    match remains {
        Some(left) => if queue.len() < MAX_DEFERRED {
            (SchedulerView { procs: stripped(s.procs, pid), ..s }, queue.push(left), d)
        } else {
            (s, queue, Decision::Halt)
        },
        None => (s, queue, d),
    }
}

/// The console once remains have been put aside: where there is no place left for them,
/// nothing can be freed safely.
pub open spec fn with_aside_text(out: Seq<u8>, queue: Seq<Remains>, remains: Option<Remains>) -> Seq<
    u8,
> {
    match remains {
        Some(left) if queue.len() >= MAX_DEFERRED => out + serial::text(
            "[SCHED] PANIC: deferred slots full, cannot free resources safely\n"@,
        ) + serial::text("  kstack=0x"@) + serial::hex_text(left.kernel_stack) + serial::text(
            " pml4=0x"@,
        ) + serial::hex_text(left.pml4) + serial::line_end(),
        _ => out,
    }
}

fn set_aside(
    sched: &mut Scheduler,
    deferred: &mut DeferredFree,
    pid: Pid,
    remains: Option<Remains>,
    d: Decision,
    out: &mut Vec<u8>,
) -> (r: Decision)
    requires
        old(sched)@.wf(),
        old(deferred).wf(),
        remains is Some ==> pid < MAX_PROCESSES,
    ensures
        final(out)@ == with_aside_text(old(out)@, old(deferred).slots@, remains),
        final(sched)@.wf(),
        final(deferred).wf(),
        (final(sched)@, final(deferred).slots@, r) == put_aside(
            old(sched)@,
            old(deferred).slots@,
            pid,
            remains,
            d,
        ),
{
    match remains {
        Some(left) => {
            if !deferred.defer_free(left.kernel_stack, left.pml4, left.is_user) {
                serial::write_str(
                    out,
                    "[SCHED] PANIC: deferred slots full, cannot free resources safely\n",
                );
                serial::write_str(out, "  kstack=0x");
                serial::write_hex(out, left.kernel_stack);
                serial::write_str(out, " pml4=0x");
                serial::write_hex(out, left.pml4);
                serial::write_nl(out);
                return Decision::Halt;
            }
            match sched.processes[pid as usize] {
                Some(p) => {
                    sched.processes[pid as usize] = Some(
                        Process { kernel_stack_base: 0, pml4_phys: 0, ..p },
                    );
                },
                None => {},
            }
            assert(sched@.procs =~= stripped(old(sched)@.procs, pid));
            d
        },
        None => d,
    }
}

/// A switch that a system call asks for: the next process runs whatever is left of the
/// quantum. If the current process is dead, its resources are put aside.
pub fn schedule_force(
    sched: &mut Scheduler,
    deferred: &mut DeferredFree,
    saved_rsp: u64,
    cr3: u64,
    out: &mut Vec<u8>,
) -> (r: Decision)
    requires
        old(sched)@.wf(),
        old(deferred).wf(),
    ensures
        final(sched)@.wf(),
        final(deferred).wf(),
        ({
            let saved = scheduler::with_saved_sp(old(sched)@, saved_rsp);
            let after = scheduler::switched(saved);
            let aside = put_aside(
                after,
                old(deferred).slots@,
                old(sched)@.current.unwrap(),
                remains_if_dead(saved),
                resume_current(after, after.current_sp(), cr3),
            );
            &&& final(sched)@ == aside.0
            &&& final(deferred).slots@ == aside.1
            &&& r == with_fallback(aside.0, aside.2)
            &&& final(out)@ == with_fallback_text(
                with_aside_text(old(out)@, old(deferred).slots@, remains_if_dead(saved)),
                aside.0,
                aside.2,
                Switch::Forced,
            )
        }),
{
    sched.save_current_sp(saved_rsp);
    let old_pid: Pid = match sched.current_pid() {
        Some(pid) => pid,
        None => 0,
    };
    let remains: Option<Remains> = match sched.current_process() {
        Some(p) => if p.state == ProcessState::Zombie && (p.kernel_stack_base != 0 || p.pml4_phys
            != 0) {
            Some(
                Remains {
                    kernel_stack: p.kernel_stack_base,
                    pml4: p.pml4_phys,
                    is_user: p.is_user,
                },
            )
        } else {
            None
        },
        None => None,
    };
    let new_sp: u64 = sched.switch_next_force();
    let d: Decision = resume(sched, new_sp, cr3);
    let d: Decision = set_aside(sched, deferred, old_pid, remains, d, out);
    fall_back(sched, d, Switch::Forced, out)
}

/// What the current process leaves behind when it is killed.
pub open spec fn remains_of_current(s: SchedulerView) -> Option<Remains> {
    match s.current {
        Some(pid) => match s.procs[pid as int] {
            Some(p) if p.kernel_stack_base != 0 || p.pml4_phys != 0 => Some(
                Remains {
                    kernel_stack: p.kernel_stack_base,
                    pml4: p.pml4_phys,
                    is_user: p.is_user,
                },
            ),
            _ => None,
        },
        None => None,
    }
}

/// Kills the current process after a fault and goes on with the next one. Its resources
/// are put aside.
pub fn kill_process(
    sched: &mut Scheduler,
    deferred: &mut DeferredFree,
    cr3: u64,
    out: &mut Vec<u8>,
) -> (r: Decision)
    requires
        old(sched)@.wf(),
        old(deferred).wf(),
    ensures
        final(sched)@.wf(),
        final(deferred).wf(),
        ({
            let s = old(sched)@;
            let procs = scheduler::buried(s);
            let after = scheduler::running(s, procs, scheduler::successor(s, procs));
            &&& (final(sched)@, final(deferred).slots@, r) == put_aside(
                after,
                old(deferred).slots@,
                s.current.unwrap(),
                remains_of_current(s),
                resume_current(after, after.current_sp(), cr3),
            )
            &&& final(out)@ == with_aside_text(
                scheduler::with_killed_text(old(out)@, s),
                old(deferred).slots@,
                remains_of_current(s),
            )
        }),
{
    let old_pid: Pid = match sched.current_pid() {
        Some(pid) => pid,
        None => 0,
    };
    let remains: Option<Remains> = match sched.current_process() {
        Some(p) => if p.kernel_stack_base != 0 || p.pml4_phys != 0 {
            Some(
                Remains {
                    kernel_stack: p.kernel_stack_base,
                    pml4: p.pml4_phys,
                    is_user: p.is_user,
                },
            )
        } else {
            None
        },
        None => None,
    };
    let new_sp: u64 = sched.kill_process(out);
    let d: Decision = resume(sched, new_sp, cr3);
    set_aside(sched, deferred, old_pid, remains, d, out)
}

/// Nothing that waits to be freed belongs to the process that is resumed: the resources
/// of a dead process are given up in the table as soon as they are queued.
pub proof fn law_queued_is_given_up(
    s: SchedulerView,
    queue: Seq<Remains>,
    pid: Pid,
    remains: Option<Remains>,
    d: Decision,
)
    requires
        s.wf(),
        pid < MAX_PROCESSES,
    ensures
        ({
            let (after, queued, _) = put_aside(s, queue, pid, remains, d);
            queued.len() > queue.len() ==> {
                &&& remains is Some
                &&& queued == queue.push(remains.unwrap())
                &&& after.procs[pid as int] matches Some(p) ==> p.kernel_stack_base == 0
                    && p.pml4_phys == 0
            }
        }),
{
}

} // verus!
