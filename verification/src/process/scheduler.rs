//! Preemptive round-robin scheduling with timer-driven preemption.
//!
//! Idle (PID 0) is never selected while any other process is ready.
use vstd::prelude::*;

use crate::memory;
use crate::process::process;
use crate::process::process::{
    Pid, Process, ProcessState, WakeReason, KERNEL_STACK_SIZE, MAX_PROCESSES,
};
use crate::serial;

verus! {

/// Time quantum in ticks (5 ticks = 50 ms at 100 Hz).
pub const DEFAULT_QUANTUM: u64 = 5;

pub struct Scheduler {
    pub processes: [Option<Process>; 32],
    /// How often each slot has been used.
    pub generations: [u32; 32],
    pub current_pid: Option<Pid>,
    pub tick_counter: u64,
    pub quantum: u64,
    pub idle_pid: Pid,
}

/// The state of the scheduler.
pub struct SchedulerView {
    pub procs: Seq<Option<Process>>,
    pub generations: Seq<u32>,
    pub current: Option<Pid>,
    pub tick: u64,
    pub quantum: u64,
    pub idle: Pid,
}

impl View for Scheduler {
    type V = SchedulerView;

    open spec fn view(&self) -> SchedulerView {
        SchedulerView {
            procs: self.processes@,
            generations: self.generations@,
            current: self.current_pid,
            tick: self.tick_counter,
            quantum: self.quantum,
            idle: self.idle_pid,
        }
    }
}

/// Whether every process stands in the slot of its PID, with a kernel stack whose top
/// has an address.
pub open spec fn table_ok(procs: Seq<Option<Process>>) -> bool {
    &&& procs.len() == MAX_PROCESSES
    &&& forall|i: int|
        0 <= i < MAX_PROCESSES ==> (#[trigger] procs[i] matches Some(p) ==> p.pid == i
            && process::stack_fits(p))
}

impl SchedulerView {
    pub open spec fn wf(self) -> bool {
        &&& table_ok(self.procs)
        &&& self.generations.len() == MAX_PROCESSES
        &&& self.idle < MAX_PROCESSES
        &&& self.current matches Some(pid) ==> pid < MAX_PROCESSES
        &&& self.quantum == DEFAULT_QUANTUM
        &&& self.tick < self.quantum
    }

    /// Whether slots can still be reused.
    pub open spec fn generations_left(self) -> bool {
        forall|i: int| 0 <= i < MAX_PROCESSES ==> #[trigger] self.generations[i] < u32::MAX
    }

    /// The stack pointer of the current process, or 0.
    pub open spec fn current_sp(self) -> u64 {
        match self.current {
            Some(pid) => stack_pointer_of(self.procs[pid as int]),
            None => 0,
        }
    }
}

pub open spec fn stack_pointer_of(slot: Option<Process>) -> u64 {
    match slot {
        Some(p) => p.stack_pointer,
        None => 0,
    }
}

/// Whether a slot holds a process in a given state.
pub open spec fn in_state(slot: Option<Process>, state: ProcessState) -> bool {
    slot matches Some(p) && p.state == state
}

/// A slot with its process, if there is one, in another state.
pub open spec fn with_state(slot: Option<Process>, state: ProcessState) -> Option<Process> {
    match slot {
        Some(p) => Some(Process { state, ..p }),
        None => None,
    }
}

/// The first free slot from `i` on.
pub open spec fn free_slot(procs: Seq<Option<Process>>, i: int) -> Option<int>
    decreases procs.len() - i,
{
    if i >= procs.len() {
        None
    } else if procs[i] is None {
        Some(i)
    } else {
        free_slot(procs, i + 1)
    }
}

/// A slot after a tick: a sleeper whose deadline has come is ready.
pub open spec fn after_sleep(slot: Option<Process>, now: u64) -> Option<Process> {
    match slot {
        Some(p) => match p.wake_reason {
            WakeReason::Sleep { deadline } if p.state == ProcessState::Blocked && now >= deadline =>
                Some(
                Process { state: ProcessState::Ready, wake_reason: WakeReason::NotWaiting, ..p },
            ),
            _ => Some(p),
        },
        None => None,
    }
}

pub open spec fn all_after_sleep(procs: Seq<Option<Process>>, now: u64) -> Seq<Option<Process>> {
    Seq::new(procs.len(), |i: int| after_sleep(procs[i], now))
}

/// The first ready process other than idle among the slots `start`, `start + 1`, ...
/// around the table, from the `i`-th of them on.
pub open spec fn next_normal(procs: Seq<Option<Process>>, idle: Pid, start: int, i: int) -> Option<
    Pid,
>
    decreases MAX_PROCESSES - i,
{
    let slot = (start + i) % MAX_PROCESSES as int;
    if i >= MAX_PROCESSES {
        None
    } else if slot != idle && in_state(procs[slot], ProcessState::Ready) {
        Some(slot as u64)
    } else {
        next_normal(procs, idle, start, i + 1)
    }
}

/// The process to run after `after`: the next ready one around the table, or idle if
/// only idle is ready.
pub open spec fn next_ready(procs: Seq<Option<Process>>, idle: Pid, after: Pid) -> Option<Pid> {
    match next_normal(procs, idle, (after + 1) % MAX_PROCESSES as int, 0) {
        Some(pid) => Some(pid),
        None => if in_state(procs[idle as int], ProcessState::Ready) {
            Some(idle)
        } else {
            None
        },
    }
}

/// The table with the current process, if it is running, back among the ready ones.
pub open spec fn preempted(s: SchedulerView) -> Seq<Option<Process>> {
    match s.current {
        Some(pid) if in_state(s.procs[pid as int], ProcessState::Running) => s.procs.update(
            pid as int,
            with_state(s.procs[pid as int], ProcessState::Ready),
        ),
        _ => s.procs,
    }
}

/// The process that comes after the current one in a table; idle if none is ready.
pub open spec fn successor(s: SchedulerView, procs: Seq<Option<Process>>) -> Pid {
    match next_ready(
        procs,
        s.idle,
        match s.current {
            Some(pid) => pid,
            None => 0,
        },
    ) {
        Some(pid) => pid,
        None => s.idle,
    }
}

/// The scheduler with process `pid` of a table running.
pub open spec fn running(s: SchedulerView, procs: Seq<Option<Process>>, pid: Pid) -> SchedulerView {
    SchedulerView {
        procs: procs.update(pid as int, with_state(procs[pid as int], ProcessState::Running)),
        current: Some(pid),
        ..s
    }
}

/// The scheduler once the current process has made way for the next.
pub open spec fn switched(s: SchedulerView) -> SchedulerView {
    running(s, preempted(s), successor(s, preempted(s)))
}

/// The scheduler after a timer tick.
pub open spec fn ticked(s: SchedulerView, now: u64) -> SchedulerView {
    let woken = SchedulerView { procs: all_after_sleep(s.procs, now), ..s };
    if s.tick + 1 >= s.quantum {
        switched(SchedulerView { tick: 0, ..woken })
    } else {
        SchedulerView { tick: (s.tick + 1) as u64, ..woken }
    }
}

/// A slot whose process, if its parent was `old_parent`, is a child of init now.
pub open spec fn reparented(slot: Option<Process>, old_parent: Pid) -> Option<Process> {
    match slot {
        Some(p) => if p.parent_pid == Some(old_parent) {
            Some(Process { parent_pid: Some(1u64), parent_generation: 1, ..p })
        } else {
            Some(p)
        },
        None => None,
    }
}

pub open spec fn all_reparented(procs: Seq<Option<Process>>, old_parent: Pid) -> Seq<
    Option<Process>,
> {
    Seq::new(procs.len(), |i: int| reparented(procs[i], old_parent))
}

/// The console once the children of `old_parent` in the first `n` slots have been handed to
/// init.
pub open spec fn with_reparented_text(
    out: Seq<u8>,
    procs: Seq<Option<Process>>,
    old_parent: Pid,
    n: nat,
) -> Seq<u8>
    decreases n,
{
    if n == 0 {
        out
    } else {
        let front = with_reparented_text(out, procs, old_parent, (n - 1) as nat);
        if procs[n - 1] matches Some(p) && p.parent_pid == Some(old_parent) {
            front + serial::text("[SCHED] Re-parented PID "@) + serial::dec_text(n - 1)
                + serial::text(" to init (PID 1)"@) + serial::line_end()
        } else {
            front
        }
    }
}

/// The console once the current process has been killed.
pub open spec fn with_killed_text(out: Seq<u8>, s: SchedulerView) -> Seq<u8> {
    match s.current {
        Some(pid) => with_reparented_text(out, s.procs, pid, MAX_PROCESSES as nat),
        None => out,
    }
}

/// The console once a process has been removed from the table.
pub open spec fn with_reaped_text(out: Seq<u8>, pid: Pid) -> Seq<u8> {
    out + serial::text("[SCHED] Reaped PID="@) + serial::dec_text(pid as int) + serial::line_end()
}

/// The console once a user process has been spawned, or not.
pub open spec fn with_spawned_text(out: Seq<u8>, pid: Option<Pid>) -> Seq<u8> {
    match pid {
        Some(pid) => out + serial::text("[SCHED] Spawned user process "@) + serial::dec_text(
            pid as int,
        ) + serial::line_end(),
        None => out,
    }
}

/// The table with the current process dead and its children handed to init.
pub open spec fn buried(s: SchedulerView) -> Seq<Option<Process>> {
    match s.current {
        Some(pid) => {
            let procs = all_reparented(s.procs, pid);
            procs.update(pid as int, with_state(procs[pid as int], ProcessState::Zombie))
        },
        None => s.procs,
    }
}

/// Whether a slot holds a dead child of `parent` of a given generation.
pub open spec fn zombie_child(slot: Option<Process>, parent: Pid, parent_gen: u32) -> bool {
    slot matches Some(p) && p.parent_pid == Some(parent) && p.parent_generation == parent_gen
        && p.state == ProcessState::Zombie
}

/// The generation of a process; 0 if there is none.
pub open spec fn generation_in(procs: Seq<Option<Process>>, pid: Option<Pid>) -> u32 {
    match pid {
        Some(p) => if p < procs.len() {
            match procs[p as int] {
                Some(q) => q.generation,
                None => 0,
            }
        } else {
            0
        },
        None => 0,
    }
}

/// What spawning a user-mode process gives: the process in the first free slot and its
/// first stack frame, or nothing if there is no slot or no kernel stack.
pub open spec fn user_spawned(
    before: SchedulerView,
    after: SchedulerView,
    r: Option<(Pid, [u64; 20])>,
    user_rip: u64,
    user_rsp: u64,
    pml4: u64,
    parent: Option<Pid>,
    stack_base: Option<u64>,
    user_cs: u16,
    user_ss: u16,
) -> bool {
    match (r, free_slot(before.procs, 1), stack_base) {
        (Some((pid, frame)), Some(slot), Some(base)) => {
            let gen = (before.generations[slot] + 1) as u32;
            &&& pid == slot
            &&& frame@ == process::first_frame(
                user_rip,
                user_cs as u64,
                user_rsp,
                user_ss as u64,
            )
            &&& after.procs[slot] matches Some(p) && p.generation == gen && process::is_new_user(
                Process { generation: 0, ..p },
                pid,
                user_rip,
                user_rsp,
                pml4,
                parent,
                generation_in(before.procs, parent),
                base,
            )
            &&& after == (SchedulerView {
                procs: before.procs.update(slot, after.procs[slot]),
                generations: before.generations.update(slot, gen),
                ..before
            })
        },
        (Some(_), _, _) => false,
        (None, slot, base) => (slot is None || base is None) && after == before,
    }
}

impl Scheduler {
    /// An empty process table.
    pub fn new() -> (r: Scheduler)
        ensures
            r@.wf(),
            r@ == (SchedulerView {
                procs: Seq::new(32, |i: int| None::<Process>),
                generations: Seq::new(32, |i: int| 0u32),
                current: None,
                tick: 0,
                quantum: DEFAULT_QUANTUM,
                idle: 0,
            }),
    {
        let r = Scheduler {
            processes: [None; 32],
            generations: [0u32; 32],
            current_pid: None,
            tick_counter: 0,
            quantum: DEFAULT_QUANTUM,
            idle_pid: 0,
        };
        assert(r@.procs =~= Seq::new(32, |i: int| None::<Process>));
        assert(r@.generations =~= Seq::new(32, |i: int| 0u32));
        r
    }

    /// Empties the process table.
    pub fn init(&mut self)
        requires
            old(self)@.wf(),
        ensures
            final(self)@.wf(),
            final(self)@ == (SchedulerView {
                procs: Seq::new(32, |i: int| None::<Process>),
                current: None,
                tick: 0,
                ..old(self)@
            }),
    {
        self.processes = [None; 32];
        self.current_pid = None;
        self.tick_counter = 0;
        assert(self@.procs =~= Seq::new(32, |i: int| None::<Process>));
    }

    /// Puts the idle process into slot 0; `None` if there was no memory for its stack.
    pub fn spawn_idle(
        &mut self,
        entry_phys: u64,
        stack_base: Option<u64>,
        pml4: u64,
        kernel_phys_start: u64,
        out: &mut Vec<u8>,
    ) -> (r: Option<(Pid, [u64; 20])>)
        requires
            old(self)@.wf(),
            stack_base matches Some(b) ==> b + KERNEL_STACK_SIZE <= u64::MAX,
        ensures
            final(self)@.wf(),
            final(out)@ == match stack_base {
                Some(base) => process::with_frame_text(
                    old(out)@,
                    entry_phys,
                    memory::kernel_virt(entry_phys, kernel_phys_start),
                    process::frame_address((base + KERNEL_STACK_SIZE) as u64),
                ) + serial::text("[SCHED] Idle process at PID 0\n"@),
                None => old(out)@,
            },
            match (r, stack_base) {
                (Some((pid, frame)), Some(base)) => {
                    &&& pid == 0
                    &&& frame@ == process::first_frame(
                        memory::kernel_virt(entry_phys, kernel_phys_start),
                        0x08,
                        (base + KERNEL_STACK_SIZE) as u64,
                        0x10,
                    )
                    &&& final(self)@.procs[0] matches Some(p) && p.generation == 1
                        && process::is_new_kernel(Process { generation: 0, ..p }, 0, base, pml4)
                    &&& final(self)@ == (SchedulerView {
                        procs: old(self)@.procs.update(0, final(self)@.procs[0]),
                        idle: 0,
                        ..old(self)@
                    })
                },
                (None, None) => final(self)@ == old(self)@,
                _ => false,
            },
    {
        match Process::new_kernel(0, entry_phys, stack_base, pml4, kernel_phys_start, out) {
            Some((p, frame)) => {
                self.processes[0] = Some(Process { generation: 1, ..p });
                self.idle_pid = 0;
                serial::write_str(out, "[SCHED] Idle process at PID 0\n");
                Some((0, frame))
            },
            None => None,
        }
    }

    /// The first free slot other than that of idle.
    fn find_free(&self) -> (r: Option<Pid>)
        ensures
            match r {
                Some(pid) => free_slot(self@.procs, 1) == Some(pid as int) && 1 <= pid
                    < MAX_PROCESSES,
                None => free_slot(self@.procs, 1) is None,
            },
    {
        let mut i: usize = 1;
        while i < MAX_PROCESSES
            invariant
                1 <= i <= MAX_PROCESSES,
                free_slot(self@.procs, 1) == free_slot(self@.procs, i as int),
            decreases MAX_PROCESSES - i,
        {
            if self.processes[i].is_none() {
                return Some(i as u64);
            }
            i = i + 1;
        }
        None
    }

    /// Spawn a kernel-mode process in the first free slot (skipping 0, idle). `None` if
    /// the process table is full or there was no memory for the stack.
    pub fn spawn_kernel(
        &mut self,
        entry_phys: u64,
        stack_base: Option<u64>,
        pml4: u64,
        kernel_phys_start: u64,
        out: &mut Vec<u8>,
    ) -> (r: Option<(Pid, [u64; 20])>)
        requires
            old(self)@.wf(),
            old(self)@.generations_left(),
            stack_base matches Some(b) ==> b + KERNEL_STACK_SIZE <= u64::MAX,
        ensures
            final(self)@.wf(),
            final(out)@ == match (free_slot(old(self)@.procs, 1), stack_base) {
                (Some(slot), Some(base)) => process::with_frame_text(
                    old(out)@,
                    entry_phys,
                    memory::kernel_virt(entry_phys, kernel_phys_start),
                    process::frame_address((base + KERNEL_STACK_SIZE) as u64),
                ) + serial::text("[SCHED] Spawned kernel process PID="@) + serial::dec_text(slot)
                    + serial::line_end(),
                _ => old(out)@,
            },
            match (r, free_slot(old(self)@.procs, 1), stack_base) {
                (Some((pid, frame)), Some(slot), Some(base)) => {
                    let gen = (old(self)@.generations[slot] + 1) as u32;
                    &&& pid == slot
                    &&& frame@ == process::first_frame(
                        memory::kernel_virt(entry_phys, kernel_phys_start),
                        0x08,
                        (base + KERNEL_STACK_SIZE) as u64,
                        0x10,
                    )
                    &&& final(self)@.procs[slot] matches Some(p) && p.generation == gen
                        && process::is_new_kernel(Process { generation: 0, ..p }, pid, base, pml4)
                    &&& final(self)@ == (SchedulerView {
                        procs: old(self)@.procs.update(slot, final(self)@.procs[slot]),
                        generations: old(self)@.generations.update(slot, gen),
                        ..old(self)@
                    })
                },
                (Some(_), _, _) => false,
                (None, slot, base) => (slot is None || base is None) && final(self)@ == old(self)@,
            },
    {
        let pid: Pid = match self.find_free() {
            Some(pid) => pid,
            None => {
                return None;
            },
        };
        let slot: usize = pid as usize;
        match Process::new_kernel(pid, entry_phys, stack_base, pml4, kernel_phys_start, out) {
            Some((p, frame)) => {
                let gen: u32 = self.generations[slot] + 1;
                self.generations[slot] = gen;
                self.processes[slot] = Some(Process { generation: gen, ..p });
                serial::write_str(out, "[SCHED] Spawned kernel process PID=");
                serial::write_u64(out, pid);
                serial::write_nl(out);
                Some((pid, frame))
            },
            None => None,
        }
    }

    /// Spawn a user-mode process in the first free slot. The generation of the parent is
    /// recorded, so that only that parent can collect it.
    pub fn spawn_user(
        &mut self,
        user_rip: u64,
        user_rsp: u64,
        pml4: u64,
        parent: Option<Pid>,
        stack_base: Option<u64>,
        user_cs: u16,
        user_ss: u16,
        out: &mut Vec<u8>,
    ) -> (r: Option<(Pid, [u64; 20])>)
        requires
            old(self)@.wf(),
            old(self)@.generations_left(),
            stack_base matches Some(b) ==> b + KERNEL_STACK_SIZE <= u64::MAX,
        ensures
            final(self)@.wf(),
            final(out)@ == with_spawned_text(
                old(out)@,
                match r {
                    Some((pid, _)) => Some(pid),
                    None => None,
                },
            ),
            user_spawned(
                old(self)@,
                final(self)@,
                r,
                user_rip,
                user_rsp,
                pml4,
                parent,
                stack_base,
                user_cs,
                user_ss,
            ),
    {
        let pid: Pid = match self.find_free() {
            Some(pid) => pid,
            None => {
                return None;
            },
        };
        let slot: usize = pid as usize;
        let parent_gen: u32 = match parent {
            Some(p) => if p < MAX_PROCESSES as u64 {
                match self.processes[p as usize] {
                    Some(q) => q.generation,
                    None => 0,
                }
            } else {
                0
            },
            None => 0,
        };
        match Process::new_user(
            pid,
            user_rip,
            user_rsp,
            pml4,
            parent,
            parent_gen,
            stack_base,
            user_cs,
            user_ss,
        ) {
            Some((p, frame)) => {
                let gen: u32 = self.generations[slot] + 1;
                self.generations[slot] = gen;
                self.processes[slot] = Some(Process { generation: gen, ..p });
                serial::write_str(out, "[SCHED] Spawned user process ");
                serial::write_u64(out, pid);
                serial::write_nl(out);
                Some((pid, frame))
            },
            None => None,
        }
    }

    /// Get the generation of a process slot.
    pub fn get_generation(&self, pid: Pid) -> (r: u32)
        ensures
            r == if pid < MAX_PROCESSES {
                self@.generations[pid as int]
            } else {
                0
            },
    {
        if pid < MAX_PROCESSES as u64 {
            self.generations[pid as usize]
        } else {
            0
        }
    }

    /// Wakes the sleepers whose deadline has come and, at the end of the quantum,
    /// switches to the next process. The stack pointer to go on with.
    pub fn on_tick(&mut self, now: u64) -> (r: u64)
        requires
            old(self)@.wf(),
        ensures
            final(self)@.wf(),
            final(self)@ == ticked(old(self)@, now),
            r == final(self)@.current_sp(),
    {
        let ghost before = self@;
        self.tick_counter = self.tick_counter + 1;
        let mut i: usize = 0;
        while i < MAX_PROCESSES
            invariant
                i <= MAX_PROCESSES,
                before == old(self)@,
                before.wf(),
                self@ == (SchedulerView {
                    procs: self@.procs,
                    tick: (before.tick + 1) as u64,
                    ..before
                }),
                forall|k: int| 0 <= k < i ==> #[trigger] self@.procs[k] == after_sleep(before.procs[k], now),
                forall|k: int|
                    i <= k < MAX_PROCESSES ==> #[trigger] self@.procs[k] == before.procs[k],
            decreases MAX_PROCESSES - i,
        {
            match self.processes[i] {
                Some(p) => {
                    if p.state == ProcessState::Blocked {
                        match p.wake_reason {
                            WakeReason::Sleep { deadline } => {
                                if now >= deadline {
                                    self.processes[i] = Some(
                                        Process {
                                            state: ProcessState::Ready,
                                            wake_reason: WakeReason::NotWaiting,
                                            ..p
                                        },
                                    );
                                }
                            },
                            _ => {},
                        }
                    }
                },
                None => {},
            }
            i = i + 1;
        }
        assert(self@.procs =~= all_after_sleep(before.procs, now));
        if self.tick_counter >= self.quantum {
            self.tick_counter = 0;
            return self.switch_next();
        }
        self.current_stack_pointer()
    }

    fn current_stack_pointer(&self) -> (r: u64)
        requires
            self@.wf(),
        ensures
            r == self@.current_sp(),
    {
        match self.current_pid {
            Some(pid) => match self.processes[pid as usize] {
                Some(p) => p.stack_pointer,
                None => 0,
            },
            None => 0,
        }
    }

    /// Find the next ready process after `after_pid` in round-robin order. Idle is only
    /// returned when no other ready process exists.
    pub fn find_next_ready(&self, after_pid: Pid) -> (r: Option<Pid>)
        requires
            self@.wf(),
            after_pid < u64::MAX,
        ensures
            r == next_ready(self@.procs, self@.idle, after_pid),
            r matches Some(pid) ==> pid < MAX_PROCESSES && in_state(
                self@.procs[pid as int],
                ProcessState::Ready,
            ),
    {
        let start: u64 = (after_pid + 1) % MAX_PROCESSES as u64;
        let mut i: u64 = 0;
        while i < MAX_PROCESSES as u64
            invariant
                i <= MAX_PROCESSES,
                start == (after_pid + 1) % MAX_PROCESSES as int,
                self@.wf(),
                next_normal(self@.procs, self@.idle, start as int, 0) == next_normal(
                    self@.procs,
                    self@.idle,
                    start as int,
                    i as int,
                ),
            decreases MAX_PROCESSES - i,
        {
            let check_pid: u64 = (start + i) % MAX_PROCESSES as u64;
            if check_pid != self.idle_pid {
                match self.processes[check_pid as usize] {
                    Some(p) => {
                        if p.state == ProcessState::Ready {
                            return Some(check_pid);
                        }
                    },
                    None => {},
                }
            }
            i = i + 1;
        }
        match self.processes[self.idle_pid as usize] {
            Some(p) => {
                if p.state == ProcessState::Ready {
                    return Some(self.idle_pid);
                }
            },
            None => {},
        }
        None
    }

    /// Puts the current process, if it is running, back among the ready ones.
    fn preempt(&mut self)
        requires
            old(self)@.wf(),
        ensures
            final(self)@.wf(),
            final(self)@ == (SchedulerView { procs: preempted(old(self)@), ..old(self)@ }),
    {
        match self.current_pid {
            Some(pid) => match self.processes[pid as usize] {
                Some(p) => {
                    if p.state == ProcessState::Running {
                        self.processes[pid as usize] = Some(
                            Process { state: ProcessState::Ready, ..p },
                        );
                    }
                },
                None => {},
            },
            None => {},
        }
    }

    /// Makes the process after the current one the running one.
    fn run_successor(&mut self) -> (r: u64)
        requires
            old(self)@.wf(),
        ensures
            final(self)@.wf(),
            final(self)@ == running(
                old(self)@,
                old(self)@.procs,
                successor(old(self)@, old(self)@.procs),
            ),
            r == final(self)@.current_sp(),
    {
        let after: Pid = match self.current_pid {
            Some(pid) => pid,
            None => 0,
        };
        let new_pid: Pid = match self.find_next_ready(after) {
            Some(pid) => pid,
            None => self.idle_pid,
        };
        match self.processes[new_pid as usize] {
            Some(p) => {
                self.processes[new_pid as usize] = Some(
                    Process { state: ProcessState::Running, ..p },
                );
            },
            None => {},
        }
        self.current_pid = Some(new_pid);
        assert(self@.procs =~= running(old(self)@, old(self)@.procs, new_pid).procs);
        self.current_stack_pointer()
    }

    fn switch_next(&mut self) -> (r: u64)
        requires
            old(self)@.wf(),
        ensures
            final(self)@.wf(),
            final(self)@ == switched(old(self)@),
            r == final(self)@.current_sp(),
    {
        self.preempt();
        self.run_successor()
    }

    /// Force-switch: always picks the next ready process, ignoring the quantum. A
    /// process that is dead or blocked stays so.
    pub fn switch_next_force(&mut self) -> (r: u64)
        requires
            old(self)@.wf(),
        ensures
            final(self)@.wf(),
            final(self)@ == switched(old(self)@),
            r == final(self)@.current_sp(),
    {
        self.preempt();
        self.run_successor()
    }

    pub fn save_current_sp(&mut self, sp: u64)
        requires
            old(self)@.wf(),
        ensures
            final(self)@.wf(),
            final(self)@ == with_saved_sp(old(self)@, sp),
    {
        match self.current_pid {
            Some(pid) => match self.processes[pid as usize] {
                Some(p) => {
                    self.processes[pid as usize] = Some(Process { stack_pointer: sp, ..p });
                },
                None => {},
            },
            None => {},
        }
        assert(self@.procs =~= with_saved_sp(old(self)@, sp).procs);
    }

    /// Makes the first process the running one and restarts the quantum. The address of
    /// its first frame.
    pub fn dispatch_first(&mut self, pid: Pid) -> (r: u64)
        requires
            old(self)@.wf(),
            pid < MAX_PROCESSES,
        ensures
            final(self)@.wf(),
            final(self)@ == (SchedulerView {
                tick: 0,
                ..running(old(self)@, old(self)@.procs, pid)
            }),
            r == final(self)@.current_sp(),
    {
        match self.processes[pid as usize] {
            Some(p) => {
                self.processes[pid as usize] = Some(
                    Process { state: ProcessState::Running, ..p },
                );
            },
            None => {},
        }
        self.current_pid = Some(pid);
        self.tick_counter = 0;
        assert(self@.procs =~= running(old(self)@, old(self)@.procs, pid).procs);
        self.current_stack_pointer()
    }

    /// Marks the current process as dead, whatever its state, hands its children to
    /// init, and goes on with the next ready process, or idle.
    pub fn kill_process(&mut self, out: &mut Vec<u8>) -> (r: u64)
        requires
            old(self)@.wf(),
        ensures
            final(self)@.wf(),
            final(out)@ == with_killed_text(old(out)@, old(self)@),
            final(self)@ == running(
                old(self)@,
                buried(old(self)@),
                successor(old(self)@, buried(old(self)@)),
            ),
            r == final(self)@.current_sp(),
    {
        match self.current_pid {
            Some(pid) => {
                self.reparent_orphans_to_init(pid, out);
                match self.processes[pid as usize] {
                    Some(p) => {
                        self.processes[pid as usize] = Some(
                            Process { state: ProcessState::Zombie, ..p },
                        );
                    },
                    None => {},
                }
            },
            None => {},
        }
        assert(self@.procs =~= buried(old(self)@));
        self.run_successor()
    }

    pub fn current_pid(&self) -> (r: Option<Pid>)
        ensures
            r == self@.current,
    {
        self.current_pid
    }

    pub fn idle_pid(&self) -> (r: Pid)
        ensures
            r == self@.idle,
    {
        self.idle_pid
    }

    pub fn current_process(&self) -> (r: Option<Process>)
        requires
            self@.wf(),
        ensures
            r == match self@.current {
                Some(pid) => self@.procs[pid as int],
                None => None,
            },
    {
        match self.current_pid {
            Some(pid) => self.processes[pid as usize],
            None => None,
        }
    }

    pub fn processes(&self) -> (r: &[Option<Process>; 32])
        ensures
            r@ == self@.procs,
    {
        &self.processes
    }

    pub fn processes_mut(&mut self) -> (r: &mut [Option<Process>; 32])
        ensures
            r@ == old(self)@.procs,
            final(self)@ == (SchedulerView { procs: final(r)@, ..old(self)@ }),
    {
        &mut self.processes
    }

    /// Check if `child_pid` is a child of `parent_pid` of the given generation.
    pub fn is_child_of(&self, child_pid: Pid, parent_pid: Pid, parent_gen: u32) -> (r: bool)
        ensures
            r == (child_pid < MAX_PROCESSES && (self@.procs[child_pid as int] matches Some(p)
                && p.parent_pid == Some(parent_pid) && p.parent_generation == parent_gen)),
    {
        if child_pid >= MAX_PROCESSES as u64 {
            return false;
        }
        match self.processes[child_pid as usize] {
            Some(p) => match p.parent_pid {
                Some(parent) => parent == parent_pid && p.parent_generation == parent_gen,
                None => false,
            },
            None => false,
        }
    }

    /// Find a dead child of the current process: its PID, the parent's PID and the exit
    /// code. Both the PID and the generation of the parent have to match.
    pub fn find_any_zombie_child(&self) -> (r: Option<(Pid, Pid, u64)>)
        requires
            self@.wf(),
        ensures
            match self@.current {
                Some(parent) => {
                    let gen = self@.generations[parent as int];
                    match r {
                        Some((child, p, code)) => {
                            &&& p == parent
                            &&& child < MAX_PROCESSES
                            &&& zombie_child(self@.procs[child as int], parent, gen)
                            &&& self@.procs[child as int] matches Some(c) && c.exit_code == code
                            &&& forall|i: int|
                                0 <= i < child ==> !zombie_child(
                                    #[trigger] self@.procs[i],
                                    parent,
                                    gen,
                                )
                        },
                        None => forall|i: int|
                            0 <= i < MAX_PROCESSES ==> !zombie_child(
                                #[trigger] self@.procs[i],
                                parent,
                                gen,
                            ),
                    }
                },
                None => r is None,
            },
    {
        let parent: Pid = match self.current_pid {
            Some(pid) => pid,
            None => {
                return None;
            },
        };
        let parent_gen: u32 = self.generations[parent as usize];
        let mut i: usize = 0;
        while i < MAX_PROCESSES
            invariant
                i <= MAX_PROCESSES,
                self@.wf(),
                self@.current == Some(parent),
                parent_gen == self@.generations[parent as int],
                forall|k: int|
                    0 <= k < i ==> !zombie_child(#[trigger] self@.procs[k], parent, parent_gen),
            decreases MAX_PROCESSES - i,
        {
            match self.processes[i] {
                Some(p) => {
                    let ours: bool = match p.parent_pid {
                        Some(q) => q == parent,
                        None => false,
                    };
                    if ours && p.parent_generation == parent_gen && p.state
                        == ProcessState::Zombie {
                        return Some((p.pid, parent, p.exit_code));
                    }
                },
                None => {},
            }
            i = i + 1;
        }
        None
    }

    /// Empties a process slot, after its exit code has been collected. What the process
    /// held is handed back, to be released.
    pub fn reap_zombie(&mut self, pid: Pid, out: &mut Vec<u8>) -> (r: Option<Process>)
        requires
            old(self)@.wf(),
            pid < MAX_PROCESSES,
        ensures
            final(self)@.wf(),
            final(out)@ == with_reaped_text(old(out)@, pid),
            r == old(self)@.procs[pid as int],
            final(self)@ == (SchedulerView {
                procs: old(self)@.procs.update(pid as int, None),
                ..old(self)@
            }),
    {
        serial::write_str(out, "[SCHED] Reaped PID=");
        serial::write_u64(out, pid);
        serial::write_nl(out);
        let p: Option<Process> = self.processes[pid as usize];
        self.processes[pid as usize] = None;
        p
    }

    /// Hands all the children of `old_parent` to PID 1 (init), whose generation is 1.
    pub fn reparent_orphans_to_init(&mut self, old_parent: Pid, out: &mut Vec<u8>)
        requires
            old(self)@.wf(),
        ensures
            final(self)@.wf(),
            final(out)@ == with_reparented_text(
                old(out)@,
                old(self)@.procs,
                old_parent,
                MAX_PROCESSES as nat,
            ),
            final(self)@ == (SchedulerView {
                procs: all_reparented(old(self)@.procs, old_parent),
                ..old(self)@
            }),
    {
        let ghost before = self@;
        let mut i: usize = 0;
        while i < MAX_PROCESSES
            invariant
                i <= MAX_PROCESSES,
                before == old(self)@,
                before.wf(),
                self@ == (SchedulerView { procs: self@.procs, ..before }),
                out@ == with_reparented_text(old(out)@, before.procs, old_parent, i as nat),
                forall|k: int|
                    0 <= k < i ==> #[trigger] self@.procs[k] == reparented(
                        before.procs[k],
                        old_parent,
                    ),
                forall|k: int|
                    i <= k < MAX_PROCESSES ==> #[trigger] self@.procs[k] == before.procs[k],
            decreases MAX_PROCESSES - i,
        {
            match self.processes[i] {
                Some(p) => {
                    let ours: bool = match p.parent_pid {
                        Some(q) => q == old_parent,
                        None => false,
                    };
                    if ours {
                        self.processes[i] = Some(
                            Process { parent_pid: Some(1), parent_generation: 1, ..p },
                        );
                        serial::write_str(out, "[SCHED] Re-parented PID ");
                        serial::write_u64(out, i as u64);
                        serial::write_str(out, " to init (PID 1)");
                        serial::write_nl(out);
                    }
                },
                None => {},
            }
            i = i + 1;
        }
        assert(self@.procs =~= all_reparented(before.procs, old_parent));
    }
}

/// The scheduler with the stack pointer of the current process saved.
pub open spec fn with_saved_sp(s: SchedulerView, sp: u64) -> SchedulerView {
    match s.current {
        Some(pid) => match s.procs[pid as int] {
            Some(p) => SchedulerView {
                procs: s.procs.update(pid as int, Some(Process { stack_pointer: sp, ..p })),
                ..s
            },
            None => s,
        },
        None => s,
    }
}

/// The name of a state.
pub open spec fn state_text(state: ProcessState) -> Seq<u8> {
    match state {
        ProcessState::Ready => serial::text("Ready"@),
        ProcessState::Running => serial::text("Running"@),
        ProcessState::Blocked => serial::text("Blocked"@),
        ProcessState::Zombie => serial::text("Zombie"@),
    }
}

/// `out` with what a blocked process waits for behind it.
pub open spec fn with_wait(out: Seq<u8>, reason: WakeReason) -> Seq<u8> {
    match reason {
        WakeReason::Sleep { deadline } => out + serial::text("sleep="@) + serial::dec_text(
            deadline as int,
        ),
        WakeReason::Keyboard => out + serial::text("kbd"@),
        WakeReason::PipeRead { pipe_idx } => out + serial::text("pipe_read="@) + serial::dec_text(
            pipe_idx as int,
        ),
        WakeReason::PipeWrite { pipe_idx } => out + serial::text("pipe_write="@)
            + serial::dec_text(pipe_idx as int),
        WakeReason::WaitForChild { child_pid } => out + serial::text("child="@)
            + serial::dec_text(child_pid as int),
        WakeReason::NotWaiting => out + serial::text("none"@),
    }
}

/// `out` with the line of a process behind it.
pub open spec fn with_process_line(out: Seq<u8>, p: Process) -> Seq<u8> {
    let head = out + serial::text("[SCHED] PID="@) + serial::dec_text(p.pid as int) + serial::text(
        " state="@,
    ) + state_text(p.state);
    let state = if p.state == ProcessState::Blocked {
        with_wait(head + serial::text("("@), p.wake_reason) + serial::text(")"@)
    } else {
        head
    };
    state + serial::text(" sp="@) + serial::hex_text(p.stack_pointer) + serial::text(" kstack="@)
        + serial::hex_text(p.kernel_stack_base) + serial::line_end()
}

/// `out` with the lines of the first `n` slots behind it.
pub open spec fn with_process_lines(out: Seq<u8>, procs: Seq<Option<Process>>, n: nat) -> Seq<u8>
    decreases n,
{
    if n == 0 {
        out
    } else {
        let front = with_process_lines(out, procs, (n - 1) as nat);
        match procs[n - 1] {
            Some(p) => with_process_line(front, p),
            None => front,
        }
    }
}

/// How many of the first `n` slots are in use.
pub open spec fn in_use(procs: Seq<Option<Process>>, n: nat) -> int
    decreases n,
{
    if n == 0 {
        0
    } else {
        in_use(procs, (n - 1) as nat) + if procs[n - 1] is Some {
            1int
        } else {
            0
        }
    }
}

/// `out` with a dump of the table behind it.
pub open spec fn with_table(out: Seq<u8>, s: SchedulerView) -> Seq<u8> {
    let head = out + serial::text("[SCHED] === PROCESS TABLE ===\n"@) + serial::text(
        "[SCHED] idle_pid="@,
    ) + serial::dec_text(s.idle as int) + serial::text(" current="@) + serial::dec_text(
        match s.current {
            Some(pid) => pid as int,
            None => 99,
        },
    ) + serial::text(" tick="@) + serial::dec_text(s.tick as int) + serial::text("/"@)
        + serial::dec_text(s.quantum as int) + serial::line_end();
    with_process_lines(head, s.procs, MAX_PROCESSES as nat) + serial::text("[SCHED] active="@)
        + serial::dec_text(in_use(s.procs, MAX_PROCESSES as nat)) + serial::text("/"@)
        + serial::dec_text(MAX_PROCESSES as int) + serial::text("\n[SCHED] === END TABLE ===\n"@)
}

fn write_process_line(out: &mut Vec<u8>, p: Process)
    ensures
        final(out)@ == with_process_line(old(out)@, p),
{
    serial::write_str(out, "[SCHED] PID=");
    serial::write_u64(out, p.pid);
    serial::write_str(out, " state=");
    match p.state {
        ProcessState::Ready => serial::write_str(out, "Ready"),
        ProcessState::Running => serial::write_str(out, "Running"),
        ProcessState::Blocked => serial::write_str(out, "Blocked"),
        ProcessState::Zombie => serial::write_str(out, "Zombie"),
    }
    if p.state == ProcessState::Blocked {
        serial::write_str(out, "(");
        match p.wake_reason {
            WakeReason::Sleep { deadline } => {
                serial::write_str(out, "sleep=");
                serial::write_u64(out, deadline);
            },
            WakeReason::Keyboard => serial::write_str(out, "kbd"),
            WakeReason::PipeRead { pipe_idx } => {
                serial::write_str(out, "pipe_read=");
                serial::write_u64(out, pipe_idx as u64);
            },
            WakeReason::PipeWrite { pipe_idx } => {
                serial::write_str(out, "pipe_write=");
                serial::write_u64(out, pipe_idx as u64);
            },
            WakeReason::WaitForChild { child_pid } => {
                serial::write_str(out, "child=");
                serial::write_u64(out, child_pid);
            },
            WakeReason::NotWaiting => serial::write_str(out, "none"),
        }
        serial::write_str(out, ")");
    }
    serial::write_str(out, " sp=");
    serial::write_hex(out, p.stack_pointer);
    serial::write_str(out, " kstack=");
    serial::write_hex(out, p.kernel_stack_base);
    serial::write_nl(out);
}

impl Scheduler {
    /// Writes the process table to the console.
    pub fn dump_table(&self, out: &mut Vec<u8>)
        ensures
            final(out)@ == with_table(old(out)@, self@),
    {
        serial::write_str(out, "[SCHED] === PROCESS TABLE ===\n");
        serial::write_str(out, "[SCHED] idle_pid=");
        serial::write_u64(out, self.idle_pid);
        serial::write_str(out, " current=");
        serial::write_u64(
            out,
            match self.current_pid {
                Some(pid) => pid,
                None => 99,
            },
        );
        serial::write_str(out, " tick=");
        serial::write_u64(out, self.tick_counter);
        serial::write_str(out, "/");
        serial::write_u64(out, self.quantum);
        serial::write_nl(out);
        let ghost head = out@;
        let mut active: u64 = 0;
        let mut i: usize = 0;
        while i < MAX_PROCESSES
            invariant
                i <= MAX_PROCESSES,
                active <= i,
                active == in_use(self@.procs, i as nat),
                out@ == with_process_lines(head, self@.procs, i as nat),
            decreases MAX_PROCESSES - i,
        {
            match self.processes[i] {
                Some(p) => {
                    active = active + 1;
                    write_process_line(out, p);
                },
                None => {},
            }
            i = i + 1;
        }
        serial::write_str(out, "[SCHED] active=");
        serial::write_u64(out, active);
        serial::write_str(out, "/");
        serial::write_u64(out, MAX_PROCESSES as u64);
        serial::write_str(out, "\n[SCHED] === END TABLE ===\n");
    }
}

/// Whether only the current process runs.
pub open spec fn only_current_runs(s: SchedulerView) -> bool {
    forall|i: int|
        0 <= i < MAX_PROCESSES && in_state(#[trigger] s.procs[i], ProcessState::Running)
            ==> s.current == Some(i as u64)
}

proof fn lemma_next_normal(procs: Seq<Option<Process>>, idle: Pid, start: int, i: int)
    requires
        procs.len() == MAX_PROCESSES,
        0 <= start < MAX_PROCESSES,
        0 <= i <= MAX_PROCESSES,
    ensures
        match next_normal(procs, idle, start, i) {
            Some(pid) => exists|k: int|
                #![trigger (start + k) % (MAX_PROCESSES as int)]
                {
                    &&& i <= k < MAX_PROCESSES
                    &&& pid == (start + k) % (MAX_PROCESSES as int)
                    &&& pid != idle
                    &&& pid < MAX_PROCESSES
                    &&& in_state(procs[pid as int], ProcessState::Ready)
                },
            None => forall|k: int|
                #![trigger (start + k) % (MAX_PROCESSES as int)]
                i <= k < MAX_PROCESSES ==> (start + k) % (MAX_PROCESSES as int) == idle
                    || !in_state(
                    procs[(start + k) % (MAX_PROCESSES as int)],
                    ProcessState::Ready,
                ),
        },
    decreases MAX_PROCESSES - i,
{
    if i < MAX_PROCESSES {
        lemma_next_normal(procs, idle, start, i + 1);
        let slot = (start + i) % (MAX_PROCESSES as int);
        assert(0 <= slot < MAX_PROCESSES);
    }
}

/// Idle is never selected while any other process is ready, and whatever is selected is
/// ready.
pub proof fn law_idle_last(procs: Seq<Option<Process>>, idle: Pid, after: Pid, other: int)
    requires
        table_ok(procs),
        idle < MAX_PROCESSES,
    ensures
        next_ready(procs, idle, after) matches Some(pid) ==> pid < MAX_PROCESSES && in_state(
            procs[pid as int],
            ProcessState::Ready,
        ),
        0 <= other < MAX_PROCESSES && other != idle && in_state(procs[other], ProcessState::Ready)
            ==> (next_ready(procs, idle, after) matches Some(pid) && pid != idle),
{
    let start = (after + 1) % MAX_PROCESSES as int;
    lemma_next_normal(procs, idle, start, 0);
    if 0 <= other < MAX_PROCESSES && other != idle && in_state(procs[other], ProcessState::Ready) {
        let k = if other >= start {
            other - start
        } else {
            other - start + MAX_PROCESSES
        };
        assert((start + k) % (MAX_PROCESSES as int) == other);
    }
}

/// A switch leaves at most one process running, the current one; it keeps the table in
/// order, and no process other than the one that stops and the one that starts changes.
pub proof fn law_switch_keeps_one_running(s: SchedulerView, other: int)
    requires
        s.wf(),
        only_current_runs(s),
        0 <= other < MAX_PROCESSES,
    ensures
        switched(s).wf(),
        only_current_runs(switched(s)),
        switched(s).current matches Some(pid) && (s.procs[pid as int] is Some ==> in_state(
            switched(s).procs[pid as int],
            ProcessState::Running,
        )),
        switched(s).current != Some(other as u64) && s.current != Some(other as u64)
            ==> switched(s).procs[other] == s.procs[other],
{
    let procs = preempted(s);
    law_idle_last(
        procs,
        s.idle,
        match s.current {
            Some(pid) => pid,
            None => 0,
        },
        0,
    );
}

/// A tick keeps the table in order and at most the current process running; in the
/// middle of a quantum the current process stays the current one.
pub proof fn law_tick_keeps_one_running(s: SchedulerView, now: u64)
    requires
        s.wf(),
        only_current_runs(s),
    ensures
        ticked(s, now).wf(),
        only_current_runs(ticked(s, now)),
        s.tick + 1 < s.quantum ==> ticked(s, now).current == s.current,
{
    let woken = SchedulerView { procs: all_after_sleep(s.procs, now), ..s };
    assert(only_current_runs(woken)) by {
        assert forall|i: int|
            0 <= i < MAX_PROCESSES && in_state(
                #[trigger] woken.procs[i],
                ProcessState::Running,
            ) implies woken.current == Some(i as u64) by {
            assert(in_state(s.procs[i], ProcessState::Running));
        }
    }
    law_switch_keeps_one_running(SchedulerView { tick: 0, ..woken }, 0);
}

/// The scheduler after some timer ticks, at the given times.
pub open spec fn after_ticks(s: SchedulerView, times: Seq<u64>) -> SchedulerView
    decreases times.len(),
{
    if times.len() == 0 {
        s
    } else {
        ticked(after_ticks(s, times.drop_last()), times.last())
    }
}

/// A process runs five ticks: counted from the start of its quantum, four ticks leave it
/// the current process, and the fifth switches to the next one, with a new quantum.
pub proof fn law_five_ticks(s: SchedulerView, times: Seq<u64>)
    requires
        s.wf(),
        s.tick == 0,
        times.len() <= 5,
    ensures
        times.len() < 5 ==> after_ticks(s, times).current == s.current && after_ticks(s, times).tick
            == times.len(),
        times.len() == 5 ==> after_ticks(s, times) == switched(
            SchedulerView {
                procs: all_after_sleep(after_ticks(s, times.drop_last()).procs, times.last()),
                tick: 0,
                ..s
            },
        ),
        times.len() == 5 ==> after_ticks(s, times).tick == 0,
        after_ticks(s, times).quantum == s.quantum,
        after_ticks(s, times).idle == s.idle,
        after_ticks(s, times).generations == s.generations,
    decreases times.len(),
{
    if times.len() > 0 {
        law_five_ticks(s, times.drop_last());
    }
}

/// A tick wakes exactly the sleepers whose time has come: every other blocked process
/// stays as it is.
pub proof fn law_tick_wakes_sleepers(s: SchedulerView, now: u64, i: int)
    requires
        s.wf(),
        0 <= i < MAX_PROCESSES,
        in_state(s.procs[i], ProcessState::Blocked),
    ensures
        ({
            let woken = all_after_sleep(s.procs, now)[i];
            match s.procs[i].unwrap().wake_reason {
                WakeReason::Sleep { deadline } if now >= deadline => woken matches Some(p)
                    && p.state == ProcessState::Ready && p.wake_reason == WakeReason::NotWaiting,
                _ => woken == s.procs[i],
            }
        }),
{
}

/// The process that is killed is dead afterwards, unless it was idle and nothing else
/// was left to run; every child it had is a child of init.
pub proof fn law_kill_buries(s: SchedulerView, pid: Pid, child: int)
    requires
        s.wf(),
        s.current == Some(pid),
        s.procs[pid as int] is Some,
        0 <= child < MAX_PROCESSES,
    ensures
        ({
            let after = running(s, buried(s), successor(s, buried(s)));
            &&& after.wf()
            &&& after.current == Some(pid) ==> pid == s.idle
            &&& after.current != Some(pid) ==> in_state(
                after.procs[pid as int],
                ProcessState::Zombie,
            )
            &&& (s.procs[child] matches Some(c) && c.parent_pid == Some(pid)) ==> (
            after.procs[child] matches Some(d) && d.parent_pid == Some(1u64)
                && d.parent_generation == 1)
        }),
{
    law_idle_last(buried(s), s.idle, pid, 0);
}

/// How many slots lie between process `after` and slot `slot`, going up and around the table.
pub open spec fn slots_between(after: Pid, slot: int) -> int {
    (slot - after - 1) % 32
}

/// Round robin: the process that runs after another is the next ready one, going up from it
/// and around the table. No ready process lies between the two, idle apart, which is taken
/// only if no other process is ready. If any process is ready, one is taken.
pub proof fn law_round_robin(procs: Seq<Option<Process>>, idle: Pid, after: Pid, other: int)
    requires
        table_ok(procs),
        idle < 32,
        0 <= other < 32,
        procs[other] matches Some(p) && p.state == ProcessState::Ready,
    ensures
        next_ready(procs, idle, after) matches Some(pid) && {
            &&& pid < 32
            &&& procs[pid as int] matches Some(p) && p.state == ProcessState::Ready
            &&& other != idle ==> pid != idle && slots_between(after, pid as int) <= slots_between(
                after,
                other,
            )
        },
{
    let start = (after + 1) % MAX_PROCESSES as int;
    law_idle_last(procs, idle, after, other);
    if other != idle {
        lemma_first_around(procs, idle, start, 0, other);
        lemma_between(after, other);
        let pid = next_ready(procs, idle, after).unwrap();
        lemma_between(after, pid as int);
    }
}

proof fn lemma_between(after: Pid, slot: int)
    requires
        0 <= slot < 32,
    ensures
        slots_between(after, slot) == (slot - (after + 1) % 32) % 32,
{
    let a = after as int + 1;
    assert(a == 32 * (a / 32) + a % 32);
    assert((slot - a) % 32 == (slot - a % 32) % 32) by {
        vstd::arithmetic::div_mod::lemma_mod_multiples_vanish(-(a / 32), slot - a % 32, 32);
    }
}

proof fn lemma_first_around(
    procs: Seq<Option<Process>>,
    idle: Pid,
    start: int,
    i: int,
    other: int,
)
    requires
        0 <= start < 32,
        0 <= i <= (other - start) % 32,
        0 <= other < 32,
        other != idle,
        in_state(procs[other], ProcessState::Ready),
    ensures
        next_normal(procs, idle, start, i) matches Some(pid) && (pid - start) % 32 <= (other
            - start) % 32 && pid < 32,
    decreases 32 - i,
{
    let slot = (start + i) % 32;
    assert((slot - start) % 32 == i);
    if slot == other {
        assert(i == (other - start) % 32);
    } else if !(slot != idle && in_state(procs[slot], ProcessState::Ready)) {
        assert(i != (other - start) % 32);
        lemma_first_around(procs, idle, start, i + 1, other);
    }
}

/// The process that is switched to is the one that comes next after the current one, among
/// the ready processes and the current one if it was running.
pub proof fn law_switch_goes_round(s: SchedulerView, other: int)
    requires
        s.wf(),
        0 <= other < 32,
        other != s.idle,
        s.procs[other] matches Some(p) && (p.state == ProcessState::Ready || (p.state
            == ProcessState::Running && s.current == Some(other as u64))),
    ensures
        switched(s).current matches Some(pid) && pid != s.idle && slots_between(
            match s.current {
                Some(c) => c,
                None => 0,
            },
            pid as int,
        ) <= slots_between(
            match s.current {
                Some(c) => c,
                None => 0,
            },
            other,
        ),
{
    let procs = preempted(s);
    assert(table_ok(procs));
    law_round_robin(
        procs,
        s.idle,
        match s.current {
            Some(c) => c,
            None => 0,
        },
        other,
    );
}

} // verus!
