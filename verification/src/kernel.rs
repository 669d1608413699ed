//! What the kernel decides while it starts: where the interrupt controllers are, which
//! processes stay, and which programs run.
use vstd::prelude::*;

use crate::acpi::madt::MadtInfo;
use crate::interrupts::{DEFAULT_IOAPIC, DEFAULT_LAPIC};
use crate::process::process::{Process, MAX_PROCESSES};
use crate::process::scheduler::{Scheduler, SchedulerView};
use crate::selftest::programs::Started;
use crate::selftest::report;
use crate::selftest::report::{Report, ReportView};

verus! {

/// What the boot loader says of the ACPI root pointer: 0 means nothing.
pub fn rsdp_hint(addr: u64) -> (r: Option<u64>)
    ensures
        r == if addr != 0 {
            Some(addr)
        } else {
            None
        },
{
    if addr != 0 {
        Some(addr)
    } else {
        None
    }
}

/// Where the interrupt controllers are.
#[derive(Debug, Clone, Copy, PartialEq, Eq, Structural)]
pub struct ApicAddresses {
    pub local: u64,
    pub io: u64,
    pub gsi_base: u32,
}

/// Where the interrupt controllers are, by the interrupt table; without one, or without
/// an I/O APIC in it, they are at their usual places.
pub open spec fn addresses_of(madt: Option<MadtInfo>) -> ApicAddresses {
    match madt {
        Some(m) => ApicAddresses {
            local: m.local_apic_addr,
            io: if m.io_apic_addr != 0 {
                m.io_apic_addr
            } else {
                DEFAULT_IOAPIC
            },
            gsi_base: m.io_apic_gsi_base,
        },
        None => ApicAddresses { local: DEFAULT_LAPIC, io: DEFAULT_IOAPIC, gsi_base: 0 },
    }
}

pub fn apic_addresses(madt: Option<&MadtInfo>) -> (r: ApicAddresses)
    ensures
        r == addresses_of(
            match madt {
                Some(m) => Some(*m),
                None => None,
            },
        ),
{
    match madt {
        Some(m) => ApicAddresses {
            local: m.local_apic_addr,
            io: if m.io_apic_addr != 0 {
                m.io_apic_addr
            } else {
                DEFAULT_IOAPIC
            },
            gsi_base: m.io_apic_gsi_base,
        },
        None => ApicAddresses { local: DEFAULT_LAPIC, io: DEFAULT_IOAPIC, gsi_base: 0 },
    }
}

/// A line for each process in the slots 1 to `n` - 1.
pub open spec fn with_cleaned(v: ReportView, procs: Seq<Option<Process>>, n: int) -> ReportView
    decreases n,
{
    if n <= 1 {
        v
    } else {
        let v = with_cleaned(v, procs, n - 1);
        if procs[n - 1] is Some {
            report::put_end(report::put_hex(report::put(v, "[KERNEL] Cleaning test PID="@), n - 1))
        } else {
            v
        }
    }
}

/// Removes what the self tests left in the process table: every process but that in the
/// first slot.
pub fn clean_test_processes(r: &mut Report, sched: &mut Scheduler)
    requires
        old(sched)@.wf(),
    ensures
        final(r)@ == with_cleaned(old(r)@, old(sched)@.procs, MAX_PROCESSES as int),
        final(r).checks() == old(r).checks(),
        final(sched)@.wf(),
        final(sched)@ == (SchedulerView {
            procs: Seq::new(
                32,
                |i: int|
                    if i == 0 {
                        old(sched)@.procs[0]
                    } else {
                        None
                    },
            ),
            ..old(sched)@
        }),
{
    let ghost before = sched@;
    let ghost start = r@;
    let ghost count = r.checks();
    let mut i: usize = 1;
    while i < MAX_PROCESSES
        invariant
            1 <= i <= MAX_PROCESSES,
            before == old(sched)@,
            before.wf(),
            sched@.wf(),
            sched@ == (SchedulerView { procs: sched@.procs, ..before }),
            r.checks() == count,
            r@ == with_cleaned(start, before.procs, i as int),
            sched@.procs[0] == before.procs[0],
            forall|k: int| 1 <= k < i ==> #[trigger] sched@.procs[k] is None,
            forall|k: int| i <= k < MAX_PROCESSES ==> #[trigger] sched@.procs[k] == before.procs[k],
        decreases MAX_PROCESSES - i,
    {
        if sched.processes[i].is_some() {
            r.put("[KERNEL] Cleaning test PID=");
            r.put_hex(i as u64);
            r.put_end();
            sched.processes[i] = None;
        }
        i = i + 1;
    }
    assert(sched@.procs =~= Seq::new(
        32,
        |k: int|
            if k == 0 {
                before.procs[0]
            } else {
                None
            },
    ));
}

/// What is reported of the first program: how large it is and which process it became,
/// or the error number of reading it.
pub open spec fn with_init_report(v: ReportView, p: &Result<Started, u64>) -> ReportView {
    match p {
        Ok(started) => {
            let v = report::put(v, "[KERNEL] Init binary found: "@);
            let v = report::put_hex(v, started.size as int);
            let v = report::put_line(v, " bytes"@);
            match started.pid {
                Some(pid) => {
                    let v = report::put(v, "[KERNEL] Init spawned as PID="@);
                    let v = report::put_hex(v, pid as int);
                    report::put_end(v)
                },
                None => report::put_line(v, "[KERNEL] FAILED to spawn init (no slot)"@),
            }
        },
        Err(errno) => {
            let v = report::put(v, "[KERNEL] WARNING: /bin/init read failed, errno="@);
            let v = report::put_hex(v, *errno as int);
            report::put_end(v)
        },
    }
}

pub fn init_report(r: &mut Report, p: &Result<Started, u64>)
    ensures
        final(r)@ == with_init_report(old(r)@, p),
        final(r).checks() == old(r).checks(),
{
    match p {
        Ok(started) => {
            r.put("[KERNEL] Init binary found: ");
            r.put_hex(started.size);
            r.put_line(" bytes");
            match started.pid {
                Some(pid) => {
                    r.put("[KERNEL] Init spawned as PID=");
                    r.put_hex(pid);
                    r.put_end();
                },
                None => {
                    r.put_line("[KERNEL] FAILED to spawn init (no slot)");
                },
            }
        },
        Err(errno) => {
            r.put("[KERNEL] WARNING: /bin/init read failed, errno=");
            r.put_hex(*errno);
            r.put_end();
        },
    }
}

/// What is reported of the shell in the root directory.
pub open spec fn with_flat_shell_report(v: ReportView, p: &Result<Started, u64>) -> ReportView {
    match p {
        Ok(started) => {
            let v = report::put(v, "[KERNEL] Found /indosh (flat): "@);
            let v = report::put_hex(v, started.size as int);
            let v = report::put_line(v, " bytes"@);
            match started.pid {
                Some(pid) => {
                    let v = report::put(v, "[KERNEL] Shell spawned as PID="@);
                    let v = report::put_hex(v, pid as int);
                    report::put_end(v)
                },
                None => report::put_line(v, "[KERNEL] FAILED to spawn shell (no slot)"@),
            }
        },
        Err(errno) => {
            let v = report::put(v, "[KERNEL] /indosh also failed, errno="@);
            let v = report::put_hex(v, *errno as int);
            let v = report::put_end(v);
            report::put_line(v, "[KERNEL] Falling back to test binaries"@)
        },
    }
}

fn flat_shell_report(r: &mut Report, p: &Result<Started, u64>)
    ensures
        final(r)@ == with_flat_shell_report(old(r)@, p),
        final(r).checks() == old(r).checks(),
{
    match p {
        Ok(started) => {
            r.put("[KERNEL] Found /indosh (flat): ");
            r.put_hex(started.size);
            r.put_line(" bytes");
            match started.pid {
                Some(pid) => {
                    r.put("[KERNEL] Shell spawned as PID=");
                    r.put_hex(pid);
                    r.put_end();
                },
                None => {
                    r.put_line("[KERNEL] FAILED to spawn shell (no slot)");
                },
            }
        },
        Err(errno) => {
            r.put("[KERNEL] /indosh also failed, errno=");
            r.put_hex(*errno);
            r.put_end();
            r.put_line("[KERNEL] Falling back to test binaries");
        },
    }
}

/// What is reported of the shell. If it could not be read at its place, the root directory
/// is tried.
pub open spec fn with_shell_report(v: ReportView, p: &Result<Started, u64>, flat: &Result<Started, u64>) -> ReportView {
    match p {
        Ok(started) => {
            let v = report::put(v, "[KERNEL] Shell binary found: "@);
            let v = report::put_hex(v, started.size as int);
            let v = report::put_line(v, " bytes"@);
            match started.pid {
                Some(pid) => {
                    let v = report::put(v, "[KERNEL] Shell spawned as PID="@);
                    let v = report::put_hex(v, pid as int);
                    report::put_end(v)
                },
                None => report::put_line(v, "[KERNEL] FAILED to spawn shell (no slot)"@),
            }
        },
        Err(errno) => {
            let v = report::put(v, "[KERNEL] WARNING: /bin/indosh read failed, errno="@);
            let v = report::put_hex(v, *errno as int);
            let v = report::put_end(v);
            with_flat_shell_report(v, flat)
        },
    }
}

/// Writes that report. Whether the test programs are to be started: they are if the shell
/// is not at its place, even if it is in the root directory.
pub fn shell_report(
    r: &mut Report,
    p: &Result<Started, u64>,
    flat: &Result<Started, u64>,
) -> (fall_back: bool)
    ensures
        fall_back == (p is Err),
        final(r)@ == with_shell_report(old(r)@, p, flat),
        final(r).checks() == old(r).checks(),
{
    match p {
        Ok(started) => {
            r.put("[KERNEL] Shell binary found: ");
            r.put_hex(started.size);
            r.put_line(" bytes");
            match started.pid {
                Some(pid) => {
                    r.put("[KERNEL] Shell spawned as PID=");
                    r.put_hex(pid);
                    r.put_end();
                },
                None => {
                    r.put_line("[KERNEL] FAILED to spawn shell (no slot)");
                },
            }
        },
        Err(errno) => {
            r.put("[KERNEL] WARNING: /bin/indosh read failed, errno=");
            r.put_hex(*errno);
            r.put_end();
            flat_shell_report(r, flat);
        },
    }
    p.is_err()
}

/// What is reported of a test program, the first of which has the index 0.
pub open spec fn with_test_program_report(v: ReportView, index: u64, size: u64, pid: Option<u64>) -> ReportView {
    let v = report::put(v, "[KERNEL] Test "@);
    let v = report::put_hex(v, index + 1);
    let v = report::put(v, " ELF size="@);
    let v = report::put_hex(v, size as int);
    let v = report::put_end(v);
    match pid {
        Some(id) => {
            let v = report::put(v, "[KERNEL]   -> PID="@);
            let v = report::put_hex(v, id as int);
            report::put_end(v)
        },
        None => report::put(v, "[KERNEL]   -> FAILED (no slot)\n"@),
    }
}

pub fn test_program_report(r: &mut Report, index: u64, size: u64, pid: Option<u64>)
    requires
        index < u64::MAX,
    ensures
        final(r)@ == with_test_program_report(old(r)@, index, size, pid),
        final(r).checks() == old(r).checks(),
{
    r.put("[KERNEL] Test ");
    r.put_hex(index + 1);
    r.put(" ELF size=");
    r.put_hex(size);
    r.put_end();
    match pid {
        Some(id) => {
            r.put("[KERNEL]   -> PID=");
            r.put_hex(id);
            r.put_end();
        },
        None => {
            r.put("[KERNEL]   -> FAILED (no slot)\n");
        },
    }
}

} // verus!
