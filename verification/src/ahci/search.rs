//! The search for a disk: from the list of PCI devices to a port that is ready.
//!
//! The search says what is to be done next and is given the answer. It tries the ports of
//! the first controller in turn and ends with the first one that can be started.
use vstd::prelude::*;

use crate::ahci;
use crate::ahci::hba::{HBA_CAP, PORT_SSTS};
use crate::ahci::program;
use crate::ahci::{AhciPort, DmaPages, MAX_PORTS};
use crate::block::registry;
use crate::block::registry::BlockDeviceRegistry;
use crate::block::{BlockDevice, BlockError};
use crate::pci::PciDevice;
use crate::serial;

verus! {

/// What the caller does next.
#[derive(Debug, Clone, Copy, PartialEq, Eq, Structural)]
pub enum Action {
    /// Read the command register of the PCI device with this index.
    ReadCommand { index: usize },
    /// Write the command register of the PCI device with this index.
    WriteCommand { index: usize, value: u32 },
    /// Map the registers of the controller.
    MapRegisters { abar: u64 },
    /// Read a register of the controller.
    ReadRegister { reg: u32 },
    /// Run the program that resets the controller.
    Reset,
    /// Run the program that enables AHCI mode.
    Enable,
    /// Run the program that stops a port.
    Stop { port: u8 },
    /// Allocate the pages of a port.
    Allocate,
    /// Fill the pages of a port with zeros.
    Clear { pages: DmaPages },
    /// Run the program that starts a port.
    Start { port: u8, pages: DmaPages },
    /// Run an identify command.
    Identify { port: u8, pages: DmaPages },
    /// The search is over.
    Finished { disk: Option<AhciPort> },
}

/// What came of an action.
#[derive(Debug, Clone, Copy)]
pub enum Answer {
    /// It was done.
    Done,
    /// What a register held.
    Value(u32),
    /// A program ran; whether it timed out.
    Ran { timed_out: bool },
    /// The pages, or which one could not be had.
    Pages(Result<DmaPages, &'static str>),
    /// What an identify command said: sector size and number of sectors.
    Geometry { sector_size: u32, total_sectors: u64 },
}

/// Where the search stands: the next thing to do.
#[derive(Debug, Clone, Copy, PartialEq, Eq, Structural)]
pub enum Stage {
    ReadCommand { index: usize, abar: u64 },
    WriteCommand { index: usize, abar: u64, value: u32 },
    MapRegisters { abar: u64 },
    ReadCapabilities,
    Reset { ports: u8 },
    Enable { ports: u8 },
    ReadStatus { ports: u8, port: u8 },
    Stop { ports: u8, port: u8 },
    Allocate { ports: u8, port: u8 },
    Clear { ports: u8, port: u8, pages: DmaPages },
    Start { ports: u8, port: u8, pages: DmaPages },
    Identify { ports: u8, port: u8, pages: DmaPages },
    Ended { disk: Option<AhciPort> },
}

/// The register that holds the status of a port.
pub open spec fn status_reg(port: u8) -> u32 {
    (program::port_base(port as int) + PORT_SSTS) as u32
}

/// What is to be done at a stage.
pub open spec fn action_at(stage: Stage) -> Action {
    match stage {
        Stage::ReadCommand { index, abar } => Action::ReadCommand { index },
        Stage::WriteCommand { index, abar, value } => Action::WriteCommand { index, value },
        Stage::MapRegisters { abar } => Action::MapRegisters { abar },
        Stage::ReadCapabilities => Action::ReadRegister { reg: HBA_CAP },
        Stage::Reset { ports } => Action::Reset,
        Stage::Enable { ports } => Action::Enable,
        Stage::ReadStatus { ports, port } => Action::ReadRegister { reg: status_reg(port) },
        Stage::Stop { ports, port } => Action::Stop { port },
        Stage::Allocate { ports, port } => Action::Allocate,
        Stage::Clear { ports, port, pages } => Action::Clear { pages },
        Stage::Start { ports, port, pages } => Action::Start { port, pages },
        Stage::Identify { ports, port, pages } => Action::Identify { port, pages },
        Stage::Ended { disk } => Action::Finished { disk },
    }
}

/// Whether an answer is one to what is done at a stage.
pub open spec fn answers(stage: Stage, answer: Answer) -> bool {
    match stage {
        Stage::ReadCommand { .. } => answer is Value,
        Stage::ReadCapabilities => answer is Value,
        Stage::ReadStatus { .. } => answer is Value,
        Stage::Reset { .. } => answer is Ran,
        Stage::Allocate { .. } => answer is Pages,
        Stage::Identify { .. } => answer is Geometry,
        Stage::Ended { .. } => false,
        _ => true,
    }
}

/// Goes on to a port, or ends without a disk if there are no more.
pub open spec fn try_port(ports: u8, port: int) -> Stage {
    if port < ports {
        Stage::ReadStatus { ports, port: port as u8 }
    } else {
        Stage::Ended { disk: None }
    }
}

/// Where the search stands after an answer. An answer to something else changes nothing.
pub open spec fn stage_after(stage: Stage, answer: Answer) -> Stage {
    match (stage, answer) {
        (Stage::ReadCommand { index, abar }, Answer::Value(command)) => Stage::WriteCommand {
            index,
            abar,
            value: (command - command / 2 % 4 * 2 + 6) as u32,
        },
        (Stage::WriteCommand { index, abar, value }, _) => Stage::MapRegisters { abar },
        (Stage::MapRegisters { abar }, _) => Stage::ReadCapabilities,
        (Stage::ReadCapabilities, Answer::Value(cap)) => Stage::Reset {
            ports: (cap % 32 + 1) as u8,
        },
        (Stage::Reset { ports }, Answer::Ran { timed_out }) => if timed_out {
            Stage::Ended { disk: None }
        } else {
            Stage::Enable { ports }
        },
        (Stage::Enable { ports }, _) => try_port(ports, 0),
        (Stage::ReadStatus { ports, port }, Answer::Value(ssts)) => if ssts % 16 == 3 {
            Stage::Stop { ports, port }
        } else {
            try_port(ports, port + 1)
        },
        (Stage::Stop { ports, port }, _) => Stage::Allocate { ports, port },
        (Stage::Allocate { ports, port }, Answer::Pages(r)) => match r {
            Ok(pages) => Stage::Clear { ports, port, pages },
            Err(_) => try_port(ports, port + 1),
        },
        (Stage::Clear { ports, port, pages }, _) => Stage::Start { ports, port, pages },
        (Stage::Start { ports, port, pages }, _) => Stage::Identify { ports, port, pages },
        (Stage::Identify { ports, port, pages }, Answer::Geometry { sector_size, total_sectors })
            => if total_sectors == 0 {
            try_port(ports, port + 1)
        } else {
            Stage::Ended {
                disk: Some(
                    AhciPort { index: port, pages, sector_size, total_sectors, active: true },
                ),
            }
        },
        _ => stage,
    }
}

pub open spec fn line(out: Seq<u8>, s: Seq<char>) -> Seq<u8> {
    out + serial::text(s) + serial::line_end()
}

/// The text, and a number behind it.
pub open spec fn number(out: Seq<u8>, s: Seq<char>, value: u64) -> Seq<u8> {
    out + serial::text(s) + serial::hex_text(value)
}

/// What going on to a port adds to the report.
pub open spec fn with_try(out: Seq<u8>, ports: u8, port: int) -> Seq<u8> {
    if port < ports {
        out
    } else {
        line(out, "[AHCI] No SATA drives found"@)
    }
}

/// The report with the failure of a port.
pub open spec fn with_failure(out: Seq<u8>, port: u8, message: Seq<char>) -> Seq<u8> {
    line(number(out, "[AHCI] Port "@, port as u64) + serial::text(" init failed: "@), message)
}

/// The report with what a port's status says.
pub open spec fn with_status(out: Seq<u8>, port: u8, ssts: u32) -> Seq<u8> {
    let out = number(out, "[AHCI] Port "@, port as u64);
    let out = number(out, " ssts=0x"@, ssts as u64);
    let out = number(out, " det="@, (ssts % 16) as u64) + serial::line_end();
    if ssts % 16 == 3 {
        line(number(out, "[AHCI] Port "@, port as u64), " device detected, initializing..."@)
    } else {
        out
    }
}

/// The report with a port that was started.
pub open spec fn with_started(out: Seq<u8>, port: u8, sector_size: u32, total: u64) -> Seq<u8> {
    let out = number(out, "[AHCI] Port "@, port as u64);
    let out = number(out, " sectors="@, total);
    let out = number(out, " ssize="@, sector_size as u64) + serial::line_end();
    line(number(out, "[AHCI] Port "@, port as u64), " initialized OK"@)
}

/// The report after an answer.
pub open spec fn report_after(out: Seq<u8>, stage: Stage, answer: Answer) -> Seq<u8> {
    match (stage, answer) {
        (Stage::WriteCommand { index, abar, value }, _) => line(
            out,
            "[AHCI] Bus mastering enabled"@,
        ),
        (Stage::MapRegisters { abar }, _) => line(out, "[AHCI] ABAR mapped"@),
        (Stage::ReadCapabilities, Answer::Value(cap)) => number(
            number(out, "[AHCI] CAP=0x"@, cap as u64),
            " ports="@,
            (cap % 32 + 1) as u64,
        ) + serial::line_end(),
        (Stage::Reset { ports }, Answer::Ran { timed_out }) => line(
            out,
            if timed_out {
                "[AHCI] HBA reset failed"@
            } else {
                "[AHCI] HBA reset OK"@
            },
        ),
        (Stage::Enable { ports }, _) => with_try(out, ports, 0),
        (Stage::ReadStatus { ports, port }, Answer::Value(ssts)) => {
            let out = with_status(out, port, ssts);
            if ssts % 16 == 3 {
                out
            } else {
                with_try(out, ports, port + 1)
            }
        },
        (Stage::Allocate { ports, port }, Answer::Pages(Err(message))) => with_try(
            with_failure(out, port, message@),
            ports,
            port + 1,
        ),
        (Stage::Identify { ports, port, pages }, Answer::Geometry { sector_size, total_sectors })
            => if total_sectors == 0 {
            with_try(with_failure(out, port, "no sectors detected"@), ports, port + 1)
        } else {
            with_started(out, port, sector_size, total_sectors)
        },
        _ => out,
    }
}

/// The first controller among the devices.
pub open spec fn first_controller(devices: Seq<PciDevice>, n: int) -> Option<int>
    decreases n,
{
    if n <= 0 {
        None
    } else {
        match first_controller(devices, n - 1) {
            Some(i) => Some(i),
            None => if ahci::is_controller(devices[n - 1]) {
                Some(n - 1)
            } else {
                None
            },
        }
    }
}

proof fn lemma_first_controller(devices: Seq<PciDevice>, n: int)
    requires
        0 <= n <= devices.len(),
    ensures
        match first_controller(devices, n) {
            Some(i) => 0 <= i < n && ahci::is_controller(devices[i]) && forall|k: int|
                0 <= k < i ==> !ahci::is_controller(#[trigger] devices[k]),
            None => forall|k: int| 0 <= k < n ==> !ahci::is_controller(#[trigger] devices[k]),
        },
    decreases n,
{
    if n > 0 {
        lemma_first_controller(devices, n - 1);
    }
}

/// Where the search starts: at the first controller whose registers have an address.
pub open spec fn first_stage(devices: Seq<PciDevice>) -> Stage {
    match first_controller(devices, devices.len() as int) {
        Some(i) => if devices[i].bar(5) == 0 {
            Stage::Ended { disk: None }
        } else {
            Stage::ReadCommand { index: i as usize, abar: devices[i].bar(5) }
        },
        None => Stage::Ended { disk: None },
    }
}

/// The report of the start of the search.
pub open spec fn first_report(out: Seq<u8>, devices: Seq<PciDevice>) -> Seq<u8> {
    let out = line(out, "[AHCI] Initializing..."@);
    let out = line(out, "[AHCI] Searching for AHCI controller..."@);
    match first_controller(devices, devices.len() as int) {
        Some(i) => {
            let d = devices[i];
            let out = number(out, "[AHCI] Found controller at PCI "@, d.bus as u64);
            let out = number(out, ":"@, d.device as u64);
            let out = number(out, "."@, d.function as u64) + serial::line_end();
            if d.bar(5) == 0 {
                line(out, "[AHCI] ERROR: ABAR is zero"@)
            } else {
                number(out, "[AHCI] ABAR=0x"@, d.bar(5)) + serial::line_end()
            }
        },
        None => line(out, "[AHCI] No AHCI controller found"@),
    }
}

fn write_number(out: &mut Vec<u8>, s: &str, value: u64)
    ensures
        final(out)@ == number(old(out)@, s@, value),
{
    serial::write_str(out, s);
    serial::write_hex(out, value);
}

fn write_failure(out: &mut Vec<u8>, port: u8, message: &str)
    ensures
        final(out)@ == with_failure(old(out)@, port, message@),
{
    write_number(out, "[AHCI] Port ", port as u64);
    serial::write_str(out, " init failed: ");
    serial::write_str_nl(out, message);
}

fn write_status(out: &mut Vec<u8>, port: u8, ssts: u32)
    ensures
        final(out)@ == with_status(old(out)@, port, ssts),
{
    write_number(out, "[AHCI] Port ", port as u64);
    write_number(out, " ssts=0x", ssts as u64);
    write_number(out, " det=", (ssts % 16) as u64);
    serial::write_nl(out);
    if ahci::device_detected(ssts) {
        write_number(out, "[AHCI] Port ", port as u64);
        serial::write_str_nl(out, " device detected, initializing...");
    }
}

fn write_started(out: &mut Vec<u8>, port: u8, sector_size: u32, total: u64)
    ensures
        final(out)@ == with_started(old(out)@, port, sector_size, total),
{
    write_number(out, "[AHCI] Port ", port as u64);
    write_number(out, " sectors=", total);
    write_number(out, " ssize=", sector_size as u64);
    serial::write_nl(out);
    write_number(out, "[AHCI] Port ", port as u64);
    serial::write_str_nl(out, " initialized OK");
}

fn go_on(out: &mut Vec<u8>, ports: u8, port: u8) -> (r: Stage)
    ensures
        r == try_port(ports, port as int),
        final(out)@ == with_try(old(out)@, ports, port as int),
{
    if port < ports {
        Stage::ReadStatus { ports, port }
    } else {
        serial::write_str_nl(out, "[AHCI] No SATA drives found");
        Stage::Ended { disk: None }
    }
}

/// A search that is going on.
pub struct DiskSearch {
    pub stage: Stage,
}

impl DiskSearch {
    /// Whether the port that is being tried is one that the controller has.
    pub open spec fn wf(&self) -> bool {
        match self.stage {
            Stage::Reset { ports } => ports <= MAX_PORTS,
            Stage::Enable { ports } => ports <= MAX_PORTS,
            Stage::ReadStatus { ports, port } => port < ports <= MAX_PORTS,
            Stage::Stop { ports, port } => port < ports <= MAX_PORTS,
            Stage::Allocate { ports, port } => port < ports <= MAX_PORTS,
            Stage::Clear { ports, port, pages } => port < ports <= MAX_PORTS,
            Stage::Start { ports, port, pages } => port < ports <= MAX_PORTS,
            Stage::Identify { ports, port, pages } => port < ports <= MAX_PORTS,
            Stage::Ended { disk } => disk matches Some(p) ==> p.index < MAX_PORTS,
            _ => true,
        }
    }

    /// Start the search in a list of devices.
    pub fn new(out: &mut Vec<u8>, devices: &[PciDevice]) -> (r: DiskSearch)
        ensures
            r.wf(),
            r.stage == first_stage(devices@),
            final(out)@ == first_report(old(out)@, devices@),
    {
        serial::write_str_nl(out, "[AHCI] Initializing...");
        serial::write_str_nl(out, "[AHCI] Searching for AHCI controller...");
        proof {
            lemma_first_controller(devices@, devices@.len() as int);
        }
        let index: usize = match ahci::find_controller(devices) {
            Some(i) => i,
            None => {
                serial::write_str_nl(out, "[AHCI] No AHCI controller found");
                return DiskSearch { stage: Stage::Ended { disk: None } };
            },
        };
        assert(first_controller(devices@, devices@.len() as int) == Some(index as int));
        let d: &PciDevice = &devices[index];
        write_number(out, "[AHCI] Found controller at PCI ", d.bus as u64);
        write_number(out, ":", d.device as u64);
        write_number(out, ".", d.function as u64);
        serial::write_nl(out);
        let abar: u64 = d.bar_address(5);
        if abar == 0 {
            serial::write_str_nl(out, "[AHCI] ERROR: ABAR is zero");
            return DiskSearch { stage: Stage::Ended { disk: None } };
        }
        write_number(out, "[AHCI] ABAR=0x", abar);
        serial::write_nl(out);
        DiskSearch { stage: Stage::ReadCommand { index, abar } }
    }

    /// What is to be done next.
    pub fn action(&self) -> (r: Action)
        ensures
            r == action_at(self.stage),
    {
        match self.stage {
            Stage::ReadCommand { index, abar } => Action::ReadCommand { index },
            Stage::WriteCommand { index, abar, value } => Action::WriteCommand { index, value },
            Stage::MapRegisters { abar } => Action::MapRegisters { abar },
            Stage::ReadCapabilities => Action::ReadRegister { reg: HBA_CAP },
            Stage::Reset { ports } => Action::Reset,
            Stage::Enable { ports } => Action::Enable,
            Stage::ReadStatus { ports, port } => Action::ReadRegister {
                reg: program::port_regs(port) + PORT_SSTS,
            },
            Stage::Stop { ports, port } => Action::Stop { port },
            Stage::Allocate { ports, port } => Action::Allocate,
            Stage::Clear { ports, port, pages } => Action::Clear { pages },
            Stage::Start { ports, port, pages } => Action::Start { port, pages },
            Stage::Identify { ports, port, pages } => Action::Identify { port, pages },
            Stage::Ended { disk } => Action::Finished { disk },
        }
    }

    /// Take what came of the last action.
    pub fn answer(&mut self, out: &mut Vec<u8>, answer: Answer)
        requires
            old(self).wf(),
        ensures
            final(self).wf(),
            final(self).stage == stage_after(old(self).stage, answer),
            final(out)@ == report_after(old(out)@, old(self).stage, answer),
    {
        match (self.stage, answer) {
            (Stage::ReadCommand { index, abar }, Answer::Value(command)) => {
                let value: u32 = ahci::enable_bus_mastering(command);
                self.stage = Stage::WriteCommand { index, abar, value };
            },
            (Stage::WriteCommand { index, abar, value }, _) => {
                serial::write_str_nl(out, "[AHCI] Bus mastering enabled");
                self.stage = Stage::MapRegisters { abar };
            },
            (Stage::MapRegisters { abar }, _) => {
                serial::write_str_nl(out, "[AHCI] ABAR mapped");
                self.stage = Stage::ReadCapabilities;
            },
            (Stage::ReadCapabilities, Answer::Value(cap)) => {
                let ports: u8 = ahci::port_count(cap);
                write_number(out, "[AHCI] CAP=0x", cap as u64);
                write_number(out, " ports=", ports as u64);
                serial::write_nl(out);
                self.stage = Stage::Reset { ports };
            },
            (Stage::Reset { ports }, Answer::Ran { timed_out }) => {
                if timed_out {
                    serial::write_str_nl(out, "[AHCI] HBA reset failed");
                    self.stage = Stage::Ended { disk: None };
                } else {
                    serial::write_str_nl(out, "[AHCI] HBA reset OK");
                    self.stage = Stage::Enable { ports };
                }
            },
            (Stage::Enable { ports }, _) => {
                self.stage = go_on(out, ports, 0);
            },
            (Stage::ReadStatus { ports, port }, Answer::Value(ssts)) => {
                write_status(out, port, ssts);
                if ahci::device_detected(ssts) {
                    self.stage = Stage::Stop { ports, port };
                } else {
                    self.stage = go_on(out, ports, port + 1);
                }
            },
            (Stage::Stop { ports, port }, _) => {
                self.stage = Stage::Allocate { ports, port };
            },
            (Stage::Allocate { ports, port }, Answer::Pages(r)) => {
                match r {
                    Ok(pages) => {
                        self.stage = Stage::Clear { ports, port, pages };
                    },
                    Err(message) => {
                        write_failure(out, port, message);
                        self.stage = go_on(out, ports, port + 1);
                    },
                }
            },
            (Stage::Clear { ports, port, pages }, _) => {
                self.stage = Stage::Start { ports, port, pages };
            },
            (Stage::Start { ports, port, pages }, _) => {
                self.stage = Stage::Identify { ports, port, pages };
            },
            (
                Stage::Identify { ports, port, pages },
                Answer::Geometry { sector_size, total_sectors },
            ) => {
                match ahci::init_port(port, pages, sector_size, total_sectors) {
                    Ok(p) => {
                        write_started(out, port, sector_size, total_sectors);
                        self.stage = Stage::Ended { disk: Some(p) };
                    },
                    Err(message) => {
                        write_failure(out, port, message);
                        self.stage = go_on(out, ports, port + 1);
                    },
                }
            },
            _ => {},
        }
    }
}

/// How far a search is from its end.
pub open spec fn distance(stage: Stage) -> int {
    match stage {
        Stage::ReadCommand { index, abar } => 1000,
        Stage::WriteCommand { index, abar, value } => 999,
        Stage::MapRegisters { abar } => 998,
        Stage::ReadCapabilities => 997,
        Stage::Reset { ports } => 996,
        Stage::Enable { ports } => 995,
        Stage::ReadStatus { ports, port } => (ports - port) * 8,
        Stage::Stop { ports, port } => (ports - port) * 8 - 1,
        Stage::Allocate { ports, port } => (ports - port) * 8 - 2,
        Stage::Clear { ports, port, pages } => (ports - port) * 8 - 3,
        Stage::Start { ports, port, pages } => (ports - port) * 8 - 4,
        Stage::Identify { ports, port, pages } => (ports - port) * 8 - 5,
        Stage::Ended { disk } => 0,
    }
}

/// The search ends, whatever the hardware answers: each answer brings it closer to its
/// end.
pub proof fn law_search_ends(search: DiskSearch, answer: Answer)
    requires
        search.wf(),
        answers(search.stage, answer),
    ensures
        0 <= distance(stage_after(search.stage, answer)) < distance(search.stage),
{
}

/// A disk that the search ends with is on the port that was identified last, is active
/// and has sectors.
pub proof fn law_found_disk(search: DiskSearch, answer: Answer, disk: AhciPort)
    requires
        search.wf(),
        !(search.stage is Ended),
        stage_after(search.stage, answer) == (Stage::Ended { disk: Some(disk) }),
    ensures
        search.stage matches Stage::Identify { ports, port, pages } && disk.index == port
            && disk.pages == pages,
        disk.active,
        disk.total_sectors > 0,
        disk.index < MAX_PORTS,
{
}

/// The digits of a port's number.
pub open spec fn port_digits(port: u8) -> Seq<char> {
    if port < 10 {
        seq![('0' as u8 + port) as char]
    } else {
        seq![('0' as u8 + port / 10) as char, ('0' as u8 + port % 10) as char]
    }
}

/// The name of the disk on a port: `ahci` and the port's number.
pub fn disk_name(port: u8) -> (r: String)
    requires
        port < MAX_PORTS,
    ensures
        r@ == "ahci"@ + port_digits(port),
{
    let mut name: String = "ahci".to_owned();
    let ghost start = name@;
    if port >= 10 {
        name.push((0x30 + port / 10) as char);
    }
    name.push((0x30 + port % 10) as char);
    assert(name@ =~= start + port_digits(port));
    name
}

/// The report of a registration.
pub open spec fn with_registration(
    out: Seq<u8>,
    r: Result<usize, BlockError>,
    name: Seq<char>,
    total: u64,
    sector_size: u32,
) -> Seq<u8> {
    match r {
        Ok(id) => {
            let out = registry::with_device_text(out, id, name);
            let out = number(out, "[AHCI] Registered as device id="@, id as u64);
            let out = number(out, " sectors="@, total);
            number(out, " ssize="@, sector_size as u64) + serial::line_end()
        },
        Err(e) => line(out + serial::text("[AHCI] Register failed: "@), e.text()),
    }
}

/// Register the disk that was found, if there is one.
pub fn init<D: BlockDevice>(
    out: &mut Vec<u8>,
    registry: &mut BlockDeviceRegistry<D>,
    found: Option<D>,
) -> (r: Option<Result<usize, BlockError>>)
    requires
        old(registry).wf(),
        found matches Some(d) ==> d.wf(),
    ensures
        final(registry).wf(),
        match (found, r) {
            (Some(d), Some(Ok(id))) => {
                &&& id < registry::MAX_DEVICES
                &&& old(registry).slots()[id as int] is None
                &&& forall|k: int| 0 <= k < id ==> old(registry).slots()[k] is Some
                &&& final(registry).slots() == old(registry).slots().update(id as int, Some(d))
            },
            (Some(d), Some(Err(e))) => {
                &&& e == BlockError::TooManyDevices
                &&& forall|k: int|
                    0 <= k < registry::MAX_DEVICES ==> old(registry).slots()[k] is Some
                &&& final(registry).slots() == old(registry).slots()
            },
            (None, None) => final(registry).slots() == old(registry).slots(),
            _ => false,
        },
        final(out)@ == match (found, r) {
            (Some(d), Some(result)) => with_registration(
                old(out)@,
                result,
                d.label(),
                d.sectors().len() as u64,
                d.sector_bytes() as u32,
            ),
            _ => line(old(out)@, "[AHCI] No disks found"@),
        },
{
    match found {
        Some(disk) => {
            let total: u64 = disk.total_sectors();
            let sector_size: u32 = disk.sector_size();
            let result: Result<usize, BlockError> = registry::register_device(registry, disk, out);
            match result {
                Ok(id) => {
                    write_number(out, "[AHCI] Registered as device id=", id as u64);
                    write_number(out, " sectors=", total);
                    write_number(out, " ssize=", sector_size as u64);
                    serial::write_nl(out);
                },
                Err(e) => {
                    serial::write_str(out, "[AHCI] Register failed: ");
                    serial::write_str_nl(out, e.description());
                },
            }
            Some(result)
        },
        None => {
            serial::write_str_nl(out, "[AHCI] No disks found");
            None
        },
    }
}

} // verus!
