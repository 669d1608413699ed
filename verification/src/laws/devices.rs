//! Configuration headers, disk commands, interrupt routes and keys.
use vstd::prelude::*;

use crate::acpi::madt::{InterruptOverride, MadtInfo};
use crate::ahci::command::{
    command_step, fis_byte, identified_sectors, identified_size, transfer_result, Command,
    CommandAccess, CommandRun, Outcome, Phase,
};
use crate::ahci::program::{port_base, run_step, Access, Op, RunState};
use crate::ahci::search::{
    action_at, first_controller, first_stage, port_digits, stage_after, status_reg, Action, Answer,
    Stage,
};
use crate::ahci::{is_controller, port_error, AhciPort, DmaPages};
use crate::block::BlockError;
use crate::idt::rpl;
use crate::interrupts::ioapic::entry_register;
use crate::interrupts::{gsi_of, route_of};
use crate::kernel::addresses_of;
use crate::keyboard::{key_byte, plain_ascii, printable, shifted_ascii};
use crate::pci::{config_word, functions_found, is_device, slot_found, PciDevice};
use crate::process::trace::{index_of, RawDescriptor};
use crate::serial::{dec_text, hex_digits, hex_text, line_end};

verus! {

/// Byte `i` of a configuration header, which is read in registers of four bytes, the low
/// byte first.
pub open spec fn header_byte(config: Seq<u32>, i: int) -> int {
    if i % 4 == 0 {
        config[i / 4] as int % 256
    } else if i % 4 == 1 {
        config[i / 4] as int / 256 % 256
    } else if i % 4 == 2 {
        config[i / 4] as int / 65536 % 256
    } else {
        config[i / 4] as int / 16777216
    }
}

/// A configuration header says: the vendor and the device at bytes 0 and 2, the revision and
/// the three parts of the class at bytes 8 to 11, the type at byte 14, six base addresses
/// from byte 16 on, the vendor and the number of the subsystem at bytes 44 and 46, the
/// interrupt at bytes 60 and 61.
#[verifier::rlimit(40)]
pub proof fn law_device_header(d: PciDevice, bus: u8, device: u8, function: u8, config: Seq<u32>, k: int)
    requires
        config.len() >= 16,
        is_device(d, bus, device, function, config),
    ensures
        d.bus == bus && d.device == device && d.function == function,
        d.vendor_id == header_byte(config, 0) + 256 * header_byte(config, 1),
        d.device_id == header_byte(config, 2) + 256 * header_byte(config, 3),
        d.revision == header_byte(config, 8),
        d.prog_if == header_byte(config, 9),
        d.subclass == header_byte(config, 10),
        d.class == header_byte(config, 11),
        d.header_type == header_byte(config, 14),
        0 <= k < 6 ==> d.bars@[k] == header_byte(config, 16 + 4 * k) + 256 * header_byte(
            config,
            17 + 4 * k,
        ) + 65536 * header_byte(config, 18 + 4 * k) + 16777216 * header_byte(config, 19 + 4 * k),
        d.subsystem_vendor_id == header_byte(config, 44) + 256 * header_byte(config, 45),
        d.subsystem_id == header_byte(config, 46) + 256 * header_byte(config, 47),
        d.interrupt_line == header_byte(config, 60),
        d.interrupt_pin == header_byte(config, 61),
{
    lemma_word(config, 0);
    lemma_word(config, 2);
    lemma_word(config, 44);
    lemma_word(config, 46);
    if 0 <= k < 6 {
        assert(d.bars@[k] == config[4 + k]);
        assert((16 + 4 * k) / 4 == 4 + k && (17 + 4 * k) / 4 == 4 + k && (18 + 4 * k) / 4 == 4 + k
            && (19 + 4 * k) / 4 == 4 + k);
        let v = config[4 + k] as int;
        assert(v == v % 256 + 256 * (v / 256 % 256) + 65536 * (v / 65536 % 256) + 16777216 * (v
            / 16777216));
    }
}

proof fn lemma_word(config: Seq<u32>, at: int)
    requires
        at >= 0,
        at % 2 == 0,
    ensures
        config_word(config, at) == header_byte(config, at) + 256 * header_byte(config, at + 1),
{
    let v = config[at / 4] as int;
    assert((at + 1) / 4 == at / 4);
    assert(v % 65536 == v % 256 + 256 * (v / 256 % 256));
    assert(v / 65536 == v / 65536 % 256 + 256 * (v / 16777216));
}

/// A base address is what its register holds without the low bits that say its kind: bit 0
/// is set for ports, which leave out two bits, and clear for memory, which leaves out four.
pub proof fn law_base_address(d: PciDevice, i: int)
    requires
        0 <= i < 6,
    ensures
        d.bars@[i] % 2 == 1 ==> d.bar(i) % 4 == 0 && d.bar(i) <= d.bars@[i] < d.bar(i) + 4,
        d.bars@[i] % 2 == 0 ==> d.bar(i) % 16 == 0 && d.bar(i) <= d.bars@[i] < d.bar(i) + 16,
        d.multi_function() <==> d.header_type as int / 128 == 1,
{
}

/// A device with one function is found by its function 0 alone; one with several is found with
/// every function that answers.
pub proof fn law_functions_of_slot(answers: spec_fn(int, int) -> Option<PciDevice>, slot: int, f: int)
    requires
        1 <= f < 8,
    ensures
        answers(slot, 0) is None ==> slot_found(answers, slot).len() == 0,
        (answers(slot, 0) matches Some(d) && d.header_type < 128) ==> slot_found(answers, slot)
            == seq![answers(slot, 0).unwrap()],
        (answers(slot, 0) matches Some(d) && d.header_type >= 128) ==> slot_found(
            answers,
            slot,
        ).contains(answers(slot, 0).unwrap()) && (answers(slot, f) is Some ==> slot_found(
            answers,
            slot,
        ).contains(answers(slot, f).unwrap())),
{
    let list = functions_found(answers, slot, 8);
    if answers(slot, 0) is Some {
        let d = answers(slot, 0).unwrap();
        assert(list.push(d)[list.len() as int] == d);
        if answers(slot, f) is Some {
            lemma_function_found(answers, slot, 8, f);
            let e = answers(slot, f).unwrap();
            let i = list.index_of(e);
            assert(list.push(d)[i] == e);
        }
    }
}

proof fn lemma_function_found(
    answers: spec_fn(int, int) -> Option<PciDevice>,
    slot: int,
    n: int,
    f: int,
)
    requires
        1 <= f < n,
        answers(slot, f) is Some,
    ensures
        functions_found(answers, slot, n).contains(answers(slot, f).unwrap()),
    decreases n,
{
    let rest = functions_found(answers, slot, n - 1);
    let all = functions_found(answers, slot, n);
    let e = answers(slot, f).unwrap();
    if f == n - 1 {
        assert(all[rest.len() as int] == e);
    } else {
        lemma_function_found(answers, slot, n - 1, f);
        let i = rest.index_of(e);
        assert(all[i] == e);
    }
}

/// The FIS of a command: it goes from host to device (0x27) and starts a command (0x80). The
/// command is 0xEC to identify, 0x25 to read and 0x35 to write. The six bytes of the sector
/// number are at 4, 5, 6, 8, 9 and 10, the count of one sector is at 12.
#[verifier::rlimit(40)]
pub proof fn law_command_fis(command: Command, lba: u64, i: int)
    requires
        command == Command::Read(lba) || command == Command::Write(lba) || (command
            == Command::Identify && lba == 0),
        lba < 0x1_0000_0000_0000,
    ensures
        fis_byte(command, 0) == 0x27,
        fis_byte(command, 1) == 0x80,
        command is Identify ==> fis_byte(command, 2) == 0xEC,
        command is Read ==> fis_byte(command, 2) == 0x25,
        command is Write ==> fis_byte(command, 2) == 0x35,
        fis_byte(command, 3) == 0,
        fis_byte(command, 4) == lba as int % 256,
        fis_byte(command, 5) == lba as int / 256 % 256,
        fis_byte(command, 6) == lba as int / 65536 % 256,
        fis_byte(command, 7) as int / 64 == 1,
        fis_byte(command, 8) == lba as int / 16777216 % 256,
        fis_byte(command, 9) == lba as int / 4294967296 % 256,
        fis_byte(command, 10) == lba as int / 1099511627776,
        fis_byte(command, 12) == 1,
        i == 11 || i > 12 ==> fis_byte(command, i) == 0,
{
}

/// A command is over when its bit in the issue register (0x38) is clear, when the interrupt
/// status (0x10) shows a task file error (bit 30), or when the polls are used up.
pub proof fn law_command_steps(run: CommandRun, value: u32)
    requires
        run.regs <= 0x10000,
    ensures
        ({
            let (next, access) = command_step(run, value);
            &&& run.phase is GotIssued && value % 2 == 0 ==> next.phase == Phase::Ended(
                Outcome::Complete,
            ) && access == CommandAccess::Write((run.regs + 0x10) as u32, 0xFFFF_FFFF)
            &&& run.phase is GotIssued && value % 2 == 1 ==> next.phase is GotStatus && access
                == CommandAccess::Read((run.regs + 0x10) as u32)
            &&& run.phase is GotStatus && value & 0x4000_0000 != 0 ==> next.phase == Phase::Ended(
                Outcome::Failed,
            )
            &&& run.phase is GotStatus && value & 0x4000_0000 == 0 && run.left <= 1 ==> next.phase
                == Phase::Ended(Outcome::TimedOut)
            &&& run.phase is GotStatus && value & 0x4000_0000 == 0 && run.left > 1 ==> next.phase
                is GotIssued && next.left == run.left - 1 && access == CommandAccess::Read(
                (run.regs + 0x38) as u32,
            )
            &&& run.phase is GotBusy && value & 0x80 != 0 ==> next.phase == Phase::Ended(
                Outcome::NotReady,
            )
            &&& run.phase is GotBusy && value & 0x80 == 0 ==> next.phase is AskIssued && access
                == CommandAccess::Write((run.regs + 0x38) as u32, 1)
            &&& run.phase is AskBusy ==> access == CommandAccess::Read((run.regs + 0x20) as u32)
            &&& run.phase is Issue ==> access == CommandAccess::Write((run.regs + 0x38) as u32, 1)
            &&& run.phase is Begin ==> access == CommandAccess::Write(
                (run.regs + 0x10) as u32,
                0xFFFF_FFFF,
            )
            &&& run.phase is AskIssued ==> access == CommandAccess::Read((run.regs + 0x38) as u32)
            &&& next.regs == run.regs
        }),
{
}

/// A transfer succeeds exactly if its command completed.
pub proof fn law_transfer_result(outcome: Outcome)
    ensures
        transfer_result(outcome) is Ok <==> outcome == Outcome::Complete,
        transfer_result(outcome) == Err::<(), BlockError>(BlockError::DeviceNotReady) <==> outcome
            == Outcome::NotReady,
        transfer_result(outcome) == Err::<(), BlockError>(BlockError::IoError) <==> outcome
            == Outcome::Failed || outcome == Outcome::TimedOut,
{
}

/// The number of sectors of a drive: four words from word 100 on if bit 10 of word 83 is
/// set, and otherwise two from word 60 on, the low word first in either case.
#[verifier::rlimit(40)]
pub proof fn law_sector_count(words: Seq<u16>, n: int)
    requires
        words.len() >= 256,
    ensures
        words[83] as int / 1024 % 2 == 1 && 0 <= n < 0x1_0000_0000_0000_0000 && words[100] == n
            % 65536 && words[101] == n / 65536 % 65536 && words[102] == n / 4294967296 % 65536
            && words[103] == n / 281474976710656 ==> identified_sectors(words) == n,
        words[83] as int / 1024 % 2 == 0 && 0 <= n < 0x1_0000_0000 && words[60] == n % 65536
            && words[61] == n / 65536 ==> identified_sectors(words) == n,
{
    let x = n / 65536;
    let y = x / 65536;
    let z = y / 65536;
    assert(n == n % 65536 + 65536 * x && x == x % 65536 + 65536 * y && y == y % 65536 + 65536 * z);
    assert(n / 4294967296 == y && n / 281474976710656 == z);
}

/// The size of a sector is 512 bytes, or, if bit 14 of word 106 is set, that doubled as often
/// as the low four bits of the word say.
#[verifier::rlimit(40)]
pub proof fn law_sector_size(words: Seq<u16>)
    requires
        words.len() >= 256,
    ensures
        words[106] as int / 0x4000 % 2 == 0 ==> identified_size(words) == 512,
        words[106] as int / 0x4000 % 2 == 1 && words[106] % 16 == 0 ==> identified_size(words)
            == 512,
        words[106] as int / 0x4000 % 2 == 1 && words[106] % 16 == 3 ==> identified_size(words)
            == 4096,
        words[106] as int / 0x4000 % 2 == 1 && words[106] % 16 > 0 ==> identified_size(words) == 2
            * identified_size(words.update(106, (words[106] - 1) as u16)),
{
    reveal_with_fuel(crate::ahci::command::doubled, 5);
    if words[106] as int / 0x4000 % 2 == 1 && words[106] % 16 > 0 {
        let less = words.update(106, (words[106] - 1) as u16);
        assert(less[106] as int % 16 == words[106] as int % 16 - 1);
        assert(less[106] as int / 0x4000 % 2 == 1);
    }
}

/// The registers of a port take 128 bytes each from 0x100 on; its status is at 0x28.
pub proof fn law_port_registers(port: u8)
    requires
        port < 32,
    ensures
        port_base(0) == 0x100,
        port_base(port + 1) == port_base(port as int) + 0x80,
        status_reg(port) == 0x100 + 128 * port + 0x28,
{
}

/// What the steps of a program do: write a value, set or clear the bits of a mask in what
/// was read, or read until a bit is set or all are clear.
pub proof fn law_program_steps(ops: Seq<Op>, s: RunState, value: u32)
    requires
        0 <= s.pos < ops.len(),
    ensures
        ({
            let (next, access) = run_step(ops, s, value);
            match ops[s.pos] {
                Op::Put { reg, value: put } => access == Access::Write(reg, put) && next.pos == s.pos
                    + 1,
                Op::SetBits { reg, mask } => if s.asked {
                    access == Access::Write(reg, value | mask) && next.pos == s.pos + 1
                        && !next.asked
                } else {
                    access == Access::Read(reg) && next.pos == s.pos && next.asked
                },
                Op::ClearBits { reg, mask } => if s.asked {
                    access == Access::Write(reg, value & !mask) && next.pos == s.pos + 1
                        && !next.asked
                } else {
                    access == Access::Read(reg) && next.pos == s.pos && next.asked
                },
                Op::WaitSet { reg, mask } => if s.asked && value & mask != 0 {
                    next.pos == s.pos + 1 && next.timed_out == s.timed_out
                } else if s.asked && s.left <= 1 {
                    next.pos == s.pos + 1 && next.timed_out
                } else {
                    access == Access::Read(reg) && next.pos == s.pos && next.asked && (s.asked
                        ==> next.left == s.left - 1)
                },
                Op::WaitClear { reg, mask } => if s.asked && value & mask == 0 {
                    next.pos == s.pos + 1 && next.timed_out == s.timed_out
                } else if s.asked && s.left <= 1 {
                    next.pos == s.pos + 1 && next.timed_out
                } else {
                    access == Access::Read(reg) && next.pos == s.pos && next.asked && (s.asked
                        ==> next.left == s.left - 1)
                },
            }
        }),
{
}

/// The controller that is taken is the first mass storage controller (class 1) for SATA
/// (subclass 6) with the AHCI interface; its registers are where its sixth base address says.
pub proof fn law_first_controller(devices: Seq<PciDevice>)
    ensures
        match first_controller(devices, devices.len() as int) {
            Some(i) => 0 <= i < devices.len() && devices[i].class == 1 && devices[i].subclass == 6
                && (devices[i].prog_if == 1 || devices[i].prog_if == 2) && forall|k: int|
                0 <= k < i ==> !is_controller(#[trigger] devices[k]),
            None => forall|k: int|
                0 <= k < devices.len() ==> {
                    let d = #[trigger] devices[k];
                    d.class != 1 || d.subclass != 6 || (d.prog_if != 1 && d.prog_if != 2)
                },
        },
        match first_controller(devices, devices.len() as int) {
            Some(i) => if devices[i].bars@[5] as int / 4 == 0 {
                first_stage(devices) == (Stage::Ended { disk: None })
            } else {
                first_stage(devices) matches Stage::ReadCommand { abar, .. } ==> abar
                    == devices[i].bar(5)
            },
            None => first_stage(devices) == (Stage::Ended { disk: None }),
        },
{
    lemma_controller(devices, devices.len() as int);
}

proof fn lemma_controller(devices: Seq<PciDevice>, n: int)
    requires
        0 <= n <= devices.len(),
    ensures
        match first_controller(devices, n) {
            Some(i) => 0 <= i < n && is_controller(devices[i]) && forall|k: int|
                0 <= k < i ==> !is_controller(#[trigger] devices[k]),
            None => forall|k: int| 0 <= k < n ==> !is_controller(#[trigger] devices[k]),
        },
    decreases n,
{
    if n > 0 {
        lemma_controller(devices, n - 1);
    }
}

/// The search switches on memory access and bus mastering (bits 1 and 2 of the command
/// register) and leaves the other bits; it tries as many ports as the capabilities say, from
/// port 0 up, and takes a port only if a drive is there and talks (3 in the low four bits of
/// its status).
#[verifier::rlimit(40)]
pub proof fn law_search_steps(stage: Stage, value: u32)
    ensures
        (stage matches Stage::ReadCommand { index, abar }) ==> (stage_after(stage, Answer::Value(value))
            matches Stage::WriteCommand { value: put, .. } && put as int / 2 % 4 == 3 && put % 2
            == value % 2 && put as int / 8 == value as int / 8),
        stage is ReadCapabilities ==> (stage_after(stage, Answer::Value(value)) matches Stage::Reset {
            ports,
        } && ports == value % 32 + 1),
        (stage matches Stage::ReadStatus { ports, port } && value % 16 == 3) ==> stage_after(
            stage,
            Answer::Value(value),
        ) is Stop,
        (stage matches Stage::ReadStatus { ports, port } && value % 16 != 3 && port + 1 < ports) ==> (
        stage_after(stage, Answer::Value(value)) matches Stage::ReadStatus { ports, port }
            && port == stage->ReadStatus_port + 1 && ports == stage->ReadStatus_ports),
        (stage matches Stage::ReadStatus { ports, port } && value % 16 != 3 && port + 1 >= ports)
            ==> stage_after(stage, Answer::Value(value)) == (Stage::Ended { disk: None }),
{
}

/// A request is refused for a buffer that is not one sector long, for a sector behind the last
/// one, and by a port that is not active, in this order, and for nothing else.
pub proof fn law_requests_checked(port: AhciPort, lba: u64, len: int)
    ensures
        len != port.sector_size ==> port_error(port, lba, len) == Some(
            BlockError::InvalidBufferSize,
        ),
        len == port.sector_size && lba >= port.total_sectors ==> port_error(port, lba, len) == Some(
            BlockError::OutOfBounds,
        ),
        len == port.sector_size && lba < port.total_sectors && !port.active ==> port_error(
            port,
            lba,
            len,
        ) == Some(BlockError::DeviceNotReady),
        len == port.sector_size && lba < port.total_sectors && port.active ==> port_error(
            port,
            lba,
            len,
        ) is None,
{
}

/// An interrupt arrives under the number that the last override for it says, and without one
/// under its own.
pub proof fn law_last_override_counts(overrides: Seq<InterruptOverride>, irq: int, k: int)
    requires
        0 <= irq < 16,
    ensures
        (forall|i: int|
            0 <= i < overrides.len() ==> (#[trigger] overrides[i]).bus != 0 || overrides[i].source
                != irq) ==> gsi_of(overrides, irq, overrides.len() as int) == irq,
        0 <= k < overrides.len() && overrides[k].bus == 0 && overrides[k].source == irq && (forall|
            i: int,
        |
            k < i < overrides.len() ==> (#[trigger] overrides[i]).bus != 0 || overrides[i].source
                != irq) ==> gsi_of(overrides, irq, overrides.len() as int) == overrides[k].global,
{
    lemma_gsi(overrides, irq, k, overrides.len() as int);
}

proof fn lemma_gsi(overrides: Seq<InterruptOverride>, irq: int, k: int, n: int)
    requires
        0 <= irq < 16,
        0 <= n <= overrides.len(),
    ensures
        (forall|i: int|
            0 <= i < n ==> (#[trigger] overrides[i]).bus != 0 || overrides[i].source != irq)
            ==> gsi_of(overrides, irq, n) == irq,
        0 <= k < n && overrides[k].bus == 0 && overrides[k].source == irq && (forall|i: int|
            k < i < n ==> (#[trigger] overrides[i]).bus != 0 || overrides[i].source != irq)
            ==> gsi_of(overrides, irq, n) == overrides[k].global,
    decreases n,
{
    if n > 0 {
        lemma_gsi(overrides, irq, k, n - 1);
        let last = overrides[n - 1];
    }
}

/// The entries of the I/O APIC are counted from its first interrupt, and each has two
/// registers from 0x10 on.
pub proof fn law_route(gsi: u32, base: u32)
    requires
        base <= gsi < base + 0x1_0000,
    ensures
        route_of(gsi, base).gsi == gsi,
        route_of(gsi, base).entry == gsi - base,
        entry_register(route_of(gsi, base).entry) == 0x10 + 2 * (gsi - base),
{
}

/// The characters of the keys, row by row.
#[verifier::rlimit(40)]
pub proof fn law_keys(i: int)
    ensures
        0 <= i < 12 ==> plain_ascii((0x02 + i) as u8) as char == "1234567890-="@[i],
        0 <= i < 12 ==> plain_ascii((0x10 + i) as u8) as char == "qwertyuiop[]"@[i],
        0 <= i < 12 ==> plain_ascii((0x1E + i) as u8) as char == "asdfghjkl;'`"@[i],
        0 <= i < 11 ==> plain_ascii((0x2B + i) as u8) as char == "\\zxcvbnm,./"@[i],
        plain_ascii(0x39) as char == ' ',
        plain_ascii(0x37) as char == '*',
        plain_ascii(0x4A) as char == '-',
        plain_ascii(0x4E) as char == '+',
{
    reveal_strlit("1234567890-=");
    reveal_strlit("qwertyuiop[]");
    reveal_strlit("asdfghjkl;'`");
    reveal_strlit("\\zxcvbnm,./");
}

/// What shift makes of the keys: letters become capitals, digits and signs what stands above
/// them.
#[verifier::rlimit(40)]
pub proof fn law_shifted_keys(i: int)
    ensures
        0 <= i < 26 ==> shifted_ascii((97 + i) as u8) == 65 + i,
        0 <= i < 21 ==> shifted_ascii("1234567890-=[]\\;'`,./"@[i] as u8) as char
            == "!@#$%^&*()_+{}|:\"~<>?"@[i],
{
    reveal_strlit("1234567890-=[]\\;'`,./");
    reveal_strlit("!@#$%^&*()_+{}|:\"~<>?");
}

/// A key press gives its character, or what shift makes of it; backspace, enter and the space
/// bar are the same either way, and a key without a character gives nothing.
pub proof fn law_key_presses(scancode: u8, shift: bool)
    ensures
        key_byte(0x0E, shift) == Some(8u8),
        key_byte(0x1C, shift) == Some(10u8),
        key_byte(0x39, shift) == Some(32u8),
        scancode != 0x0E && scancode != 0x1C && plain_ascii(scancode) == 0 ==> key_byte(
            scancode,
            shift,
        ) is None,
        plain_ascii(scancode) != 0 ==> key_byte(scancode, false) == Some(plain_ascii(scancode)),
        plain_ascii(scancode) != 0 ==> key_byte(scancode, true) == Some(
            shifted_ascii(plain_ascii(scancode)),
        ),
        plain_ascii(scancode) != 0 ==> printable(plain_ascii(scancode)) && printable(
            shifted_ascii(plain_ascii(scancode)),
        ),
{
}

/// The printable bytes are those from the blank to the tilde.
pub proof fn law_printable(b: u8)
    ensures
        printable(b) <==> 32 <= b && b < 127,
{
}

/// The error numbers: each error has the number that Linux gives it, negated.
pub proof fn law_error_numbers(e: BlockError)
    ensures
        -133 < e.errno() < 0,
        e.errno() == -22 <==> e is InvalidBufferSize || e is OutOfBounds,
        e.errno() == -19 <==> e is DeviceNotReady || e is NoSuchDevice,
        e.errno() == -5 <==> e is IoError,
        e.errno() == -30 <==> e is ReadOnly,
        e.errno() == -24 <==> e is TooManyDevices,
        e.errno() == -17 <==> e is DeviceAlreadyExists,
{
}

/// The interrupt controllers are where the firmware's table says; what it leaves out is at
/// its usual place.
pub proof fn law_controller_addresses(m: MadtInfo)
    ensures
        addresses_of(None).local == 0xFEE0_0000,
        addresses_of(None).io == 0xFEC0_0000,
        addresses_of(None).gsi_base == 0,
        addresses_of(Some(m)).local == m.local_apic_addr,
        m.io_apic_addr != 0 ==> addresses_of(Some(m)).io == m.io_apic_addr,
        m.io_apic_addr == 0 ==> addresses_of(Some(m)).io == 0xFEC0_0000,
        addresses_of(Some(m)).gsi_base == m.io_apic_gsi_base,
{
}

/// A selector is eight times an index, plus four for a local table, plus a privilege level.
pub proof fn law_selector_parts(index: int, local: int, level: int)
    requires
        0 <= index < 8192,
        0 <= local < 2,
        0 <= level < 4,
    ensures
        index_of((8 * index + 4 * local + level) as u64) == index,
        rpl((8 * index + 4 * local + level) as u64) == level,
{
}

/// The access byte of a descriptor is bits 8 to 15 of its high half: the type in four bits, a
/// bit for the kind, the privilege level in two bits and the bit that says that it is present.
pub proof fn law_descriptor_parts(d: RawDescriptor, low: int, kind: int, s: int, dpl: int, present: int, high: int)
    requires
        0 <= low < 256,
        0 <= kind < 16,
        0 <= s < 2,
        0 <= dpl < 4,
        0 <= present < 2,
        0 <= high < 65536,
        d.high == low + 256 * (kind + 16 * s + 32 * dpl + 128 * present) + 65536 * high,
    ensures
        d.access() == kind + 16 * s + 32 * dpl + 128 * present,
        d.kind() == kind,
        d.dpl() == dpl,
        d.present() == present,
{
    let a = kind + 16 * s + 32 * dpl + 128 * present;
    assert(0 <= a < 256);
    assert(d.high as int / 256 == a + 256 * high);
    assert((a + 256 * high) % 256 == a);
    assert(a / 32 == dpl + 4 * present);
}

/// A further decimal digit goes behind those of the rest: a number is written without leading
/// zeros, the highest digit first.
pub proof fn law_decimal_digits(n: int, d: int)
    requires
        0 <= d < 10,
        0 <= n,
    ensures
        dec_text(d) == seq![(48 + d) as u8],
        n > 0 ==> dec_text(10 * n + d) == dec_text(n).push((48 + d) as u8),
{
}

/// A hexadecimal number is written as `0x` and sixteen digits, the highest first, with
/// capital letters for the digits above nine.
pub proof fn law_hex_digits_in_order(n: int, d: int, k: nat, v: u64)
    requires
        0 <= d < 16,
        0 <= n,
    ensures
        hex_digits(16 * n + d, k + 1) == hex_digits(n, k).push(
            (if d < 10 {
                48 + d
            } else {
                55 + d
            }) as u8,
        ),
        hex_digits(n, 0).len() == 0,
        hex_text(v) == seq![48u8, 120u8] + hex_digits(v as int, 16),
        line_end() == seq![13u8, 10u8],
{
}

/// What the search asks for at its stages: the capabilities are register 0, the status that of
/// the port that is tried, and what it ends with is the disk that it found.
pub proof fn law_search_actions(stage: Stage)
    ensures
        stage is ReadCapabilities ==> action_at(stage) == (Action::ReadRegister { reg: 0 }),
        stage matches Stage::ReadStatus { port, .. } && port < 32 ==> action_at(stage) == (
        Action::ReadRegister { reg: (0x128 + 128 * stage->ReadStatus_port) as u32 }),
        stage matches Stage::ReadCommand { index, .. } ==> action_at(stage)
            == (Action::ReadCommand { index }),
        stage matches Stage::WriteCommand { index, value, .. } ==> action_at(stage) == (
        Action::WriteCommand { index, value }),
        stage matches Stage::MapRegisters { abar } ==> action_at(stage) == (Action::MapRegisters {
            abar,
        }),
        stage matches Stage::Stop { port, .. } ==> action_at(stage) == (Action::Stop { port }),
        stage matches Stage::Start { port, pages, .. } ==> action_at(stage) == (Action::Start {
            port,
            pages,
        }),
        stage matches Stage::Identify { port, pages, .. } ==> action_at(stage)
            == (Action::Identify { port, pages }),
        stage matches Stage::Ended { disk } ==> action_at(stage) == (Action::Finished { disk }),
{
}

/// The number of a port is written in decimal, without a leading zero.
pub proof fn law_port_digits(port: u8)
    requires
        port < 32,
    ensures
        port < 10 ==> port_digits(port).len() == 1 && port_digits(port)[0] as int == 48 + port,
        port >= 10 ==> port_digits(port).len() == 2 && 10 * (port_digits(port)[0] as int - 48) + (
        port_digits(port)[1] as int - 48) == port,
{
}

/// The order of the search: reset, enable, then for each port in turn its status and, if a
/// drive is there, stop, pages, clear, start and identify. A reset that times out ends it,
/// and so does the first port with sectors; a port without pages or sectors is passed over.
pub proof fn law_search_order(stage: Stage, answer: Answer, ports: u8, port: u8, pages: DmaPages)
    requires
        port + 1 < ports,
    ensures
        stage_after(Stage::Reset { ports }, Answer::Ran { timed_out: true }) == (Stage::Ended {
            disk: None,
        }),
        stage_after(Stage::Reset { ports }, Answer::Ran { timed_out: false }) == (Stage::Enable {
            ports,
        }),
        stage_after(Stage::Enable { ports }, answer) == (Stage::ReadStatus { ports, port: 0 }),
        stage_after(Stage::Stop { ports, port }, answer) == (Stage::Allocate { ports, port }),
        stage_after(Stage::Allocate { ports, port }, Answer::Pages(Ok(pages))) == (Stage::Clear {
            ports,
            port,
            pages,
        }),
        (answer matches Answer::Pages(Err(_))) ==> stage_after(
            Stage::Allocate { ports, port },
            answer,
        ) == (Stage::ReadStatus { ports, port: (port + 1) as u8 }),
        stage_after(Stage::Clear { ports, port, pages }, answer) == (Stage::Start {
            ports,
            port,
            pages,
        }),
        stage_after(Stage::Start { ports, port, pages }, answer) == (Stage::Identify {
            ports,
            port,
            pages,
        }),
        (answer matches Answer::Geometry { total_sectors, .. } && total_sectors == 0)
            ==> stage_after(Stage::Identify { ports, port, pages }, answer) == (Stage::ReadStatus {
            ports,
            port: (port + 1) as u8,
        }),
        (answer matches Answer::Geometry { sector_size, total_sectors } && total_sectors > 0) ==> (
        stage_after(Stage::Identify { ports, port, pages }, answer) matches Stage::Ended {
            disk: Some(d),
        } && d.index == port && d.pages == pages && d.active && d.sector_size
            == answer->Geometry_sector_size && d.total_sectors == answer->Geometry_total_sectors),
{
}

} // verus!
