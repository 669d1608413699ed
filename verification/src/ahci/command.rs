//! Commands: what the controller reads of one, and its course until it is done.
use vstd::prelude::*;

use crate::ahci::hba::{HbaCmdHeader, HbaPrdtEntry, PORT_CI, PORT_IS, PORT_IS_TFES, PORT_TFD, TFD_BSY};
use crate::ahci::program;
use crate::ahci::program::{port_regs, ATA_TIMEOUT};
use crate::block::BlockError;

verus! {

/// Size of the command FIS area.
pub const FIS_SIZE: usize = 64;

/// What a command asks the drive to do.
#[derive(Debug, Clone, Copy, PartialEq, Eq, Structural)]
pub enum Command {
    Identify,
    Read(u64),
    Write(u64),
}

/// The `k`-th byte of a sector number, counted from the least significant one.
pub open spec fn lba_byte(lba: u64, k: int) -> u8 {
    if k == 0 {
        (lba % 0x100) as u8
    } else if k == 1 {
        (lba / 0x100 % 0x100) as u8
    } else if k == 2 {
        (lba / 0x1_0000 % 0x100) as u8
    } else if k == 3 {
        (lba / 0x100_0000 % 0x100) as u8
    } else if k == 4 {
        (lba / 0x1_0000_0000 % 0x100) as u8
    } else {
        (lba / 0x100_0000_0000 % 0x100) as u8
    }
}

/// Byte `i` of the FIS of a transfer of one sector.
pub open spec fn transfer_byte(code: u8, lba: u64, i: int) -> u8 {
    if i == 0 {
        0x27
    } else if i == 1 {
        0x80
    } else if i == 2 {
        code
    } else if i == 4 {
        lba_byte(lba, 0)
    } else if i == 5 {
        lba_byte(lba, 1)
    } else if i == 6 {
        lba_byte(lba, 2)
    } else if i == 7 {
        (0x40 + lba / 0x100_0000 % 16) as u8
    } else if i == 8 {
        lba_byte(lba, 3)
    } else if i == 9 {
        lba_byte(lba, 4)
    } else if i == 10 {
        lba_byte(lba, 5)
    } else if i == 12 {
        1
    } else {
        0
    }
}

/// Byte `i` of the FIS of a command.
pub open spec fn fis_byte(command: Command, i: int) -> u8 {
    match command {
        Command::Identify => transfer_byte(0xEC, 0, i),
        Command::Read(lba) => transfer_byte(0x25, lba, i),
        Command::Write(lba) => transfer_byte(0x35, lba, i),
    }
}

/// Build the FIS of a command: a host-to-device register FIS with the command, the
/// sector number and a count of one sector.
pub fn build_fis(command: Command) -> (r: [u8; 64])
    ensures
        r@ == Seq::new(64, |i: int| fis_byte(command, i)),
{
    let (code, lba): (u8, u64) = match command {
        Command::Identify => (0xEC, 0),
        Command::Read(lba) => (0x25, lba),
        Command::Write(lba) => (0x35, lba),
    };
    let mut fis: [u8; 64] = [0; 64];
    fis[0] = 0x27;
    fis[1] = 0x80;
    fis[2] = code;
    fis[4] = (lba % 0x100) as u8;
    fis[5] = (lba / 0x100 % 0x100) as u8;
    fis[6] = (lba / 0x1_0000 % 0x100) as u8;
    fis[7] = (0x40 + lba / 0x100_0000 % 16) as u8;
    fis[8] = (lba / 0x100_0000 % 0x100) as u8;
    fis[9] = (lba / 0x1_0000_0000 % 0x100) as u8;
    fis[10] = (lba / 0x100_0000_0000 % 0x100) as u8;
    fis[12] = 1;
    assert(fis@ =~= Seq::new(64, |i: int| fis_byte(command, i)));
    fis
}

/// The sector number that a FIS carries.
pub open spec fn fis_lba(fis: Seq<u8>) -> int {
    fis[4] + fis[5] * 0x100 + fis[6] * 0x1_0000 + fis[8] * 0x100_0000 + fis[9] * 0x1_0000_0000
        + fis[10] * 0x100_0000_0000
}

/// A FIS carries the sector number of its command, up to 48 bits.
pub proof fn law_fis_carries_lba(lba: u64)
    ensures
        fis_lba(Seq::new(64, |i: int| fis_byte(Command::Read(lba), i))) == lba
            % 0x1_0000_0000_0000,
        fis_lba(Seq::new(64, |i: int| fis_byte(Command::Write(lba), i))) == lba
            % 0x1_0000_0000_0000,
{
    lemma_lba_bytes(lba);
}

proof fn lemma_lba_bytes(lba: u64)
    ensures
        lba_byte(lba, 0) + lba_byte(lba, 1) * 0x100 + lba_byte(lba, 2) * 0x1_0000 + lba_byte(lba, 3)
            * 0x100_0000 + lba_byte(lba, 4) * 0x1_0000_0000 + lba_byte(lba, 5) * 0x100_0000_0000
            == lba % 0x1_0000_0000_0000,
{
    let x = lba as int;
    lemma_low_byte(x, 0x100);
    lemma_low_byte(x, 0x1_0000);
    lemma_low_byte(x, 0x100_0000);
    lemma_low_byte(x, 0x1_0000_0000);
    lemma_low_byte(x, 0x100_0000_0000);
}

/// A number below `b * 256` consists of what is below `b` and of one more byte.
proof fn lemma_low_byte(x: int, b: int)
    requires
        0 <= x,
        0 < b,
    ensures
        x % (b * 256) == x % b + x / b % 256 * b,
{
    vstd::arithmetic::div_mod::lemma_mod_breakdown(x, b, 256);
    vstd::arithmetic::mul::lemma_mul_is_commutative(b, x / b % 256);
}

/// What is left of the options of a command header in its low half: the length of the FIS
/// and the direction are new, the other bits are as they were.
proof fn lemma_header_opts(opts: int, write: bool)
    requires
        0 <= opts <= u32::MAX,
    ensures
        ({
            let a = opts - opts % 32 + 5;
            let w = if write {
                64int
            } else {
                0
            };
            let b = a - a / 64 % 2 * 64 + w;
            &&& 0 <= a <= u32::MAX
            &&& 0 <= b <= u32::MAX
            &&& b % 0x1_0000 == 5 + (opts % 0x1_0000 - opts % 32 - opts / 64 % 2 * 64) + w
        }),
{
    let w = if write {
        64int
    } else {
        0
    };
    let high = opts / 0x1_0000;
    let k = opts % 0x1_0000 / 128;
    let bit = opts % 0x1_0000 / 64 % 2;
    let c = opts % 0x1_0000 / 32 % 2;
    let d = opts % 0x1_0000 % 32;
    let low = 128 * k + 64 * bit + 32 * c + d;
    assert(opts % 0x1_0000 == low);
    assert(opts == 0x1_0000 * high + low);
    assert(opts % 32 == d);
    assert(opts / 64 % 2 == bit);
    let a = opts - d + 5;
    assert(a / 64 == 1024 * high + 2 * k + bit);
    let rest = 128 * k + 32 * c + 5 + w;
    assert(0 <= rest < 0x1_0000);
    assert(a - a / 64 % 2 * 64 + w == 0x1_0000 * high + rest);
    assert((0x1_0000 * high + rest) % 0x1_0000 == rest);
}

/// Fill in the command header of slot 0: a FIS of five dwords and one region.
pub fn build_header(header: HbaCmdHeader, write: bool, cmd_table_phys: u64) -> (r: HbaCmdHeader)
    ensures
        r.opts == 5 + (header.opts % 0x1_0000 - header.opts % 32 - header.opts / 64 % 2 * 64) + (
        if write {
            64int
        } else {
            0
        }) + 0x1_0000,
        r.byte_count == header.byte_count,
        r.cmd_table_base_lo == cmd_table_phys % 0x1_0000_0000,
        r.cmd_table_base_hi == cmd_table_phys / 0x1_0000_0000,
        r.opts % 32 == 5,
        r.opts as int / 64 % 2 == 1 <==> write,
        r.opts as int / 65536 == 1,
        r.cmd_table_base_lo + 4294967296 * r.cmd_table_base_hi == cmd_table_phys,
{
    let mut h: HbaCmdHeader = header;
    proof {
        lemma_header_opts(header.opts as int, write);
    }
    h.set_cfl(5);
    h.set_write(write);
    h.set_prdt_len(1);
    h.set_cmd_table_addr(cmd_table_phys);
    h
}

/// Fill in the region descriptor: a buffer of `len` bytes, with an interrupt at its end.
pub fn build_prdt(dma_buf_phys: u64, len: u32) -> (r: HbaPrdtEntry)
    requires
        0 < len <= 0x8000_0000,
    ensures
        r.base_addr == dma_buf_phys,
        r.byte_count == 0x8000_0000 + (len - 1),
        r.byte_count as int % 2147483648 + 1 == len,
        r.byte_count as int / 2147483648 == 1,
{
    let mut e: HbaPrdtEntry = HbaPrdtEntry { base_addr: dma_buf_phys, byte_count: 0 };
    e.set_byte_count(len);
    e.set_interrupt_on_complete(true);
    e
}

/// How a command ended.
#[derive(Debug, Clone, Copy, PartialEq, Eq, Structural)]
pub enum Outcome {
    Complete,
    /// The drive was busy; nothing was issued.
    NotReady,
    /// The drive reported an error.
    Failed,
    /// The drive did not answer in time.
    TimedOut,
}

/// What the caller does next.
#[derive(Debug, Clone, Copy, PartialEq, Eq, Structural)]
pub enum CommandAccess {
    Read(u32),
    Write(u32, u32),
    Finished(Outcome),
}

/// Where a command stands.
#[derive(Debug, Clone, Copy, PartialEq, Eq, Structural)]
pub enum Phase {
    /// The interrupt status is to be cleared.
    Begin,
    /// The busy bit is to be read.
    AskBusy,
    /// The busy bit was read.
    GotBusy,
    /// The command is to be issued.
    Issue,
    /// The issue register is to be read.
    AskIssued,
    /// The issue register was read.
    GotIssued,
    /// The interrupt status was read.
    GotStatus,
    /// The command is over.
    Ended(Outcome),
}

/// A command that is being run on slot 0 of the port whose registers start at `regs`.
#[derive(Debug, Clone, Copy, PartialEq, Eq, Structural)]
pub struct CommandRun {
    pub regs: u32,
    pub check_busy: bool,
    pub phase: Phase,
    pub left: u32,
}

/// What a command does when it is given a value, and where it stands then. It is over
/// when its bit in the issue register is clear, when the drive reports a task file
/// error, or when the polls are used up.
pub open spec fn command_step(run: CommandRun, value: u32) -> (CommandRun, CommandAccess) {
    let status = (run.regs + PORT_IS) as u32;
    let issue = (run.regs + PORT_CI) as u32;
    match run.phase {
        Phase::Begin => (
            CommandRun {
                phase: if run.check_busy {
                    Phase::AskBusy
                } else {
                    Phase::Issue
                },
                ..run
            },
            CommandAccess::Write(status, 0xFFFF_FFFF),
        ),
        Phase::AskBusy => (
            CommandRun { phase: Phase::GotBusy, ..run },
            CommandAccess::Read((run.regs + PORT_TFD) as u32),
        ),
        Phase::GotBusy => if value & TFD_BSY != 0 {
            (
                CommandRun { phase: Phase::Ended(Outcome::NotReady), ..run },
                CommandAccess::Finished(Outcome::NotReady),
            )
        } else {
            (CommandRun { phase: Phase::AskIssued, ..run }, CommandAccess::Write(issue, 1))
        },
        Phase::Issue => (
            CommandRun { phase: Phase::AskIssued, ..run },
            CommandAccess::Write(issue, 1),
        ),
        Phase::AskIssued => (
            CommandRun { phase: Phase::GotIssued, ..run },
            CommandAccess::Read(issue),
        ),
        Phase::GotIssued => if value % 2 == 0 {
            (
                CommandRun { phase: Phase::Ended(Outcome::Complete), ..run },
                CommandAccess::Write(status, 0xFFFF_FFFF),
            )
        } else {
            (CommandRun { phase: Phase::GotStatus, ..run }, CommandAccess::Read(status))
        },
        Phase::GotStatus => if value & PORT_IS_TFES != 0 {
            (
                CommandRun { phase: Phase::Ended(Outcome::Failed), ..run },
                CommandAccess::Write(status, 0xFFFF_FFFF),
            )
        } else if run.left <= 1 {
            (
                CommandRun { phase: Phase::Ended(Outcome::TimedOut), ..run },
                CommandAccess::Finished(Outcome::TimedOut),
            )
        } else {
            (
                CommandRun { phase: Phase::GotIssued, left: (run.left - 1) as u32, ..run },
                CommandAccess::Read(issue),
            )
        },
        Phase::Ended(outcome) => (run, CommandAccess::Finished(outcome)),
    }
}

impl CommandRun {
    /// Start a command. A transfer first makes sure that the drive is not busy.
    pub fn new(port: u8, command: Command) -> (r: CommandRun)
        ensures
            r == (CommandRun {
                regs: program::port_base(port as int) as u32,
                check_busy: command != Command::Identify,
                phase: Phase::Begin,
                left: ATA_TIMEOUT,
            }),
            r.wf(),
    {
        let check_busy: bool = match command {
            Command::Identify => false,
            _ => true,
        };
        CommandRun { regs: port_regs(port), check_busy, phase: Phase::Begin, left: ATA_TIMEOUT }
    }

    pub open spec fn wf(&self) -> bool {
        self.regs <= 0x1_0000 && self.left <= ATA_TIMEOUT
    }

    /// The next access. `value` is what the last read gave; it is not looked at if the
    /// last access was no read.
    pub fn step(&mut self, value: u32) -> (r: CommandAccess)
        requires
            old(self).wf(),
        ensures
            final(self).wf(),
            (*final(self), r) == command_step(*old(self), value),
    {
        let status: u32 = self.regs + PORT_IS;
        let issue: u32 = self.regs + PORT_CI;
        match self.phase {
            Phase::Begin => {
                self.phase = if self.check_busy {
                    Phase::AskBusy
                } else {
                    Phase::Issue
                };
                CommandAccess::Write(status, 0xFFFF_FFFF)
            },
            Phase::AskBusy => {
                self.phase = Phase::GotBusy;
                CommandAccess::Read(self.regs + PORT_TFD)
            },
            Phase::GotBusy => {
                if value & TFD_BSY != 0 {
                    self.phase = Phase::Ended(Outcome::NotReady);
                    CommandAccess::Finished(Outcome::NotReady)
                } else {
                    self.phase = Phase::AskIssued;
                    CommandAccess::Write(issue, 1)
                }
            },
            Phase::Issue => {
                self.phase = Phase::AskIssued;
                CommandAccess::Write(issue, 1)
            },
            Phase::AskIssued => {
                self.phase = Phase::GotIssued;
                CommandAccess::Read(issue)
            },
            Phase::GotIssued => {
                if value % 2 == 0 {
                    self.phase = Phase::Ended(Outcome::Complete);
                    CommandAccess::Write(status, 0xFFFF_FFFF)
                } else {
                    self.phase = Phase::GotStatus;
                    CommandAccess::Read(status)
                }
            },
            Phase::GotStatus => {
                if value & PORT_IS_TFES != 0 {
                    self.phase = Phase::Ended(Outcome::Failed);
                    CommandAccess::Write(status, 0xFFFF_FFFF)
                } else if self.left <= 1 {
                    self.phase = Phase::Ended(Outcome::TimedOut);
                    CommandAccess::Finished(Outcome::TimedOut)
                } else {
                    self.left = self.left - 1;
                    self.phase = Phase::GotIssued;
                    CommandAccess::Read(issue)
                }
            },
            Phase::Ended(outcome) => CommandAccess::Finished(outcome),
        }
    }
}

/// How far a command is from its end.
pub open spec fn distance(run: CommandRun) -> int {
    match run.phase {
        Phase::Begin => 2 * run.left + 6,
        Phase::AskBusy => 2 * run.left + 5,
        Phase::GotBusy => 2 * run.left + 4,
        Phase::Issue => 2 * run.left + 4,
        Phase::AskIssued => 2 * run.left + 3,
        Phase::GotIssued => 2 * run.left + 2,
        Phase::GotStatus => 2 * run.left + 1,
        Phase::Ended(_) => 0,
    }
}

/// A command ends: each step brings it closer to its end, whatever the drive does.
pub proof fn law_command_ends(run: CommandRun, value: u32)
    requires
        !(run.phase is Ended),
    ensures
        0 <= distance(command_step(run, value).0) < distance(run),
{
}

/// What a transfer reports.
pub open spec fn transfer_result(outcome: Outcome) -> Result<(), BlockError> {
    match outcome {
        Outcome::Complete => Ok(()),
        Outcome::NotReady => Err(BlockError::DeviceNotReady),
        Outcome::Failed => Err(BlockError::IoError),
        Outcome::TimedOut => Err(BlockError::IoError),
    }
}

pub fn issue_command(outcome: Outcome) -> (r: Result<(), BlockError>)
    ensures
        r == transfer_result(outcome),
{
    match outcome {
        Outcome::Complete => Ok(()),
        Outcome::NotReady => Err(BlockError::DeviceNotReady),
        Outcome::Failed => Err(BlockError::IoError),
        Outcome::TimedOut => Err(BlockError::IoError),
    }
}

/// The number of sectors that the answer to an identify command gives: the 48-bit number
/// if the drive has one, else the 28-bit one.
pub open spec fn identified_sectors(words: Seq<u16>) -> int {
    if words[83] / 0x400 % 2 == 1 {
        words[100] + words[101] * 0x1_0000 + words[102] * 0x1_0000_0000 + words[103]
            * 0x1_0000_0000_0000
    } else {
        words[60] + words[61] * 0x1_0000
    }
}

/// `n` doubled `k` times.
pub open spec fn doubled(n: int, k: int) -> int
    decreases k,
{
    if k <= 0 {
        n
    } else {
        2 * doubled(n, k - 1)
    }
}

/// The sector size that the answer to an identify command gives.
pub open spec fn identified_size(words: Seq<u16>) -> int {
    if words[106] / 0x4000 % 2 == 1 {
        doubled(512, words[106] as int % 16)
    } else {
        512
    }
}

/// What an identify command says of the drive: sector size and number of sectors. The
/// number is 0 if the command did not complete; a drive that reports none counts as one
/// with 0xFFFFFFFF.
pub fn identify_device(outcome: Outcome, words: &[u16]) -> (r: (u32, u64))
    requires
        words@.len() >= 256,
    ensures
        outcome != Outcome::Complete ==> r == (512u32, 0u64),
        outcome == Outcome::Complete ==> r.0 == identified_size(words@) && r.1
            == if identified_sectors(words@) == 0 {
            0xFFFF_FFFF
        } else {
            identified_sectors(words@)
        },
{
    match outcome {
        Outcome::Complete => {},
        _ => {
            return (512, 0);
        },
    }
    let total: u64 = if words[83] / 0x400 % 2 == 1 {
        words[100] as u64 + words[101] as u64 * 0x1_0000 + words[102] as u64 * 0x1_0000_0000
            + words[103] as u64 * 0x1_0000_0000_0000
    } else {
        words[60] as u64 + words[61] as u64 * 0x1_0000
    };
    let mut size: u32 = 512;
    if words[106] / 0x4000 % 2 == 1 {
        let shift: u16 = words[106] % 16;
        let mut k: u16 = 0;
        while k < shift
            invariant
                k <= shift < 16,
                size == doubled(512, k as int),
            decreases shift - k,
        {
            proof {
                lemma_doubled_bound(k as int);
            }
            size = size * 2;
            k = k + 1;
        }
    }
    (
        size,
        if total == 0 {
            0xFFFF_FFFF
        } else {
            total
        },
    )
}

proof fn lemma_doubled_bound(k: int)
    requires
        0 <= k < 16,
    ensures
        doubled(512, k) <= 512 * 0x8000,
{
    reveal_with_fuel(doubled, 17);
}

} // verus!
