//! Register programs: the steps that reset the controller and start a port.
use vstd::prelude::*;

use crate::ahci::hba::{
    GHC_AE, GHC_HR, HBA_GHC, HBA_PORT_REGS, PORT_CLB, PORT_CLBU, PORT_CMD, PORT_CMD_CR,
    PORT_CMD_FR, PORT_CMD_FRE, PORT_CMD_ST, PORT_FB, PORT_FBU, PORT_IS, PORT_TFD, TFD_BSY, TFD_DRQ,
};

verus! {

/// Timeout for commands (in polling iterations).
pub const ATA_TIMEOUT: u32 = 500_000;

/// A step of a register program.
#[derive(Debug, Clone, Copy, PartialEq, Eq, Structural)]
pub enum Op {
    /// Write a value.
    Put { reg: u32, value: u32 },
    /// Read, set the bits of the mask, and write back.
    SetBits { reg: u32, mask: u32 },
    /// Read, clear the bits of the mask, and write back.
    ClearBits { reg: u32, mask: u32 },
    /// Poll until a bit of the mask is set, or the polls are used up.
    WaitSet { reg: u32, mask: u32 },
    /// Poll until all bits of the mask are clear, or the polls are used up.
    WaitClear { reg: u32, mask: u32 },
}

/// What the caller does next.
#[derive(Debug, Clone, Copy, PartialEq, Eq, Structural)]
pub enum Access {
    /// Read a register and hand over its value.
    Read(u32),
    /// Write a register.
    Write(u32, u32),
    /// Nothing; ask again.
    Again,
    /// The program is over.
    Finished,
}

/// A program that is being run. `asked` is set while the value of a read is awaited;
/// `left` counts the polls that are left.
pub struct Runner {
    pub ops: Vec<Op>,
    pub pos: usize,
    pub asked: bool,
    pub left: u32,
    pub timed_out: bool,
}

/// Where a program stands.
pub struct RunState {
    pub pos: int,
    pub asked: bool,
    pub left: u32,
    pub timed_out: bool,
}

/// The step behind the current one.
pub open spec fn advanced(s: RunState) -> RunState {
    RunState { pos: s.pos + 1, asked: false, ..s }
}

pub open spec fn op_reg(op: Op) -> u32 {
    match op {
        Op::Put { reg, value } => reg,
        Op::SetBits { reg, mask } => reg,
        Op::ClearBits { reg, mask } => reg,
        Op::WaitSet { reg, mask } => reg,
        Op::WaitClear { reg, mask } => reg,
    }
}

/// Whether a poll gave what is waited for.
pub open spec fn satisfied(op: Op, value: u32) -> bool {
    match op {
        Op::WaitSet { reg, mask } => value & mask != 0,
        Op::WaitClear { reg, mask } => value & mask == 0,
        _ => false,
    }
}

/// What a program does when it is given a value, and where it stands then.
pub open spec fn run_step(ops: Seq<Op>, s: RunState, value: u32) -> (RunState, Access) {
    if s.pos >= ops.len() {
        (s, Access::Finished)
    } else {
        let op = ops[s.pos];
        match op {
            Op::Put { reg, value: put } => (advanced(s), Access::Write(reg, put)),
            Op::SetBits { reg, mask } => if s.asked {
                (advanced(s), Access::Write(reg, value | mask))
            } else {
                (RunState { asked: true, ..s }, Access::Read(reg))
            },
            Op::ClearBits { reg, mask } => if s.asked {
                (advanced(s), Access::Write(reg, value & !mask))
            } else {
                (RunState { asked: true, ..s }, Access::Read(reg))
            },
            _ => if !s.asked {
                (RunState { asked: true, left: ATA_TIMEOUT, ..s }, Access::Read(op_reg(op)))
            } else if satisfied(op, value) {
                (advanced(s), Access::Again)
            } else if s.left <= 1 {
                (RunState { timed_out: true, ..advanced(s) }, Access::Again)
            } else {
                (RunState { left: (s.left - 1) as u32, ..s }, Access::Read(op_reg(op)))
            },
        }
    }
}

impl Runner {
    pub open spec fn state(&self) -> RunState {
        RunState {
            pos: self.pos as int,
            asked: self.asked,
            left: self.left,
            timed_out: self.timed_out,
        }
    }

    pub open spec fn wf(&self) -> bool {
        self.pos <= self.ops@.len()
    }

    /// Start a program.
    pub fn new(ops: Vec<Op>) -> (r: Runner)
        ensures
            r.wf(),
            r.ops@ == ops@,
            r.state() == (RunState { pos: 0, asked: false, left: 0, timed_out: false }),
    {
        Runner { ops, pos: 0, asked: false, left: 0, timed_out: false }
    }

    fn advance(&mut self)
        requires
            old(self).pos < old(self).ops@.len(),
        ensures
            final(self).ops@ == old(self).ops@,
            final(self).state() == advanced(old(self).state()),
    {
        let n: usize = self.ops.len();
        assert(self.pos < n);
        self.pos = self.pos + 1;
        self.asked = false;
    }

    fn modify(&mut self, reg: u32, value: u32) -> (r: Access)
        requires
            old(self).pos < old(self).ops@.len(),
        ensures
            final(self).ops@ == old(self).ops@,
            (final(self).state(), r) == if old(self).asked {
                (advanced(old(self).state()), Access::Write(reg, value))
            } else {
                (RunState { asked: true, ..old(self).state() }, Access::Read(reg))
            },
    {
        if self.asked {
            self.advance();
            Access::Write(reg, value)
        } else {
            self.asked = true;
            Access::Read(reg)
        }
    }

    fn poll(&mut self, reg: u32, ok: bool) -> (r: Access)
        requires
            old(self).pos < old(self).ops@.len(),
        ensures
            final(self).ops@ == old(self).ops@,
            (final(self).state(), r) == ({
                let s = old(self).state();
                if !s.asked {
                    (RunState { asked: true, left: ATA_TIMEOUT, ..s }, Access::Read(reg))
                } else if ok {
                    (advanced(s), Access::Again)
                } else if s.left <= 1 {
                    (RunState { timed_out: true, ..advanced(s) }, Access::Again)
                } else {
                    (RunState { left: (s.left - 1) as u32, ..s }, Access::Read(reg))
                }
            }),
    {
        if !self.asked {
            self.asked = true;
            self.left = ATA_TIMEOUT;
            return Access::Read(reg);
        }
        if ok {
            self.advance();
            return Access::Again;
        }
        if self.left <= 1 {
            self.timed_out = true;
            self.advance();
            return Access::Again;
        }
        self.left = self.left - 1;
        Access::Read(reg)
    }

    /// The next access. `value` is what the last read gave; it is not looked at if the
    /// last access was no read.
    pub fn step(&mut self, value: u32) -> (r: Access)
        requires
            old(self).wf(),
        ensures
            final(self).wf(),
            final(self).ops@ == old(self).ops@,
            (final(self).state(), r) == run_step(old(self).ops@, old(self).state(), value),
    {
        if self.pos >= self.ops.len() {
            return Access::Finished;
        }
        match self.ops[self.pos] {
            Op::Put { reg, value: put } => {
                self.advance();
                Access::Write(reg, put)
            },
            Op::SetBits { reg, mask } => self.modify(reg, value | mask),
            Op::ClearBits { reg, mask } => self.modify(reg, value & !mask),
            Op::WaitSet { reg, mask } => self.poll(reg, value & mask != 0),
            Op::WaitClear { reg, mask } => self.poll(reg, value & mask == 0),
        }
    }
}

/// How far a program is from its end.
pub open spec fn distance(ops: Seq<Op>, s: RunState) -> int {
    (ops.len() - s.pos) * 600_000 - (if s.asked {
        550_000 - s.left
    } else {
        0
    })
}

/// A program ends: each step brings it closer to its end, whatever the registers say.
pub proof fn law_program_ends(ops: Seq<Op>, s: RunState, value: u32)
    requires
        0 <= s.pos < ops.len(),
        s.left <= ATA_TIMEOUT,
    ensures
        ({
            let next = run_step(ops, s, value).0;
            &&& 0 <= distance(ops, next) < distance(ops, s)
            &&& next.pos <= ops.len()
            &&& next.left <= ATA_TIMEOUT
        }),
{
}

/// The first register of a port.
pub open spec fn port_base(port: int) -> int {
    HBA_PORT_REGS + port * 0x80
}

pub fn port_regs(port: u8) -> (r: u32)
    ensures
        r == port_base(port as int),
{
    HBA_PORT_REGS + port as u32 * 0x80
}

/// Resets the controller. It has failed if the program times out.
pub fn reset_hba() -> (r: Vec<Op>)
    ensures
        r@ == seq![
            Op::Put { reg: HBA_GHC, value: GHC_HR },
            Op::WaitClear { reg: HBA_GHC, mask: GHC_HR },
        ],
{
    let r: Vec<Op> = vec![
        Op::Put { reg: HBA_GHC, value: GHC_HR },
        Op::WaitClear { reg: HBA_GHC, mask: GHC_HR },
    ];
    r
}

/// Enables AHCI mode.
pub fn enable_ahci() -> (r: Vec<Op>)
    ensures
        r@ == seq![Op::SetBits { reg: HBA_GHC, mask: GHC_AE }],
{
    let r: Vec<Op> = vec![Op::SetBits { reg: HBA_GHC, mask: GHC_AE }];
    r
}

/// Stops a port: no more commands, and no interrupt pending.
pub fn stop_port(port: u8) -> (r: Vec<Op>)
    ensures
        r@ == seq![
            Op::ClearBits { reg: (port_base(port as int) + PORT_CMD) as u32, mask: PORT_CMD_ST },
            Op::WaitClear { reg: (port_base(port as int) + PORT_CMD) as u32, mask: PORT_CMD_CR },
            Op::Put { reg: (port_base(port as int) + PORT_IS) as u32, value: 0xFFFF_FFFF },
        ],
{
    let pr: u32 = port_regs(port);
    let r: Vec<Op> = vec![
        Op::ClearBits { reg: pr + PORT_CMD, mask: PORT_CMD_ST },
        Op::WaitClear { reg: pr + PORT_CMD, mask: PORT_CMD_CR },
        Op::Put { reg: pr + PORT_IS, value: 0xFFFF_FFFF },
    ];
    r
}

/// Starts a port: sets the addresses of its structures, lets it receive, lets it run
/// commands, and waits until the drive is ready.
pub fn start_port(port: u8, cmd_list_phys: u64, rfis_phys: u64) -> (r: Vec<Op>)
    ensures
        r@ == seq![
            Op::Put {
                reg: (port_base(port as int) + PORT_CLB) as u32,
                value: (cmd_list_phys % 0x1_0000_0000) as u32,
            },
            Op::Put {
                reg: (port_base(port as int) + PORT_CLBU) as u32,
                value: (cmd_list_phys / 0x1_0000_0000) as u32,
            },
            Op::Put {
                reg: (port_base(port as int) + PORT_FB) as u32,
                value: (rfis_phys % 0x1_0000_0000) as u32,
            },
            Op::Put {
                reg: (port_base(port as int) + PORT_FBU) as u32,
                value: (rfis_phys / 0x1_0000_0000) as u32,
            },
            Op::SetBits { reg: (port_base(port as int) + PORT_CMD) as u32, mask: PORT_CMD_FRE },
            Op::WaitSet { reg: (port_base(port as int) + PORT_CMD) as u32, mask: PORT_CMD_FR },
            Op::SetBits { reg: (port_base(port as int) + PORT_CMD) as u32, mask: PORT_CMD_ST },
            Op::WaitSet { reg: (port_base(port as int) + PORT_CMD) as u32, mask: PORT_CMD_CR },
            Op::WaitClear {
                reg: (port_base(port as int) + PORT_TFD) as u32,
                mask: (TFD_BSY + TFD_DRQ) as u32,
            },
        ],
{
    let pr: u32 = port_regs(port);
    let r: Vec<Op> = vec![
        Op::Put { reg: pr + PORT_CLB, value: (cmd_list_phys % 0x1_0000_0000) as u32 },
        Op::Put { reg: pr + PORT_CLBU, value: (cmd_list_phys / 0x1_0000_0000) as u32 },
        Op::Put { reg: pr + PORT_FB, value: (rfis_phys % 0x1_0000_0000) as u32 },
        Op::Put { reg: pr + PORT_FBU, value: (rfis_phys / 0x1_0000_0000) as u32 },
        Op::SetBits { reg: pr + PORT_CMD, mask: PORT_CMD_FRE },
        Op::WaitSet { reg: pr + PORT_CMD, mask: PORT_CMD_FR },
        Op::SetBits { reg: pr + PORT_CMD, mask: PORT_CMD_ST },
        Op::WaitSet { reg: pr + PORT_CMD, mask: PORT_CMD_CR },
        Op::WaitClear { reg: pr + PORT_TFD, mask: TFD_BSY + TFD_DRQ },
    ];
    r
}

} // verus!
