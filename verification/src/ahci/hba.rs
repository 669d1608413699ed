//! AHCI host bus adapter: its registers and the structures that it reads by DMA.
use vstd::prelude::*;

verus! {

/// Host Capabilities (RO)
pub const HBA_CAP: u32 = 0x00;

/// Global HBA Control
pub const HBA_GHC: u32 = 0x04;

/// Global HBA Control: HBA Reset
pub const GHC_HR: u32 = 0x0000_0001;

/// Global HBA Control: AHCI Enable
pub const GHC_AE: u32 = 0x8000_0000;

/// Interrupt Status (RO)
pub const HBA_IS: u32 = 0x08;

/// Ports Implemented (RO, bitmap of implemented ports)
pub const HBA_PI: u32 = 0x0C;

/// Version
pub const HBA_VS: u32 = 0x10;

/// Port register block base offset
pub const HBA_PORT_REGS: u32 = 0x100;

/// Port Command List Base Address (low 32 bits)
pub const PORT_CLB: u32 = 0x00;

/// Port Command List Base Address (high 32 bits)
pub const PORT_CLBU: u32 = 0x04;

/// Port FIS Base Address (low 32 bits)
pub const PORT_FB: u32 = 0x08;

/// Port FIS Base Address (high 32 bits)
pub const PORT_FBU: u32 = 0x0C;

/// Port Interrupt Status
pub const PORT_IS: u32 = 0x10;

/// Port Interrupt Status: Task File Error Status
pub const PORT_IS_TFES: u32 = 0x4000_0000;

/// Port Interrupt Enable
pub const PORT_IE: u32 = 0x14;

/// Port Command and Status
pub const PORT_CMD: u32 = 0x18;

/// Port Command: Start
pub const PORT_CMD_ST: u32 = 0x0000_0001;

/// Port Command: Command List Running
pub const PORT_CMD_CR: u32 = 0x0000_8000;

/// Port Command: FIS Receive Running
pub const PORT_CMD_FR: u32 = 0x0000_4000;

/// Port Command: FIS Receive Enable
pub const PORT_CMD_FRE: u32 = 0x0000_0010;

/// Port Task File Data
pub const PORT_TFD: u32 = 0x20;

/// Task File Data: BSY (busy)
pub const TFD_BSY: u32 = 0x0000_0080;

/// Task File Data: DRQ (data request)
pub const TFD_DRQ: u32 = 0x0000_0008;

/// Port Signature
pub const PORT_SIG: u32 = 0x24;

/// Port Serial ATA Status (SCR: Status)
pub const PORT_SSTS: u32 = 0x28;

/// Port Serial ATA Control (SCR: Control)
pub const PORT_SCTL: u32 = 0x2C;

/// Port Serial ATA Error (SCR: Error)
pub const PORT_SERR: u32 = 0x30;

/// Port Serial ATA Active (SCR: Active)
pub const PORT_SACT: u32 = 0x34;

/// Port Command Issue
pub const PORT_CI: u32 = 0x38;

/// Port Serial ATA Notification (SCR: Notification)
pub const PORT_SNTF: u32 = 0x3C;

/// FIS type: Host-to-Device Register
pub const FIS_TYPE_H2D: u8 = 0x27;

/// FIS type: Device-to-Host Register
pub const FIS_TYPE_D2H: u8 = 0x34;

/// FIS type: DMA Setup
pub const FIS_TYPE_DMA_SETUP: u8 = 0x41;

/// FIS type: Data
pub const FIS_TYPE_DATA: u8 = 0x46;

/// ATA Command: IDENTIFY DEVICE
pub const ATA_CMD_IDENTIFY_DEVICE: u8 = 0xEC;

/// ATA Command: READ DMA EXT (LBA48)
pub const ATA_CMD_READ_DMA_EXT: u8 = 0x25;

/// ATA Command: WRITE DMA EXT (LBA48)
pub const ATA_CMD_WRITE_DMA_EXT: u8 = 0x35;

/// AHCI command header (32 bytes).
#[derive(Debug, Clone, Copy, PartialEq, Eq, Structural)]
pub struct HbaCmdHeader {
    /// Command FIS length (bits 0-4), ATAPI (bit 5), write (bit 6), prefetchable (bit 7),
    /// reserved (bits 8-15), PRDT length (bits 16-31).
    pub opts: u32,
    /// Total bytes transferred.
    pub byte_count: u32,
    /// Command table base address (low 32 bits).
    pub cmd_table_base_lo: u32,
    /// Command table base address (high 32 bits).
    pub cmd_table_base_hi: u32,
}

impl HbaCmdHeader {
    /// Set command FIS length in dwords (bits 0-4 of opts).
    pub fn set_cfl(&mut self, dwords: u32)
        ensures
            *final(self) == (HbaCmdHeader {
                opts: (old(self).opts - old(self).opts % 32 + dwords % 32) as u32,
                ..*old(self)
            }),
            final(self).opts % 32 == dwords % 32,
            final(self).opts as int / 32 == old(self).opts as int / 32,
    {
        self.opts = self.opts - self.opts % 32 + dwords % 32;
    }

    /// Set write bit (bit 6 of opts).
    pub fn set_write(&mut self, write: bool)
        ensures
            *final(self) == (HbaCmdHeader {
                opts: (old(self).opts - old(self).opts / 64 % 2 * 64 + (if write {
                    64int
                } else {
                    0
                })) as u32,
                ..*old(self)
            }),
            final(self).opts as int / 64 % 2 == 1 <==> write,
            final(self).opts as int % 64 == old(self).opts as int % 64,
            final(self).opts as int / 128 == old(self).opts as int / 128,
    {
        let rest: u32 = self.opts - self.opts / 64 % 2 * 64;
        if write {
            assert(rest / 64 % 2 == 0);
            self.opts = rest + 64;
        } else {
            self.opts = rest;
        }
    }

    /// Set PRDT length in entries (bits 16-31 of opts).
    pub fn set_prdt_len(&mut self, len: u16)
        ensures
            *final(self) == (HbaCmdHeader {
                opts: (old(self).opts % 0x1_0000 + len * 0x1_0000) as u32,
                ..*old(self)
            }),
            final(self).opts as int / 65536 == len,
            final(self).opts as int % 65536 == old(self).opts as int % 65536,
    {
        self.opts = self.opts % 0x1_0000 + len as u32 * 0x1_0000;
    }

    /// Set command table base address from a physical address.
    pub fn set_cmd_table_addr(&mut self, phys: u64)
        ensures
            *final(self) == (HbaCmdHeader {
                cmd_table_base_lo: (phys % 0x1_0000_0000) as u32,
                cmd_table_base_hi: (phys / 0x1_0000_0000) as u32,
                ..*old(self)
            }),
            final(self).cmd_table_base_lo + 4294967296 * final(self).cmd_table_base_hi == phys,
    {
        self.cmd_table_base_lo = (phys % 0x1_0000_0000) as u32;
        self.cmd_table_base_hi = (phys / 0x1_0000_0000) as u32;
    }
}

/// Physical Region Descriptor Table entry (16 bytes).
#[derive(Debug, Clone, Copy, PartialEq, Eq, Structural)]
pub struct HbaPrdtEntry {
    /// Physical address of data buffer.
    pub base_addr: u64,
    /// Byte count (0-based) and interrupt on complete (bit 31).
    pub byte_count: u32,
}

impl HbaPrdtEntry {
    /// Set byte count (stored 0-based in bits 0-30).
    pub fn set_byte_count(&mut self, count: u32)
        requires
            count > 0,
        ensures
            *final(self) == (HbaPrdtEntry {
                byte_count: (old(self).byte_count - old(self).byte_count % 0x8000_0000 + (count - 1)
                    % 0x8000_0000) as u32,
                ..*old(self)
            }),
            count <= 0x8000_0000 ==> final(self).byte_count as int % 2147483648 + 1 == count,
            final(self).byte_count as int / 2147483648 == old(self).byte_count as int / 2147483648,
    {
        self.byte_count = self.byte_count - self.byte_count % 0x8000_0000 + (count - 1)
            % 0x8000_0000;
    }

    /// Set or clear the interrupt-on-complete flag (bit 31).
    pub fn set_interrupt_on_complete(&mut self, ioc: bool)
        ensures
            *final(self) == (HbaPrdtEntry {
                byte_count: (old(self).byte_count % 0x8000_0000 + (if ioc {
                    0x8000_0000int
                } else {
                    0
                })) as u32,
                ..*old(self)
            }),
            final(self).byte_count as int / 2147483648 == 1 <==> ioc,
            final(self).byte_count as int % 2147483648 == old(self).byte_count as int % 2147483648,
    {
        let rest: u32 = self.byte_count % 0x8000_0000;
        self.byte_count = if ioc {
            rest + 0x8000_0000
        } else {
            rest
        };
    }
}

} // verus!
