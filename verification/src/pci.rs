//! PCI: what the configuration space of a function says, and the order in which the
//! buses are searched.
//!
//! The configuration header is given as 32-bit registers; register `k` holds the bytes
//! from `4 * k` on.
use vstd::prelude::*;

use crate::serial;

verus! {

/// Number of 32-bit registers in a configuration header.
pub const HEADER_REGISTERS: usize = 16;

/// A discovered PCI device.
#[derive(Debug, Clone, Copy, PartialEq, Eq)]
pub struct PciDevice {
    pub bus: u8,
    pub device: u8,
    pub function: u8,
    pub vendor_id: u16,
    pub device_id: u16,
    pub class: u8,
    pub subclass: u8,
    pub prog_if: u8,
    pub revision: u8,
    pub header_type: u8,
    pub bars: [u32; 6],
    pub interrupt_line: u8,
    pub interrupt_pin: u8,
    pub subsystem_vendor_id: u16,
    pub subsystem_id: u16,
}

/// The name of a class of devices.
pub open spec fn class_text(class: u8) -> Seq<char> {
    if class == 0x00 {
        "Legacy Device"@
    } else if class == 0x01 {
        "Mass Storage Controller"@
    } else if class == 0x02 {
        "Network Controller"@
    } else if class == 0x03 {
        "Display Controller"@
    } else if class == 0x04 {
        "Multimedia Controller"@
    } else if class == 0x05 {
        "Memory Controller"@
    } else if class == 0x06 {
        "Bridge Device"@
    } else if class == 0x07 {
        "Communication Controller"@
    } else if class == 0x08 {
        "System Peripheral"@
    } else if class == 0x09 {
        "Input Device"@
    } else if class == 0x0A {
        "Docking Station"@
    } else if class == 0x0B {
        "Processor"@
    } else if class == 0x0C {
        "Serial Bus Controller"@
    } else if class == 0x0D {
        "Wireless Controller"@
    } else if class == 0x0E {
        "Intelligent Controller"@
    } else if class == 0x0F {
        "Satellite Communication"@
    } else if class == 0x10 {
        "Encryption Controller"@
    } else if class == 0x11 {
        "Signal Processing Controller"@
    } else if class == 0xFF {
        "Other"@
    } else {
        "Unknown"@
    }
}

impl PciDevice {
    pub open spec fn multi_function(&self) -> bool {
        self.header_type >= 0x80
    }

    /// The address that a base address register holds, without its type bits: two of an
    /// I/O register, four of a memory register.
    pub open spec fn bar(&self, index: int) -> u64 {
        if index >= 6 {
            0
        } else if self.bars@[index] % 2 == 1 {
            (self.bars@[index] - self.bars@[index] % 4) as u64
        } else {
            (self.bars@[index] - self.bars@[index] % 16) as u64
        }
    }

    /// Returns true if this is a valid device.
    pub fn is_valid(&self) -> (r: bool)
        ensures
            r == (self.vendor_id != 0xFFFF),
    {
        self.vendor_id != 0xFFFF
    }

    /// Returns true if this is a multi-function device.
    pub fn is_multi_function(&self) -> (r: bool)
        ensures
            r == self.multi_function(),
    {
        self.header_type >= 0x80
    }

    /// Returns the class name as a string.
    pub fn class_name(&self) -> (r: &'static str)
        ensures
            r@ == class_text(self.class),
    {
        match self.class {
            0x00 => "Legacy Device",
            0x01 => "Mass Storage Controller",
            0x02 => "Network Controller",
            0x03 => "Display Controller",
            0x04 => "Multimedia Controller",
            0x05 => "Memory Controller",
            0x06 => "Bridge Device",
            0x07 => "Communication Controller",
            0x08 => "System Peripheral",
            0x09 => "Input Device",
            0x0A => "Docking Station",
            0x0B => "Processor",
            0x0C => "Serial Bus Controller",
            0x0D => "Wireless Controller",
            0x0E => "Intelligent Controller",
            0x0F => "Satellite Communication",
            0x10 => "Encryption Controller",
            0x11 => "Signal Processing Controller",
            0xFF => "Other",
            _ => "Unknown",
        }
    }

    /// Returns the BAR type (memory or I/O).
    pub fn bar_type(&self, bar_index: usize) -> (r: &'static str)
        ensures
            r@ == if bar_index >= 6 {
                "Invalid"@
            } else if self.bars@[bar_index as int] % 2 == 1 {
                "I/O"@
            } else {
                "Memory"@
            },
    {
        if bar_index < 6 {
            if self.bars[bar_index] % 2 == 1 {
                "I/O"
            } else {
                "Memory"
            }
        } else {
            "Invalid"
        }
    }

    /// Returns the BAR address (masked for type).
    pub fn bar_address(&self, bar_index: usize) -> (r: u64)
        ensures
            r == self.bar(bar_index as int),
    {
        if bar_index < 6 {
            let bar: u32 = self.bars[bar_index];
            if bar % 2 == 1 {
                (bar - bar % 4) as u64
            } else {
                (bar - bar % 16) as u64
            }
        } else {
            0
        }
    }
}

/// Build the address of a configuration register: the enable bit, bus, device and
/// function, and the register's offset, rounded down to a multiple of four.
pub fn config_address(bus: u8, device: u8, function: u8, register: u8) -> (r: u32)
    requires
        device < 32,
        function < 8,
    ensures
        r == 0x8000_0000 + bus * 0x1_0000 + device * 0x800 + function * 0x100 + (register - register
            % 4),
        r as int / 16777216 == 128,
        r as int / 65536 % 256 == bus,
        r as int / 2048 % 32 == device,
        r as int / 256 % 8 == function,
        r % 4 == 0,
        r as int % 256 <= register < r as int % 256 + 4,
{
    proof {
        lemma_address_fields(
            bus as int,
            device as int,
            function as int,
            register as int - register as int % 4,
        );
    }
    0x8000_0000u32 + bus as u32 * 0x1_0000 + device as u32 * 0x800 + function as u32 * 0x100 + (
    register - register % 4) as u32
}

/// The parts of the address of a configuration register stand side by side in it.
proof fn lemma_address_fields(bus: int, device: int, function: int, offset: int)
    requires
        0 <= bus < 256,
        0 <= device < 32,
        0 <= function < 8,
        0 <= offset < 256,
        offset % 4 == 0,
    ensures
        ({
            let r = 0x8000_0000 + bus * 0x1_0000 + device * 0x800 + function * 0x100 + offset;
            &&& r / 16777216 == 128
            &&& r / 65536 % 256 == bus
            &&& r / 2048 % 32 == device
            &&& r / 256 % 8 == function
            &&& r % 256 == offset
            &&& r % 4 == 0
        }),
{
    let r = 0x8000_0000 + bus * 0x1_0000 + device * 0x800 + function * 0x100 + offset;
    assert(r / 256 == 0x80_0000 + bus * 0x100 + device * 8 + function);
    assert(r / 2048 == 0x10_0000 + bus * 0x20 + device);
    assert(r / 65536 == 0x8000 + bus);
    assert(r / 16777216 == 128);
}

/// The 16-bit number at a byte offset of the header.
pub open spec fn config_word(config: Seq<u32>, offset: int) -> u16 {
    if offset % 4 < 2 {
        (config[offset / 4] % 0x1_0000) as u16
    } else {
        (config[offset / 4] / 0x1_0000) as u16
    }
}

/// The byte at an offset of the header.
pub open spec fn config_byte(config: Seq<u32>, offset: int) -> u8 {
    let dword = config[offset / 4];
    if offset % 4 == 0 {
        (dword % 0x100) as u8
    } else if offset % 4 == 1 {
        (dword / 0x100 % 0x100) as u8
    } else if offset % 4 == 2 {
        (dword / 0x1_0000 % 0x100) as u8
    } else {
        (dword / 0x100_0000) as u8
    }
}

/// Takes a 16-bit number out of the register that holds it.
pub fn pci_read_word(dword: u32, register: u8) -> (r: u16)
    ensures
        r == config_word(seq![dword], register as int % 4),
{
    if register % 4 < 2 {
        (dword % 0x1_0000) as u16
    } else {
        (dword / 0x1_0000) as u16
    }
}

/// Takes a byte out of the register that holds it.
pub fn pci_read_byte(dword: u32, register: u8) -> (r: u8)
    ensures
        r == config_byte(seq![dword], register as int % 4),
{
    if register % 4 == 0 {
        (dword % 0x100) as u8
    } else if register % 4 == 1 {
        (dword / 0x100 % 0x100) as u8
    } else if register % 4 == 2 {
        (dword / 0x1_0000 % 0x100) as u8
    } else {
        (dword / 0x100_0000) as u8
    }
}

/// What a configuration header says; nothing if no function answers there.
pub open spec fn is_device(
    d: PciDevice,
    bus: u8,
    device: u8,
    function: u8,
    config: Seq<u32>,
) -> bool {
    &&& d.bus == bus
    &&& d.device == device
    &&& d.function == function
    &&& d.vendor_id == config_word(config, 0x00)
    &&& d.device_id == config_word(config, 0x02)
    &&& d.revision == config_byte(config, 0x08)
    &&& d.prog_if == config_byte(config, 0x09)
    &&& d.subclass == config_byte(config, 0x0A)
    &&& d.class == config_byte(config, 0x0B)
    &&& d.header_type == config_byte(config, 0x0E)
    &&& d.bars@ == config.subrange(4, 10)
    &&& d.interrupt_line == config_byte(config, 0x3C)
    &&& d.interrupt_pin == config_byte(config, 0x3D)
    &&& d.subsystem_vendor_id == config_word(config, 0x2C)
    &&& d.subsystem_id == config_word(config, 0x2E)
}

/// Read the configuration header of a function. `None` if the vendor is 0xFFFF: nothing
/// answers there.
pub fn read_device(bus: u8, device: u8, function: u8, config: &[u32]) -> (r: Option<PciDevice>)
    requires
        config@.len() >= HEADER_REGISTERS,
    ensures
        match r {
            Some(d) => config_word(config@, 0) != 0xFFFF && is_device(
                d,
                bus,
                device,
                function,
                config@,
            ),
            None => config_word(config@, 0) == 0xFFFF,
        },
{
    let vendor_id: u16 = pci_read_word(config[0], 0x00);
    if vendor_id == 0xFFFF {
        return None;
    }
    let bars: [u32; 6] = [config[4], config[5], config[6], config[7], config[8], config[9]];
    assert(bars@ =~= config@.subrange(4, 10));
    Some(
        PciDevice {
            bus,
            device,
            function,
            vendor_id,
            device_id: pci_read_word(config[0], 0x02),
            class: pci_read_byte(config[2], 0x0B),
            subclass: pci_read_byte(config[2], 0x0A),
            prog_if: pci_read_byte(config[2], 0x09),
            revision: pci_read_byte(config[2], 0x08),
            header_type: pci_read_byte(config[3], 0x0E),
            bars,
            interrupt_line: pci_read_byte(config[15], 0x3C),
            interrupt_pin: pci_read_byte(config[15], 0x3D),
            subsystem_vendor_id: pci_read_word(config[11], 0x2C),
            subsystem_id: pci_read_word(config[11], 0x2E),
        },
    )
}

/// What answers at each function, by bus and device as one number, and function.
pub open spec fn functions_found(
    answers: spec_fn(int, int) -> Option<PciDevice>,
    slot: int,
    function: int,
) -> Seq<PciDevice>
    decreases function,
{
    if function <= 1 {
        Seq::empty()
    } else {
        let rest = functions_found(answers, slot, function - 1);
        match answers(slot, function - 1) {
            Some(d) => rest.push(d),
            None => rest,
        }
    }
}

/// The devices found in one slot: function 0 decides whether there is any, and whether
/// functions 1 to 7 are asked. It comes last.
pub open spec fn slot_found(
    answers: spec_fn(int, int) -> Option<PciDevice>,
    slot: int,
) -> Seq<PciDevice> {
    match answers(slot, 0) {
        None => Seq::empty(),
        Some(d) => if d.multi_function() {
            functions_found(answers, slot, 8).push(d)
        } else {
            seq![d]
        },
    }
}

/// The devices found in the first `n` slots; a bus has 32.
pub open spec fn slots_found(
    answers: spec_fn(int, int) -> Option<PciDevice>,
    n: int,
) -> Seq<PciDevice>
    decreases n,
{
    if n <= 0 {
        Seq::empty()
    } else {
        slots_found(answers, n - 1) + slot_found(answers, n - 1)
    }
}

/// A search through all slots of all buses. It says which function it asks next and is
/// given the answer.
pub struct PciScan {
    pub bus: u16,
    pub device: u8,
    pub function: u8,
    /// Function 0 of the slot, while the other functions are asked.
    pub first: Option<PciDevice>,
    pub devices: Vec<PciDevice>,
}

impl PciScan {
    pub open spec fn slot(&self) -> int {
        self.bus * 32 + self.device
    }

    pub open spec fn wf(&self) -> bool {
        &&& self.bus <= 256
        &&& self.device < 32
        &&& self.bus == 256 ==> self.device == 0
        &&& self.function < 8
        &&& self.function > 0 <==> self.first is Some
        &&& self.bus == 256 ==> self.function == 0
    }

    /// Whether the search is over.
    pub open spec fn complete(&self) -> bool {
        self.bus == 256
    }

    /// Whether the devices found so far are those that gave the answers so far.
    pub open spec fn agrees(&self, answers: spec_fn(int, int) -> Option<PciDevice>) -> bool {
        if self.function == 0 {
            self.devices@ == slots_found(answers, self.slot())
        } else {
            &&& self.first == answers(self.slot(), 0)
            &&& self.first matches Some(d) && d.multi_function()
            &&& self.devices@ == slots_found(answers, self.slot()) + functions_found(
                answers,
                self.slot(),
                self.function as int,
            )
        }
    }

    /// Start a search.
    pub fn new() -> (r: PciScan)
        ensures
            r.wf(),
            r.bus == 0 && r.device == 0 && r.function == 0,
            r.first is None,
            r.devices@.len() == 0,
            forall|answers: spec_fn(int, int) -> Option<PciDevice>| #[trigger] r.agrees(answers),
    {
        let r: PciScan = PciScan {
            bus: 0,
            device: 0,
            function: 0,
            first: None,
            devices: Vec::new(),
        };
        assert forall|answers: spec_fn(int, int) -> Option<PciDevice>| #[trigger]
            r.agrees(answers) by {
            assert(r.devices@ =~= slots_found(answers, 0));
        }
        r
    }

    /// The function that is asked next; none when the search is over.
    pub fn position(&self) -> (r: Option<(u8, u8, u8)>)
        requires
            self.wf(),
        ensures
            r == if self.complete() {
                None
            } else {
                Some((self.bus as u8, self.device, self.function))
            },
    {
        if self.bus == 256 {
            None
        } else {
            Some((self.bus as u8, self.device, self.function))
        }
    }

    fn next_slot(&mut self)
        requires
            old(self).wf(),
            !old(self).complete(),
        ensures
            final(self).wf(),
            final(self).slot() == old(self).slot() + 1,
            final(self).function == 0,
            final(self).devices == old(self).devices,
    {
        self.function = 0;
        self.first = None;
        if self.device == 31 {
            self.device = 0;
            self.bus = self.bus + 1;
        } else {
            self.device = self.device + 1;
        }
    }

    /// Go on with the answer of the function that was asked.
    pub fn feed(&mut self, found: Option<PciDevice>)
        requires
            old(self).wf(),
            !old(self).complete(),
        ensures
            final(self).wf(),
            final(self).slot() * 8 + final(self).function > old(self).slot() * 8 + old(
                self,
            ).function,
            forall|answers: spec_fn(int, int) -> Option<PciDevice>|
                old(self).agrees(answers) && answers(old(self).slot(), old(self).function as int)
                    == found ==> #[trigger] final(self).agrees(answers),
    {
        let ghost before = *self;
        if self.function == 0 {
            match found {
                None => {
                    self.next_slot();
                    proof {
                        assert forall|answers: spec_fn(int, int) -> Option<PciDevice>|
                            before.agrees(answers) && answers(before.slot(), 0)
                                == found implies #[trigger] self.agrees(answers) by {
                            assert(slots_found(answers, before.slot() + 1) =~= slots_found(
                                answers,
                                before.slot(),
                            ));
                        }
                    }
                },
                Some(d) => {
                    if d.is_multi_function() {
                        self.first = Some(d);
                        self.function = 1;
                        proof {
                            assert forall|answers: spec_fn(int, int) -> Option<PciDevice>|
                                before.agrees(answers) && answers(before.slot(), 0)
                                    == found implies #[trigger] self.agrees(answers) by {
                                assert(self.devices@ =~= slots_found(answers, self.slot())
                                    + functions_found(answers, self.slot(), 1));
                            }
                        }
                    } else {
                        self.devices.push(d);
                        self.next_slot();
                        proof {
                            assert forall|answers: spec_fn(int, int) -> Option<PciDevice>|
                                before.agrees(answers) && answers(before.slot(), 0)
                                    == found implies #[trigger] self.agrees(answers) by {
                                assert(slots_found(answers, before.slot() + 1) =~= slots_found(
                                    answers,
                                    before.slot(),
                                ).push(d));
                            }
                        }
                    }
                },
            }
        } else {
            if let Some(d) = found {
                self.devices.push(d);
            }
            let ghost middle = *self;
            proof {
                assert forall|answers: spec_fn(int, int) -> Option<PciDevice>|
                    before.agrees(answers) && answers(before.slot(), before.function as int)
                        == found implies middle.devices@ == #[trigger] slots_found(
                    answers,
                    before.slot(),
                ) + functions_found(answers, before.slot(), before.function + 1) by {
                    assert(middle.devices@ =~= slots_found(answers, before.slot())
                        + functions_found(answers, before.slot(), before.function + 1));
                }
            }
            if self.function == 7 {
                if let Some(d) = self.first {
                    self.devices.push(d);
                }
                self.next_slot();
                proof {
                    assert forall|answers: spec_fn(int, int) -> Option<PciDevice>|
                        before.agrees(answers) && answers(before.slot(), before.function as int)
                            == found implies #[trigger] self.agrees(answers) by {
                        assert(middle.devices@ == slots_found(answers, before.slot())
                            + functions_found(answers, before.slot(), 8));
                        assert(slots_found(answers, before.slot() + 1) =~= middle.devices@.push(
                            before.first->0,
                        ));
                    }
                }
            } else {
                self.function = self.function + 1;
                proof {
                    assert forall|answers: spec_fn(int, int) -> Option<PciDevice>|
                        before.agrees(answers) && answers(before.slot(), before.function as int)
                            == found implies #[trigger] self.agrees(answers) by {
                        assert(middle.devices@ == slots_found(answers, before.slot())
                            + functions_found(answers, before.slot(), before.function + 1));
                    }
                }
            }
        }
    }
}

/// A search that is over has found every device: the slots in order, and in each slot
/// the functions that answered, function 0 last.
pub proof fn law_scan_complete(scan: PciScan, answers: spec_fn(int, int) -> Option<PciDevice>)
    requires
        scan.wf(),
        scan.complete(),
        scan.agrees(answers),
    ensures
        scan.devices@ == slots_found(answers, 8192),
{
}

/// Whether a function is one that a search lists: it answers, and it is function 0 or
/// function 0 of its slot answers as one of several.
pub open spec fn is_listed(
    answers: spec_fn(int, int) -> Option<PciDevice>,
    slot: int,
    function: int,
) -> bool {
    &&& answers(slot, function) is Some
    &&& function == 0 || (1 <= function < 8 && (answers(slot, 0) matches Some(d)
        && d.multi_function()))
}

/// Whether every answer says where it came from.
pub open spec fn answers_placed(answers: spec_fn(int, int) -> Option<PciDevice>) -> bool {
    forall|slot: int, function: int|
        0 <= slot < 8192 && 0 <= function < 8 ==> (#[trigger] answers(slot, function) matches Some(
            d,
        ) ==> d.bus * 32 + d.device == slot && d.function == function)
}

pub open spec fn slot_of(d: PciDevice) -> int {
    d.bus * 32 + d.device
}

/// What `functions_found` lists: functions 1 up to `function`, each once.
proof fn lemma_functions_once(
    answers: spec_fn(int, int) -> Option<PciDevice>,
    slot: int,
    function: int,
)
    requires
        answers_placed(answers),
        0 <= slot < 8192,
        function <= 8,
    ensures
        ({
            let list = functions_found(answers, slot, function);
            &&& forall|i: int|
                0 <= i < list.len() ==> {
                    let d = #[trigger] list[i];
                    &&& slot_of(d) == slot
                    &&& 1 <= d.function < function
                    &&& answers(slot, d.function as int) == Some(d)
                }
            &&& forall|i: int, j: int|
                0 <= i < j < list.len() ==> (#[trigger] list[i]).function != (
                #[trigger] list[j]).function
            &&& forall|f: int|
                1 <= f < function && (#[trigger] answers(slot, f)) is Some ==> list.contains(
                    answers(slot, f).unwrap(),
                )
        }),
    decreases function,
{
    if function > 1 {
        lemma_functions_once(answers, slot, function - 1);
        let rest = functions_found(answers, slot, function - 1);
        let list = functions_found(answers, slot, function);
        assert forall|f: int|
            1 <= f < function && (#[trigger] answers(slot, f)) is Some implies list.contains(
            answers(slot, f).unwrap(),
        ) by {
            let d = answers(slot, f).unwrap();
            if f == function - 1 {
                assert(list[rest.len() as int] == d);
            } else {
                let i = choose|i: int| 0 <= i < rest.len() && rest[i] == d;
                assert(list[i] == d);
            }
        }
    }
}

/// What one slot lists: its listed functions, each once.
proof fn lemma_slot_once(answers: spec_fn(int, int) -> Option<PciDevice>, slot: int)
    requires
        answers_placed(answers),
        0 <= slot < 8192,
    ensures
        ({
            let list = slot_found(answers, slot);
            &&& forall|i: int|
                0 <= i < list.len() ==> {
                    let d = #[trigger] list[i];
                    &&& slot_of(d) == slot
                    &&& is_listed(answers, slot, d.function as int)
                    &&& answers(slot, d.function as int) == Some(d)
                }
            &&& forall|i: int, j: int|
                0 <= i < j < list.len() ==> (#[trigger] list[i]).function != (
                #[trigger] list[j]).function
            &&& forall|f: int| #[trigger]
                is_listed(answers, slot, f) ==> list.contains(answers(slot, f).unwrap())
        }),
{
    lemma_functions_once(answers, slot, 8);
    let list = slot_found(answers, slot);
    let rest = functions_found(answers, slot, 8);
    assert forall|f: int| #[trigger] is_listed(answers, slot, f) implies list.contains(
        answers(slot, f).unwrap(),
    ) by {
        let d = answers(slot, f).unwrap();
        if f == 0 {
            assert(list.last() == d);
            assert(list[list.len() - 1] == d);
        } else {
            let i = choose|i: int| 0 <= i < rest.len() && rest[i] == d;
            assert(list[i] == d);
        }
    }
}

/// A search lists each function exactly once: no two devices in the list are the same
/// function, every device in it is a listed function, and every listed function of the
/// `n` slots is in it.
pub proof fn law_each_function_once(answers: spec_fn(int, int) -> Option<PciDevice>, n: int)
    requires
        answers_placed(answers),
        0 <= n <= 8192,
    ensures
        ({
            let list = slots_found(answers, n);
            &&& forall|i: int|
                0 <= i < list.len() ==> {
                    let d = #[trigger] list[i];
                    &&& 0 <= slot_of(d) < n
                    &&& is_listed(answers, slot_of(d), d.function as int)
                    &&& answers(slot_of(d), d.function as int) == Some(d)
                }
            &&& forall|i: int, j: int|
                0 <= i < j < list.len() ==> slot_of(#[trigger] list[i]) != slot_of(
                    #[trigger] list[j],
                ) || list[i].function != list[j].function
            &&& forall|slot: int, f: int|
                0 <= slot < n && #[trigger] is_listed(answers, slot, f) ==> list.contains(
                    answers(slot, f).unwrap(),
                )
        }),
    decreases n,
{
    if n > 0 {
        law_each_function_once(answers, n - 1);
        lemma_slot_once(answers, n - 1);
        let rest = slots_found(answers, n - 1);
        let here = slot_found(answers, n - 1);
        let list = slots_found(answers, n);
        assert forall|i: int| 0 <= i < list.len() implies {
            let d = #[trigger] list[i];
            &&& 0 <= slot_of(d) < n
            &&& is_listed(answers, slot_of(d), d.function as int)
            &&& answers(slot_of(d), d.function as int) == Some(d)
        } by {
            if i < rest.len() {
                assert(list[i] == rest[i]);
            } else {
                assert(list[i] == here[i - rest.len()]);
            }
        }
        assert forall|i: int, j: int| 0 <= i < j < list.len() implies slot_of(#[trigger] list[i])
            != slot_of(#[trigger] list[j]) || list[i].function != list[j].function by {
            if j < rest.len() {
                assert(list[i] == rest[i] && list[j] == rest[j]);
            } else if i < rest.len() {
                assert(list[i] == rest[i] && list[j] == here[j - rest.len()]);
            } else {
                assert(list[i] == here[i - rest.len()] && list[j] == here[j - rest.len()]);
            }
        }
        assert forall|slot: int, f: int|
            0 <= slot < n && #[trigger] is_listed(answers, slot, f) implies list.contains(
            answers(slot, f).unwrap(),
        ) by {
            let d = answers(slot, f).unwrap();
            if slot < n - 1 {
                let i = choose|i: int| 0 <= i < rest.len() && rest[i] == d;
                assert(list[i] == d);
            } else {
                let i = choose|i: int| 0 <= i < here.len() && here[i] == d;
                assert(list[rest.len() + i] == d);
            }
        }
    }
}

/// The line that describes a device.
pub open spec fn with_device(out: Seq<u8>, d: PciDevice) -> Seq<u8> {
    let head = out + serial::text("[PCI]   "@) + serial::hex_text(d.bus as u64) + serial::text(
        ":"@,
    ) + serial::hex_text(d.device as u64) + serial::text("."@) + serial::hex_text(
        d.function as u64,
    ) + serial::text(" ["@) + serial::text(class_text(d.class)) + serial::text("] vendor=0x"@)
        + serial::hex_text(d.vendor_id as u64) + serial::text(" dev=0x"@) + serial::hex_text(
        d.device_id as u64,
    );
    if d.interrupt_pin != 0 {
        head + serial::text(" irq="@) + serial::hex_text(d.interrupt_line as u64)
            + serial::line_end()
    } else {
        head + serial::line_end()
    }
}

pub open spec fn with_devices(out: Seq<u8>, devices: Seq<PciDevice>, n: int) -> Seq<u8>
    decreases n,
{
    if n <= 0 {
        out
    } else {
        with_device(with_devices(out, devices, n - 1), devices[n - 1])
    }
}

fn write_device(out: &mut Vec<u8>, d: &PciDevice)
    ensures
        final(out)@ == with_device(old(out)@, *d),
{
    serial::write_str(out, "[PCI]   ");
    serial::write_hex(out, d.bus as u64);
    serial::write_str(out, ":");
    serial::write_hex(out, d.device as u64);
    serial::write_str(out, ".");
    serial::write_hex(out, d.function as u64);
    serial::write_str(out, " [");
    serial::write_str(out, d.class_name());
    serial::write_str(out, "] vendor=0x");
    serial::write_hex(out, d.vendor_id as u64);
    serial::write_str(out, " dev=0x");
    serial::write_hex(out, d.device_id as u64);
    if d.interrupt_pin != 0 {
        serial::write_str(out, " irq=");
        serial::write_hex(out, d.interrupt_line as u64);
    }
    serial::write_nl(out);
}

/// What is reported of the devices that a search found.
pub open spec fn with_report(out: Seq<u8>, devices: Seq<PciDevice>) -> Seq<u8> {
    with_devices(
        out + serial::text("[PCI] Found "@) + serial::hex_text(devices.len() as u64)
            + serial::text(" devices"@) + serial::line_end(),
        devices,
        devices.len() as int,
    )
}

fn report(out: &mut Vec<u8>, devices: &[PciDevice])
    ensures
        final(out)@ == with_report(old(out)@, devices@),
{
    serial::write_str(out, "[PCI] Found ");
    serial::write_hex(out, devices.len() as u64);
    serial::write_str_nl(out, " devices");
    let ghost start = out@;
    let mut i: usize = 0;
    while i < devices.len()
        invariant
            i <= devices@.len(),
            out@ == with_devices(start, devices@, i as int),
        decreases devices@.len() - i,
    {
        write_device(out, &devices[i]);
        i = i + 1;
    }
}

/// Ends the enumeration of the bus: reports the devices that a complete search found, and
/// hands them over.
pub fn enumerate(out: &mut Vec<u8>, scan: PciScan) -> (r: Vec<PciDevice>)
    requires
        scan.wf(),
        scan.complete(),
    ensures
        forall|answers: spec_fn(int, int) -> Option<PciDevice>| #[trigger]
            scan.agrees(answers) ==> r@ == slots_found(answers, 8192),
        r@ == scan.devices@,
        final(out)@ == with_report(old(out)@, r@),
{
    report(out, &scan.devices);
    scan.devices
}

} // verus!
