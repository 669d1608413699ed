//! The PS/2 keyboard: scancodes, the line discipline, and the buffers behind them.
//!
//! Typed characters gather at the end of the line buffer, where backspace can still take
//! them back. Enter commits them; committed bytes are what readers get.
use vstd::prelude::*;

use crate::process::pipe::PipeTable;
use crate::process::process::{Process, ProcessState, WakeReason};
use crate::process::scheduler;
use crate::process::scheduler::{Scheduler, SchedulerView};
use crate::process::wake;

verus! {

/// Ring buffer size for raw keyboard input.
pub const KBDBUF_SIZE: usize = 256;

/// Line buffer size.
pub const LINE_BUF_SIZE: usize = 4096;

/// A ring buffer of raw bytes.
pub struct RawBuffer {
    bytes: [u8; 256],
    head: usize,
    tail: usize,
    count: usize,
}

impl RawBuffer {
    /// The bytes that wait, the oldest first.
    pub closed spec fn waiting(&self) -> Seq<u8> {
        Seq::new(self.count as nat, |i: int| self.bytes@[(self.tail + i) % 256])
    }

    pub closed spec fn wf(&self) -> bool {
        &&& self.count <= 256
        &&& self.tail < 256
        &&& self.head == (self.tail + self.count) % 256
    }

    pub fn new() -> (r: RawBuffer)
        ensures
            r.wf(),
            r.waiting() == Seq::<u8>::empty(),
    {
        let r: RawBuffer = RawBuffer { bytes: [0; 256], head: 0, tail: 0, count: 0 };
        assert(r.waiting() =~= Seq::<u8>::empty());
        r
    }
}

/// Push a byte. A full buffer drops it.
pub fn push_byte(raw: &mut RawBuffer, b: u8)
    requires
        old(raw).wf(),
    ensures
        final(raw).wf(),
        final(raw).waiting() == if old(raw).waiting().len() < KBDBUF_SIZE {
            old(raw).waiting().push(b)
        } else {
            old(raw).waiting()
        },
{
    if raw.count >= KBDBUF_SIZE {
        return;
    }
    let ghost before = raw.waiting();
    let head: usize = raw.head;
    raw.bytes[head] = b;
    raw.head = (head + 1) % KBDBUF_SIZE;
    raw.count = raw.count + 1;
    assert(raw.waiting() =~= before.push(b));
}

/// Pop the oldest byte. Returns None if empty.
pub fn pop_byte(raw: &mut RawBuffer) -> (r: Option<u8>)
    requires
        old(raw).wf(),
    ensures
        final(raw).wf(),
        match r {
            Some(b) => old(raw).waiting().len() > 0 && b == old(raw).waiting()[0] && final(raw).waiting() == old(raw).waiting().skip(1),
            None => old(raw).waiting().len() == 0 && final(raw).waiting() == old(raw).waiting(),
        },
{
    if raw.count == 0 {
        return None;
    }
    let ghost before = raw.waiting();
    let b: u8 = raw.bytes[raw.tail];
    raw.tail = (raw.tail + 1) % KBDBUF_SIZE;
    raw.count = raw.count - 1;
    assert(raw.waiting() =~= before.skip(1));
    Some(b)
}

/// Check if the buffer has data.
pub fn has_data(raw: &RawBuffer) -> (r: bool)
    ensures
        r == (raw.waiting().len() > 0),
{
    raw.count > 0
}

/// The line buffer. `r` is where reading goes on, `w` the end of the committed bytes,
/// and `e` the end of what was typed.
pub struct LineBuffer {
    bytes: [u8; 4096],
    r: usize,
    w: usize,
    e: usize,
}

impl LineBuffer {
    /// The committed bytes that are still to be read.
    pub closed spec fn committed(&self) -> Seq<u8> {
        self.bytes@.subrange(self.r as int, self.w as int)
    }

    /// The bytes that were typed and not committed yet.
    pub closed spec fn typed(&self) -> Seq<u8> {
        self.bytes@.subrange(self.w as int, self.e as int)
    }

    /// How many more bytes can be typed before the buffer is read out.
    pub closed spec fn room(&self) -> int {
        LINE_BUF_SIZE - self.e
    }

    pub closed spec fn wf(&self) -> bool {
        self.r <= self.w <= self.e <= LINE_BUF_SIZE
    }

    pub fn new() -> (r: LineBuffer)
        ensures
            r.wf(),
            r.committed() == Seq::<u8>::empty(),
            r.typed() == Seq::<u8>::empty(),
            r.room() == LINE_BUF_SIZE,
    {
        let r: LineBuffer = LineBuffer { bytes: [0; 4096], r: 0, w: 0, e: 0 };
        assert(r.committed() =~= Seq::<u8>::empty());
        assert(r.typed() =~= Seq::<u8>::empty());
        r
    }

    fn commit(&mut self)
        requires
            old(self).wf(),
        ensures
            final(self).wf(),
            final(self).committed() == old(self).committed() + old(self).typed(),
            final(self).typed() == Seq::<u8>::empty(),
            final(self).room() == old(self).room(),
    {
        let ghost before = *self;
        self.w = self.e;
        assert(self.committed() =~= before.committed() + before.typed());
        assert(self.typed() =~= Seq::<u8>::empty());
    }

    /// Takes back the last typed byte. Whether there was one.
    fn take_back(&mut self) -> (done: bool)
        requires
            old(self).wf(),
        ensures
            final(self).wf(),
            done == (old(self).typed().len() > 0),
            final(self).committed() == old(self).committed(),
            final(self).typed() == if done {
                old(self).typed().drop_last()
            } else {
                old(self).typed()
            },
            final(self).room() == old(self).room() + (if done {
                1int
            } else {
                0
            }),
    {
        let ghost before = *self;
        if self.e > self.w {
            self.e = self.e - 1;
            assert(self.typed() =~= before.typed().drop_last());
            return true;
        }
        false
    }

    /// Adds a typed byte. Whether there was room for it.
    fn add_byte(&mut self, byte: u8) -> (done: bool)
        requires
            old(self).wf(),
        ensures
            final(self).wf(),
            done == (old(self).room() > 0),
            final(self).committed() == old(self).committed(),
            final(self).typed() == if done {
                old(self).typed().push(byte)
            } else {
                old(self).typed()
            },
            final(self).room() == old(self).room() - (if done {
                1int
            } else {
                0
            }),
    {
        let ghost before = *self;
        if self.e < LINE_BUF_SIZE {
            let e: usize = self.e;
            self.bytes[e] = byte;
            self.e = e + 1;
            assert(self.typed() =~= before.typed().push(byte));
            assert(self.committed() =~= before.committed());
            return true;
        }
        false
    }
}

/// Read committed bytes into a buffer, as many as there are and it holds. `None`
/// without a committed byte. Reading the last one empties the whole buffer.
pub fn read_line(line: &mut LineBuffer, buf: &mut [u8]) -> (n: Option<usize>)
    requires
        old(line).wf(),
    ensures
        final(line).wf(),
        final(buf)@.len() == old(buf)@.len(),
        match n {
            None => {
                &&& old(line).committed().len() == 0
                &&& final(buf)@ == old(buf)@
                &&& *final(line) == *old(line)
            },
            Some(n) => {
                let available = old(line).committed();
                &&& available.len() > 0
                &&& n == if old(buf)@.len() < available.len() {
                    old(buf)@.len() as int
                } else {
                    available.len() as int
                }
                &&& final(buf)@ == available.take(n as int) + old(buf)@.skip(n as int)
                &&& final(line).committed() == available.skip(n as int)
                &&& if n < available.len() {
                    final(line).typed() == old(line).typed() && final(line).room() == old(line).room()
                } else {
                    final(line).typed() == Seq::<u8>::empty() && final(line).room()
                        == LINE_BUF_SIZE
                }
            },
        },
{
    if line.r >= line.w {
        return None;
    }
    let ghost before = *line;
    let ghost had = buf@;
    let available: usize = line.w - line.r;
    let n: usize = if buf.len() < available {
        buf.len()
    } else {
        available
    };
    let mut i: usize = 0;
    while i < n
        invariant
            i <= n,
            n <= buf@.len(),
            buf@.len() == had.len(),
            *line == before,
            before.wf(),
            n <= before.w - before.r,
            forall|k: int|
                0 <= k < buf@.len() ==> #[trigger] buf@[k] == if k < i {
                    before.bytes@[before.r + k]
                } else {
                    had[k]
                },
        decreases n - i,
    {
        buf[i] = line.bytes[line.r + i];
        i = i + 1;
    }
    assert(buf@ =~= before.committed().take(n as int) + had.skip(n as int));
    line.r = line.r + n;
    assert(line.committed() =~= before.committed().skip(n as int));
    if line.r == line.w {
        line.r = 0;
        line.w = 0;
        line.e = 0;
        assert(line.typed() =~= Seq::<u8>::empty());
        assert(line.committed() =~= before.committed().skip(n as int));
    }
    Some(n)
}

/// The keyboard: whether a shift key is held, and the line that is typed.
pub struct Keyboard {
    pub shift: bool,
    pub line: LineBuffer,
}

/// The character of a key, without shift; 0 for other keys.
pub open spec fn plain_ascii(scancode: u8) -> u8 {
    match scancode {
        0x02 => 0x31,
        0x03 => 0x32,
        0x04 => 0x33,
        0x05 => 0x34,
        0x06 => 0x35,
        0x07 => 0x36,
        0x08 => 0x37,
        0x09 => 0x38,
        0x0A => 0x39,
        0x0B => 0x30,
        0x0C => 0x2D,
        0x0D => 0x3D,
        0x10 => 0x71,
        0x11 => 0x77,
        0x12 => 0x65,
        0x13 => 0x72,
        0x14 => 0x74,
        0x15 => 0x79,
        0x16 => 0x75,
        0x17 => 0x69,
        0x18 => 0x6F,
        0x19 => 0x70,
        0x1A => 0x5B,
        0x1B => 0x5D,
        0x1E => 0x61,
        0x1F => 0x73,
        0x20 => 0x64,
        0x21 => 0x66,
        0x22 => 0x67,
        0x23 => 0x68,
        0x24 => 0x6A,
        0x25 => 0x6B,
        0x26 => 0x6C,
        0x27 => 0x3B,
        0x28 => 0x27,
        0x29 => 0x60,
        0x2B => 0x5C,
        0x2C => 0x7A,
        0x2D => 0x78,
        0x2E => 0x63,
        0x2F => 0x76,
        0x30 => 0x62,
        0x31 => 0x6E,
        0x32 => 0x6D,
        0x33 => 0x2C,
        0x34 => 0x2E,
        0x35 => 0x2F,
        0x37 => 0x2A,
        0x39 => 0x20,
        0x4A => 0x2D,
        0x4E => 0x2B,
        _ => 0,
    }
}

/// What shift makes of a character.
pub open spec fn shifted_ascii(ascii: u8) -> u8 {
    if 0x61 <= ascii <= 0x7A {
        (ascii - 0x20) as u8
    } else {
        match ascii {
            0x31 => 0x21,
            0x32 => 0x40,
            0x33 => 0x23,
            0x34 => 0x24,
            0x35 => 0x25,
            0x36 => 0x5E,
            0x37 => 0x26,
            0x38 => 0x2A,
            0x39 => 0x28,
            0x30 => 0x29,
            0x2D => 0x5F,
            0x3D => 0x2B,
            0x5B => 0x7B,
            0x5D => 0x7D,
            0x5C => 0x7C,
            0x3B => 0x3A,
            0x27 => 0x22,
            0x60 => 0x7E,
            0x2C => 0x3C,
            0x2E => 0x3E,
            0x2F => 0x3F,
            _ => ascii,
        }
    }
}

/// The byte that a key press gives to the line discipline, if any: backspace, enter,
/// space, or a character of the table.
pub open spec fn key_byte(scancode: u8, shift: bool) -> Option<u8> {
    if scancode == 0x0E {
        Some(0x08)
    } else if scancode == 0x1C {
        Some(0x0A)
    } else if scancode == 0x39 {
        Some(0x20)
    } else if plain_ascii(scancode) == 0 {
        None
    } else if shift {
        Some(shifted_ascii(plain_ascii(scancode)))
    } else {
        Some(plain_ascii(scancode))
    }
}

fn ascii_of(scancode: u8) -> (r: u8)
    ensures
        r == plain_ascii(scancode),
{
    match scancode {
        0x02 => 0x31,
        0x03 => 0x32,
        0x04 => 0x33,
        0x05 => 0x34,
        0x06 => 0x35,
        0x07 => 0x36,
        0x08 => 0x37,
        0x09 => 0x38,
        0x0A => 0x39,
        0x0B => 0x30,
        0x0C => 0x2D,
        0x0D => 0x3D,
        0x10 => 0x71,
        0x11 => 0x77,
        0x12 => 0x65,
        0x13 => 0x72,
        0x14 => 0x74,
        0x15 => 0x79,
        0x16 => 0x75,
        0x17 => 0x69,
        0x18 => 0x6F,
        0x19 => 0x70,
        0x1A => 0x5B,
        0x1B => 0x5D,
        0x1E => 0x61,
        0x1F => 0x73,
        0x20 => 0x64,
        0x21 => 0x66,
        0x22 => 0x67,
        0x23 => 0x68,
        0x24 => 0x6A,
        0x25 => 0x6B,
        0x26 => 0x6C,
        0x27 => 0x3B,
        0x28 => 0x27,
        0x29 => 0x60,
        0x2B => 0x5C,
        0x2C => 0x7A,
        0x2D => 0x78,
        0x2E => 0x63,
        0x2F => 0x76,
        0x30 => 0x62,
        0x31 => 0x6E,
        0x32 => 0x6D,
        0x33 => 0x2C,
        0x34 => 0x2E,
        0x35 => 0x2F,
        0x37 => 0x2A,
        0x39 => 0x20,
        0x4A => 0x2D,
        0x4E => 0x2B,
        _ => 0,
    }
}

fn with_shift(ascii: u8) -> (r: u8)
    ensures
        r == shifted_ascii(ascii),
{
    if ascii >= 0x61 && ascii <= 0x7A {
        return ascii - 0x20;
    }
    match ascii {
        0x31 => 0x21,
        0x32 => 0x40,
        0x33 => 0x23,
        0x34 => 0x24,
        0x35 => 0x25,
        0x36 => 0x5E,
        0x37 => 0x26,
        0x38 => 0x2A,
        0x39 => 0x28,
        0x30 => 0x29,
        0x2D => 0x5F,
        0x3D => 0x2B,
        0x5B => 0x7B,
        0x5D => 0x7D,
        0x5C => 0x7C,
        0x3B => 0x3A,
        0x27 => 0x22,
        0x60 => 0x7E,
        0x2C => 0x3C,
        0x2E => 0x3E,
        0x2F => 0x3F,
        _ => ascii,
    }
}

/// Whether a byte is a printable ASCII character.
pub open spec fn printable(byte: u8) -> bool {
    0x20 <= byte <= 0x7E
}

/// Line discipline: processes a byte through the line buffer and echoes it.
///
/// - Enter commits the line and wakes blocked readers.
/// - Backspace takes back the last typed character and wipes it from the screen.
/// - Printable characters are added to the line, if there is room.
/// - Other bytes are ignored.
pub fn line_discipline_input(
    line: &mut LineBuffer,
    byte: u8,
    out: &mut Vec<u8>,
    sched: &mut Scheduler,
    pipes: &PipeTable,
)
    requires
        old(line).wf(),
        old(sched)@.wf(),
    ensures
        final(line).wf(),
        final(sched)@.wf(),
        if byte == 0x0A {
            &&& final(line).committed() == old(line).committed() + old(line).typed()
            &&& final(line).typed() == Seq::<u8>::empty()
            &&& final(line).room() == old(line).room()
            &&& final(out)@ == old(out)@ + seq![0x0Au8]
            &&& final(sched)@ == wake::woken(old(sched)@, pipes.slots@)
        } else if byte == 0x08 {
            let some = old(line).typed().len() > 0;
            &&& final(line).committed() == old(line).committed()
            &&& final(line).typed() == if some {
                old(line).typed().drop_last()
            } else {
                old(line).typed()
            }
            &&& final(line).room() == old(line).room() + (if some {
                1int
            } else {
                0
            })
            &&& final(out)@ == if some {
                old(out)@ + seq![0x08u8, 0x20u8, 0x08u8]
            } else {
                old(out)@
            }
            &&& final(sched)@ == old(sched)@
        } else if !printable(byte) {
            &&& *final(line) == *old(line)
            &&& final(out)@ == old(out)@
            &&& final(sched)@ == old(sched)@
        } else {
            let some = old(line).room() > 0;
            &&& final(line).committed() == old(line).committed()
            &&& final(line).typed() == if some {
                old(line).typed().push(byte)
            } else {
                old(line).typed()
            }
            &&& final(line).room() == old(line).room() - (if some {
                1int
            } else {
                0
            })
            &&& final(out)@ == if some {
                old(out)@ + seq![byte]
            } else {
                old(out)@
            }
            &&& final(sched)@ == old(sched)@
        },
{
    let ghost before = out@;
    if byte == 0x0A {
        out.push(0x0A);
        line.commit();
        wake::keyboard_wake(sched, pipes);
        assert(out@ =~= before + seq![0x0Au8]);
    } else if byte == 0x08 {
        if line.take_back() {
            out.push(0x08);
            out.push(0x20);
            out.push(0x08);
            assert(out@ =~= before + seq![0x08u8, 0x20u8, 0x08u8]);
        }
    } else if byte >= 0x20 && byte <= 0x7E {
        if line.add_byte(byte) {
            out.push(byte);
            assert(out@ =~= before + seq![byte]);
        }
    }
}

impl Keyboard {
    pub fn new() -> (r: Keyboard)
        ensures
            !r.shift,
            r.line.wf(),
            r.line.committed() == Seq::<u8>::empty(),
            r.line.typed() == Seq::<u8>::empty(),
            r.line.room() == LINE_BUF_SIZE,
    {
        Keyboard { shift: false, line: LineBuffer::new() }
    }

    /// What a scancode means: keeps track of the shift keys and gives the byte for the
    /// line discipline, if there is one. A released key, with bit 7 set, gives none.
    pub fn translate(&mut self, scancode: u8) -> (r: Option<u8>)
        ensures
            final(self).line == old(self).line,
            if scancode >= 0x80 {
                &&& r is None
                &&& final(self).shift == (old(self).shift && scancode != 0xAA && scancode != 0xB6)
            } else if scancode == 0x2A || scancode == 0x36 {
                &&& r is None
                &&& final(self).shift
            } else {
                &&& r == key_byte(scancode, old(self).shift)
                &&& final(self).shift == old(self).shift
            },
    {
        if scancode >= 0x80 {
            let make: u8 = scancode - 0x80;
            if make == 0x2A || make == 0x36 {
                self.shift = false;
            }
            return None;
        }
        if scancode == 0x2A || scancode == 0x36 {
            self.shift = true;
            return None;
        }
        if scancode == 0x0E {
            return Some(0x08);
        }
        if scancode == 0x1C {
            return Some(0x0A);
        }
        if scancode == 0x39 {
            return Some(0x20);
        }
        let ascii: u8 = ascii_of(scancode);
        if ascii == 0 {
            return None;
        }
        if self.shift {
            Some(with_shift(ascii))
        } else {
            Some(ascii)
        }
    }
}

/// Handles the scancode of a keyboard interrupt: what `translate` gives goes through
/// the line discipline.
pub fn handler(
    kbd: &mut Keyboard,
    scancode: u8,
    out: &mut Vec<u8>,
    sched: &mut Scheduler,
    pipes: &PipeTable,
)
    requires
        old(kbd).line.wf(),
        old(sched)@.wf(),
    ensures
        final(kbd).line.wf(),
        final(sched)@.wf(),
        final(kbd).shift == if scancode >= 0x80 {
            old(kbd).shift && scancode != 0xAA && scancode != 0xB6
        } else {
            old(kbd).shift || scancode == 0x2A || scancode == 0x36
        },
        ({
            let byte = if scancode >= 0x80 || scancode == 0x2A || scancode == 0x36 {
                None
            } else {
                key_byte(scancode, old(kbd).shift)
            };
            match byte {
                None => {
                    &&& final(kbd).line == old(kbd).line
                    &&& final(out)@ == old(out)@
                    &&& final(sched)@ == old(sched)@
                },
                Some(b) => if b == 0x0A {
                    &&& final(kbd).line.committed() == old(kbd).line.committed() + old(kbd).line.typed()
                    &&& final(kbd).line.typed() == Seq::<u8>::empty()
                    &&& final(kbd).line.room() == old(kbd).line.room()
                    &&& final(out)@ == old(out)@ + seq![0x0Au8]
                    &&& final(sched)@ == wake::woken(old(sched)@, pipes.slots@)
                } else if b == 0x08 {
                    let some = old(kbd).line.typed().len() > 0;
                    &&& final(kbd).line.committed() == old(kbd).line.committed()
                    &&& final(kbd).line.typed() == if some {
                        old(kbd).line.typed().drop_last()
                    } else {
                        old(kbd).line.typed()
                    }
                    &&& final(kbd).line.room() == old(kbd).line.room() + (if some {
                        1int
                    } else {
                        0
                    })
                    &&& final(out)@ == if some {
                        old(out)@ + seq![0x08u8, 0x20u8, 0x08u8]
                    } else {
                        old(out)@
                    }
                    &&& final(sched)@ == old(sched)@
                } else {
                    let some = old(kbd).line.room() > 0;
                    &&& final(kbd).line.committed() == old(kbd).line.committed()
                    &&& final(kbd).line.typed() == if some {
                        old(kbd).line.typed().push(b)
                    } else {
                        old(kbd).line.typed()
                    }
                    &&& final(kbd).line.room() == old(kbd).line.room() - (if some {
                        1int
                    } else {
                        0
                    })
                    &&& final(out)@ == if some {
                        old(out)@ + seq![b]
                    } else {
                        old(out)@
                    }
                    &&& final(sched)@ == old(sched)@
                },
            }
        }),
{
    match kbd.translate(scancode) {
        Some(byte) => {
            line_discipline_input(&mut kbd.line, byte, out, sched, pipes);
        },
        None => {},
    }
}

/// The current process, if there is one, blocked until a line is committed.
pub open spec fn waiting_for_line(s: SchedulerView) -> SchedulerView {
    match s.current {
        Some(pid) => match s.procs[pid as int] {
            Some(p) => SchedulerView {
                procs: s.procs.update(
                    pid as int,
                    Some(
                        Process {
                            state: ProcessState::Blocked,
                            wake_reason: WakeReason::Keyboard,
                            ..p
                        },
                    ),
                ),
                ..s
            },
            None => s,
        },
        None => s,
    }
}

/// Blocks the current process until a line is committed.
pub fn wait_for_line(sched: &mut Scheduler)
    requires
        old(sched)@.wf(),
    ensures
        final(sched)@.wf(),
        final(sched)@ == waiting_for_line(old(sched)@),
{
    match sched.current_pid {
        Some(pid) => match sched.processes[pid as usize] {
            Some(p) => {
                sched.processes[pid as usize] = Some(
                    Process {
                        state: ProcessState::Blocked,
                        wake_reason: WakeReason::Keyboard,
                        ..p
                    },
                );
            },
            None => {},
        },
        None => {},
    }
    assert(sched@.procs =~= waiting_for_line(old(sched)@).procs);
}

/// A process that waits for a line is ready again once a line is committed.
pub proof fn law_line_wakes_reader(
    s: SchedulerView,
    pipes: Seq<Option<crate::process::pipe::Pipe>>,
    pid: u64,
)
    requires
        s.wf(),
        s.current == Some(pid),
        s.procs[pid as int] is Some,
    ensures
        scheduler::in_state(
            wake::woken(waiting_for_line(s), pipes).procs[pid as int],
            ProcessState::Ready,
        ),
{
}

} // verus!
