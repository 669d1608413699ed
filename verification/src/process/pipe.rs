//! Pipes: ring buffers between processes.
use vstd::prelude::*;

verus! {

/// Size of the pipe ring buffer.
pub const PIPE_SIZE: usize = 512;

/// A pipe for inter-process communication.
///
/// The counters only grow. The buffer is full when `nwrite == nread + PIPE_SIZE` and
/// empty when `nread == nwrite`.
#[derive(Debug, Clone, Copy)]
pub struct Pipe {
    pub data: [u8; 512],
    /// Bytes read so far.
    pub nread: u32,
    /// Bytes written so far.
    pub nwrite: u32,
    pub read_open: bool,
    pub write_open: bool,
    /// Number of descriptors (read and write) that refer to this pipe.
    pub refcount: u16,
}

/// An empty pipe with both ends open, one descriptor for each.
pub open spec fn is_new_pipe(p: Pipe) -> bool {
    &&& p.data@ == Seq::new(512, |i: int| 0u8)
    &&& p.nread == 0
    &&& p.nwrite == 0
    &&& p.read_open
    &&& p.write_open
    &&& p.refcount == 2
}

impl Pipe {
    /// Create a new pipe with both ends open.
    pub fn new() -> (r: Pipe)
        ensures
            is_new_pipe(r),
    {
        let data: [u8; 512] = [0u8; 512];
        assert(data@ =~= Seq::new(512, |i: int| 0u8));
        Pipe { data, nread: 0, nwrite: 0, read_open: true, write_open: true, refcount: 2 }
    }

    /// Whether a blocked reader can go on: there is data, or no more will come.
    pub open spec fn reader_ready(&self) -> bool {
        self.nread < self.nwrite || !self.write_open
    }

    /// Whether a blocked writer can go on: there is room, or nobody reads any more.
    pub open spec fn writer_ready(&self) -> bool {
        self.nwrite < (self.nread + PIPE_SIZE) % 0x1_0000_0000 || !self.read_open
    }

    pub fn can_read(&self) -> (r: bool)
        ensures
            r == self.reader_ready(),
    {
        self.nread < self.nwrite || !self.write_open
    }

    pub fn can_write(&self) -> (r: bool)
        ensures
            r == self.writer_ready(),
    {
        self.nwrite < self.nread.wrapping_add(PIPE_SIZE as u32) || !self.read_open
    }
}

/// Maximum number of pipes in the system.
pub const MAX_PIPES: usize = 16;

/// All the pipes.
pub struct PipeTable {
    pub slots: [Option<Pipe>; 16],
}

impl PipeTable {
    pub fn new() -> (r: PipeTable)
        ensures
            r.slots@ == Seq::new(16, |i: int| None::<Pipe>),
    {
        let slots: [Option<Pipe>; 16] = [None; 16];
        assert(slots@ =~= Seq::new(16, |i: int| None::<Pipe>));
        PipeTable { slots }
    }
}

/// Allocate a pipe from the table: the index of the first free slot.
pub fn alloc_pipe(pipes: &mut PipeTable) -> (r: Option<usize>)
    ensures
        match r {
            Some(i) => {
                &&& i < MAX_PIPES
                &&& old(pipes).slots@[i as int] is None
                &&& forall|k: int| 0 <= k < i ==> #[trigger] old(pipes).slots@[k] is Some
                &&& final(pipes).slots@[i as int] matches Some(p) && is_new_pipe(p)
                &&& final(pipes).slots@ == old(pipes).slots@.update(
                    i as int,
                    final(pipes).slots@[i as int],
                )
            },
            None => {
                &&& forall|k: int| 0 <= k < MAX_PIPES ==> #[trigger] old(pipes).slots@[k] is Some
                &&& final(pipes).slots@ == old(pipes).slots@
            },
        },
{
    let mut i: usize = 0;
    while i < MAX_PIPES
        invariant
            i <= MAX_PIPES,
            pipes.slots@ == old(pipes).slots@,
            forall|k: int| 0 <= k < i ==> #[trigger] pipes.slots@[k] is Some,
        decreases MAX_PIPES - i,
    {
        if pipes.slots[i].is_none() {
            pipes.slots[i] = Some(Pipe::new());
            return Some(i);
        }
        i = i + 1;
    }
    None
}

/// Free a pipe from the table.
pub fn free_pipe(pipes: &mut PipeTable, idx: usize)
    ensures
        final(pipes).slots@ == if idx < MAX_PIPES {
            old(pipes).slots@.update(idx as int, None)
        } else {
            old(pipes).slots@
        },
{
    if idx < MAX_PIPES {
        pipes.slots[idx] = None;
    }
}

} // verus!
