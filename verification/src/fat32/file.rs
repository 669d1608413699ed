//! Open files and directories.
use vstd::prelude::*;

use crate::bytes;
use crate::fat32::data;
use crate::fat32::inode::{FatDirHandle, FatInner};
use crate::vfs::VfsError;

verus! {

/// File handle for regular files: holds the full content in memory. On close, changed
/// data is flushed to disk.
pub struct FatFileHandle {
    pub inner: FatInner,
    pub data: Vec<u8>,
    pub pos: usize,
    /// First cluster on disk (0 if newly created empty file).
    pub first_cluster: u32,
    /// File size on disk.
    pub disk_size: u32,
    /// The chain of the directory that lists the file; `None` if the file was opened
    /// without its directory, and then it cannot be flushed.
    pub dir_chain: Option<Vec<u32>>,
    pub dir_entry_name: String,
    pub dirty: bool,
    /// Whether the directory has no entry for this file yet.
    pub is_new: bool,
}

/// How many bytes a read at `pos` of a file of `len` bytes gives a buffer of `room`.
pub open spec fn read_len(len: int, pos: int, room: int) -> int {
    if pos >= len {
        0
    } else {
        data::min(room, len - pos)
    }
}

/// The contents of a file after `buf` has been written at `pos`: a gap in front of it
/// is filled with zeros.
pub open spec fn after_write(contents: Seq<u8>, pos: int, buf: Seq<u8>) -> Seq<u8> {
    let len = if pos + buf.len() > contents.len() {
        pos + buf.len()
    } else {
        contents.len() as int
    };
    Seq::new(
        len as nat,
        |i: int|
            if pos <= i < pos + buf.len() {
                buf[i - pos]
            } else if i < contents.len() {
                contents[i]
            } else {
                0u8
            },
    )
}

fn read_at(contents: &Vec<u8>, pos: usize, buf: &mut [u8]) -> (n: usize)
    ensures
        n == read_len(contents@.len() as int, pos as int, old(buf)@.len() as int),
        n > 0 ==> pos + n <= usize::MAX,
        final(buf)@ == bytes::overlay(
            old(buf)@,
            0,
            if n == 0 {
                Seq::empty()
            } else {
                contents@.subrange(pos as int, pos + n)
            },
        ),
{
    if pos >= contents.len() {
        assert(bytes::overlay(buf@, 0, Seq::empty()) =~= buf@);
        return 0;
    }
    let available: usize = contents.len() - pos;
    let to_read: usize = if buf.len() < available {
        buf.len()
    } else {
        available
    };
    bytes::copy_range(buf, 0, contents, pos, to_read);
    assert(to_read == 0 ==> contents@.subrange(pos as int, pos + to_read) =~= Seq::empty());
    to_read
}

impl FatFileHandle {
    /// Reads from the position on and moves it.
    pub fn read(&mut self, buf: &mut [u8]) -> (r: Result<usize, VfsError>)
        ensures
            ({
                let n = read_len(
                    old(self).data@.len() as int,
                    old(self).pos as int,
                    old(buf)@.len() as int,
                );
                &&& r matches Ok(read) && read == n
                &&& final(buf)@ == bytes::overlay(
                    old(buf)@,
                    0,
                    if n == 0 {
                        Seq::empty()
                    } else {
                        old(self).data@.subrange(old(self).pos as int, old(self).pos + n)
                    },
                )
                &&& *final(self) == (FatFileHandle { pos: (old(self).pos + n) as usize, ..*old(self) })
            }),
    {
        let n: usize = read_at(&self.data, self.pos, buf);
        if n > 0 {
            self.pos = self.pos + n;
        }
        Ok(n)
    }

    /// Writes at the position and moves it.
    pub fn write(&mut self, buf: &[u8]) -> (r: Result<usize, VfsError>)
        requires
            old(self).pos + buf@.len() <= usize::MAX,
        ensures
            r matches Ok(n) && n == buf@.len(),
            if buf@.len() == 0 {
                *final(self) == *old(self)
            } else {
                &&& final(self).data@ == after_write(old(self).data@, old(self).pos as int, buf@)
                &&& *final(self) == (FatFileHandle {
                    data: final(self).data,
                    pos: (old(self).pos + buf@.len()) as usize,
                    dirty: true,
                    ..*old(self)
                })
            },
    {
        if buf.is_empty() {
            return Ok(0);
        }
        let ghost before = self.data@;
        let pos: usize = self.pos;
        let end: usize = pos + buf.len();
        while self.data.len() < end
            invariant
                end == pos + buf@.len(),
                self.data@.len() >= before.len(),
                self.data@.len() <= before.len() || self.data@.len() <= end,
                forall|i: int| 0 <= i < before.len() ==> self.data@[i] == before[i],
                forall|i: int| before.len() <= i < self.data@.len() ==> self.data@[i] == 0,
                *self == (FatFileHandle { data: self.data, ..*old(self) }),
            decreases end - self.data@.len(),
        {
            self.data.push(0);
        }
        bytes::copy_at(&mut self.data, pos, buf);
        assert(self.data@ =~= after_write(before, pos as int, buf@));
        self.pos = end;
        self.dirty = true;
        Ok(buf.len())
    }

    /// Moves the position.
    pub fn seek(&mut self, offset: u64) -> (r: Result<(), VfsError>)
        ensures
            r is Ok,
            *final(self) == (FatFileHandle { pos: offset as usize, ..*old(self) }),
    {
        self.pos = offset as usize;
        Ok(())
    }
}

impl FatDirHandle {
    /// Reads from the position on and moves it.
    pub fn read(&mut self, buf: &mut [u8]) -> (r: Result<usize, VfsError>)
        ensures
            ({
                let n = read_len(
                    old(self).data@.len() as int,
                    old(self).pos as int,
                    old(buf)@.len() as int,
                );
                &&& r matches Ok(read) && read == n
                &&& final(buf)@ == bytes::overlay(
                    old(buf)@,
                    0,
                    if n == 0 {
                        Seq::empty()
                    } else {
                        old(self).data@.subrange(old(self).pos as int, old(self).pos + n)
                    },
                )
                &&& *final(self) == (FatDirHandle { pos: (old(self).pos + n) as usize, ..*old(self) })
            }),
    {
        let n: usize = read_at(&self.data, self.pos, buf);
        if n > 0 {
            self.pos = self.pos + n;
        }
        Ok(n)
    }

    /// Directories cannot be written to.
    pub fn write(&mut self, _buf: &[u8]) -> (r: Result<usize, VfsError>)
        ensures
            r == Err::<usize, VfsError>(VfsError::PermissionDenied),
            *final(self) == *old(self),
    {
        Err(VfsError::PermissionDenied)
    }

    /// Moves the position.
    pub fn seek(&mut self, offset: u64) -> (r: Result<(), VfsError>)
        ensures
            r is Ok,
            *final(self) == (FatDirHandle { pos: offset as usize, ..*old(self) }),
    {
        self.pos = offset as usize;
        Ok(())
    }

    pub fn close(&mut self)
        ensures
            *final(self) == *old(self),
    {
    }
}

} // verus!
