use vstd::prelude::*;

use crate::error::FsError;
use crate::inode::{write_at, Inode, InodeId};

verus! {

/// The point a seek is measured from.
#[derive(Clone, Copy, Debug, PartialEq, Eq, Structural)]
pub enum Whence {
    /// From the start of the file.
    SeekSet,
    /// From the handle's current cursor.
    SeekCur,
    /// From the end of the file, as long as it is at the time of the seek.
    SeekEnd,
}

/// The position a seek by `offset` from `whence` aims at, for a handle
/// whose cursor is `cursor` on a file of `size` bytes.
pub open spec fn seek_target(cursor: int, size: int, offset: int, whence: Whence) -> int {
    match whence {
        Whence::SeekSet => offset,
        Whence::SeekCur => cursor + offset,
        Whence::SeekEnd => size + offset,
    }
}

/// One open instance of a file: the inode it was opened on and its own
/// cursor, independent of every other handle.
#[derive(Clone, Copy, Debug, PartialEq, Eq, Structural)]
pub struct FileHandle {
    pub inode: InodeId,
    pub cursor: usize,
}

impl FileHandle {
    /// A handle on `inode` with its cursor at the start.
    pub fn new(inode: InodeId) -> (r: FileHandle)
        ensures
            r == (FileHandle { inode, cursor: 0 }),
    {
        FileHandle { inode, cursor: 0 }
    }

    /// Reads `dst.len()` bytes at the cursor from `file`, the inode of this
    /// handle, and moves the cursor past them. Fails where the range goes past
    /// the end of the file, changing nothing.
    pub fn read(&mut self, file: &Inode, dst: &mut [u8]) -> (r: Result<usize, FsError>)
        ensures
            final(self).inode == old(self).inode,
            old(self).cursor + old(dst)@.len() <= file@.data.len() ==> {
                &&& r == Ok::<usize, FsError>(old(dst)@.len() as usize)
                &&& final(dst)@ == file@.data.subrange(
                    old(self).cursor as int,
                    old(self).cursor + old(dst)@.len(),
                )
                &&& final(self).cursor == old(self).cursor + old(dst)@.len()
            },
            old(self).cursor + old(dst)@.len() > file@.data.len() ==> {
                &&& r == Err::<usize, FsError>(FsError::OutOfBounds)
                &&& final(dst)@ == old(dst)@
                &&& *final(self) == *old(self)
            },
    {
        proof {
            file.lemma_size_fits();
        }
        match file.read(self.cursor, dst) {
            Ok(n) => {
                self.cursor = self.cursor + n;
                Ok(n)
            },
            Err(e) => Err(e),
        }
    }

    /// Writes `src` at the cursor into `file`, the inode of this handle, and
    /// moves the cursor past it. Fails, changing nothing, where the end of the
    /// write would not fit in a `usize`.
    pub fn write(&mut self, file: &mut Inode, src: &[u8]) -> (r: Result<usize, FsError>)
        ensures
            final(self).inode == old(self).inode,
            old(self).cursor + src@.len() <= usize::MAX ==> {
                &&& r == Ok::<usize, FsError>(src@.len() as usize)
                &&& final(file)@.data == write_at(old(file)@.data, old(self).cursor as int, src@)
                &&& final(file)@.created == old(file)@.created
                &&& final(file)@.accessed == final(file)@.modified
                &&& final(file)@.modified.wf()
                &&& final(self).cursor == old(self).cursor + src@.len()
            },
            old(self).cursor + src@.len() > usize::MAX ==> {
                &&& r == Err::<usize, FsError>(FsError::InvalidArgument)
                &&& *final(file) == *old(file)
                &&& *final(self) == *old(self)
            },
    {
        if src.len() > usize::MAX - self.cursor {
            return Err(FsError::InvalidArgument);
        }
        let n = file.write(self.cursor, src);
        self.cursor = self.cursor + n;
        Ok(n)
    }

    /// Moves the cursor to `offset` bytes from the point `whence` names, the
    /// end being that of `file`, the inode of this handle. Returns the new
    /// position. Fails, changing nothing, where that position would be
    /// negative or not fit in a `usize`.
    pub fn seek(&mut self, file: &Inode, offset: isize, whence: Whence) -> (r: Result<usize, FsError>)
        ensures
            final(self).inode == old(self).inode,
            ({
                let t = seek_target(old(self).cursor as int, file@.data.len() as int, offset as int, whence);
                &&& 0 <= t <= usize::MAX ==> r == Ok::<usize, FsError>(t as usize) && final(self).cursor == t
                &&& !(0 <= t <= usize::MAX) ==> r == Err::<usize, FsError>(FsError::InvalidArgument)
                    && *final(self) == *old(self)
            }),
    {
        let base: usize = match whence {
            Whence::SeekSet => 0,
            Whence::SeekCur => self.cursor,
            Whence::SeekEnd => file.size(),
        };
        let target: usize = if offset >= 0 {
            let step = offset as usize;
            if step > usize::MAX - base {
                return Err(FsError::InvalidArgument);
            }
            base + step
        } else {
            let back = (-(offset + 1)) as usize + 1;
            if back > base {
                return Err(FsError::InvalidArgument);
            }
            base - back
        };
        self.cursor = target;
        Ok(target)
    }
}

} // verus!
