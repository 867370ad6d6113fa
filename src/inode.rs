use vstd::prelude::*;

use crate::clock::{current_time, Timespec};
use crate::error::FsError;

verus! {

/// Identifies an inode among those a filesystem holds.
pub type InodeId = usize;

/// What an inode holds: its bytes and its three timestamps.
pub ghost struct InodeView {
    pub data: Seq<u8>,
    pub created: Timespec,
    pub accessed: Timespec,
    pub modified: Timespec,
}

/// The bytes `s` after `d` has been written at offset `off`: the file grows
/// to `off + d.len()` where it was shorter, and any gap between its old end
/// and `off` reads as zero.
pub open spec fn write_at(s: Seq<u8>, off: int, d: Seq<u8>) -> Seq<u8> {
    let end = off + d.len();
    let len = if end > s.len() { end } else { s.len() as int };
    Seq::new(
        len as nat,
        |i: int|
            if off <= i < end {
                d[i - off]
            } else if i < s.len() {
                s[i]
            } else {
                0u8
            },
    )
}

/// Reading back what was just written: after `d` is written at `off`, the
/// file reaches at least `off + d.len()` bytes and the bytes from `off` on
/// are exactly `d`.
pub proof fn lemma_write_then_read(s: Seq<u8>, off: int, d: Seq<u8>)
    requires
        off >= 0,
    ensures
        write_at(s, off, d).len() >= off + d.len(),
        write_at(s, off, d).subrange(off, off + d.len()) == d,
{
    assert(write_at(s, off, d).subrange(off, off + d.len()) =~= d);
}

/// The contents and timestamps of one file, independent of any name.
pub struct Inode {
    store: Vec<u8>,
    mod_time: Timespec,
    access_time: Timespec,
    create_time: Timespec,
}

impl View for Inode {
    type V = InodeView;

    closed spec fn view(&self) -> InodeView {
        InodeView {
            data: self.store@,
            created: self.create_time,
            accessed: self.access_time,
            modified: self.mod_time,
        }
    }
}

impl Inode {
    /// An empty inode whose three timestamps are all the current time.
    pub fn new() -> (r: Inode)
        ensures
            r@.data.len() == 0,
            r@.created.wf(),
            r@.accessed == r@.created,
            r@.modified == r@.created,
    {
        let time_now = current_time();
        Inode { store: Vec::new(), mod_time: time_now, access_time: time_now, create_time: time_now }
    }

    /// Writes `data` at `offset`, stamping the access and modification times
    /// with `now`. Returns the number of bytes written.
    pub fn write_stamped(&mut self, offset: usize, data: &[u8], now: Timespec) -> (r: usize)
        requires
            offset + data@.len() <= usize::MAX,
        ensures
            r == data@.len(),
            final(self)@.data == write_at(old(self)@.data, offset as int, data@),
            final(self)@.created == old(self)@.created,
            final(self)@.accessed == now,
            final(self)@.modified == now,
    {
        let end = offset + data.len();
        let ghost s0 = self.store@;
        while self.store.len() < end
            invariant
                end == offset + data@.len(),
                self.store@.len() <= if end > s0.len() { end as int } else { s0.len() as int },
                self.store@.len() >= s0.len(),
                forall|i: int| 0 <= i < s0.len() ==> self.store@[i] == s0[i],
                forall|i: int| s0.len() <= i < self.store@.len() ==> self.store@[i] == 0u8,
                self.create_time == old(self).create_time,
            decreases end - self.store@.len(),
        {
            self.store.push(0u8);
        }
        let ghost s1 = self.store@;
        let n = data.len();
        let mut k: usize = 0;
        while k < n
            invariant
                n == data@.len(),
                end == offset + data@.len(),
                k <= data@.len(),
                self.store@.len() == s1.len(),
                s1.len() >= end,
                s1.len() == if end > s0.len() { end as int } else { s0.len() as int },
                forall|i: int| 0 <= i < s0.len() ==> s1[i] == s0[i],
                forall|i: int| s0.len() <= i < s1.len() ==> s1[i] == 0u8,
                forall|i: int| 0 <= i < s1.len() && !(offset <= i < offset + k) ==> self.store@[i] == s1[i],
                self.create_time == old(self).create_time,
                forall|i: int| offset <= i < offset + k ==> self.store@[i] == data@[i - offset],
            decreases data@.len() - k,
        {
            self.store[offset + k] = data[k];
            k = k + 1;
        }
        let ghost w = write_at(s0, offset as int, data@);
        assert(self.store@.len() == w.len());
        assert forall|i: int| 0 <= i < w.len() implies self.store@[i] == w[i] by {
            assert(k == n);
            if !(offset <= i < end) {
                assert(self.store@[i] == s1[i]);
            }
        }
        assert(self.store@ =~= w);
        self.mod_time = now;
        self.access_time = now;
        data.len()
    }

    /// Writes `data` at `offset`, extending the file with zeros where it is
    /// too short, and stamps the access and modification times with the
    /// current time. Returns the number of bytes written.
    pub fn write(&mut self, offset: usize, data: &[u8]) -> (r: usize)
        requires
            offset + data@.len() <= usize::MAX,
        ensures
            r == data@.len(),
            final(self)@.data == write_at(old(self)@.data, offset as int, data@),
            final(self)@.created == old(self)@.created,
            final(self)@.accessed == final(self)@.modified,
            final(self)@.modified.wf(),
    {
        let time_now = current_time();
        self.write_stamped(offset, data, time_now)
    }

    /// Copies `data.len()` bytes starting at `offset` into `data`. Fails,
    /// leaving `data` untouched, where that range goes past the end of the file.
    pub fn read(&self, offset: usize, data: &mut [u8]) -> (r: Result<usize, FsError>)
        ensures
            offset + old(data)@.len() <= self@.data.len() ==> {
                &&& r == Ok::<usize, FsError>(old(data)@.len() as usize)
                &&& final(data)@ == self@.data.subrange(offset as int, offset + old(data)@.len())
            },
            offset + old(data)@.len() > self@.data.len() ==> {
                &&& r == Err::<usize, FsError>(FsError::OutOfBounds)
                &&& final(data)@ == old(data)@
            },
    {
        if data.len() > self.store.len() || offset > self.store.len() - data.len() {
            return Err(FsError::OutOfBounds);
        }
        let ghost d0 = data@;
        let n = data.len();
        let size = self.store.len();
        let mut k: usize = 0;
        while k < n
            invariant
                n == d0.len(),
                size == self.store@.len(),
                k <= n,
                data@.len() == d0.len(),
                offset + d0.len() <= size,
                forall|i: int| 0 <= i < k ==> data@[i] == self.store@[offset + i],
            decreases data@.len() - k,
        {
            data[k] = self.store[offset + k];
            k = k + 1;
        }
        assert(data@ =~= self@.data.subrange(offset as int, offset + d0.len()));
        Ok(data.len())
    }

    /// The length of a file fits in a `usize`.
    pub proof fn lemma_size_fits(&self)
        ensures
            self@.data.len() <= usize::MAX,
    {
        assert(self.store.len() == self.store@.len());
    }

    /// Current length of the file in bytes.
    pub fn size(&self) -> (r: usize)
        ensures
            r == self@.data.len(),
    {
        self.store.len()
    }

    /// The creation, access and modification times, in that order.
    pub fn stat(&self) -> (r: (Timespec, Timespec, Timespec))
        ensures
            r == (self@.created, self@.accessed, self@.modified),
    {
        (self.create_time, self.access_time, self.mod_time)
    }
}

} // verus!
