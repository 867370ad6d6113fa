use vstd::prelude::*;

use crate::directory::{Directory, File, FileView};
use crate::error::FsError;
use crate::flags::{creates, FileFlags};
use crate::clock::Timespec;
use crate::handle::{seek_target, FileHandle, Whence};
use crate::inode::{lemma_write_then_read, write_at, Inode, InodeId, InodeView};

verus! {

/// A small integer naming one open instance of a file.
pub type FileDescriptor = isize;

/// The lowest descriptor the pool hands out: 0, 1 and 2 are left to the
/// standard streams.
pub const FIRST_FD: isize = 3;

/// The highest descriptor the pool hands out.
pub const LAST_FD: isize = 256;

/// Length of the descriptor table: one slot for each descriptor up to `LAST_FD`.
const TABLE_LEN: usize = 257;

/// `fd` is one of the descriptors the pool manages.
pub open spec fn in_pool(fd: FileDescriptor) -> bool {
    FIRST_FD <= fd <= LAST_FD
}

/// An in-memory filesystem: one flat namespace, a table of open handles
/// indexed by descriptor, a pool of free descriptors, and the inodes that
/// names and handles share.
pub struct Vfs {
    cwd: Directory,
    fd_table: Vec<Option<FileHandle>>,
    fds: Vec<FileDescriptor>,
    inodes: Vec<Option<Inode>>,
}

impl Vfs {
    /// The namespace: each name with the entry it is bound to.
    pub closed spec fn names(&self) -> Map<Seq<char>, FileView> {
        self.cwd@
    }

    /// Each open descriptor with its handle.
    pub closed spec fn handles(&self) -> Map<FileDescriptor, FileHandle> {
        Map::new(
            |fd: FileDescriptor| 0 <= fd < self.fd_table@.len() && self.fd_table@[fd as int] is Some,
            |fd: FileDescriptor| self.fd_table@[fd as int]->Some_0,
        )
    }

    /// Each live inode with its contents and timestamps.
    pub closed spec fn inodes(&self) -> Map<InodeId, InodeView> {
        Map::new(
            |id: InodeId| id < self.inodes@.len() && self.inodes@[id as int] is Some,
            |id: InodeId| self.inodes@[id as int]->Some_0@,
        )
    }

    /// The free descriptors; the last one is handed out first.
    pub closed spec fn free_fds(&self) -> Seq<FileDescriptor> {
        self.fds@
    }

    /// Some name is bound to the data file on inode `id`.
    pub open spec fn named(&self, id: InodeId) -> bool {
        exists|k: Seq<char>| self.names().contains_key(k) && #[trigger] self.names()[k] == FileView::Data(id)
    }

    /// Some open handle is on inode `id`.
    pub open spec fn opened(&self, id: InodeId) -> bool {
        exists|fd: FileDescriptor| self.handles().contains_key(fd) && #[trigger] self.handles()[fd].inode == id
    }

    /// The bytes of the file that descriptor `fd` is open on.
    pub open spec fn contents(&self, fd: FileDescriptor) -> Seq<u8> {
        self.inodes()[self.handles()[fd].inode].data
    }

    /// Every descriptor of the pool is open.
    pub open spec fn pool_exhausted(&self) -> bool {
        forall|fd: FileDescriptor| in_pool(fd) ==> #[trigger] self.handles().contains_key(fd)
    }

    /// `self` and `other` hold the same names, handles, inodes and free
    /// descriptors.
    pub open spec fn same_as(&self, other: Vfs) -> bool {
        &&& self.names() == other.names()
        &&& self.handles() == other.handles()
        &&& self.inodes() == other.inodes()
        &&& self.free_fds() == other.free_fds()
    }

    /// `post` is `self` after `open` bound the free descriptor `fd` to a new
    /// handle on the file named `path`, creating it where it was missing.
    pub open spec fn opened_as(&self, post: Vfs, path: Seq<char>, fd: FileDescriptor) -> bool {
        let id = post.handles()[fd].inode;
        &&& in_pool(fd)
        &&& !self.handles().contains_key(fd)
        &&& fd == self.free_fds().last()
        &&& post.free_fds() == self.free_fds().drop_last()
        &&& post.handles() == self.handles().insert(fd, FileHandle { inode: id, cursor: 0 })
        &&& self.names().contains_key(path) ==> {
            &&& self.names()[path] == FileView::Data(id)
            &&& post.names() == self.names()
            &&& post.inodes() == self.inodes()
        }
        &&& !self.names().contains_key(path) ==> {
            let v = post.inodes()[id];
            &&& !self.inodes().contains_key(id)
            &&& post.names() == self.names().insert(path, FileView::Data(id))
            &&& post.inodes() == self.inodes().insert(id, v)
            &&& v.data.len() == 0
            &&& v.created.wf()
            &&& v.accessed == v.created
            &&& v.modified == v.created
        }
    }

    /// `post` is `self` after `src` was written through `fd` at its cursor.
    pub open spec fn wrote(&self, post: Vfs, fd: FileDescriptor, src: Seq<u8>) -> bool {
        let h = self.handles()[fd];
        let ino = self.inodes()[h.inode];
        let v = post.inodes()[h.inode];
        &&& v.data == write_at(ino.data, h.cursor as int, src)
        &&& v.created == ino.created
        &&& v.accessed == v.modified
        &&& v.modified.wf()
        &&& post.inodes() == self.inodes().insert(h.inode, v)
        &&& post.handles() == self.handles().insert(
            fd,
            FileHandle { inode: h.inode, cursor: (h.cursor + src.len()) as usize },
        )
        &&& post.names() == self.names()
        &&& post.free_fds() == self.free_fds()
    }

    /// `post` is `self` after the cursor of `fd` moved to `pos`.
    pub open spec fn sought(&self, post: Vfs, fd: FileDescriptor, pos: usize) -> bool {
        &&& post.handles() == self.handles().insert(fd, FileHandle { inode: self.handles()[fd].inode, cursor: pos })
        &&& post.names() == self.names()
        &&& post.inodes() == self.inodes()
        &&& post.free_fds() == self.free_fds()
    }

    /// `post` is `self` after the open descriptor `fd` was closed.
    pub open spec fn closed(&self, post: Vfs, fd: FileDescriptor) -> bool {
        let id = self.handles()[fd].inode;
        &&& post.handles() == self.handles().remove(fd)
        &&& post.free_fds() == self.free_fds().push(fd)
        &&& post.names() == self.names()
        &&& post.inodes() == if post.named(id) || post.opened(id) {
            self.inodes()
        } else {
            self.inodes().remove(id)
        }
    }

    /// `post` is `self` after the name `path` was removed.
    pub open spec fn unlinked(&self, post: Vfs, path: Seq<char>) -> bool {
        &&& post.names() == self.names().remove(path)
        &&& post.handles() == self.handles()
        &&& post.free_fds() == self.free_fds()
        &&& post.inodes() == match self.names().get(path) {
            Some(FileView::Data(id)) => if post.named(id) || post.opened(id) {
                self.inodes()
            } else {
                self.inodes().remove(id)
            },
            _ => self.inodes(),
        }
    }

    /// `post` is `self` after the entry bound to `from` moved to `to`.
    pub open spec fn renamed(&self, post: Vfs, from: Seq<char>, to: Seq<char>) -> bool {
        let names = self.names();
        let displaced = if from != to { names.get(to) } else { None };
        &&& post.names() == names.remove(from).insert(to, names[from])
        &&& post.handles() == self.handles()
        &&& post.free_fds() == self.free_fds()
        &&& post.inodes() == match displaced {
            Some(FileView::Data(id)) => if post.named(id) || post.opened(id) {
                self.inodes()
            } else {
                self.inodes().remove(id)
            },
            _ => self.inodes(),
        }
    }

    /// The state is consistent: handles and names only point at live inodes,
    /// every live inode is pointed at, and each descriptor of the pool is
    /// either free, once, or open.
    pub closed spec fn wf(&self) -> bool {
        &&& self.wf_core()
        &&& forall|id: InodeId| #[trigger] self.inodes().contains_key(id) ==> self.named(id) || self.opened(id)
    }

    /// The pool has no free descriptor exactly when every descriptor of it
    /// is open.
    pub proof fn lemma_pool(&self)
        requires
            self.wf(),
        ensures
            self.free_fds().len() == 0 <==> self.pool_exhausted(),
    {
        if self.fds@.len() > 0 {
            let fd = self.fds@[0];
            assert(in_pool(fd) && !self.handles().contains_key(fd));
        }
    }

    /// What `wf` asks, but that every live inode be pointed at.
    closed spec fn wf_core(&self) -> bool {
        &&& self.cwd.wf()
        &&& self.fd_table@.len() == TABLE_LEN
        &&& forall|fd: FileDescriptor| #[trigger] self.handles().contains_key(fd)
            ==> in_pool(fd) && self.inodes().contains_key(self.handles()[fd].inode)
        &&& forall|k: Seq<char>| #[trigger] self.names().contains_key(k) && self.names()[k] is Data
            ==> self.inodes().contains_key(self.names()[k]->Data_0)
        &&& forall|i: int| 0 <= i < self.fds@.len() ==> in_pool(#[trigger] self.fds@[i])
            && !self.handles().contains_key(self.fds@[i])
        &&& forall|i: int, j: int| 0 <= i < self.fds@.len() && 0 <= j < self.fds@.len() && i != j
            ==> self.fds@[i] != self.fds@[j]
        &&& forall|fd: FileDescriptor| in_pool(fd) && !(#[trigger] self.handles().contains_key(fd))
            ==> self.fds@.contains(fd)
    }

    /// A change that keeps the namespace, the free descriptors, which
    /// descriptors are open on which inode, and which inodes are live, keeps
    /// the state consistent.
    proof fn lemma_wf_frame(&self, pre: Vfs)
        requires
            pre.wf(),
            self.cwd == pre.cwd,
            self.fds@ == pre.fds@,
            self.fd_table@.len() == TABLE_LEN,
            self.handles().dom() == pre.handles().dom(),
            forall|fd: FileDescriptor| #[trigger] pre.handles().contains_key(fd)
                ==> self.handles()[fd].inode == pre.handles()[fd].inode,
            self.inodes().dom() == pre.inodes().dom(),
        ensures
            self.wf(),
    {
        assert forall|fd: FileDescriptor| #[trigger] self.handles().contains_key(fd)
            implies in_pool(fd) && self.inodes().contains_key(self.handles()[fd].inode) by {
            assert(pre.handles().contains_key(fd));
        }
        assert forall|k: Seq<char>| #[trigger] self.names().contains_key(k) && self.names()[k] is Data
            implies self.inodes().contains_key(self.names()[k]->Data_0) by {
            assert(pre.names().contains_key(k));
        }
        assert forall|i: int| 0 <= i < self.fds@.len() implies in_pool(#[trigger] self.fds@[i])
            && !self.handles().contains_key(self.fds@[i]) by {
            assert(pre.fds@[i] == self.fds@[i]);
        }
        assert forall|fd: FileDescriptor| in_pool(fd) && !(#[trigger] self.handles().contains_key(fd))
            implies self.fds@.contains(fd) by {
            assert(!pre.handles().contains_key(fd));
        }
        assert forall|x: InodeId| #[trigger] self.inodes().contains_key(x) implies self.named(x) || self.opened(x) by {
            assert(pre.inodes().contains_key(x));
            if pre.named(x) {
                let k = choose|k: Seq<char>| pre.names().contains_key(k) && #[trigger] pre.names()[k] == FileView::Data(x);
                assert(self.names()[k] == FileView::Data(x));
            } else {
                let f = choose|f: FileDescriptor| pre.handles().contains_key(f) && #[trigger] pre.handles()[f].inode == x;
                assert(self.handles()[f].inode == x);
            }
        }
    }

    proof fn lemma_open_wf(&self, pre: Vfs, fd: FileDescriptor, id: InodeId)
        requires
            pre.wf(),
            pre.fds@.len() > 0,
            fd == pre.fds@.last(),
            self.fds@ == pre.fds@.drop_last(),
            self.cwd.wf(),
            self.fd_table@.len() == TABLE_LEN,
            self.handles() == pre.handles().insert(fd, FileHandle { inode: id, cursor: 0 }),
            self.inodes().contains_key(id),
            forall|x: InodeId| pre.inodes().contains_key(x) ==> #[trigger] self.inodes().contains_key(x),
            forall|x: InodeId| #[trigger] self.inodes().contains_key(x) && x != id ==> pre.inodes().contains_key(x),
            forall|k: Seq<char>| #[trigger] pre.names().contains_key(k)
                ==> self.names().contains_key(k) && self.names()[k] == pre.names()[k],
            forall|k: Seq<char>| #[trigger] self.names().contains_key(k) && !pre.names().contains_key(k)
                ==> self.names()[k] == FileView::Data(id),
        ensures
            self.wf(),
    {
        let n = pre.fds@.len() - 1;
        assert(in_pool(fd) && !pre.handles().contains_key(fd));
        assert forall|x: InodeId| #[trigger] self.inodes().contains_key(x) implies self.named(x) || self.opened(x) by {
            if x == id {
                assert(self.handles()[fd].inode == id);
            } else if pre.named(x) {
                let k = choose|k: Seq<char>| pre.names().contains_key(k) && #[trigger] pre.names()[k] == FileView::Data(x);
                assert(self.names()[k] == FileView::Data(x));
            } else {
                let f = choose|f: FileDescriptor| pre.handles().contains_key(f) && #[trigger] pre.handles()[f].inode == x;
                assert(self.handles()[f].inode == x);
            }
        }
        assert forall|i: int| 0 <= i < self.fds@.len() implies in_pool(#[trigger] self.fds@[i])
            && !self.handles().contains_key(self.fds@[i]) by {
            assert(self.fds@[i] == pre.fds@[i]);
            assert(pre.fds@[i] != pre.fds@[n]);
        }
        assert forall|f: FileDescriptor| in_pool(f) && !(#[trigger] self.handles().contains_key(f))
            implies self.fds@.contains(f) by {
            assert(pre.fds@.contains(f));
            let i = choose|i: int| 0 <= i < pre.fds@.len() && pre.fds@[i] == f;
            assert(i != n);
            assert(self.fds@[i] == f);
        }
    }

    /// An empty filesystem with every descriptor of the pool free.
    pub fn new() -> (r: Vfs)
        ensures
            r.wf(),
            r.names() == Map::<Seq<char>, FileView>::empty(),
            r.handles() == Map::<FileDescriptor, FileHandle>::empty(),
            r.inodes() == Map::<InodeId, InodeView>::empty(),
            r.free_fds() == Seq::new((LAST_FD - FIRST_FD + 1) as nat, |i: int| (LAST_FD - i) as FileDescriptor),
            forall|fd: FileDescriptor| in_pool(fd) <==> r.free_fds().contains(fd),
    {
        let mut fd_table: Vec<Option<FileHandle>> = Vec::new();
        while fd_table.len() < TABLE_LEN
            invariant
                fd_table@.len() <= TABLE_LEN,
                forall|i: int| 0 <= i < fd_table@.len() ==> fd_table@[i] is None,
            decreases TABLE_LEN - fd_table@.len(),
        {
            fd_table.push(None);
        }
        let mut fds: Vec<FileDescriptor> = Vec::new();
        let mut i: isize = 0;
        while i < LAST_FD - FIRST_FD + 1
            invariant
                0 <= i <= LAST_FD - FIRST_FD + 1,
                fds@.len() == i,
                forall|j: int| 0 <= j < i ==> fds@[j] == LAST_FD - j,
            decreases LAST_FD - FIRST_FD + 1 - i,
        {
            fds.push(LAST_FD - i);
            i = i + 1;
        }
        let r = Vfs { cwd: Directory::new(), fd_table, fds, inodes: Vec::new() };
        assert(r.handles() =~= Map::<FileDescriptor, FileHandle>::empty());
        assert(r.inodes() =~= Map::<InodeId, InodeView>::empty());
        assert(r.free_fds() =~= Seq::new((LAST_FD - FIRST_FD + 1) as nat, |i: int| (LAST_FD - i) as FileDescriptor));
        assert forall|fd: FileDescriptor| in_pool(fd) implies r.free_fds().contains(fd) by {
            assert(r.fds@[LAST_FD - fd] == fd);
        }
        r
    }

    /// The descriptor the pool handed out, or the error for an empty pool.
    fn extract_fd(fd_opt: &Option<FileDescriptor>) -> (r: Result<FileDescriptor, FsError>)
        ensures
            fd_opt matches Some(fd) ==> r == Ok::<FileDescriptor, FsError>(*fd),
            fd_opt is None ==> r == Err::<FileDescriptor, FsError>(FsError::NoDescriptors),
    {
        match fd_opt {
            Some(fd) => Ok(*fd),
            None => Err(FsError::NoDescriptors),
        }
    }

    /// Stores `inode` in a free slot of the arena and returns its identifier.
    fn alloc_inode(&mut self, inode: Inode) -> (id: InodeId)
        ensures
            !old(self).inodes().contains_key(id),
            final(self).inodes() == old(self).inodes().insert(id, inode@),
            final(self).cwd == old(self).cwd,
            final(self).fd_table == old(self).fd_table,
            final(self).fds == old(self).fds,
    {
        let mut i: usize = 0;
        while i < self.inodes.len()
            invariant
                i <= self.inodes@.len(),
                forall|j: int| 0 <= j < i ==> self.inodes@[j] is Some,
                self.inodes@ == old(self).inodes@,
                self.cwd == old(self).cwd,
                self.fd_table == old(self).fd_table,
                self.fds == old(self).fds,
            decreases self.inodes@.len() - i,
        {
            if self.inodes[i].is_none() {
                self.inodes.set(i, Some(inode));
                assert(self.inodes() =~= old(self).inodes().insert(i, inode@));
                return i;
            }
            i = i + 1;
        }
        self.inodes.push(Some(inode));
        assert(self.inodes() =~= old(self).inodes().insert(i, inode@));
        i
    }

    /// Opens the file named `path`. Where no such name exists and `flags`
    /// hold `FileFlags::O_CREAT`, an empty file is created under it first.
    /// On success the free descriptor that the pool hands out next (the one
    /// closed last; at first the lowest) is bound to a new handle whose
    /// cursor is at the start. Fails, changing nothing, where the name is
    /// bound to a directory, where it is missing and not to be created, or
    /// where every descriptor of the pool is open.
    pub fn open(&mut self, path: &str, flags: u32) -> (r: Result<FileDescriptor, FsError>)
        requires
            old(self).wf(),
        ensures
            final(self).wf(),
            ({
                let k = path@;
                let names = old(self).names();
                let dir = names.contains_key(k) && names[k] == FileView::Directory;
                let missing = !names.contains_key(k) && !creates(flags);
                &&& dir ==> r == Err::<FileDescriptor, FsError>(FsError::IsDirectory)
                &&& missing ==> r == Err::<FileDescriptor, FsError>(FsError::NotFound)
                &&& !dir && !missing && old(self).free_fds().len() == 0
                    ==> r == Err::<FileDescriptor, FsError>(FsError::NoDescriptors)
                &&& r is Err ==> final(self).same_as(*old(self))
                &&& !dir && !missing && old(self).free_fds().len() > 0 ==> r is Ok
                &&& r matches Ok(fd) ==> old(self).opened_as(*final(self), k, fd)
            }),
    {
        let name = path.to_owned();
        let existing: Option<InodeId> = match self.cwd.get(&name) {
            Some(f) => match f {
                File::Data(id) => Some(*id),
                File::Directory(_) => {
                    return Err(FsError::IsDirectory);
                },
            },
            None => {
                if flags & FileFlags::O_CREAT != FileFlags::O_CREAT {
                    return Err(FsError::NotFound);
                }
                None
            },
        };
        let popped = self.fds.pop();
        let fd = match Vfs::extract_fd(&popped) {
            Ok(fd) => fd,
            Err(e) => {
                assert(self.fds@ =~= old(self).fds@);
                proof {
                    self.lemma_wf_frame(*old(self));
                    assert(self.handles() =~= old(self).handles());
                    assert(self.inodes() =~= old(self).inodes());
                }
                return Err(e);
            },
        };
        let id = match existing {
            Some(id) => id,
            None => {
                let id = self.alloc_inode(Inode::new());
                self.cwd.insert(name, File::new_data_file(id));
                id
            },
        };
        self.fd_table.set(fd as usize, Some(FileHandle::new(id)));
        assert(self.handles() =~= old(self).handles().insert(fd, FileHandle { inode: id, cursor: 0 }));
        proof {
            self.lemma_open_wf(*old(self), fd, id);
        }
        Ok(fd)
    }

    /// The handle bound to `fd`, if it is open.
    fn handle_of(&self, fd: FileDescriptor) -> (r: Option<FileHandle>)
        requires
            self.wf(),
        ensures
            self.handles().contains_key(fd) ==> r == Some(self.handles()[fd]),
            !self.handles().contains_key(fd) ==> r is None,
    {
        if fd < 0 || fd >= TABLE_LEN as isize {
            return None;
        }
        self.fd_table[fd as usize]
    }

    /// Reads `dst.len()` bytes at the cursor of descriptor `fd` and moves the
    /// cursor past them. Fails, changing nothing, where `fd` is not open or
    /// the range goes past the end of the file.
    pub fn read(&mut self, fd: FileDescriptor, dst: &mut [u8]) -> (r: Result<usize, FsError>)
        requires
            old(self).wf(),
        ensures
            final(self).wf(),
            !old(self).handles().contains_key(fd) ==> r == Err::<usize, FsError>(FsError::NotFound),
            old(self).handles().contains_key(fd) ==> ({
                let h = old(self).handles()[fd];
                let data = old(self).contents(fd);
                &&& h.cursor + old(dst)@.len() <= data.len() ==> {
                    &&& r == Ok::<usize, FsError>(old(dst)@.len() as usize)
                    &&& final(dst)@ == data.subrange(h.cursor as int, h.cursor + old(dst)@.len())
                    &&& final(self).handles() == old(self).handles().insert(
                        fd,
                        FileHandle { inode: h.inode, cursor: (h.cursor + old(dst)@.len()) as usize },
                    )
                    &&& final(self).names() == old(self).names()
                    &&& final(self).inodes() == old(self).inodes()
                    &&& final(self).free_fds() == old(self).free_fds()
                }
                &&& h.cursor + old(dst)@.len() > data.len() ==> r == Err::<usize, FsError>(FsError::OutOfBounds)
            }),
            r is Err ==> final(self).same_as(*old(self)) && final(dst)@ == old(dst)@,
    {
        let mut handle = match self.handle_of(fd) {
            Some(h) => h,
            None => {
                return Err(FsError::NotFound);
            },
        };
        let r = match &self.inodes[handle.inode] {
            Some(ino) => handle.read(ino, dst),
            None => Err(FsError::NotFound),
        };
        if r.is_ok() {
            self.fd_table.set(fd as usize, Some(handle));
            proof {
                assert(self.handles() =~= old(self).handles().insert(fd, handle));
                assert(self.handles().dom() =~= old(self).handles().dom());
                self.lemma_wf_frame(*old(self));
            }
        }
        r
    }

    /// Writes `src` at the cursor of descriptor `fd`, growing the file with
    /// zeros where the cursor is past its end, and moves the cursor past it.
    /// The file's access and modification times become the current time.
    /// Fails, changing nothing, where `fd` is not open or the end of the write
    /// would not fit in a `usize`.
    pub fn write(&mut self, fd: FileDescriptor, src: &[u8]) -> (r: Result<usize, FsError>)
        requires
            old(self).wf(),
        ensures
            final(self).wf(),
            !old(self).handles().contains_key(fd) ==> r == Err::<usize, FsError>(FsError::NotFound),
            old(self).handles().contains_key(fd) ==> ({
                let h = old(self).handles()[fd];
                &&& h.cursor + src@.len() <= usize::MAX ==> {
                    &&& r == Ok::<usize, FsError>(src@.len() as usize)
                    &&& old(self).wrote(*final(self), fd, src@)
                }
                &&& h.cursor + src@.len() > usize::MAX ==> r == Err::<usize, FsError>(FsError::InvalidArgument)
            }),
            r is Err ==> final(self).same_as(*old(self)),
    {
        let mut handle = match self.handle_of(fd) {
            Some(h) => h,
            None => {
                return Err(FsError::NotFound);
            },
        };
        let r = match &mut self.inodes[handle.inode] {
            Some(ino) => handle.write(ino, src),
            None => Err(FsError::NotFound),
        };
        proof {
            assert(self.inodes@ =~= old(self).inodes@.update(handle.inode as int, self.inodes@[handle.inode as int]));
        }
        if r.is_ok() {
            self.fd_table.set(fd as usize, Some(handle));
            proof {
                assert(self.handles() =~= old(self).handles().insert(fd, handle));
                assert(self.inodes() =~= old(self).inodes().insert(handle.inode, self.inodes()[handle.inode]));
                assert(self.inodes().dom() =~= old(self).inodes().dom());
                assert(self.handles().dom() =~= old(self).handles().dom());
                self.lemma_wf_frame(*old(self));
            }
        } else {
            proof {
                assert(self.inodes() =~= old(self).inodes());
                assert(self.handles() =~= old(self).handles());
            }
        }
        r
    }

    /// Moves the cursor of descriptor `fd` to `offset` bytes from the point
    /// `whence` names, the end being that of the file at the time of the call,
    /// and returns the new position. Fails, changing nothing, where `fd` is
    /// not open or the position would be negative or not fit in a `usize`.
    pub fn seek(&mut self, fd: FileDescriptor, offset: isize, whence: Whence) -> (r: Result<usize, FsError>)
        requires
            old(self).wf(),
        ensures
            final(self).wf(),
            !old(self).handles().contains_key(fd) ==> r == Err::<usize, FsError>(FsError::NotFound),
            old(self).handles().contains_key(fd) ==> ({
                let h = old(self).handles()[fd];
                let t = seek_target(h.cursor as int, old(self).contents(fd).len() as int, offset as int, whence);
                &&& 0 <= t <= usize::MAX ==> {
                    &&& r == Ok::<usize, FsError>(t as usize)
                    &&& old(self).sought(*final(self), fd, t as usize)
                }
                &&& !(0 <= t <= usize::MAX) ==> r == Err::<usize, FsError>(FsError::InvalidArgument)
            }),
            r is Err ==> final(self).same_as(*old(self)),
    {
        let mut handle = match self.handle_of(fd) {
            Some(h) => h,
            None => {
                return Err(FsError::NotFound);
            },
        };
        let r = match &self.inodes[handle.inode] {
            Some(ino) => handle.seek(ino, offset, whence),
            None => Err(FsError::NotFound),
        };
        if r.is_ok() {
            self.fd_table.set(fd as usize, Some(handle));
            proof {
                assert(self.handles() =~= old(self).handles().insert(fd, handle));
                assert(self.handles().dom() =~= old(self).handles().dom());
                self.lemma_wf_frame(*old(self));
            }
        }
        r
    }

    /// The creation, access and modification times of the file that `fd` is
    /// open on. Fails where `fd` is not open.
    pub fn get_stats(&self, fd: FileDescriptor) -> (r: Result<(Timespec, Timespec, Timespec), FsError>)
        requires
            self.wf(),
        ensures
            !self.handles().contains_key(fd) ==> r == Err::<(Timespec, Timespec, Timespec), FsError>(
                FsError::NotFound,
            ),
            self.handles().contains_key(fd) ==> ({
                let v = self.inodes()[self.handles()[fd].inode];
                r == Ok::<(Timespec, Timespec, Timespec), FsError>((v.created, v.accessed, v.modified))
            }),
    {
        let handle = match self.handle_of(fd) {
            Some(h) => h,
            None => {
                return Err(FsError::NotFound);
            },
        };
        match &self.inodes[handle.inode] {
            Some(ino) => Ok(ino.stat()),
            None => Err(FsError::NotFound),
        }
    }

    /// The inode that descriptor `fd` is open on, if it is open.
    pub fn inode_of(&self, fd: FileDescriptor) -> (r: Option<InodeId>)
        requires
            self.wf(),
        ensures
            self.handles().contains_key(fd) ==> r == Some(self.handles()[fd].inode),
            !self.handles().contains_key(fd) ==> r is None,
    {
        match self.handle_of(fd) {
            Some(h) => Some(h.inode),
            None => None,
        }
    }

    /// Whether inode `id` is still held, by a name or by an open handle.
    pub fn is_live(&self, id: InodeId) -> (r: bool)
        ensures
            r == self.inodes().contains_key(id),
    {
        id < self.inodes.len() && self.inodes[id].is_some()
    }

    /// Changing the working directory is not supported: the namespace has a
    /// single level. Always fails, changing nothing.
    pub fn chdir(&mut self, _new_path: &str) -> (r: Result<(), FsError>)
        requires
            old(self).wf(),
        ensures
            final(self).wf(),
            final(self).same_as(*old(self)),
            r == Err::<(), FsError>(FsError::InvalidArgument),
    {
        Err(FsError::InvalidArgument)
    }

    /// Whether some open handle is on inode `id`.
    fn is_open_on(&self, id: InodeId) -> (r: bool)
        requires
            self.wf_core(),
        ensures
            r == self.opened(id),
    {
        let mut i: usize = 0;
        while i < self.fd_table.len()
            invariant
                self.wf_core(),
                i <= self.fd_table@.len(),
                forall|f: FileDescriptor| 0 <= f < i && #[trigger] self.handles().contains_key(f)
                    ==> self.handles()[f].inode != id,
            decreases self.fd_table@.len() - i,
        {
            let on = match self.fd_table[i] {
                Some(h) => h.inode == id,
                None => false,
            };
            if on {
                assert(self.handles().contains_key(i as isize) && self.handles()[i as isize].inode == id);
                return true;
            }
            i = i + 1;
        }
        false
    }

    /// Frees inode `id` where no name and no handle points at it any more.
    fn release(&mut self, id: InodeId)
        requires
            old(self).wf_core(),
            forall|x: InodeId| #[trigger] old(self).inodes().contains_key(x) && x != id
                ==> old(self).named(x) || old(self).opened(x),
        ensures
            final(self).wf(),
            final(self).names() == old(self).names(),
            final(self).handles() == old(self).handles(),
            final(self).free_fds() == old(self).free_fds(),
            final(self).inodes() == if old(self).named(id) || old(self).opened(id) {
                old(self).inodes()
            } else {
                old(self).inodes().remove(id)
            },
    {
        let named = self.cwd.refers_to(id);
        let opened = self.is_open_on(id);
        if !named && !opened && id < self.inodes.len() {
            self.inodes.set(id, None);
            assert(self.inodes() =~= old(self).inodes().remove(id));
            assert(self.handles() =~= old(self).handles());
        } else {
            assert(self.inodes() =~= old(self).inodes());
            assert(!named && !opened ==> old(self).inodes().remove(id) =~= old(self).inodes());
        }
        proof {
            assert forall|x: InodeId| #[trigger] self.inodes().contains_key(x) implies self.named(x) || self.opened(x) by {
                if x != id {
                    assert(old(self).inodes().contains_key(x));
                }
            }
        }
    }

    /// Closes descriptor `fd`: its handle is dropped and the descriptor goes
    /// back to the pool, to be handed out by the next `open`. The file's inode
    /// is freed where no name and no other handle points at it. Closing a
    /// descriptor that is not open changes nothing.
    pub fn close(&mut self, fd: FileDescriptor)
        requires
            old(self).wf(),
        ensures
            final(self).wf(),
            !old(self).handles().contains_key(fd) ==> final(self).same_as(*old(self)),
            old(self).handles().contains_key(fd) ==> old(self).closed(*final(self), fd),
    {
        let handle = match self.handle_of(fd) {
            Some(h) => h,
            None => {
                return;
            },
        };
        self.fd_table.set(fd as usize, None);
        self.fds.push(fd);
        proof {
            let pre = *old(self);
            assert(self.handles() =~= pre.handles().remove(fd));
            assert(self.inodes() =~= pre.inodes());
            let n = pre.fds@.len() as int;
            assert forall|i: int| 0 <= i < self.fds@.len() implies in_pool(#[trigger] self.fds@[i])
                && !self.handles().contains_key(self.fds@[i]) by {
                if i < n {
                    assert(self.fds@[i] == pre.fds@[i]);
                }
            }
            assert forall|i: int, j: int| 0 <= i < self.fds@.len() && 0 <= j < self.fds@.len() && i != j
                implies self.fds@[i] != self.fds@[j] by {
                if i < n && j < n {
                    assert(self.fds@[i] == pre.fds@[i] && self.fds@[j] == pre.fds@[j]);
                }
            }
            assert forall|f: FileDescriptor| in_pool(f) && !(#[trigger] self.handles().contains_key(f))
                implies self.fds@.contains(f) by {
                if f == fd {
                    assert(self.fds@[n] == fd);
                } else {
                    assert(pre.fds@.contains(f));
                    let i = choose|i: int| 0 <= i < pre.fds@.len() && pre.fds@[i] == f;
                    assert(self.fds@[i] == f);
                }
            }
            assert forall|x: InodeId| #[trigger] self.inodes().contains_key(x) && x != handle.inode
                implies self.named(x) || self.opened(x) by {
                if !pre.named(x) {
                    let f = choose|f: FileDescriptor| pre.handles().contains_key(f) && #[trigger] pre.handles()[f].inode == x;
                    assert(self.handles()[f].inode == x);
                }
            }
        }
        self.release(handle.inode);
    }

    /// After a change of the namespace alone, the state is consistent but
    /// perhaps for inode `id`, where every new binding points at a live inode
    /// and every old binding to another inode is kept.
    proof fn lemma_names_changed(&self, pre: Vfs, id: InodeId)
        requires
            pre.wf(),
            self.cwd.wf(),
            self.fd_table == pre.fd_table,
            self.fds == pre.fds,
            self.inodes == pre.inodes,
            forall|k: Seq<char>| #[trigger] self.names().contains_key(k) && self.names()[k] is Data
                ==> pre.inodes().contains_key(self.names()[k]->Data_0),
            forall|x: InodeId| x != id && #[trigger] pre.named(x) ==> self.named(x),
        ensures
            self.wf_core(),
            forall|x: InodeId| #[trigger] self.inodes().contains_key(x) && x != id
                ==> self.named(x) || self.opened(x),
            self.handles() == pre.handles(),
            self.inodes() == pre.inodes(),
            self.free_fds() == pre.free_fds(),
    {
        assert(self.handles() =~= pre.handles());
        assert(self.inodes() =~= pre.inodes());
        assert forall|x: InodeId| #[trigger] self.inodes().contains_key(x) && x != id
            implies self.named(x) || self.opened(x) by {
            assert(pre.inodes().contains_key(x));
            if !pre.named(x) {
                let f = choose|f: FileDescriptor| pre.handles().contains_key(f) && #[trigger] pre.handles()[f].inode == x;
                assert(self.handles()[f].inode == x);
            }
        }
    }

    /// Removes the name `path`. Handles open on its file keep working; the
    /// inode is freed where no handle points at it. Removing a name that is
    /// not bound changes nothing.
    pub fn unlink(&mut self, path: &str)
        requires
            old(self).wf(),
        ensures
            final(self).wf(),
            old(self).unlinked(*final(self), path@),
    {
        let name = path.to_owned();
        let removed = self.cwd.remove(&name);
        let ghost k = path@;
        let ghost pre = *old(self);
        let ghost gone: InodeId = match removed {
            Some(File::Data(id)) => id,
            _ => 0,
        };
        proof {
            assert forall|x: InodeId| x != gone && #[trigger] pre.named(x) implies self.named(x) by {
                let j = choose|j: Seq<char>| pre.names().contains_key(j) && #[trigger] pre.names()[j] == FileView::Data(x);
                if j == k {
                    assert(removed matches Some(File::Data(y)) && y == x);
                }
                assert(self.names()[j] == FileView::Data(x));
            }
            self.lemma_names_changed(pre, gone);
        }
        match removed {
            Some(File::Data(id)) => {
                self.release(id);
            },
            _ => {
                proof {
                    assert forall|x: InodeId| #[trigger] self.inodes().contains_key(x) implies self.named(x) || self.opened(x) by {
                        if x == gone && !pre.opened(x) {
                            let j = choose|j: Seq<char>| pre.names().contains_key(j) && #[trigger] pre.names()[j] == FileView::Data(x);
                            assert(self.names()[j] == FileView::Data(x));
                        }
                    }
                }
            },
        }
    }

    /// Moves the entry bound to `old_path` to `new_path`, replacing whatever
    /// `new_path` was bound to; the inode of a replaced data file is freed
    /// where nothing else points at it. The entry is held throughout, so its
    /// own inode is never freed. Fails, changing nothing, where `old_path` is
    /// not bound.
    pub fn rename(&mut self, old_path: &str, new_path: &str) -> (r: Result<(), FsError>)
        requires
            old(self).wf(),
        ensures
            final(self).wf(),
            !old(self).names().contains_key(old_path@) ==> {
                &&& r == Err::<(), FsError>(FsError::NotFound)
                &&& final(self).same_as(*old(self))
            },
            old(self).names().contains_key(old_path@) ==> {
                &&& r == Ok::<(), FsError>(())
                &&& old(self).renamed(*final(self), old_path@, new_path@)
            },
    {
        let from = old_path.to_owned();
        let to = new_path.to_owned();
        let ghost pre = *old(self);
        let ghost o = old_path@;
        let ghost n = new_path@;
        let moved = match self.cwd.remove(&from) {
            Some(f) => f,
            None => {
                proof {
                    assert(self.names() =~= pre.names());
                    assert forall|x: InodeId| x != 0 && #[trigger] pre.named(x) implies self.named(x) by {}
                    self.lemma_names_changed(pre, 0);
                    assert forall|x: InodeId| #[trigger] self.inodes().contains_key(x) implies self.named(x) || self.opened(x) by {
                        if x == 0 {
                            assert(pre.named(x) || pre.opened(x));
                        }
                    }
                }
                return Err(FsError::NotFound);
            },
        };
        let displaced = self.cwd.remove(&to);
        self.cwd.insert(to, moved);
        let ghost gone: InodeId = match displaced {
            Some(File::Data(id)) => id,
            _ => 0,
        };
        proof {
            assert(self.names() =~= pre.names().remove(o).insert(n, pre.names()[o]));
            assert forall|x: InodeId| #[trigger] pre.named(x) && !(displaced matches Some(File::Data(y)) && y == x)
                implies self.named(x) by {
                let j = choose|j: Seq<char>| pre.names().contains_key(j) && #[trigger] pre.names()[j] == FileView::Data(x);
                if j == o {
                    assert(self.names()[n] == FileView::Data(x));
                } else if j == n {
                    assert(displaced matches Some(File::Data(y)) && y == x);
                } else {
                    assert(self.names()[j] == FileView::Data(x));
                }
            }
            assert forall|x: InodeId| x != gone && #[trigger] pre.named(x) implies self.named(x) by {
                assert(!(displaced matches Some(File::Data(y)) && y == x));
            }
            assert forall|k: Seq<char>| #[trigger] self.names().contains_key(k) && self.names()[k] is Data
                implies pre.inodes().contains_key(self.names()[k]->Data_0) by {
                if k == n {
                    assert(pre.names().contains_key(o));
                } else {
                    assert(pre.names().contains_key(k));
                }
            }
            self.lemma_names_changed(pre, gone);
        }
        match displaced {
            Some(File::Data(id)) => {
                self.release(id);
            },
            _ => {
                proof {
                    assert forall|x: InodeId| #[trigger] self.inodes().contains_key(x) implies self.named(x) || self.opened(x) by {
                        if x == gone {
                            assert(pre.named(x) || pre.opened(x));
                        }
                    }
                }
            },
        }
        Ok(())
    }
}

/// Reading back through a descriptor what was just written through it: the
/// file now holds `src` at the cursor the write started from.
pub proof fn lemma_write_read_back(pre: Vfs, post: Vfs, fd: FileDescriptor, src: Seq<u8>)
    requires
        pre.handles().contains_key(fd),
        pre.wrote(post, fd, src),
    ensures
        ({
            let c = pre.handles()[fd].cursor as int;
            &&& c + src.len() <= post.contents(fd).len()
            &&& post.contents(fd).subrange(c, c + src.len()) == src
        }),
{
    lemma_write_then_read(pre.contents(fd), pre.handles()[fd].cursor as int, src);
}

/// Two handles on one inode see the same bytes: after a write through `fd1`,
/// reading through `fd2` observes what was written, and the cursor of `fd2`
/// has not moved.
pub proof fn lemma_shared_write_visible(pre: Vfs, post: Vfs, fd1: FileDescriptor, fd2: FileDescriptor, src: Seq<u8>)
    requires
        pre.wf(),
        pre.handles().contains_key(fd1),
        pre.handles().contains_key(fd2),
        fd1 != fd2,
        pre.handles()[fd1].inode == pre.handles()[fd2].inode,
        pre.wrote(post, fd1, src),
    ensures
        post.handles().contains_key(fd2),
        post.handles()[fd2] == pre.handles()[fd2],
        post.contents(fd2) == post.contents(fd1),
        post.contents(fd2) == write_at(pre.contents(fd1), pre.handles()[fd1].cursor as int, src),
{
}

/// Seeking through one descriptor leaves the cursor of every other
/// descriptor where it was.
pub proof fn lemma_seek_independent(pre: Vfs, post: Vfs, fd1: FileDescriptor, fd2: FileDescriptor, pos: usize)
    requires
        pre.handles().contains_key(fd2),
        fd1 != fd2,
        pre.sought(post, fd1, pos),
    ensures
        post.handles().contains_key(fd2),
        post.handles()[fd2] == pre.handles()[fd2],
        post.contents(fd2) == pre.contents(fd2),
{
}

/// Opening one path twice gives two distinct descriptors, each with its own
/// cursor at the start, on one and the same inode.
pub proof fn lemma_open_twice_shares(v0: Vfs, v1: Vfs, v2: Vfs, path: Seq<char>, fd1: FileDescriptor, fd2: FileDescriptor)
    requires
        v0.opened_as(v1, path, fd1),
        v1.opened_as(v2, path, fd2),
    ensures
        fd1 != fd2,
        v2.handles().contains_key(fd1),
        v2.handles().contains_key(fd2),
        v2.handles()[fd1].inode == v2.handles()[fd2].inode,
        v2.handles()[fd1].cursor == 0,
        v2.handles()[fd2].cursor == 0,
{
    assert(v1.handles().contains_key(fd1));
    assert(v1.names().contains_key(path));
}

/// Removing the name of a file that a descriptor is open on keeps its inode,
/// with its bytes, for that descriptor.
pub proof fn lemma_unlink_keeps_open_file(pre: Vfs, post: Vfs, path: Seq<char>, fd: FileDescriptor)
    requires
        pre.handles().contains_key(fd),
        pre.inodes().contains_key(pre.handles()[fd].inode),
        pre.unlinked(post, path),
    ensures
        post.handles()[fd] == pre.handles()[fd],
        post.inodes().contains_key(pre.handles()[fd].inode),
        post.contents(fd) == pre.contents(fd),
{
    let id = pre.handles()[fd].inode;
    assert(post.handles()[fd].inode == id);
    assert(post.opened(id));
}

/// Closing the last handle on an inode that no name points at frees it;
/// while a name or another handle points at it, closing keeps it.
pub proof fn lemma_last_close_frees(pre: Vfs, post: Vfs, fd: FileDescriptor)
    requires
        pre.handles().contains_key(fd),
        pre.closed(post, fd),
    ensures
        ({
            let id = pre.handles()[fd].inode;
            let others = exists|f: FileDescriptor| f != fd && pre.handles().contains_key(f)
                && #[trigger] pre.handles()[f].inode == id;
            &&& !pre.named(id) && !others ==> !post.inodes().contains_key(id)
            &&& pre.named(id) || others ==> post.inodes() == pre.inodes()
        }),
{
    let id = pre.handles()[fd].inode;
    if post.opened(id) {
        let f = choose|f: FileDescriptor| post.handles().contains_key(f) && #[trigger] post.handles()[f].inode == id;
        assert(f != fd && pre.handles().contains_key(f) && pre.handles()[f].inode == id);
    }
    if exists|f: FileDescriptor| f != fd && pre.handles().contains_key(f) && #[trigger] pre.handles()[f].inode == id {
        let f = choose|f: FileDescriptor| f != fd && pre.handles().contains_key(f) && #[trigger] pre.handles()[f].inode == id;
        assert(post.handles()[f].inode == id);
    }
}

/// A closed descriptor goes back to the pool and is the very one the next
/// successful `open` hands out, with a fresh handle whose cursor is at the
/// start.
pub proof fn lemma_descriptor_reuse(v0: Vfs, v1: Vfs, v2: Vfs, fd: FileDescriptor, path: Seq<char>, fd2: FileDescriptor)
    requires
        v0.handles().contains_key(fd),
        v0.closed(v1, fd),
        v1.opened_as(v2, path, fd2),
    ensures
        !v1.handles().contains_key(fd),
        fd2 == fd,
        v2.handles()[fd].cursor == 0,
{
}

/// After a rename the old name is gone and the new one is bound to the entry
/// the old one had; a data file keeps its inode and bytes.
pub proof fn lemma_rename_moves(pre: Vfs, post: Vfs, from: Seq<char>, to: Seq<char>)
    requires
        pre.wf(),
        pre.names().contains_key(from),
        from != to,
        pre.renamed(post, from, to),
    ensures
        !post.names().contains_key(from),
        post.names().contains_key(to),
        post.names()[to] == pre.names()[from],
        pre.names()[from] matches FileView::Data(id) ==> {
            &&& post.inodes().contains_key(id)
            &&& post.inodes()[id] == pre.inodes()[id]
        },
{
    if let FileView::Data(id) = pre.names()[from] {
        assert(post.named(id)) by {
            assert(post.names()[to] == FileView::Data(id));
        }
        assert(pre.inodes().contains_key(id));
    }
}

/// A write keeps the creation time and stamps access and modification with
/// one reading of the clock. On a file whose three times are still equal, as
/// `open` creates it, access and modification then come strictly after
/// creation, provided the clock read later than at creation.
pub proof fn lemma_write_times(pre: Vfs, post: Vfs, fd: FileDescriptor, src: Seq<u8>)
    requires
        pre.handles().contains_key(fd),
        pre.wrote(post, fd, src),
    ensures
        ({
            let id = pre.handles()[fd].inode;
            let v0 = pre.inodes()[id];
            let v1 = post.inodes()[id];
            &&& v1.created == v0.created
            &&& v1.accessed == v1.modified
            &&& v0.accessed == v0.created && v0.modified == v0.created && v0.created.before(v1.modified)
                ==> v1.created.before(v1.accessed) && v1.created.before(v1.modified)
        }),
{
}

} // verus!
