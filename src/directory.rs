use vstd::prelude::*;

use crate::inode::InodeId;

verus! {

/// An entry of a directory: a data file, held by the identifier of its
/// inode, or a nested directory.
pub enum File {
    Data(InodeId),
    Directory(Directory),
}

/// What an entry is, as the namespace sees it. A nested directory is seen
/// only as such: nothing looks inside it.
pub ghost enum FileView {
    Data(InodeId),
    Directory,
}

impl View for File {
    type V = FileView;

    open spec fn view(&self) -> FileView {
        match self {
            File::Data(id) => FileView::Data(*id),
            File::Directory(_) => FileView::Directory,
        }
    }
}

impl File {
    /// A data file on the inode `id`.
    pub fn new_data_file(id: InodeId) -> (r: File)
        ensures
            r@ == FileView::Data(id),
    {
        File::Data(id)
    }

    /// A nested directory, empty unless one is given.
    pub fn new_dir(dir: Option<Directory>) -> (r: File)
        ensures
            r@ == FileView::Directory,
    {
        match dir {
            Some(d) => File::Directory(d),
            None => File::Directory(Directory::new()),
        }
    }
}

struct DirEntry {
    name: String,
    file: File,
}

/// A flat namespace: a mapping from names to entries, each name bound at
/// most once.
pub struct Directory {
    entries: Vec<DirEntry>,
}

impl View for Directory {
    type V = Map<Seq<char>, FileView>;

    closed spec fn view(&self) -> Map<Seq<char>, FileView> {
        Map::new(
            |k: Seq<char>| self.has_name(k),
            |k: Seq<char>| self.entries@[self.index_of(k)].file@,
        )
    }
}

impl Directory {
    spec fn has_name(&self, k: Seq<char>) -> bool {
        exists|i: int| 0 <= i < self.entries@.len() && #[trigger] self.entries@[i].name@ == k
    }

    spec fn index_of(&self, k: Seq<char>) -> int {
        choose|i: int| 0 <= i < self.entries@.len() && #[trigger] self.entries@[i].name@ == k
    }

    /// No name is bound twice.
    pub closed spec fn wf(&self) -> bool {
        forall|i: int, j: int|
            0 <= i < self.entries@.len() && 0 <= j < self.entries@.len() && i != j
                ==> self.entries@[i].name@ != self.entries@[j].name@
    }

    proof fn lemma_index_of(&self, i: int)
        requires
            self.wf(),
            0 <= i < self.entries@.len(),
        ensures
            self.has_name(self.entries@[i].name@),
            self.index_of(self.entries@[i].name@) == i,
            self@.contains_key(self.entries@[i].name@),
            self@[self.entries@[i].name@] == self.entries@[i].file@,
    {
        let k = self.entries@[i].name@;
        assert(self.has_name(k));
        let j = self.index_of(k);
        assert(self.entries@[j].name@ == k);
    }

    /// An empty namespace.
    pub fn new() -> (r: Directory)
        ensures
            r.wf(),
            r@ == Map::<Seq<char>, FileView>::empty(),
    {
        let r = Directory { entries: Vec::new() };
        assert(r@ =~= Map::<Seq<char>, FileView>::empty());
        r
    }

    fn find(&self, name: &String) -> (r: Option<usize>)
        requires
            self.wf(),
        ensures
            r is None ==> !self@.contains_key(name@),
            r matches Some(i) ==> {
                &&& i < self.entries@.len()
                &&& self.entries@[i as int].name@ == name@
                &&& self.index_of(name@) == i
            },
    {
        let mut i: usize = 0;
        while i < self.entries.len()
            invariant
                self.wf(),
                i <= self.entries@.len(),
                forall|j: int| 0 <= j < i ==> self.entries@[j].name@ != name@,
            decreases self.entries@.len() - i,
        {
            if self.entries[i].name == *name {
                proof {
                    self.lemma_index_of(i as int);
                }
                return Some(i);
            }
            i = i + 1;
        }
        None
    }

    /// The entry bound to `name`, if any.
    pub fn get(&self, name: &String) -> (r: Option<&File>)
        requires
            self.wf(),
        ensures
            r is Some <==> self@.contains_key(name@),
            r matches Some(f) ==> f@ == self@[name@],
    {
        match self.find(name) {
            Some(i) => {
                proof {
                    self.lemma_index_of(i as int);
                }
                Some(&self.entries[i].file)
            },
            None => None,
        }
    }

    /// Binds `name` to `file`, replacing any earlier binding of `name`.
    pub fn insert(&mut self, name: String, file: File)
        requires
            old(self).wf(),
        ensures
            final(self).wf(),
            final(self)@ == old(self)@.insert(name@, file@),
    {
        let ghost k = name@;
        let ghost v = file@;
        match self.find(&name) {
            Some(i) => {
                self.entries.set(i, DirEntry { name, file });
                assert forall|j: int| 0 <= j < self.entries@.len() implies
                    #[trigger] self.entries@[j].name@ == old(self).entries@[j].name@ by {}
                assert forall|x: Seq<char>| #[trigger] self@.contains_key(x) <==> old(self)@.insert(k, v).contains_key(x) by {
                    if old(self).has_name(x) {
                        let j = old(self).index_of(x);
                        assert(self.entries@[j].name@ == x);
                    }
                    if self.has_name(x) {
                        let j = self.index_of(x);
                        assert(old(self).entries@[j].name@ == x);
                    }
                }
                assert forall|x: Seq<char>| #[trigger] self@.contains_key(x) implies self@[x] == old(self)@.insert(k, v)[x] by {
                    let j = self.index_of(x);
                    self.lemma_index_of(j);
                    old(self).lemma_index_of(j);
                }
                assert(self@ =~= old(self)@.insert(k, v));
            },
            None => {
                self.entries.push(DirEntry { name, file });
                let ghost n = self.entries@.len() - 1;
                assert forall|x: Seq<char>| #[trigger] self@.contains_key(x) <==> old(self)@.insert(k, v).contains_key(x) by {
                    if old(self).has_name(x) {
                        let j = old(self).index_of(x);
                        assert(self.entries@[j].name@ == x);
                    }
                    if self.has_name(x) && x != k {
                        let j = self.index_of(x);
                        assert(old(self).entries@[j].name@ == x);
                    }
                    if x == k {
                        assert(self.entries@[n].name@ == x);
                    }
                }
                assert forall|x: Seq<char>| #[trigger] self@.contains_key(x) implies self@[x] == old(self)@.insert(k, v)[x] by {
                    let j = self.index_of(x);
                    self.lemma_index_of(j);
                    if j < n {
                        old(self).lemma_index_of(j);
                    }
                }
                assert(self@ =~= old(self)@.insert(k, v));
            },
        }
    }

    /// Unbinds `name`, handing back the entry it was bound to.
    pub fn remove(&mut self, name: &String) -> (r: Option<File>)
        requires
            old(self).wf(),
        ensures
            final(self).wf(),
            final(self)@ == old(self)@.remove(name@),
            r is Some <==> old(self)@.contains_key(name@),
            r matches Some(f) ==> f@ == old(self)@[name@],
    {
        let ghost k = name@;
        match self.find(name) {
            Some(i) => {
                proof {
                    self.lemma_index_of(i as int);
                }
                let e = self.entries.remove(i);
                let ghost o = old(self).entries@;
                assert forall|j: int| 0 <= j < self.entries@.len() implies #[trigger] self.entries@[j]
                    == if j < i { o[j] } else { o[j + 1] } by {}
                assert forall|x: Seq<char>| #[trigger] self@.contains_key(x) <==> old(self)@.remove(k).contains_key(x) by {
                    if self.has_name(x) {
                        let j = self.index_of(x);
                        if j < i {
                            assert(o[j].name@ == x);
                        } else {
                            assert(o[j + 1].name@ == x);
                        }
                    }
                    if old(self).has_name(x) && x != k {
                        let j = old(self).index_of(x);
                        if j < i {
                            assert(self.entries@[j].name@ == x);
                        } else {
                            assert(j != i);
                            assert(self.entries@[j - 1].name@ == x);
                        }
                    }
                }
                assert forall|x: Seq<char>| #[trigger] self@.contains_key(x) implies self@[x] == old(self)@.remove(k)[x] by {
                    let j = self.index_of(x);
                    self.lemma_index_of(j);
                    if j < i {
                        old(self).lemma_index_of(j);
                    } else {
                        old(self).lemma_index_of(j + 1);
                    }
                }
                assert(self@ =~= old(self)@.remove(k));
                Some(e.file)
            },
            None => {
                assert(self@ =~= old(self)@.remove(k));
                None
            },
        }
    }

    /// Whether some name is bound to the data file on inode `id`.
    pub fn refers_to(&self, id: InodeId) -> (r: bool)
        requires
            self.wf(),
        ensures
            r == exists|k: Seq<char>| self@.contains_key(k) && #[trigger] self@[k] == FileView::Data(id),
    {
        let mut i: usize = 0;
        while i < self.entries.len()
            invariant
                self.wf(),
                i <= self.entries@.len(),
                forall|j: int| 0 <= j < i ==> self.entries@[j].file@ != FileView::Data(id),
            decreases self.entries@.len() - i,
        {
            let found = match &self.entries[i].file {
                File::Data(x) => *x == id,
                File::Directory(_) => false,
            };
            if found {
                proof {
                    self.lemma_index_of(i as int);
                }
                return true;
            }
            i = i + 1;
        }
        assert forall|k: Seq<char>| self@.contains_key(k) implies #[trigger] self@[k] != FileView::Data(id) by {
            let j = self.index_of(k);
            self.lemma_index_of(j);
        }
        false
    }
}

} // verus!
