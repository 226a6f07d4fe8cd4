//! One snapshot of a directory: its files, its children and its parent link.

use vstd::prelude::*;

use crate::directory_key::DirectoryKey;
use crate::errors::NfsError;
use crate::file_record::FileRecord;

verus! {

/// A non-owning reference from a directory to one child, pinning the child
/// version the parent was last reconciled with.
#[derive(Clone, Copy, Debug, PartialEq, Eq, Structural)]
pub struct SubdirRef {
    pub key: DirectoryKey,
    pub version: u64,
}

/// A directory snapshot.  Every mutation produces a new snapshot; there is
/// no in-place update at the store level.  `version` is the basis the
/// snapshot was derived from: the number of versions its chain held when it
/// was read (zero for a draft never persisted).
#[derive(Clone, Debug)]
pub struct DirectoryListing {
    pub key: DirectoryKey,
    pub files: Vec<FileRecord>,
    pub subdirectories: Vec<SubdirRef>,
    pub parent: Option<DirectoryKey>,
    pub version: u64,
}

impl DirectoryListing {
    /// File names are unique among siblings.
    pub open spec fn names_unique(self) -> bool {
        forall|i: int, j: int|
            0 <= i < j < self.files@.len() ==> self.files@[i].name@ != self.files@[j].name@
    }

    /// File identities are unique among siblings.
    pub open spec fn ids_unique(self) -> bool {
        forall|i: int, j: int|
            0 <= i < j < self.files@.len() ==> self.files@[i].id != self.files@[j].id
    }

    /// Child references name each child key at most once.
    pub open spec fn subdirs_unique(self) -> bool {
        forall|i: int, j: int|
            0 <= i < j < self.subdirectories@.len() ==> self.subdirectories@[i].key
                != self.subdirectories@[j].key
    }

    /// The listing's internal invariant.
    pub open spec fn wf(self) -> bool {
        self.names_unique() && self.ids_unique() && self.subdirs_unique()
    }

    pub open spec fn has_name(self, name: Seq<char>) -> bool {
        exists|i: int| 0 <= i < self.files@.len() && self.files@[i].name@ == name
    }

    pub open spec fn idx_of_name(self, name: Seq<char>) -> int {
        choose|i: int| 0 <= i < self.files@.len() && self.files@[i].name@ == name
    }

    /// The sibling carrying `name`; meaningful only when `has_name` holds.
    pub open spec fn file_at_name(self, name: Seq<char>) -> FileRecord {
        self.files@[self.idx_of_name(name)]
    }

    pub open spec fn has_id(self, id: u64) -> bool {
        exists|i: int| 0 <= i < self.files@.len() && self.files@[i].id == id
    }

    pub open spec fn idx_of_id(self, id: u64) -> int {
        choose|i: int| 0 <= i < self.files@.len() && self.files@[i].id == id
    }

    /// The sibling carrying `id`; meaningful only when `has_id` holds.
    pub open spec fn file_at_id(self, id: u64) -> FileRecord {
        self.files@[self.idx_of_id(id)]
    }

    pub open spec fn has_subdir(self, key: DirectoryKey) -> bool {
        exists|i: int| 0 <= i < self.subdirectories@.len() && self.subdirectories@[i].key == key
    }

    pub open spec fn idx_of_subdir(self, key: DirectoryKey) -> int {
        choose|i: int| 0 <= i < self.subdirectories@.len() && self.subdirectories@[i].key == key
    }

    /// The version of child `key` this snapshot references; meaningful only
    /// when `has_subdir` holds.
    pub open spec fn subdir_version(self, key: DirectoryKey) -> u64 {
        self.subdirectories@[self.idx_of_subdir(key)].version
    }

    /// This snapshot is `p` rebased onto the next basis, with the reference
    /// to child `ck` moved to version `newv` and everything else kept.
    pub open spec fn is_bump_of(self, p: DirectoryListing, ck: DirectoryKey, newv: u64) -> bool {
        &&& self.key == p.key
        &&& self.parent == p.parent
        &&& self.files@.len() == p.files@.len()
        &&& (forall|i: int| 0 <= i < p.files@.len() ==> self.files@[i].equiv(p.files@[i]))
        &&& p.has_subdir(ck)
        &&& self.subdirectories@ == p.subdirectories@.update(
            p.idx_of_subdir(ck),
            (SubdirRef { key: ck, version: newv }),
        )
        &&& self.version == p.version + 1
    }

    /// Same snapshot contents: everything but the version basis agrees.
    pub open spec fn same_content(self, o: DirectoryListing) -> bool {
        &&& self.key == o.key
        &&& self.parent == o.parent
        &&& self.subdirectories@ == o.subdirectories@
        &&& self.files@.len() == o.files@.len()
        &&& forall|i: int| 0 <= i < self.files@.len() ==> self.files@[i].equiv(o.files@[i])
    }

    /// Field-for-field agreement, compared by contents.
    pub open spec fn equiv(self, o: DirectoryListing) -> bool {
        self.same_content(o) && self.version == o.version
    }

    /// The same snapshot value with another version basis.
    pub open spec fn with_version(self, v: u64) -> DirectoryListing {
        DirectoryListing { version: v, ..self }
    }

    /// A fresh draft snapshot with no files and no children.
    pub fn new(key: DirectoryKey, parent: Option<DirectoryKey>) -> (r: DirectoryListing)
        ensures
            r.key == key,
            r.parent == parent,
            r.version == 0,
            r.files@.len() == 0,
            r.subdirectories@.len() == 0,
            r.wf(),
    {
        DirectoryListing { key, files: Vec::new(), subdirectories: Vec::new(), parent, version: 0 }
    }

    /// Returns the key identifying this directory.
    pub fn get_key(&self) -> (r: DirectoryKey)
        ensures
            r == self.key,
    {
        self.key
    }

    /// The files of this snapshot, for iteration.
    pub fn get_files(&self) -> (r: &Vec<FileRecord>)
        ensures
            r@ == self.files@,
    {
        &self.files
    }

    /// Finds the sibling carrying `name`, if any.
    pub fn find_file(&self, name: &String) -> (r: Option<&FileRecord>)
        requires
            self.wf(),
        ensures
            match r {
                Some(f) => self.has_name(name@) && *f == self.file_at_name(name@),
                None => !self.has_name(name@),
            },
    {
        let mut i: usize = 0;
        while i < self.files.len()
            invariant
                self.wf(),
                i <= self.files@.len(),
                forall|j: int| 0 <= j < i ==> self.files@[j].name@ != name@,
            decreases self.files@.len() - i,
        {
            if self.files[i].name == *name {
                return Some(&self.files[i]);
            }
            i = i + 1;
        }
        None
    }

    /// Finds the sibling carrying `id`, if any.
    pub fn find_file_by_id(&self, id: u64) -> (r: Option<&FileRecord>)
        requires
            self.wf(),
        ensures
            match r {
                Some(f) => self.has_id(id) && *f == self.file_at_id(id),
                None => !self.has_id(id),
            },
    {
        let mut i: usize = 0;
        while i < self.files.len()
            invariant
                self.wf(),
                i <= self.files@.len(),
                forall|j: int| 0 <= j < i ==> self.files@[j].id != id,
            decreases self.files@.len() - i,
        {
            if self.files[i].id == id {
                return Some(&self.files[i]);
            }
            i = i + 1;
        }
        None
    }

    /// Inserting `rec` cannot collide: every sibling with another identity
    /// carries another name.
    pub open spec fn upsert_safe(self, rec: FileRecord) -> bool {
        forall|j: int| #![trigger self.files@[j]]
            0 <= j < self.files@.len() && self.files@[j].id != rec.id ==> self.files@[j].name@
                != rec.name@
    }

    /// Inserts `rec`, replacing the sibling with the same id if one exists.
    /// The caller rules out name collisions with other siblings beforehand.
    pub fn upsert_file(&mut self, rec: FileRecord)
        requires
            old(self).wf(),
            old(self).upsert_safe(rec),
        ensures
            final(self).wf(),
            final(self).key == old(self).key,
            final(self).parent == old(self).parent,
            final(self).version == old(self).version,
            final(self).subdirectories@ == old(self).subdirectories@,
            old(self).has_id(rec.id) ==> final(self).files@ == old(self).files@.update(
                old(self).idx_of_id(rec.id),
                rec,
            ),
            !old(self).has_id(rec.id) ==> final(self).files@ == old(self).files@.push(rec),
    {
        let mut i: usize = 0;
        while i < self.files.len()
            invariant
                *self == *old(self),
                self.wf(),
                old(self).upsert_safe(rec),
                i <= self.files@.len(),
                forall|j: int| 0 <= j < i ==> self.files@[j].id != rec.id,
            decreases self.files@.len() - i,
        {
            if self.files[i].id == rec.id {
                proof {
                    assert(self.has_id(rec.id));
                    assert(self.idx_of_id(rec.id) == i as int);
                }
                self.files.set(i, rec);
                proof {
                    let fs = self.files@;
                    let o = old(self).files@;
                    let ii = i as int;
                    assert forall|a: int, b: int|
                        0 <= a < b < fs.len() implies fs[a].name@ != fs[b].name@ && fs[a].id
                        != fs[b].id by {
                        if a == ii {
                            assert(fs[ii] == rec);
                            assert(fs[b] == o[b]);
                            assert(o[ii].id == rec.id);
                            assert(o[ii].id != o[b].id);
                            assert(o[b].id != rec.id);
                            assert(old(self).files@[b] == o[b]);
                            assert(o[b].name@ != rec.name@);
                        } else if b == ii {
                            assert(fs[ii] == rec);
                            assert(fs[a] == o[a]);
                            assert(o[ii].id == rec.id);
                            assert(o[a].id != o[ii].id);
                            assert(o[a].id != rec.id);
                            assert(old(self).files@[a] == o[a]);
                            assert(o[a].name@ != rec.name@);
                        } else {
                            assert(fs[a] == o[a] && fs[b] == o[b]);
                        }
                    }
                }
                return ;
            }
            i = i + 1;
        }
        self.files.push(rec);
    }

    /// Removes the sibling carrying `name`; fails `NotFound` when absent.
    pub fn remove_file(&mut self, name: &String) -> (r: Result<(), NfsError>)
        requires
            old(self).wf(),
        ensures
            final(self).wf(),
            final(self).key == old(self).key,
            final(self).parent == old(self).parent,
            final(self).version == old(self).version,
            final(self).subdirectories@ == old(self).subdirectories@,
            match r {
                Ok(()) => old(self).has_name(name@) && final(self).files@ == old(
                    self,
                ).files@.remove(old(self).idx_of_name(name@)),
                Err(e) => e == NfsError::NotFound && !old(self).has_name(name@) && *final(self)
                    == *old(self),
            },
    {
        let mut i: usize = 0;
        while i < self.files.len()
            invariant
                *self == *old(self),
                self.wf(),
                i <= self.files@.len(),
                forall|j: int| 0 <= j < i ==> self.files@[j].name@ != name@,
            decreases self.files@.len() - i,
        {
            if self.files[i].name == *name {
                proof {
                    assert(self.has_name(name@));
                    assert(self.idx_of_name(name@) == i as int);
                }
                let _ = self.files.remove(i);
                return Ok(());
            }
            i = i + 1;
        }
        Err(NfsError::NotFound)
    }

    /// Sets the version this snapshot references for child `key`.
    pub fn set_subdir_version(&mut self, key: DirectoryKey, version: u64)
        requires
            old(self).wf(),
            old(self).has_subdir(key),
        ensures
            final(self).wf(),
            final(self).key == old(self).key,
            final(self).parent == old(self).parent,
            final(self).version == old(self).version,
            final(self).files@ == old(self).files@,
            final(self).subdirectories@ == old(self).subdirectories@.update(
                old(self).idx_of_subdir(key),
                (SubdirRef { key, version }),
            ),
            final(self).has_subdir(key),
            final(self).subdir_version(key) == version,
    {
        let mut i: usize = 0;
        while i < self.subdirectories.len()
            invariant
                *self == *old(self),
                self.wf(),
                self.has_subdir(key),
                i <= self.subdirectories@.len(),
                forall|j: int| 0 <= j < i ==> self.subdirectories@[j].key != key,
            decreases self.subdirectories@.len() - i,
        {
            if self.subdirectories[i].key == key {
                proof {
                    assert(self.idx_of_subdir(key) == i as int);
                }
                self.subdirectories.set(i, SubdirRef { key, version });
                proof {
                    assert(self.subdirectories@[i as int].key == key);
                    assert(self.idx_of_subdir(key) == i as int);
                }
                return ;
            }
            i = i + 1;
        }
        proof {
            assert(false);
        }
    }

    /// Adds a reference to child `key` at `version`, or updates the version
    /// of the existing reference.
    pub fn upsert_subdir(&mut self, key: DirectoryKey, version: u64)
        requires
            old(self).wf(),
        ensures
            final(self).wf(),
            final(self).key == old(self).key,
            final(self).parent == old(self).parent,
            final(self).version == old(self).version,
            final(self).files@ == old(self).files@,
            final(self).has_subdir(key),
            final(self).subdir_version(key) == version,
            old(self).has_subdir(key) ==> final(self).subdirectories@ == old(
                self,
            ).subdirectories@.update(old(self).idx_of_subdir(key), (SubdirRef { key, version })),
            !old(self).has_subdir(key) ==> final(self).subdirectories@ == old(
                self,
            ).subdirectories@.push((SubdirRef { key, version })),
    {
        let mut i: usize = 0;
        while i < self.subdirectories.len()
            invariant
                *self == *old(self),
                self.wf(),
                i <= self.subdirectories@.len(),
                forall|j: int| 0 <= j < i ==> self.subdirectories@[j].key != key,
            decreases self.subdirectories@.len() - i,
        {
            if self.subdirectories[i].key == key {
                proof {
                    assert(self.has_subdir(key));
                    assert(self.idx_of_subdir(key) == i as int);
                }
                self.subdirectories.set(i, SubdirRef { key, version });
                proof {
                    assert(self.subdirectories@[i as int].key == key);
                    assert(self.idx_of_subdir(key) == i as int);
                }
                return ;
            }
            i = i + 1;
        }
        self.subdirectories.push(SubdirRef { key, version });
        proof {
            let n = old(self).subdirectories@.len() as int;
            assert(self.subdirectories@[n].key == key);
            assert(self.idx_of_subdir(key) == n);
        }
    }

    /// The version this snapshot references for child `key`, if the child is
    /// referenced at all.
    pub fn get_subdir_version(&self, key: DirectoryKey) -> (r: Option<u64>)
        requires
            self.wf(),
        ensures
            match r {
                Some(v) => self.has_subdir(key) && v == self.subdir_version(key),
                None => !self.has_subdir(key),
            },
    {
        let mut i: usize = 0;
        while i < self.subdirectories.len()
            invariant
                self.wf(),
                i <= self.subdirectories@.len(),
                forall|j: int| 0 <= j < i ==> self.subdirectories@[j].key != key,
            decreases self.subdirectories@.len() - i,
        {
            if self.subdirectories[i].key == key {
                proof {
                    assert(self.has_subdir(key));
                    assert(self.idx_of_subdir(key) == i as int);
                }
                return Some(self.subdirectories[i].version);
            }
            i = i + 1;
        }
        None
    }

    /// Marks this snapshot as based on the next version, after a successful
    /// persist of its contents.
    pub fn advance_version(&mut self)
        requires
            old(self).version < u64::MAX,
        ensures
            *final(self) == old(self).with_version((old(self).version + 1) as u64),
            final(self).key == old(self).key,
            final(self).parent == old(self).parent,
            final(self).files@ == old(self).files@,
            final(self).subdirectories@ == old(self).subdirectories@,
            final(self).version == old(self).version + 1,
            final(self).wf() == old(self).wf(),
    {
        self.version = self.version + 1;
    }

    /// A copy of the snapshot with the same contents.
    pub fn duplicate(&self) -> (r: DirectoryListing)
        ensures
            r.equiv(*self),
            self.wf() ==> r.wf(),
    {
        let mut files: Vec<FileRecord> = Vec::new();
        let mut i: usize = 0;
        while i < self.files.len()
            invariant
                i <= self.files@.len(),
                files@.len() == i,
                forall|j: int| 0 <= j < i ==> files@[j].equiv(self.files@[j]),
            decreases self.files@.len() - i,
        {
            files.push(self.files[i].duplicate());
            i = i + 1;
        }
        let mut subs: Vec<SubdirRef> = Vec::new();
        let mut k: usize = 0;
        while k < self.subdirectories.len()
            invariant
                k <= self.subdirectories@.len(),
                subs@ == self.subdirectories@.subrange(0, k as int),
            decreases self.subdirectories@.len() - k,
        {
            subs.push(self.subdirectories[k]);
            proof {
                assert(self.subdirectories@.subrange(0, k as int + 1)
                    =~= self.subdirectories@.subrange(0, k as int).push(
                    self.subdirectories@[k as int],
                ));
            }
            k = k + 1;
        }
        proof {
            assert(self.subdirectories@.subrange(0, self.subdirectories@.len() as int)
                =~= self.subdirectories@);
        }
        let r = DirectoryListing {
            key: self.key,
            files,
            subdirectories: subs,
            parent: self.parent,
            version: self.version,
        };
        proof {
            if self.wf() {
                assert forall|ii: int, jj: int|
                    0 <= ii < jj < r.files@.len() implies r.files@[ii].name@
                    != r.files@[jj].name@ by {
                    assert(r.files@[ii].equiv(self.files@[ii]));
                    assert(r.files@[jj].equiv(self.files@[jj]));
                }
                assert forall|ii: int, jj: int|
                    0 <= ii < jj < r.files@.len() implies r.files@[ii].id != r.files@[jj].id by {
                    assert(r.files@[ii].equiv(self.files@[ii]));
                    assert(r.files@[jj].equiv(self.files@[jj]));
                }
            }
        }
        r
    }
}

/// Snapshots with the same contents agree on every name lookup.
pub proof fn lemma_equiv_file_lookup(a: DirectoryListing, b: DirectoryListing, name: Seq<char>)
    requires
        a.same_content(b),
        b.wf(),
    ensures
        a.has_name(name) == b.has_name(name),
        a.has_name(name) ==> a.file_at_name(name).equiv(b.file_at_name(name)),
{
    assert forall|i: int| 0 <= i < a.files@.len() implies a.files@[i].name@
        == b.files@[i].name@ by {
        assert(a.files@[i].equiv(b.files@[i]));
    }
    if a.has_name(name) {
        let ia = a.idx_of_name(name);
        assert(a.files@[ia].name@ == name);
        assert(b.files@[ia].name@ == name);
        assert(b.has_name(name));
        let ib = b.idx_of_name(name);
        assert(b.files@[ib].name@ == name);
        if ia != ib {
            assert(false);
        }
        assert(a.file_at_name(name).equiv(b.file_at_name(name)));
    }
    if b.has_name(name) {
        let ib = b.idx_of_name(name);
        assert(a.files@[ib].name@ == name);
        assert(a.has_name(name));
    }
}

} // verus!
