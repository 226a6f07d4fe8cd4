//! FileHelper provides the operations performed on files: create, delete,
//! update, version history and reading, composed from the content store,
//! the directory store and the writer/reader pair.

use vstd::prelude::*;

use crate::content_store::ContentStore;
use crate::directory_listing::{lemma_equiv_file_lookup, DirectoryListing};
use crate::directory_store::{lemma_chain_props, DirectoryStore};
use crate::errors::NfsError;
use crate::file_record::FileRecord;
use crate::reader::Reader;
use crate::writer::{Mode, Writer};

verus! {

/// The distinct versions of the file called `name` across `snaps`, oldest
/// first: a version is reported only when its modification stamp differs
/// from the previously reported one, so consecutive snapshots in which the
/// file did not change coalesce into one entry.
pub open spec fn coalesced(snaps: Seq<DirectoryListing>, name: Seq<char>) -> Seq<FileRecord>
    decreases snaps.len(),
{
    if snaps.len() == 0 {
        Seq::empty()
    } else {
        let p = coalesced(snaps.drop_last(), name);
        if snaps.last().has_name(name) {
            let f = snaps.last().file_at_name(name);
            if p.len() == 0 || p.last().modified_at != f.modified_at {
                p.push(f)
            } else {
                p
            }
        } else {
            p
        }
    }
}

/// One step of reading the snapshots left to right.
pub proof fn lemma_coalesced_take_succ(snaps: Seq<DirectoryListing>, v: int, name: Seq<char>)
    requires
        0 <= v < snaps.len(),
    ensures
        coalesced(snaps.take(v + 1), name) == {
            let p = coalesced(snaps.take(v), name);
            if snaps[v].has_name(name) {
                let f = snaps[v].file_at_name(name);
                if p.len() == 0 || p.last().modified_at != f.modified_at {
                    p.push(f)
                } else {
                    p
                }
            } else {
                p
            }
        },
{
    assert(snaps.take(v + 1).drop_last() =~= snaps.take(v));
    assert(snaps.take(v + 1).last() == snaps[v]);
}

/// File provides helper functions to perform operations on files.  It owns
/// the two backend capabilities, injected at construction.
pub struct FileHelper {
    pub content: ContentStore,
    pub dirs: DirectoryStore,
}

impl FileHelper {
    /// The helper's backends are in a usable state.
    pub open spec fn wf(self) -> bool {
        self.dirs.wf()
    }

    /// Create a new FileHelper instance over the given backends.
    pub fn new(content: ContentStore, dirs: DirectoryStore) -> (r: FileHelper)
        ensures
            r.content == content,
            r.dirs == dirs,
    {
        FileHelper { content, dirs }
    }

    /// Helper function to create a file in a directory listing.  A writer is
    /// returned through which the data for the file can be written; the file
    /// is actually saved in the directory listing only after `close` is
    /// invoked on the writer.  Fails `AlreadyExists` when a sibling already
    /// carries `name`.
    pub fn create(
        &mut self,
        name: String,
        user_metadata: Vec<u8>,
        parent_directory: DirectoryListing,
    ) -> (r: Result<Writer, NfsError>)
        requires
            parent_directory.wf(),
            old(self).dirs.tick < u64::MAX,
        ensures
            final(self).content == old(self).content,
            final(self).dirs.log@ == old(self).dirs.log@,
            final(self).wf() == old(self).wf(),
            final(self).dirs.tick <= old(self).dirs.tick + 1,
            (r is Err) <==> parent_directory.has_name(name@),
            match r {
                Ok(w) => {
                    &&& w.wf()
                    &&& w.directory == parent_directory
                    &&& w.buffer@ == Seq::<u8>::empty()
                    &&& w.record.id == old(self).dirs.tick
                    &&& w.record.name@ == name@
                    &&& w.record.user_metadata@ == user_metadata@
                    &&& w.record.size == 0
                    &&& w.record.created_at == old(self).dirs.tick
                    &&& w.record.modified_at == old(self).dirs.tick
                    &&& w.record.content is Empty
                },
                Err(e) => e == NfsError::AlreadyExists && final(self).dirs.tick == old(
                    self,
                ).dirs.tick,
            },
    {
        match parent_directory.find_file(&name) {
            Some(_) => Err(NfsError::AlreadyExists),
            None => {
                let tick = self.dirs.next_tick();
                let record = FileRecord::new(tick, name, user_metadata, tick);
                Ok(Writer::new(parent_directory, record, &self.content, Mode::Overwrite))
            },
        }
    }

    /// Delete a file from the directory listing and persist the new
    /// snapshot.  Returns the re-persisted ancestors.  Fails `NotFound` when
    /// no sibling carries `file_name`, and `Conflict` when the listing's
    /// basis has moved; on `NotFound` nothing changes.
    pub fn delete(&mut self, file_name: String, parent_directory: &mut DirectoryListing) -> (r:
        Result<Vec<DirectoryListing>, NfsError>)
        requires
            old(parent_directory).wf(),
            old(parent_directory).version < u64::MAX,
            old(self).wf(),
        ensures
            final(self).wf(),
            final(self).content == old(self).content,
            final(self).dirs.tick == old(self).dirs.tick,
            final(parent_directory).wf(),
            (r is Ok) <==> old(parent_directory).has_name(file_name@) && old(
                parent_directory,
            ).version == old(self).dirs.chain(old(parent_directory).key).len(),
            match r {
                Ok(ups) => {
                    &&& final(parent_directory).key == old(parent_directory).key
                    &&& final(parent_directory).parent == old(parent_directory).parent
                    &&& final(parent_directory).subdirectories@ == old(
                        parent_directory,
                    ).subdirectories@
                    &&& final(parent_directory).files@ == old(parent_directory).files@.remove(
                        old(parent_directory).idx_of_name(file_name@),
                    )
                    &&& final(parent_directory).version == old(parent_directory).version + 1
                    &&& DirectoryStore::persist_post(
                        old(self).dirs,
                        final(self).dirs,
                        final(parent_directory).with_version(
                            (final(parent_directory).version - 1) as u64,
                        ),
                        ups@,
                    )
                },
                Err(e) => {
                    &&& final(self).dirs.log@ == old(self).dirs.log@
                    &&& (e == NfsError::NotFound && !old(parent_directory).has_name(file_name@)
                        && *final(parent_directory) == *old(parent_directory))
                        || (e == NfsError::Conflict && old(parent_directory).has_name(file_name@)
                        && final(parent_directory).version == old(parent_directory).version)
                },
            },
    {
        match parent_directory.remove_file(&file_name) {
            Err(e) => Err(e),
            Ok(()) => {
                match self.dirs.persist(parent_directory) {
                    Ok(ups) => {
                        parent_directory.advance_version();
                        Ok(ups)
                    },
                    Err(e) => Err(e),
                }
            },
        }
    }

    /// Updates the file record stored under `record`'s identity: same id,
    /// new fields, then persists the new snapshot.  Returns the re-persisted
    /// ancestors.  Fails `NotFound` when the identity is absent and
    /// `AlreadyExists` when the record was renamed to a name another sibling
    /// carries; in both cases the listing and the store are unchanged.
    pub fn update_metadata(
        &mut self,
        record: FileRecord,
        parent_directory: &mut DirectoryListing,
    ) -> (r: Result<Vec<DirectoryListing>, NfsError>)
        requires
            old(parent_directory).wf(),
            old(parent_directory).version < u64::MAX,
            old(self).wf(),
        ensures
            final(self).wf(),
            final(self).content == old(self).content,
            final(self).dirs.tick == old(self).dirs.tick,
            final(parent_directory).wf(),
            match r {
                Ok(ups) => {
                    &&& old(parent_directory).has_id(record.id)
                    &&& (old(parent_directory).file_at_id(record.id).name@ == record.name@ || !old(
                        parent_directory,
                    ).has_name(record.name@))
                    &&& old(parent_directory).version == old(self).dirs.chain(
                        old(parent_directory).key,
                    ).len()
                    &&& final(parent_directory).key == old(parent_directory).key
                    &&& final(parent_directory).parent == old(parent_directory).parent
                    &&& final(parent_directory).subdirectories@ == old(
                        parent_directory,
                    ).subdirectories@
                    &&& final(parent_directory).files@ == old(parent_directory).files@.update(
                        old(parent_directory).idx_of_id(record.id),
                        record,
                    )
                    &&& final(parent_directory).version == old(parent_directory).version + 1
                    &&& DirectoryStore::persist_post(
                        old(self).dirs,
                        final(self).dirs,
                        final(parent_directory).with_version(
                            (final(parent_directory).version - 1) as u64,
                        ),
                        ups@,
                    )
                },
                Err(e) => {
                    &&& final(self).dirs.log@ == old(self).dirs.log@
                    &&& (e == NfsError::NotFound && !old(parent_directory).has_id(record.id)
                        && *final(parent_directory) == *old(parent_directory))
                        || (e == NfsError::AlreadyExists && old(parent_directory).has_id(record.id)
                        && old(parent_directory).file_at_id(record.id).name@ != record.name@
                        && old(parent_directory).has_name(record.name@)
                        && *final(parent_directory) == *old(parent_directory))
                        || (e == NfsError::Conflict && old(parent_directory).version != old(
                        self,
                    ).dirs.chain(old(parent_directory).key).len()
                        && final(parent_directory).version == old(parent_directory).version)
                },
            },
    {
        let name_differs: bool;
        match parent_directory.find_file_by_id(record.id) {
            None => {
                return Err(NfsError::NotFound);
            },
            Some(existing) => {
                name_differs = !(existing.name == record.name);
            },
        }
        if name_differs {
            match parent_directory.find_file(&record.name) {
                Some(_) => {
                    return Err(NfsError::AlreadyExists);
                },
                None => {},
            }
        }
        proof {
            assert forall|j: int|
                0 <= j < parent_directory.files@.len() && parent_directory.files@[j].id
                    != record.id implies parent_directory.files@[j].name@ != record.name@ by {
                let ii = parent_directory.idx_of_id(record.id);
                if parent_directory.files@[j].name@ == record.name@ {
                    if name_differs {
                        assert(parent_directory.has_name(record.name@));
                        assert(false);
                    } else {
                        assert(parent_directory.files@[ii].name@ == record.name@);
                        assert(j != ii);
                        assert(false);
                    }
                }
            }
        }
        parent_directory.upsert_file(record);
        match self.dirs.persist(parent_directory) {
            Ok(ups) => {
                parent_directory.advance_version();
                Ok(ups)
            },
            Err(e) => Err(e),
        }
    }

    /// Helper function to update the content of a file in a directory
    /// listing.  A writer is returned, seeded per `mode`; the new content is
    /// saved only after `close` is invoked on the writer.  Fails `NotFound`
    /// when no sibling carries the record's name, and `Conflict` when the
    /// passed record differs in any field from the stored entry.
    pub fn update_content(
        &self,
        record: FileRecord,
        mode: Mode,
        parent_directory: DirectoryListing,
    ) -> (r: Result<Writer, NfsError>)
        requires
            parent_directory.wf(),
            mode is Modify ==> self.content.ref_wf(record.content),
        ensures
            match r {
                Ok(w) => {
                    &&& parent_directory.has_name(record.name@)
                    &&& parent_directory.file_at_name(record.name@).equiv(record)
                    &&& w.wf()
                    &&& w.directory == parent_directory
                    &&& w.record == record
                    &&& w.buffer@ == (if mode is Modify {
                        self.content.ref_bytes(record.content)
                    } else {
                        Seq::<u8>::empty()
                    })
                },
                Err(e) => (e == NfsError::NotFound && !parent_directory.has_name(record.name@)) || (
                e == NfsError::Conflict && parent_directory.has_name(record.name@)
                    && !parent_directory.file_at_name(record.name@).equiv(record)),
            },
    {
        match parent_directory.find_file(&record.name) {
            None => {
                return Err(NfsError::NotFound);
            },
            Some(existing) => {
                if !existing.matches_record(&record) {
                    return Err(NfsError::Conflict);
                }
            },
        }
        proof {
            let ii = parent_directory.idx_of_name(record.name@);
            assert forall|j: int|
                0 <= j < parent_directory.files@.len() && parent_directory.files@[j].id
                    != record.id implies parent_directory.files@[j].name@ != record.name@ by {
                if parent_directory.files@[j].name@ == record.name@ {
                    assert(j == ii);
                    assert(parent_directory.files@[ii].id == record.id);
                }
            }
        }
        Ok(Writer::new(parent_directory, record, &self.content, mode))
    }

    /// Returns the distinct stored versions of the file carrying `record`'s
    /// name, walking the version chain of `parent_directory`'s key oldest to
    /// newest and coalescing consecutive snapshots whose modification stamp
    /// did not change.  Fails `InvalidOperation` for an unversioned key and
    /// `NotFound` for a key never persisted.
    #[verifier::rlimit(60)]
    pub fn get_versions(&self, record: &FileRecord, parent_directory: &DirectoryListing) -> (r:
        Result<Vec<FileRecord>, NfsError>)
        requires
            self.wf(),
        ensures
            match r {
                Ok(v) => {
                    let spec = coalesced(
                        self.dirs.chain(parent_directory.key),
                        record.name@,
                    );
                    &&& parent_directory.key.versioned
                    &&& self.dirs.chain(parent_directory.key).len() > 0
                    &&& v@.len() == spec.len()
                    &&& (forall|i: int| 0 <= i < v@.len() ==> v@[i].equiv(spec[i]))
                },
                Err(e) => (e == NfsError::InvalidOperation && !parent_directory.key.versioned) || (
                e == NfsError::NotFound && parent_directory.key.versioned && self.dirs.chain(
                    parent_directory.key,
                ).len() == 0),
            },
    {
        let key = parent_directory.get_key();
        let ids: Vec<u64>;
        match self.dirs.get_versions(&key) {
            Err(e) => {
                return Err(e);
            },
            Ok(got) => {
                ids = got;
            },
        }
        let n: usize = ids.len();
        let ghost chain = self.dirs.chain(key);
        let mut out: Vec<FileRecord> = Vec::new();
        let mut v: usize = 0;
        while v < n
            invariant
                self.wf(),
                key == parent_directory.key,
                chain == self.dirs.chain(key),
                n == chain.len(),
                n <= usize::MAX,
                v <= n,
                out@.len() == coalesced(chain.take(v as int), record.name@).len(),
                forall|i: int|
                    0 <= i < out@.len() ==> out@[i].equiv(
                        coalesced(chain.take(v as int), record.name@)[i],
                    ),
            decreases n - v,
        {
            proof {
                lemma_coalesced_take_succ(chain, v as int, record.name@);
                lemma_chain_props(self.dirs.log@, key);
            }
            let snap: DirectoryListing;
            match self.dirs.get_by_version(&key, key.get_access_level(), v as u64) {
                Ok(s) => {
                    snap = s;
                },
                Err(e) => {
                    proof {
                        assert(false);
                    }
                    return Err(e);
                },
            }
            proof {
                lemma_equiv_file_lookup(snap, chain[v as int], record.name@);
            }
            match snap.find_file(&record.name) {
                None => {},
                Some(f) => {
                    let report: bool = if out.len() == 0 {
                        true
                    } else {
                        out[out.len() - 1].modified_at != f.modified_at
                    };
                    if report {
                        out.push(f.duplicate());
                    }
                },
            }
            v = v + 1;
        }
        proof {
            assert(chain.take(n as int) =~= chain);
        }
        Ok(out)
    }

    /// Returns a reader for reading the file contents.  Fails
    /// `StorageFailure` when the record's content reference does not belong
    /// to this helper's content store.
    pub fn read(&self, record: &FileRecord) -> (r: Result<Reader, NfsError>)
        ensures
            match r {
                Ok(rd) => self.content.ref_wf(record.content) && rd.data@
                    == self.content.ref_bytes(record.content),
                Err(e) => e == NfsError::StorageFailure && !self.content.ref_wf(record.content),
            },
    {
        Reader::new(&self.content, record)
    }
}

} // verus!
