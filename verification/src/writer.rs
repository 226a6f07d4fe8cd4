//! The one-shot content writer bound to a file inside a directory listing.

use vstd::prelude::*;

use crate::content_store::{ContentRef, ContentStore};
use crate::directory_listing::DirectoryListing;
use crate::directory_store::DirectoryStore;
use crate::errors::NfsError;
use crate::file_record::FileRecord;

verus! {

/// How a writer is seeded when it is opened.
#[derive(Clone, Copy, Debug, PartialEq, Eq, Structural)]
pub enum Mode {
    /// Start from empty content.
    Overwrite,
    /// Seed from the file's existing content, so unwritten ranges are kept.
    Modify,
}

/// The byte stream after a logical write of `data` at `pos` over `base`:
/// the written range reads back `data`, ranges of `base` it does not cover
/// are kept, and a gap between the end of `base` and `pos` reads as zeroes.
pub open spec fn write_upd(base: Seq<u8>, data: Seq<u8>, pos: int) -> Seq<u8> {
    Seq::new(
        if pos + data.len() > base.len() {
            (pos + data.len()) as nat
        } else {
            base.len()
        },
        |i: int|
            if pos <= i < pos + data.len() {
                data[i - pos]
            } else if i < base.len() {
                base[i]
            } else {
                0u8
            },
    )
}

/// Writer streams the content of one file.  It owns the pending bytes; the
/// file is saved into the directory listing only when `close` is invoked,
/// and `close` consumes the writer, so no write can follow it.  An abandoned
/// writer leaves no trace in any store.
#[derive(Debug)]
pub struct Writer {
    pub record: FileRecord,
    pub directory: DirectoryListing,
    pub buffer: Vec<u8>,
}

impl Writer {
    /// The writer is bound to a listing it can be flushed into: replacing
    /// the sibling carrying the record's identity cannot collide on names.
    pub open spec fn wf(self) -> bool {
        &&& self.directory.wf()
        &&& forall|j: int| #![trigger self.directory.files@[j]]
            0 <= j < self.directory.files@.len() && self.directory.files@[j].id != self.record.id
                ==> self.directory.files@[j].name@ != self.record.name@
    }

    /// Opens a writer for `record` bound to `directory`, seeded per `mode`.
    pub fn new(
        directory: DirectoryListing,
        record: FileRecord,
        store: &ContentStore,
        mode: Mode,
    ) -> (w: Writer)
        requires
            directory.wf(),
            forall|j: int| #![trigger directory.files@[j]]
                0 <= j < directory.files@.len() && directory.files@[j].id != record.id
                    ==> directory.files@[j].name@ != record.name@,
            mode is Modify ==> store.ref_wf(record.content),
        ensures
            w.record == record,
            w.directory == directory,
            w.wf(),
            w.buffer@ == (if mode is Modify {
                store.ref_bytes(record.content)
            } else {
                Seq::<u8>::empty()
            }),
    {
        let buffer: Vec<u8> = match mode {
            Mode::Overwrite => Vec::new(),
            Mode::Modify => {
                let size = record.content.size();
                proof {
                    store.lemma_ref_bytes_len(record.content);
                }
                match store.decode(&record.content, 0, size) {
                    Ok(v) => {
                        proof {
                            assert(store.ref_bytes(record.content).subrange(0, size as int)
                                =~= store.ref_bytes(record.content));
                        }
                        v
                    },
                    Err(_) => {
                        proof {
                            assert(false);
                        }
                        Vec::new()
                    },
                }
            },
        };
        Writer { record, directory, buffer }
    }

    /// Buffers a logical write of `data` at byte offset `position`.  Writes
    /// may overlap: a later write wins on the range it covers.
    pub fn write(&mut self, data: &[u8], position: u64)
        requires
            position + data@.len() <= usize::MAX,
        ensures
            final(self).record == old(self).record,
            final(self).directory == old(self).directory,
            final(self).buffer@ == write_upd(old(self).buffer@, data@, position as int),
    {
        let pos = position as usize;
        let end = pos + data.len();
        let ghost base = self.buffer@;
        while self.buffer.len() < end
            invariant
                *self == (Writer { buffer: self.buffer, ..*old(self) }),
                end <= usize::MAX,
                base == old(self).buffer@,
                base.len() <= self.buffer@.len() || self.buffer@ == base,
                self.buffer@.len() <= end || self.buffer@ == base,
                forall|k: int| 0 <= k < base.len() && k < self.buffer@.len() ==> self.buffer@[k] == base[k],
                forall|k: int| base.len() <= k < self.buffer@.len() ==> self.buffer@[k] == 0u8,
            decreases end - self.buffer@.len(),
        {
            self.buffer.push(0u8);
        }
        let mut i: usize = 0;
        while i < data.len()
            invariant
                *self == (Writer { buffer: self.buffer, ..*old(self) }),
                base == old(self).buffer@,
                i <= data@.len(),
                pos == position,
                end == pos + data@.len(),
                self.buffer@.len() == (if end > base.len() {
                    end as int
                } else {
                    base.len() as int
                }),
                forall|k: int| 0 <= k < base.len() && !(pos <= k < pos + i) ==> self.buffer@[k] == base[k],
                forall|k: int| base.len() <= k < self.buffer@.len() && !(pos <= k < pos + i)
                    ==> self.buffer@[k] == 0u8,
                forall|k: int| pos <= k < pos + i ==> self.buffer@[k] == data@[k - pos],
            decreases data@.len() - i,
        {
            self.buffer.set(pos + i, data[i]);
            i = i + 1;
        }
        proof {
            assert(self.buffer@ =~= write_upd(base, data@, position as int));
        }
    }

    /// Flushes the buffered content to the content store, producing the new
    /// content reference; stamps the record with the total size and the
    /// modification tick; saves the record into the bound listing; and hands
    /// the listing to the directory store, which appends it as the next
    /// version and propagates upward.  Consumes the writer: either the
    /// updated listing becomes durably visible together with the propagation
    /// outcome, or `Conflict` is returned and no chain changes.
    #[verifier::rlimit(100)]
    #[verifier::spinoff_prover]
    pub fn close(self, content: &mut ContentStore, dirs: &mut DirectoryStore) -> (r: Result<
        (DirectoryListing, Vec<DirectoryListing>),
        NfsError,
    >)
        requires
            self.wf(),
            old(dirs).wf(),
            old(dirs).tick < u64::MAX,
            self.directory.version < u64::MAX,
        ensures
            final(dirs).wf(),
            final(content).extends(*old(content)),
            final(dirs).tick <= old(dirs).tick + 1,
            (r is Ok) <==> self.directory.version == old(dirs).chain(self.directory.key).len(),
            match r {
                Ok((dir, ups)) => {
                    &&& dir.wf()
                    &&& dir.key == self.directory.key
                    &&& dir.parent == self.directory.parent
                    &&& dir.subdirectories@ == self.directory.subdirectories@
                    &&& dir.version == self.directory.version + 1
                    &&& dir.has_name(self.record.name@)
                    &&& {
                        let rec = dir.file_at_name(self.record.name@);
                        &&& rec.id == self.record.id
                        &&& rec.name@ == self.record.name@
                        &&& rec.user_metadata@ == self.record.user_metadata@
                        &&& rec.created_at == self.record.created_at
                        &&& rec.modified_at == old(dirs).tick
                        &&& rec.size == self.buffer@.len()
                        &&& final(content).ref_wf(rec.content)
                        &&& final(content).ref_bytes(rec.content) == self.buffer@
                        &&& (self.directory.has_id(self.record.id) ==> dir.files@
                            == self.directory.files@.update(
                            self.directory.idx_of_id(self.record.id),
                            rec,
                        ))
                        &&& (!self.directory.has_id(self.record.id) ==> dir.files@
                            == self.directory.files@.push(rec))
                    }
                    &&& DirectoryStore::persist_post(
                        *old(dirs),
                        *final(dirs),
                        dir.with_version((dir.version - 1) as u64),
                        ups@,
                    )
                },
                Err(e) => {
                    &&& e == NfsError::Conflict
                    &&& final(dirs).log@ == old(dirs).log@
                },
            },
    {
        let tick = dirs.next_tick();
        let Writer { mut record, mut directory, buffer } = self;
        let n = buffer.len();
        let ghost buf = buffer@;
        let cref = content.encode(buffer);
        record.content = cref;
        record.size = n as u64;
        record.modified_at = tick;
        let ghost rec = record;
        proof {
            assert(directory.upsert_safe(rec));
        }
        let ghost predir = directory;
        directory.upsert_file(record);
        match dirs.persist(&directory) {
            Ok(ups) => {
                proof {
                    if predir.has_id(rec.id) {
                        let ii = predir.idx_of_id(rec.id);
                        assert(directory.files@[ii] == rec);
                        assert(directory.has_name(rec.name@));
                        let jj = directory.idx_of_name(rec.name@);
                        if jj != ii {
                            assert(directory.files@[jj].name@ == rec.name@);
                            assert(false);
                        }
                        assert(directory.file_at_name(rec.name@) == rec);
                    } else {
                        let ii = predir.files@.len() as int;
                        assert(directory.files@[ii] == rec);
                        assert(directory.has_name(rec.name@));
                        let jj = directory.idx_of_name(rec.name@);
                        if jj != ii {
                            assert(directory.files@[jj].name@ == rec.name@);
                            assert(false);
                        }
                        assert(directory.file_at_name(rec.name@) == rec);
                    }
                }
                let ghost persisted = directory;
                directory.advance_version();
                proof {
                    assert(persisted == directory.with_version((directory.version - 1) as u64));
                }
                Ok((directory, ups))
            },
            Err(e) => Err(e),
        }
    }
}

} // verus!
