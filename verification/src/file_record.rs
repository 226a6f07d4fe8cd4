//! One file inside a directory listing.

use vstd::prelude::*;

use crate::content_store::ContentRef;
use crate::utils::{bytes_eq, clone_bytes};

verus! {

/// A file entry: a stable identity, a name unique among its siblings,
/// caller-owned metadata bytes, and the reference its content is
/// reconstructed from.  The id never changes after creation; the content
/// reference is replaced only when a bound writer is closed.
#[derive(Clone, Debug)]
pub struct FileRecord {
    pub id: u64,
    pub name: String,
    pub user_metadata: Vec<u8>,
    pub size: u64,
    pub created_at: u64,
    pub modified_at: u64,
    pub content: ContentRef,
}

impl FileRecord {
    /// Field-for-field agreement, compared by contents.
    pub open spec fn equiv(self, o: FileRecord) -> bool {
        &&& self.id == o.id
        &&& self.name@ == o.name@
        &&& self.user_metadata@ == o.user_metadata@
        &&& self.size == o.size
        &&& self.created_at == o.created_at
        &&& self.modified_at == o.modified_at
        &&& self.content.equiv(o.content)
    }

    /// A fresh record with empty content, created and last modified now.
    pub fn new(id: u64, name: String, user_metadata: Vec<u8>, created_at: u64) -> (r: FileRecord)
        ensures
            r.id == id,
            r.name@ == name@,
            r.user_metadata@ == user_metadata@,
            r.size == 0,
            r.created_at == created_at,
            r.modified_at == created_at,
            r.content is Empty,
    {
        FileRecord {
            id,
            name,
            user_metadata,
            size: 0,
            created_at,
            modified_at: created_at,
            content: ContentRef::Empty,
        }
    }

    /// A copy of the record with the same contents.
    pub fn duplicate(&self) -> (r: FileRecord)
        ensures
            r.equiv(*self),
    {
        FileRecord {
            id: self.id,
            name: self.name.clone(),
            user_metadata: clone_bytes(&self.user_metadata),
            size: self.size,
            created_at: self.created_at,
            modified_at: self.modified_at,
            content: self.content.duplicate(),
        }
    }

    /// Compares two records field for field.
    pub fn matches_record(&self, o: &FileRecord) -> (r: bool)
        ensures
            r == self.equiv(*o),
    {
        self.id == o.id && self.name == o.name && bytes_eq(&self.user_metadata, &o.user_metadata)
            && self.size == o.size && self.created_at == o.created_at && self.modified_at
            == o.modified_at && self.content.matches_ref(&o.content)
    }

    /// Replaces the caller-owned metadata bytes.
    pub fn set_user_metadata(&mut self, user_metadata: Vec<u8>)
        ensures
            *final(self) == (FileRecord { user_metadata, ..*old(self) }),
    {
        self.user_metadata = user_metadata;
    }
}

} // verus!
