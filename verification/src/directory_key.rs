//! The stable identity of a directory across all of its persisted versions.

use vstd::prelude::*;

verus! {

/// The capability level a directory key demands of its readers.
#[derive(Clone, Copy, Debug, PartialEq, Eq, Structural)]
pub enum AccessLevel {
    Private,
    Public,
}

/// DirectoryKey is the meta information identifying a directory.
/// It never changes once created: every version of the directory is
/// fetched with the same key.
#[derive(Clone, Copy, Debug, PartialEq, Eq, Structural)]
pub struct DirectoryKey {
    pub id: u64,
    pub type_tag: u64,
    pub versioned: bool,
    pub access_level: AccessLevel,
}

impl DirectoryKey {
    /// Creates a new instance of DirectoryKey.
    pub fn new(directory_id: u64, type_tag: u64, versioned: bool, access_level: AccessLevel) -> (r:
        DirectoryKey)
        ensures
            r == (DirectoryKey { id: directory_id, type_tag, versioned, access_level }),
    {
        DirectoryKey { id: directory_id, type_tag, versioned, access_level }
    }

    /// Returns the id.
    pub fn get_id(&self) -> (r: u64)
        ensures
            r == self.id,
    {
        self.id
    }

    /// Returns the type tag.
    pub fn get_type_tag(&self) -> (r: u64)
        ensures
            r == self.type_tag,
    {
        self.type_tag
    }

    /// Returns true if the directory represented by the key keeps a version
    /// history, else returns false.
    pub fn is_versioned(&self) -> (r: bool)
        ensures
            r == self.versioned,
    {
        self.versioned
    }

    /// Returns the access level of the directory represented by the key.
    pub fn get_access_level(&self) -> (r: AccessLevel)
        ensures
            r == self.access_level,
    {
        self.access_level
    }
}

} // verus!
