//! Content references and the append-only store that backs them.
//!
//! A content reference is a self-describing descriptor from which the byte
//! stream of a file is reconstructed: empty content needs no storage, short
//! content is carried inline, and longer content is held as a stored blob
//! addressed by its position in the store.  The store only ever grows, so a
//! reference, once produced, stays readable for as long as the store lives.

use vstd::prelude::*;

use crate::errors::NfsError;
use crate::utils::copy_range;

verus! {

/// Content at most this long is carried inline in the reference itself.
pub const INLINE_LIMIT: usize = 1024;

/// An opaque descriptor enabling reconstruction of a byte stream.
#[derive(Clone, Debug)]
pub enum ContentRef {
    /// No content was ever written.
    Empty,
    /// The content itself, carried in the reference.
    Inline(Vec<u8>),
    /// Longer content, stored in the content store.
    ChunkMap { blob: usize, size: usize },
}

impl ContentRef {
    /// The total size the reference describes, readable without any
    /// round-trip to the store.
    pub open spec fn size_spec(self) -> nat {
        match self {
            ContentRef::Empty => 0,
            ContentRef::Inline(b) => b@.len(),
            ContentRef::ChunkMap { blob, size } => size as nat,
        }
    }

    /// Two references describe the same content location, compared by
    /// contents rather than by allocation.
    pub open spec fn equiv(self, o: ContentRef) -> bool {
        match (self, o) {
            (ContentRef::Empty, ContentRef::Empty) => true,
            (ContentRef::Inline(a), ContentRef::Inline(b)) => a@ == b@,
            (
                ContentRef::ChunkMap { blob: b1, size: s1 },
                ContentRef::ChunkMap { blob: b2, size: s2 },
            ) => b1 == b2 && s1 == s2,
            _ => false,
        }
    }

    /// The size, as executable code.
    pub fn size(&self) -> (s: usize)
        ensures
            s == self.size_spec(),
    {
        match self {
            ContentRef::Empty => 0,
            ContentRef::Inline(b) => b.len(),
            ContentRef::ChunkMap { blob: _, size } => *size,
        }
    }

    /// A copy of the reference with the same contents.
    pub fn duplicate(&self) -> (r: ContentRef)
        ensures
            r.equiv(*self),
            r.size_spec() == self.size_spec(),
    {
        match self {
            ContentRef::Empty => ContentRef::Empty,
            ContentRef::Inline(b) => ContentRef::Inline(crate::utils::clone_bytes(b)),
            ContentRef::ChunkMap { blob, size } => ContentRef::ChunkMap {
                blob: *blob,
                size: *size,
            },
        }
    }

    /// Compares two references by contents.
    pub fn matches_ref(&self, o: &ContentRef) -> (r: bool)
        ensures
            r == self.equiv(*o),
    {
        match (self, o) {
            (ContentRef::Empty, ContentRef::Empty) => true,
            (ContentRef::Inline(a), ContentRef::Inline(b)) => crate::utils::bytes_eq(a, b),
            (
                ContentRef::ChunkMap { blob: b1, size: s1 },
                ContentRef::ChunkMap { blob: b2, size: s2 },
            ) => b1 == b2 && s1 == s2,
            _ => false,
        }
    }
}

/// The append-only blob store behind `ContentRef::ChunkMap` references.
pub struct ContentStore {
    pub blobs: Vec<Vec<u8>>,
}

impl ContentStore {
    /// A reference is well formed for this store when any blob it points at
    /// exists and has the advertised size.
    pub open spec fn ref_wf(self, r: ContentRef) -> bool {
        match r {
            ContentRef::ChunkMap { blob, size } => blob < self.blobs@.len() && size
                == self.blobs@[blob as int]@.len(),
            _ => true,
        }
    }

    /// The byte stream a reference reconstructs to, in this store.
    pub open spec fn ref_bytes(self, r: ContentRef) -> Seq<u8> {
        match r {
            ContentRef::Empty => Seq::empty(),
            ContentRef::Inline(b) => b@,
            ContentRef::ChunkMap { blob, size } => self.blobs@[blob as int]@,
        }
    }

    /// This store holds everything `pre` held, unchanged, and possibly more.
    pub open spec fn extends(self, pre: ContentStore) -> bool {
        pre.blobs@.is_prefix_of(self.blobs@)
    }

    /// A well-formed reference reconstructs to exactly as many bytes as it
    /// advertises.
    pub proof fn lemma_ref_bytes_len(self, r: ContentRef)
        requires
            self.ref_wf(r),
        ensures
            self.ref_bytes(r).len() == r.size_spec(),
    {
    }

    /// Growing the store never invalidates a reference nor changes what it
    /// reconstructs to.
    pub proof fn lemma_ref_stable(pre: ContentStore, post: ContentStore, r: ContentRef)
        requires
            post.extends(pre),
            pre.ref_wf(r),
        ensures
            post.ref_wf(r),
            post.ref_bytes(r) == pre.ref_bytes(r),
    {
        assert(pre.blobs@ =~= post.blobs@.subrange(0, pre.blobs@.len() as int));
        if let ContentRef::ChunkMap { blob, size } = r {
            assert(pre.blobs@[blob as int] == post.blobs@.subrange(
                0,
                pre.blobs@.len() as int,
            )[blob as int]);
        }
    }

    /// An empty store.
    pub fn new() -> (r: ContentStore)
        ensures
            r.blobs@.len() == 0,
    {
        ContentStore { blobs: Vec::new() }
    }

    /// Turns a byte stream into a content reference, storing a blob for it
    /// when it is too long to carry inline.  Nothing already stored changes.
    pub fn encode(&mut self, bytes: Vec<u8>) -> (r: ContentRef)
        ensures
            final(self).extends(*old(self)),
            final(self).ref_wf(r),
            final(self).ref_bytes(r) == bytes@,
            r.size_spec() == bytes@.len(),
            (r is Empty <==> bytes@.len() == 0),
    {
        proof {
            assert(self.blobs@ =~= self.blobs@.subrange(0, self.blobs@.len() as int));
        }
        if bytes.len() == 0 {
            ContentRef::Empty
        } else if bytes.len() <= INLINE_LIMIT {
            ContentRef::Inline(bytes)
        } else {
            let blob = self.blobs.len();
            let size = bytes.len();
            self.blobs.push(bytes);
            proof {
                assert(old(self).blobs@ =~= self.blobs@.subrange(0, old(self).blobs@.len() as int));
            }
            ContentRef::ChunkMap { blob, size }
        }
    }

    /// Reconstructs exactly the requested byte range of a reference.
    /// Fails `RangeError` when the range runs past the advertised size and
    /// `StorageFailure` when the reference does not belong to this store.
    pub fn decode(&self, r: &ContentRef, offset: usize, length: usize) -> (res: Result<
        Vec<u8>,
        NfsError,
    >)
        ensures
            match res {
                Ok(v) => self.ref_wf(*r) && offset + length <= r.size_spec() && v@
                    == self.ref_bytes(*r).subrange(offset as int, offset as int + length as int),
                Err(e) => (e == NfsError::StorageFailure && !self.ref_wf(*r)) || (e
                    == NfsError::RangeError && self.ref_wf(*r) && offset + length > r.size_spec()),
            },
    {
        match r {
            ContentRef::Empty => {
                if offset == 0 && length == 0 {
                    let v: Vec<u8> = Vec::new();
                    proof {
                        assert(v@ =~= self.ref_bytes(*r).subrange(0, 0));
                    }
                    Ok(v)
                } else {
                    Err(NfsError::RangeError)
                }
            },
            ContentRef::Inline(b) => {
                if length > b.len() || offset > b.len() - length {
                    Err(NfsError::RangeError)
                } else {
                    Ok(copy_range(b, offset, length))
                }
            },
            ContentRef::ChunkMap { blob, size } => {
                if *blob >= self.blobs.len() {
                    return Err(NfsError::StorageFailure);
                }
                let data = &self.blobs[*blob];
                if data.len() != *size {
                    return Err(NfsError::StorageFailure);
                }
                if length > *size || offset > *size - length {
                    Err(NfsError::RangeError)
                } else {
                    Ok(copy_range(data, offset, length))
                }
            },
        }
    }
}

} // verus!
