//! The content reader bound to one immutable content reference.

use vstd::prelude::*;

use crate::content_store::ContentStore;
use crate::errors::NfsError;
use crate::file_record::FileRecord;
use crate::utils::copy_range;

verus! {

/// Reader reconstructs byte ranges of one file's content.  It is bound at
/// construction to the record's content reference; repeated reads of the
/// same range return identical bytes.
#[derive(Debug)]
pub struct Reader {
    pub data: Vec<u8>,
}

impl Reader {
    /// Binds a reader to the content reference of `record`.  Fails
    /// `StorageFailure` when the reference does not belong to `store`.
    pub fn new(store: &ContentStore, record: &FileRecord) -> (r: Result<Reader, NfsError>)
        ensures
            match r {
                Ok(rd) => store.ref_wf(record.content) && rd.data@ == store.ref_bytes(
                    record.content,
                ),
                Err(e) => e == NfsError::StorageFailure && !store.ref_wf(record.content),
            },
    {
        let size = record.content.size();
        match store.decode(&record.content, 0, size) {
            Ok(v) => {
                proof {
                    store.lemma_ref_bytes_len(record.content);
                    assert(store.ref_bytes(record.content).subrange(0, size as int)
                        =~= store.ref_bytes(record.content));
                }
                Ok(Reader { data: v })
            },
            Err(_) => Err(NfsError::StorageFailure),
        }
    }

    /// The total size of the content, with no further round-trip.
    pub fn size(&self) -> (n: usize)
        ensures
            n == self.data@.len(),
    {
        self.data.len()
    }

    /// Returns exactly the byte range `[position, position + length)`.
    /// Fails `RangeError` when the range runs past the end.
    pub fn read(&self, position: usize, length: usize) -> (r: Result<Vec<u8>, NfsError>)
        ensures
            match r {
                Ok(v) => position + length <= self.data@.len() && v@ == self.data@.subrange(
                    position as int,
                    position as int + length as int,
                ),
                Err(e) => e == NfsError::RangeError && position + length > self.data@.len(),
            },
    {
        if length > self.data.len() || position > self.data.len() - length {
            Err(NfsError::RangeError)
        } else {
            Ok(copy_range(&self.data, position, length))
        }
    }
}

} // verus!
