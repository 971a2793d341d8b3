//! Keys of the blob store.
//!
//! The store indexes a verified blob column by the concatenation of the
//! blob identifier and the column index; the directory the blob bytes live
//! under comes from the adapter settings.  Reading and writing the store
//! is the surrounding service's work — only the key layout is decided
//! here.

use vstd::prelude::*;
use vstd::slice::slice_index_get;

verus! {

/// Where the storage adapter keeps blob files.
#[derive(Debug, Clone)]
pub struct RocksAdapterSettings {
    pub blob_storage_directory: String,
}

/// Combines a 32-byte blob identifier with a 2-byte column index into the
/// 34-byte key of the verified-column store.
pub fn create_blob_idx(blob_id: &[u8], column_idx: &[u8]) -> (blob_idx: Vec<u8>)
    requires
        blob_id@.len() + column_idx@.len() == 34,
    ensures
        blob_idx@ == blob_id@ + column_idx@,
        blob_idx@.len() == 34,
{
    let mut blob_idx: Vec<u8> = Vec::new();
    let mut i: usize = 0;
    while i < blob_id.len()
        invariant
            i <= blob_id@.len(),
            blob_idx@ == blob_id@.take(i as int),
        decreases blob_id@.len() - i,
    {
        blob_idx.push(*slice_index_get(blob_id, i));
        proof {
            assert(blob_idx@ =~= blob_id@.take(i + 1));
        }
        i = i + 1;
    }
    proof {
        assert(blob_idx@ =~= blob_id@);
    }
    let mut j: usize = 0;
    while j < column_idx.len()
        invariant
            j <= column_idx@.len(),
            blob_idx@ == blob_id@ + column_idx@.take(j as int),
        decreases column_idx@.len() - j,
    {
        blob_idx.push(*slice_index_get(column_idx, j));
        proof {
            assert(blob_idx@ =~= blob_id@ + column_idx@.take(j + 1));
        }
        j = j + 1;
    }
    proof {
        assert(blob_idx@ =~= blob_id@ + column_idx@);
    }
    blob_idx
}

} // verus!
