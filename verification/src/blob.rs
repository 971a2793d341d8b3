//! Data-availability blob identifiers.
//!
//! A blob here carries the plain values its identifiers are computed from:
//! the column bytes and the column index.  The commitments and proofs that
//! accompany a blob in the wider system are opaque to these computations
//! and stay with their own layer.

use sha3::Digest;
use sha3::Sha3_256;
use vstd::prelude::*;

verus! {

/// The SHA3-256 digest of a byte sequence; the digest bytes are a function
/// of the input bytes alone.
pub uninterp spec fn sha3_256_of(bytes: Seq<u8>) -> Seq<u8>;

/// Relies on sha3::Sha3_256 (via the digest interface): hashing is
/// deterministic in the input bytes and the digest is 32 bytes long.
#[verifier::external_body]
fn sha3_256(bytes: &[u8]) -> (digest: Vec<u8>)
    ensures
        digest@ == sha3_256_of(bytes@),
        digest@.len() == 32,
{
    let mut hasher = Sha3_256::new();
    hasher.update(bytes);
    hasher.finalize().as_slice().to_vec()
}

/// One column of a dispersed blob, with its position.
#[derive(Debug, Clone, PartialEq, Eq)]
pub struct DaBlob {
    pub column: Vec<u8>,
    pub column_idx: u16,
}

impl DaBlob {
    /// The column's identifier: the SHA3-256 digest of its bytes.
    pub fn column_id(&self) -> (id: Vec<u8>)
        ensures
            id@ == sha3_256_of(self.column@),
            id@.len() == 32,
    {
        sha3_256(self.column.as_slice())
    }

    /// How many bytes the column holds.
    pub fn column_len(&self) -> (len: usize)
        ensures
            len == self.column@.len(),
    {
        self.column.len()
    }
}

} // verus!
