//! Data-availability interfaces.
//!
//! The contracts between the node and its data-availability collaborators:
//! encoding a blob for dispersal, verifying a received blob, dispersing
//! encoded data, and signing.  Each node supplies its own implementations;
//! nothing here fixes how they work.

use vstd::prelude::*;

verus! {

/// Encodes raw bytes into dispersible data.
pub trait DaEncoder {
    type EncodedData;

    type Error;

    fn encode(&self, b: &[u8]) -> Result<Self::EncodedData, Self::Error>;
}

/// Checks a received blob.
pub trait DaVerifier {
    type DaBlob;

    type Error;

    fn verify(&self, blob: &Self::DaBlob) -> Result<(), Self::Error>;
}

/// Hands encoded data out to the network.
pub trait DaDispersal {
    type EncodedData;

    type Error;

    fn disperse(&self, encoded_data: Self::EncodedData) -> Result<(), Self::Error>;
}

/// Signs a message on the node's behalf.
pub trait Signer {
    fn sign(&self, message: &[u8]) -> Vec<u8>;
}

} // verus!
