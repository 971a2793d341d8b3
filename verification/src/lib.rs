//! Per-link transport layer of an anonymity-preserving peer-to-peer overlay.
//!
//! A mix link disguises the real pattern of message exchange between two
//! directly connected peers: frames are emitted at a constant cadence, and
//! silence is filled with noise frames that a passive observer cannot tell
//! apart from real ones.  The crate provides the fixed-length frame codec,
//! the cover-traffic queue, the cadence scheduler and the per-connection
//! handler state machine, together with proofs of the timing and ordering
//! guarantees the scheme rests on.  A few companion utilities used around
//! the node (cargo metadata lookups, blob identifiers, argument records)
//! live in their own modules.

pub mod blob;
pub mod bundler;
pub mod cli;
pub mod command;
pub mod da;
pub mod handler;
pub mod message;
pub mod net;
pub mod queue;
pub mod scheduler;
pub mod storage;
