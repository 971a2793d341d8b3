//! Publish–subscribe commands of the network service.
//!
//! What the node asks of its gossip layer: publishing a message on a
//! topic, and entering or leaving a topic.  The retry variant re-publishes
//! a message that could not be delivered, carrying how often it has been
//! tried already.

use vstd::prelude::*;

verus! {

/// A gossip topic name.
pub type Topic = String;

/// One command to the gossip layer.
#[derive(Debug)]
#[non_exhaustive]
pub enum PubSubCommand {
    Broadcast { topic: Topic, message: Vec<u8> },
    Subscribe(Topic),
    Unsubscribe(Topic),
    RetryBroadcast { topic: Topic, message: Vec<u8>, retry_count: usize },
}

} // verus!
