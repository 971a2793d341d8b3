//! Cover-traffic queue.
//!
//! The queue holds real outgoing payloads in arrival order.  Popping never
//! fails and never blocks: if a real payload is pending it is dequeued and
//! framed, otherwise a fresh noise frame is manufactured, so the popping
//! side never observes emptiness — the core of the cover-traffic scheme.

use std::collections::VecDeque;
use vstd::prelude::*;
use crate::message;

verus! {

/// Ordered pending real payloads of one link, oldest first.
pub struct CoverTrafficQueue {
    pending: VecDeque<Vec<u8>>,
}

impl View for CoverTrafficQueue {
    type V = Seq<Seq<u8>>;

    closed spec fn view(&self) -> Seq<Seq<u8>> {
        self.pending@.map_values(|p: Vec<u8>| p@)
    }
}

/// Every pending payload can be framed.
pub open spec fn all_valid_payloads(queue: Seq<Seq<u8>>) -> bool {
    forall|i: int| 0 <= i < queue.len() ==> message::valid_payload(#[trigger] queue[i])
}

/// What one pop does to the pending payloads, and the frame it yields:
/// the front payload framed if one is pending, a noise frame otherwise.
pub open spec fn pop_step(queue: Seq<Seq<u8>>) -> (Seq<Seq<u8>>, Seq<u8>) {
    if queue.len() == 0 {
        (queue, message::noise_frame_spec())
    } else {
        (queue.subrange(1, queue.len() as int), message::encode_spec(queue[0]))
    }
}

impl CoverTrafficQueue {
    /// An empty queue: nothing pending, so pops yield noise.
    pub fn new() -> (queue: CoverTrafficQueue)
        ensures
            queue@ == Seq::<Seq<u8>>::empty(),
    {
        let queue = CoverTrafficQueue { pending: VecDeque::new() };
        proof {
            assert(queue@ =~= Seq::<Seq<u8>>::empty());
        }
        queue
    }

    /// Whether a real payload is pending.
    pub fn is_empty(&self) -> (empty: bool)
        ensures
            empty == (self@.len() == 0),
    {
        self.pending.len() == 0
    }

    /// Appends a real payload; never fails, never blocks.
    pub fn push(&mut self, payload: Vec<u8>)
        requires
            message::valid_payload(payload@),
        ensures
            final(self)@ == old(self)@.push(payload@),
    {
        let ghost before = self@;
        self.pending.push_back(payload);
        proof {
            assert(self@ =~= before.push(payload@));
        }
    }

    /// Always yields a whole frame: the oldest pending payload framed, or a
    /// fresh noise frame when nothing is pending.
    pub fn pop(&mut self) -> (frame: Vec<u8>)
        requires
            all_valid_payloads(old(self)@),
        ensures
            (final(self)@, frame@) == pop_step(old(self)@),
            all_valid_payloads(final(self)@),
            frame@.len() == message::MSG_SIZE as int,
    {
        let ghost before = self@;
        match self.pending.pop_front() {
            Some(payload) => {
                proof {
                    assert(before[0] == payload@);
                    assert(self@ =~= before.subrange(1, before.len() as int));
                    message::lemma_encode_len(payload@);
                }
                message::encode_valid_payload(payload.as_slice())
            },
            None => {
                proof {
                    assert(self@ =~= before);
                }
                message::encode_noise()
            },
        }
    }
}

/// One step of the queue's history: a payload arriving, or a frame leaving.
pub ghost enum QueueOp {
    Push(Seq<u8>),
    Pop,
}

/// Every pushed payload can be framed.
pub open spec fn ops_valid(ops: Seq<QueueOp>) -> bool {
    forall|i: int| 0 <= i < ops.len()
        ==> ((#[trigger] ops[i]) matches QueueOp::Push(p) ==> message::valid_payload(p))
}

/// Runs a history over the pending payloads; yields the final pending
/// payloads and the frames emitted, in order.
pub open spec fn run_ops(queue: Seq<Seq<u8>>, ops: Seq<QueueOp>) -> (Seq<Seq<u8>>, Seq<Seq<u8>>)
    decreases ops.len(),
{
    if ops.len() == 0 {
        (queue, Seq::empty())
    } else {
        match ops[0] {
            QueueOp::Push(p) => run_ops(queue.push(p), ops.subrange(1, ops.len() as int)),
            QueueOp::Pop => {
                let (queue2, frame) = pop_step(queue);
                let (queue3, frames) = run_ops(queue2, ops.subrange(1, ops.len() as int));
                (queue3, seq![frame] + frames)
            },
        }
    }
}

/// The payload a real frame carries; meaningful only on frames that decode.
pub open spec fn carried_payload(frame: Seq<u8>) -> Seq<u8> {
    match message::decode_spec(frame) {
        Some(payload) => payload,
        None => Seq::empty(),
    }
}

/// The payloads carried by the real frames of a wire sequence, in order,
/// fillers skipped.
pub open spec fn real_payloads(frames: Seq<Seq<u8>>) -> Seq<Seq<u8>>
    decreases frames.len(),
{
    if frames.len() == 0 {
        Seq::empty()
    } else if message::is_noise_spec(frames[0]) {
        real_payloads(frames.subrange(1, frames.len() as int))
    } else {
        seq![carried_payload(frames[0])] + real_payloads(frames.subrange(1, frames.len() as int))
    }
}

/// The payloads a history makes available, in arrival order: what was
/// already pending, then each pushed payload in push order.
pub open spec fn arrival_order(queue: Seq<Seq<u8>>, ops: Seq<QueueOp>) -> Seq<Seq<u8>>
    decreases ops.len(),
{
    if ops.len() == 0 {
        queue
    } else {
        match ops[0] {
            QueueOp::Push(p) => arrival_order(queue.push(p), ops.subrange(1, ops.len() as int)),
            QueueOp::Pop => arrival_order(queue, ops.subrange(1, ops.len() as int)),
        }
    }
}

/// FIFO preservation: over any history of pushes and pops, the payloads
/// carried by the emitted real frames are exactly the first arrivals, in
/// arrival order — interleaved fillers never reorder real payloads.
pub proof fn lemma_fifo_preservation(queue: Seq<Seq<u8>>, ops: Seq<QueueOp>)
    requires
        all_valid_payloads(queue),
        ops_valid(ops),
    ensures
        ({
            let (_, frames) = run_ops(queue, ops);
            let emitted = real_payloads(frames);
            emitted.len() <= arrival_order(queue, ops).len()
                && emitted == arrival_order(queue, ops).take(emitted.len() as int)
        }),
    decreases ops.len(),
{
    let (qf, frames) = run_ops(queue, ops);
    let emitted = real_payloads(frames);
    let arrivals = arrival_order(queue, ops);
    if ops.len() == 0 {
        assert(emitted =~= arrivals.take(0));
    } else {
        let rest = ops.subrange(1, ops.len() as int);
        assert(ops_valid(rest)) by {
            assert(forall|i: int| 0 <= i < rest.len() ==> rest[i] == ops[i + 1]);
        }
        match ops[0] {
            QueueOp::Push(p) => {
                assert(message::valid_payload(p)) by {
                    assert(ops[0] matches QueueOp::Push(q) ==> message::valid_payload(q));
                }
                assert(all_valid_payloads(queue.push(p))) by {
                    assert(forall|i: int| 0 <= i < queue.len() ==> queue.push(p)[i] == queue[i]);
                }
                lemma_fifo_preservation(queue.push(p), rest);
            },
            QueueOp::Pop => {
                if queue.len() == 0 {
                    lemma_fifo_preservation(queue, rest);
                    let (_, frames2) = run_ops(queue, rest);
                    assert(frames == seq![message::noise_frame_spec()] + frames2);
                    assert(frames.subrange(1, frames.len() as int) =~= frames2);
                    assert(message::is_noise_spec(frames[0]));
                    assert(emitted == real_payloads(frames2));
                } else {
                    let front = queue[0];
                    let queue2 = queue.subrange(1, queue.len() as int);
                    assert(all_valid_payloads(queue2)) by {
                        assert(forall|i: int| 0 <= i < queue2.len() ==> queue2[i] == queue[i + 1]);
                    }
                    lemma_fifo_preservation(queue2, rest);
                    let (_, frames2) = run_ops(queue2, rest);
                    let emitted2 = real_payloads(frames2);
                    let arrivals2 = arrival_order(queue2, rest);
                    let frame = message::encode_spec(front);
                    assert(frames == seq![frame] + frames2);
                    assert(frames.subrange(1, frames.len() as int) =~= frames2);
                    message::lemma_real_frame_not_noise(front);
                    message::lemma_decode_encode(front);
                    assert(carried_payload(frame) == front);
                    assert(emitted == seq![front] + emitted2);
                    assert(arrivals == arrival_order(queue, rest));
                    lemma_arrival_order_drop_front(queue, rest);
                    assert(arrivals == seq![front] + arrivals2);
                    assert(emitted.len() == 1 + emitted2.len());
                    assert(emitted2 == arrivals2.take(emitted2.len() as int));
                    assert(forall|i: int| 0 <= i < emitted2.len()
                        ==> emitted2[i] == arrivals2.take(emitted2.len() as int)[i]);
                    assert(emitted =~= arrivals.take(emitted.len() as int));
                }
            },
        }
    }
}

/// Arrival order starts with the front pending payload.
proof fn lemma_arrival_order_drop_front(queue: Seq<Seq<u8>>, ops: Seq<QueueOp>)
    requires
        queue.len() > 0,
    ensures
        arrival_order(queue, ops)
            == seq![queue[0]] + arrival_order(queue.subrange(1, queue.len() as int), ops),
    decreases ops.len(),
{
    if ops.len() == 0 {
        assert(arrival_order(queue, ops) =~= seq![queue[0]]
            + arrival_order(queue.subrange(1, queue.len() as int), ops));
    } else {
        let rest = ops.subrange(1, ops.len() as int);
        match ops[0] {
            QueueOp::Push(p) => {
                lemma_arrival_order_drop_front(queue.push(p), rest);
                assert(queue.push(p)[0] == queue[0]);
                assert(queue.push(p).subrange(1, queue.push(p).len() as int)
                    =~= queue.subrange(1, queue.len() as int).push(p));
            },
            QueueOp::Pop => {
                lemma_arrival_order_drop_front(queue, rest);
            },
        }
    }
}

} // verus!
