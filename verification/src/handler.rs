//! Mix link connection handler.
//!
//! The per-connection state machine.  It owns one cover-traffic queue and
//! one cadence scheduler, and drives two independent substream lifecycles:
//! inbound (`Idle` / receiving) and outbound (awaiting a substream, ready,
//! or sending a frame).  The handler never blocks and never performs I/O
//! itself: the driving layer owns the streams, the timer's clock and the
//! task waker, repeatedly advances the handler with the outcome of the
//! outstanding operations, and performs the actions the handler returns.
//! Every decision the handler takes is pinned down by the pure transition
//! functions below, over which the link's ordering and isolation laws are
//! proved.

use std::collections::VecDeque;
use vstd::arithmetic::div_mod::lemma_basic_div;
use vstd::arithmetic::div_mod::lemma_div_is_ordered;
use vstd::arithmetic::div_mod::lemma_div_plus_one;
use vstd::prelude::*;
use crate::message;
use crate::queue;
use crate::queue::CoverTrafficQueue;
use crate::scheduler;
use crate::scheduler::CadenceScheduler;

verus! {

/// The cause carried by an I/O error event, as the driving layer reported
/// it; negotiation timeouts are reported as `TimedOut`.
#[derive(Clone, Copy, Debug, PartialEq, Eq, Structural)]
pub enum IoErrorKind {
    TimedOut,
    UnexpectedEof,
    BrokenPipe,
    Other,
}

/// Commands from the link-management collaborator.
#[derive(Debug)]
pub enum FromBehaviour {
    /// A payload to be sent to the connection.
    Message(Vec<u8>),
}

/// Events surfaced to the link-management collaborator.
#[derive(Debug, Clone, PartialEq, Eq)]
pub enum ToBehaviour {
    /// An outbound substream has been successfully negotiated.
    FullyNegotiatedOutbound,
    /// An outbound substream failed to be negotiated.
    NegotiationFailed,
    /// A real frame has been received from the connection.
    Message(Vec<u8>),
    /// An I/O error from the connection.
    IOError(IoErrorKind),
}

/// Outbound substream slot of one connection.
#[derive(Debug)]
pub enum OutboundSubstreamState {
    /// A request to open a new outbound substream is being processed.
    PendingOpenSubstream,
    /// An outbound substream is open and ready to send frames.
    Idle,
    /// A frame is being written on the outbound substream.
    PendingSend(Vec<u8>),
}

/// What happened to the substreams, reported by the driving layer.
#[derive(Clone, Copy, Debug)]
pub enum ConnectionEvent {
    /// The peer negotiated an inbound substream.
    FullyNegotiatedInbound,
    /// The requested outbound substream was negotiated.
    FullyNegotiatedOutbound,
    /// The requested outbound substream failed to upgrade.
    DialUpgradeError(UpgradeError),
}

/// How an outbound substream upgrade failed.  A malformed upgrade response
/// is a lower-layer contract violation: the driving layer aborts on it
/// instead of reporting it here.
#[derive(Clone, Copy, Debug)]
pub enum UpgradeError {
    NegotiationFailed,
    Io(IoErrorKind),
    Timeout,
}

/// Outcome of the outstanding inbound read, if one is outstanding.
#[derive(Debug)]
pub enum InboundPoll {
    /// No read outstanding, or the read has not finished.
    Pending,
    /// A whole frame arrived.
    Received(Vec<u8>),
    /// The read failed.
    Failed(IoErrorKind),
}

/// Outcome of the outstanding outbound write, if one is outstanding.
#[derive(Clone, Copy, Debug)]
pub enum SendPoll {
    /// No write outstanding, or the write has not finished.
    Pending,
    /// The frame was fully written and flushed.
    Completed,
    /// The write failed.
    Failed(IoErrorKind),
}

/// What one advance of the handler asks of the driving layer.
#[derive(Debug, PartialEq, Eq)]
pub enum PollOutput {
    /// Deliver this event to the collaborator.
    Event(ToBehaviour),
    /// Open a new outbound substream.
    RequestSubstream,
    /// Begin writing this frame on the outbound substream.
    StartSend(Vec<u8>),
    /// Nothing to do; wake the task when something changes.
    Pending,
}

/// Mathematical image of an event.
#[verifier::ext_equal]
pub ghost enum EventModel {
    FullyNegotiatedOutbound,
    NegotiationFailed,
    Message(Seq<u8>),
    IOError(IoErrorKind),
}

/// Mathematical image of the outbound slot.
#[verifier::ext_equal]
pub ghost enum OutboundModel {
    PendingOpen,
    Ready,
    Sending(Seq<u8>),
}

/// Mathematical image of an inbound read outcome.
#[verifier::ext_equal]
pub ghost enum InboundPollModel {
    Pending,
    Received(Seq<u8>),
    Failed(IoErrorKind),
}

/// Mathematical image of an advance's outcome.
#[verifier::ext_equal]
pub ghost enum OutputModel {
    Event(EventModel),
    RequestSubstream,
    StartSend(Seq<u8>),
    Pending,
}

/// Mathematical image of a whole handler.
#[verifier::ext_equal]
pub ghost struct HandlerModel {
    /// Whether an inbound read should be outstanding.
    pub receiving: bool,
    /// The outbound slot; nothing means no substream and none requested.
    pub outbound: Option<OutboundModel>,
    /// The cadence interval, milliseconds.
    pub interval_ms: int,
    /// When the next tick is due, milliseconds.
    pub deadline_ms: int,
    /// Pending real payloads, oldest first.
    pub queue: Seq<Seq<u8>>,
    /// Events not yet delivered to the collaborator, oldest first.
    pub pending_events: Seq<EventModel>,
    /// Whether the driving layer asked to be woken on a change.
    pub waker_registered: bool,
}

impl View for ToBehaviour {
    type V = EventModel;

    open spec fn view(&self) -> EventModel {
        match self {
            ToBehaviour::FullyNegotiatedOutbound => EventModel::FullyNegotiatedOutbound,
            ToBehaviour::NegotiationFailed => EventModel::NegotiationFailed,
            ToBehaviour::Message(payload) => EventModel::Message(payload@),
            ToBehaviour::IOError(kind) => EventModel::IOError(*kind),
        }
    }
}

impl View for OutboundSubstreamState {
    type V = OutboundModel;

    open spec fn view(&self) -> OutboundModel {
        match self {
            OutboundSubstreamState::PendingOpenSubstream => OutboundModel::PendingOpen,
            OutboundSubstreamState::Idle => OutboundModel::Ready,
            OutboundSubstreamState::PendingSend(frame) => OutboundModel::Sending(frame@),
        }
    }
}

impl View for InboundPoll {
    type V = InboundPollModel;

    open spec fn view(&self) -> InboundPollModel {
        match self {
            InboundPoll::Pending => InboundPollModel::Pending,
            InboundPoll::Received(frame) => InboundPollModel::Received(frame@),
            InboundPoll::Failed(kind) => InboundPollModel::Failed(*kind),
        }
    }
}

impl View for PollOutput {
    type V = OutputModel;

    open spec fn view(&self) -> OutputModel {
        match self {
            PollOutput::Event(event) => OutputModel::Event(event@),
            PollOutput::RequestSubstream => OutputModel::RequestSubstream,
            PollOutput::StartSend(frame) => OutputModel::StartSend(frame@),
            PollOutput::Pending => OutputModel::Pending,
        }
    }
}

/// A handler whose queued payloads can all be framed and whose cadence
/// interval is positive.
pub open spec fn handler_wf(m: HandlerModel) -> bool {
    &&& queue::all_valid_payloads(m.queue)
    &&& m.interval_ms >= 1
}

/// The handler a fresh connection starts with: inbound idle, no outbound
/// substream yet, nothing queued, nothing pending, timer armed at `now`.
pub open spec fn initial_handler(interval_ms: int, now_ms: int) -> HandlerModel {
    HandlerModel {
        receiving: false,
        outbound: None,
        interval_ms: interval_ms,
        deadline_ms: scheduler::next_deadline(now_ms, interval_ms),
        queue: Seq::empty(),
        pending_events: Seq::empty(),
        waker_registered: false,
    }
}

/// What an enqueue command does: the payload joins the back of the queue;
/// nothing else moves, and the command is never rejected.
pub open spec fn enqueue_transition(m: HandlerModel, payload: Seq<u8>) -> HandlerModel {
    HandlerModel { queue: m.queue.push(payload), ..m }
}

/// The event a substream upgrade failure turns into: a negotiation timeout
/// is reported as a timed-out I/O error.
pub open spec fn upgrade_error_event(error: UpgradeError) -> EventModel {
    match error {
        UpgradeError::NegotiationFailed => EventModel::NegotiationFailed,
        UpgradeError::Io(kind) => EventModel::IOError(kind),
        UpgradeError::Timeout => EventModel::IOError(IoErrorKind::TimedOut),
    }
}

/// What a connection event does: a negotiated inbound substream starts the
/// receive cycle; a negotiated outbound substream readies the outbound slot
/// and queues the notification; an upgrade failure queues its event —
/// failures are reported, never swallowed.
///
/// Chosen policy on a failed negotiation: the outbound slot stays as it
/// was, waiting on the request that failed — terminal for this layer, so
/// no new substream is requested and later advances return nothing.
/// Whether to redial is the collaborator's decision.  Only an I/O failure
/// on an open substream clears the slot and earns the implicit, immediate
/// re-request of the next advance.
pub open spec fn connection_transition(m: HandlerModel, event: ConnectionEvent) -> HandlerModel {
    match event {
        ConnectionEvent::FullyNegotiatedInbound => HandlerModel { receiving: true, ..m },
        ConnectionEvent::FullyNegotiatedOutbound => HandlerModel {
            outbound: Some(OutboundModel::Ready),
            pending_events: m.pending_events.push(EventModel::FullyNegotiatedOutbound),
            ..m
        },
        ConnectionEvent::DialUpgradeError(error) => HandlerModel {
            pending_events: m.pending_events.push(upgrade_error_event(error)),
            ..m
        },
    }
}

/// The inbound decision on one received frame: noise is silently discarded,
/// every other frame is delivered to the collaborator.
pub open spec fn inbound_frame_event(frame: Seq<u8>) -> Option<EventModel> {
    if message::is_noise_spec(frame) {
        None
    } else {
        Some(EventModel::Message(frame))
    }
}

/// The inbound half of one advance: a received frame is filtered; a failed
/// read surfaces its I/O error — failures are reported, never swallowed —
/// and resets the inbound slot to idle (receiving resumes if the peer
/// renegotiates); nothing outbound is touched.
pub open spec fn inbound_transition(m: HandlerModel, inbound: InboundPollModel) -> (
    HandlerModel,
    Option<EventModel>,
) {
    if !m.receiving {
        (m, None)
    } else {
        match inbound {
            InboundPollModel::Pending => (m, None),
            InboundPollModel::Received(frame) => (m, inbound_frame_event(frame)),
            InboundPollModel::Failed(kind) => (
                HandlerModel { receiving: false, ..m },
                Some(EventModel::IOError(kind)),
            ),
        }
    }
}

/// A ready outbound slot meeting the timer: on a due tick the queue is
/// popped — a real frame if one is pending, noise otherwise — the timer is
/// reset relative to now, and the write begins; otherwise the handler asks
/// to be woken.
pub open spec fn tick_transition(m: HandlerModel, now_ms: int) -> (HandlerModel, OutputModel) {
    if now_ms >= m.deadline_ms {
        let (queue2, frame) = queue::pop_step(m.queue);
        (
            HandlerModel {
                queue: queue2,
                deadline_ms: scheduler::next_deadline(now_ms, m.interval_ms),
                outbound: Some(OutboundModel::Sending(frame)),
                ..m
            },
            OutputModel::StartSend(frame),
        )
    } else {
        (HandlerModel { waker_registered: true, ..m }, OutputModel::Pending)
    }
}

/// The outbound half of one advance.  With no substream, one is requested.
/// While the request is out, the handler only waits: a rejected
/// negotiation does not clear the slot, so the wait is terminal until the
/// collaborator redials.  A completed write returns the slot to ready and
/// meets the timer at once.  A failed write surfaces exactly one I/O error
/// event and clears the slot, so the next advance requests a fresh
/// substream — the implicit, unconditional retry this layer owes the
/// collaborator.
pub open spec fn outbound_transition(m: HandlerModel, now_ms: int, send: SendPoll) -> (
    HandlerModel,
    OutputModel,
) {
    match m.outbound {
        None => (
            HandlerModel { outbound: Some(OutboundModel::PendingOpen), ..m },
            OutputModel::RequestSubstream,
        ),
        Some(OutboundModel::PendingOpen) => (
            HandlerModel { waker_registered: true, ..m },
            OutputModel::Pending,
        ),
        Some(OutboundModel::Ready) => tick_transition(m, now_ms),
        Some(OutboundModel::Sending(_)) => match send {
            SendPoll::Completed => tick_transition(
                HandlerModel { outbound: Some(OutboundModel::Ready), ..m },
                now_ms,
            ),
            SendPoll::Failed(kind) => (
                HandlerModel { outbound: None, ..m },
                OutputModel::Event(EventModel::IOError(kind)),
            ),
            SendPoll::Pending => (
                HandlerModel { waker_registered: true, ..m },
                OutputModel::Pending,
            ),
        },
    }
}

/// One whole advance: any buffered event is drained first — at most one
/// event per advance, none dropped — then the inbound outcome is handled,
/// then the outbound slot moves.
pub open spec fn poll_transition(
    m: HandlerModel,
    now_ms: int,
    inbound: InboundPollModel,
    send: SendPoll,
) -> (HandlerModel, OutputModel) {
    if m.pending_events.len() > 0 {
        (
            HandlerModel {
                pending_events: m.pending_events.subrange(1, m.pending_events.len() as int),
                ..m
            },
            OutputModel::Event(m.pending_events[0]),
        )
    } else {
        let (m1, event) = inbound_transition(m, inbound);
        match event {
            Some(e) => (m1, OutputModel::Event(e)),
            None => outbound_transition(m1, now_ms, send),
        }
    }
}

/// Per-connection handler of the mix protocol.
pub struct MixConnectionHandler {
    inbound_receiving: bool,
    outbound_substream: Option<OutboundSubstreamState>,
    scheduler: CadenceScheduler,
    queue: CoverTrafficQueue,
    pending_events_to_behaviour: VecDeque<ToBehaviour>,
    waker_registered: bool,
}

impl View for MixConnectionHandler {
    type V = HandlerModel;

    closed spec fn view(&self) -> HandlerModel {
        HandlerModel {
            receiving: self.inbound_receiving,
            outbound: match self.outbound_substream {
                None => None,
                Some(state) => Some(state@),
            },
            interval_ms: self.scheduler.interval(),
            deadline_ms: self.scheduler.deadline(),
            queue: self.queue@,
            pending_events: self.pending_events_to_behaviour@.map_values(|e: ToBehaviour| e@),
            waker_registered: self.waker_registered,
        }
    }
}

/// Copies a frame so that the sending slot and the driving layer each hold
/// the same bytes.
fn copy_frame(frame: &Vec<u8>) -> (copy: Vec<u8>)
    ensures
        copy@ == frame@,
{
    let mut copy: Vec<u8> = Vec::new();
    let mut i: usize = 0;
    while i < frame.len()
        invariant
            i <= frame@.len(),
            copy@ == frame@.take(i as int),
        decreases frame@.len() - i,
    {
        copy.push(frame[i]);
        proof {
            assert(copy@ =~= frame@.take(i + 1));
        }
        i = i + 1;
    }
    proof {
        assert(copy@ =~= frame@);
    }
    copy
}

impl MixConnectionHandler {
    /// Whether the handler's own invariants hold; constructors establish
    /// this and every operation preserves it.
    pub open spec fn well_formed(&self) -> bool {
        handler_wf(self@)
    }

    /// A handler for a fresh connection, pacing one frame per
    /// `interval_ms` milliseconds from `now_ms` on.
    pub fn new(interval_ms: u64, now_ms: u64) -> (handler: MixConnectionHandler)
        requires
            interval_ms >= 1,
        ensures
            handler@ == initial_handler(interval_ms as int, now_ms as int),
            handler.well_formed(),
    {
        let handler = MixConnectionHandler {
            inbound_receiving: false,
            outbound_substream: None,
            scheduler: CadenceScheduler::new(interval_ms, now_ms),
            queue: CoverTrafficQueue::new(),
            pending_events_to_behaviour: VecDeque::new(),
            waker_registered: false,
        };
        proof {
            assert(handler@.pending_events
                =~= Seq::<ToBehaviour>::empty().map_values(|e: ToBehaviour| e@));
            assert(handler@ =~~= initial_handler(interval_ms as int, now_ms as int));
        }
        handler
    }

    /// Takes the wake request, if the driving layer registered one.
    pub fn try_wake(&mut self) -> (wake: bool)
        ensures
            wake == old(self)@.waker_registered,
            final(self)@ == (HandlerModel { waker_registered: false, ..old(self)@ }),
    {
        let wake = self.waker_registered;
        self.waker_registered = false;
        proof {
            assert(final(self)@ =~~= (HandlerModel { waker_registered: false, ..old(self)@ }));
        }
        wake
    }

    /// Accepts a command from the collaborator: the payload is queued for
    /// transmission and never rejected.  Oversized or empty payloads are a
    /// contract violation of the upstream layer, excluded here rather than
    /// handled.
    pub fn on_behaviour_event(&mut self, event: FromBehaviour)
        requires
            old(self).well_formed(),
            event matches FromBehaviour::Message(payload) ==> message::valid_payload(payload@),
        ensures
            final(self).well_formed(),
            event matches FromBehaviour::Message(payload)
                ==> final(self)@ == enqueue_transition(old(self)@, payload@),
    {
        match event {
            FromBehaviour::Message(payload) => {
                let ghost p = payload@;
                self.queue.push(payload);
                proof {
                    assert(final(self)@ =~~= enqueue_transition(old(self)@, p));
                    assert(forall|i: int| 0 <= i < final(self)@.queue.len()
                        ==> message::valid_payload(#[trigger] final(self)@.queue[i]));
                }
            },
        }
    }

    /// Reacts to a substream lifecycle event and reports whether the
    /// driving layer should wake the task.
    pub fn on_connection_event(&mut self, event: ConnectionEvent) -> (wake: bool)
        requires
            old(self).well_formed(),
        ensures
            final(self).well_formed(),
            wake == old(self)@.waker_registered,
            final(self)@ == (HandlerModel {
                waker_registered: false,
                ..connection_transition(old(self)@, event)
            }),
    {
        match event {
            ConnectionEvent::FullyNegotiatedInbound => {
                self.inbound_receiving = true;
            },
            ConnectionEvent::FullyNegotiatedOutbound => {
                self.outbound_substream = Some(OutboundSubstreamState::Idle);
                self.pending_events_to_behaviour.push_back(ToBehaviour::FullyNegotiatedOutbound);
            },
            ConnectionEvent::DialUpgradeError(error) => {
                let queued = match error {
                    UpgradeError::NegotiationFailed => ToBehaviour::NegotiationFailed,
                    UpgradeError::Io(kind) => ToBehaviour::IOError(kind),
                    UpgradeError::Timeout => ToBehaviour::IOError(IoErrorKind::TimedOut),
                };
                proof {
                    assert(queued@ == upgrade_error_event(error));
                }
                self.pending_events_to_behaviour.push_back(queued);
            },
        }
        let wake = self.waker_registered;
        self.waker_registered = false;
        proof {
            assert(final(self)@.pending_events
                =~= (HandlerModel {
                    waker_registered: false,
                    ..connection_transition(old(self)@, event)
                }).pending_events);
            assert(final(self)@ =~~= (HandlerModel {
                waker_registered: false,
                ..connection_transition(old(self)@, event)
            }));
        }
        wake
    }

    /// The ready outbound slot meets the timer; factored out because a
    /// completed write falls through to the timer in the same advance.
    fn outbound_tick(&mut self, now_ms: u64) -> (output: PollOutput)
        requires
            old(self).well_formed(),
            old(self)@.outbound == Some(OutboundModel::Ready),
        ensures
            final(self).well_formed(),
            (final(self)@, output@) == tick_transition(old(self)@, now_ms as int),
    {
        if self.scheduler.is_due(now_ms) {
            let frame = self.queue.pop();
            self.scheduler.reset(now_ms);
            let sending = copy_frame(&frame);
            self.outbound_substream = Some(OutboundSubstreamState::PendingSend(sending));
            proof {
                let (m2, out) = tick_transition(old(self)@, now_ms as int);
                assert(final(self)@ =~~= m2);
            }
            PollOutput::StartSend(frame)
        } else {
            self.waker_registered = true;
            proof {
                let (m2, out) = tick_transition(old(self)@, now_ms as int);
                assert(final(self)@ =~~= m2);
            }
            PollOutput::Pending
        }
    }

    /// One advance of the state machine.  `now_ms` is the monotonic clock;
    /// `inbound` and `send` are the outcomes of the outstanding read and
    /// write.  Returns at most one event, a request for a substream, a
    /// frame to start writing, or nothing — in which case the handler has
    /// registered for a wake-up.
    pub fn poll(&mut self, now_ms: u64, inbound: InboundPoll, send: SendPoll) -> (output:
        PollOutput)
        requires
            old(self).well_formed(),
        ensures
            final(self).well_formed(),
            (final(self)@, output@) == poll_transition(
                old(self)@,
                now_ms as int,
                inbound@,
                send,
            ),
    {
        let ghost m0 = self@;
        // Drain any buffered event before doing new work.
        if let Some(event) = self.pending_events_to_behaviour.pop_front() {
            proof {
                assert(m0.pending_events.len() > 0);
                assert(event@ == m0.pending_events[0]);
                assert(final(self)@.pending_events
                    =~= m0.pending_events.subrange(1, m0.pending_events.len() as int));
                let (m2, out) = poll_transition(m0, now_ms as int, inbound@, send);
                assert(final(self)@ =~~= m2);
            }
            return PollOutput::Event(event);
        }
        proof {
            assert(m0.pending_events.len() == 0);
        }
        // Inbound: filter a received frame; report and reset a failed read.
        if self.inbound_receiving {
            match inbound {
                InboundPoll::Received(frame) => {
                    if !message::is_noise(frame.as_slice()) {
                        proof {
                            let (m2, out) = poll_transition(m0, now_ms as int, inbound@, send);
                            assert(final(self)@ =~~= m2);
                        }
                        return PollOutput::Event(ToBehaviour::Message(frame));
                    }
                },
                InboundPoll::Failed(kind) => {
                    self.inbound_receiving = false;
                    proof {
                        let (m2, out) = poll_transition(m0, now_ms as int, inbound@, send);
                        assert(final(self)@ =~~= m2);
                    }
                    return PollOutput::Event(ToBehaviour::IOError(kind));
                },
                InboundPoll::Pending => {},
            }
        }
        proof {
            let (m1, event) = inbound_transition(m0, inbound@);
            assert(self@ =~~= m1);
            assert(event is None);
        }
        let ghost m1 = self@;
        // Outbound: request, wait, tick or finish the write.
        let state = self.outbound_substream.take();
        let output = match state {
            None => {
                self.outbound_substream = Some(OutboundSubstreamState::PendingOpenSubstream);
                PollOutput::RequestSubstream
            },
            Some(OutboundSubstreamState::PendingOpenSubstream) => {
                self.outbound_substream = Some(OutboundSubstreamState::PendingOpenSubstream);
                self.waker_registered = true;
                PollOutput::Pending
            },
            Some(OutboundSubstreamState::Idle) => {
                self.outbound_substream = Some(OutboundSubstreamState::Idle);
                self.outbound_tick(now_ms)
            },
            Some(OutboundSubstreamState::PendingSend(frame)) => match send {
                SendPoll::Completed => {
                    self.outbound_substream = Some(OutboundSubstreamState::Idle);
                    self.outbound_tick(now_ms)
                },
                SendPoll::Failed(kind) => {
                    self.outbound_substream = None;
                    PollOutput::Event(ToBehaviour::IOError(kind))
                },
                SendPoll::Pending => {
                    self.outbound_substream = Some(OutboundSubstreamState::PendingSend(frame));
                    self.waker_registered = true;
                    PollOutput::Pending
                },
            },
        };
        proof {
            let (m2, out) = outbound_transition(m1, now_ms as int, send);
            assert(final(self)@ =~~= m2);
            assert(output@ == out);
        }
        output
    }
}

/// Message events the handler delivers for a sequence of inbound frames,
/// processed in arrival order.
pub open spec fn delivered_messages(wire: Seq<Seq<u8>>) -> Seq<Seq<u8>>
    decreases wire.len(),
{
    if wire.len() == 0 {
        Seq::empty()
    } else {
        let rest = delivered_messages(wire.subrange(1, wire.len() as int));
        match inbound_frame_event(wire[0]) {
            Some(event) => match event {
                EventModel::Message(payload) => seq![payload] + rest,
                _ => rest,
            },
            None => rest,
        }
    }
}

/// Inbound filtering: the sequence of message events delivered to the
/// collaborator equals the subsequence of real (non-noise) frames of the
/// wire, in order — noise produces no event at all.
pub proof fn lemma_inbound_filtering(wire: Seq<Seq<u8>>)
    ensures
        delivered_messages(wire) == wire.filter(|f: Seq<u8>| !message::is_noise_spec(f)),
    decreases wire.len(),
{
    let pred = |f: Seq<u8>| !message::is_noise_spec(f);
    if wire.len() == 0 {
        assert(wire.filter(pred) =~= Seq::<Seq<u8>>::empty()) by {
            reveal(Seq::filter);
        }
    } else {
        let rest = wire.subrange(1, wire.len() as int);
        lemma_inbound_filtering(rest);
        assert(wire =~= seq![wire[0]] + rest);
        Seq::lemma_filter_prepend(rest, wire[0], pred);
        if pred(wire[0]) {
            assert(delivered_messages(wire) == seq![wire[0]] + delivered_messages(rest));
        }
    }
}

/// The outbound machinery never touches the inbound slot: a stalled or
/// failing outbound substream cannot block inbound delivery.
pub proof fn lemma_outbound_preserves_inbound(m: HandlerModel, now_ms: int, send: SendPoll)
    ensures
        outbound_transition(m, now_ms, send).0.receiving == m.receiving,
{
}

/// The inbound machinery never touches the outbound slot, the timer or the
/// queue: a stalled inbound substream cannot delay the cadence.
pub proof fn lemma_inbound_preserves_outbound(m: HandlerModel, inbound: InboundPollModel)
    ensures
        inbound_transition(m, inbound).0.outbound == m.outbound,
        inbound_transition(m, inbound).0.queue == m.queue,
        inbound_transition(m, inbound).0.deadline_ms == m.deadline_ms,
        inbound_transition(m, inbound).0.interval_ms == m.interval_ms,
{
}

/// Failure isolation: a failed outbound write surfaces exactly one I/O
/// error event and clears only the outbound slot — queue, timer and
/// inbound state keep their progress — and the very next advance requests
/// a fresh outbound substream instead of reporting anything further.
pub proof fn lemma_failure_isolation(
    m: HandlerModel,
    now1_ms: int,
    now2_ms: int,
    kind: IoErrorKind,
    send2: SendPoll,
)
    requires
        m.outbound matches Some(OutboundModel::Sending(_)),
    ensures
        ({
            let (m1, out1) = outbound_transition(m, now1_ms, SendPoll::Failed(kind));
            let (m2, out2) = outbound_transition(m1, now2_ms, send2);
            &&& out1 == OutputModel::Event(EventModel::IOError(kind))
            &&& m1.outbound is None
            &&& m1.receiving == m.receiving
            &&& m1.queue == m.queue
            &&& m1.deadline_ms == m.deadline_ms
            &&& out2 == OutputModel::RequestSubstream
            &&& m2.outbound == Some(OutboundModel::PendingOpen)
            &&& m2.receiving == m.receiving
            &&& m2.queue == m.queue
        }),
{
}

/// Constant cadence, indifference to load: whether a frame leaves on an
/// advance, and when the next one may leave, depends only on the outbound
/// slot and the timer — never on how many real payloads are queued.  A due
/// tick always starts a send; queued payloads only decide whether the
/// frame is real or noise.
pub proof fn lemma_cadence_independent_of_queue(
    m1: HandlerModel,
    m2: HandlerModel,
    now_ms: int,
    send: SendPoll,
)
    requires
        m1.outbound == m2.outbound,
        m1.deadline_ms == m2.deadline_ms,
        m1.interval_ms == m2.interval_ms,
    ensures
        ({
            let (n1, o1) = outbound_transition(m1, now_ms, send);
            let (n2, o2) = outbound_transition(m2, now_ms, send);
            &&& (o1 is StartSend <==> o2 is StartSend)
            &&& n1.deadline_ms == n2.deadline_ms
            &&& n1.outbound is Some <==> n2.outbound is Some
        }),
{
}

/// A due tick on a ready substream always emits a frame: noise exactly
/// when no real payload is pending, the oldest real payload otherwise.
pub proof fn lemma_due_tick_always_sends(m: HandlerModel, now_ms: int, send: SendPoll)
    requires
        m.outbound == Some(OutboundModel::Ready),
        now_ms >= m.deadline_ms,
    ensures
        ({
            let (m2, out) = outbound_transition(m, now_ms, send);
            &&& out == OutputModel::StartSend(queue::pop_step(m.queue).1)
            &&& (m.queue.len() == 0 ==> out == OutputModel::StartSend(message::noise_frame_spec()))
            &&& (m.queue.len() > 0 ==> out == OutputModel::StartSend(
                message::encode_spec(m.queue[0]),
            ))
        }),
{
}

/// How the ideal executor advances the handler: once every millisecond,
/// with nothing arriving inbound and every started write completed by the
/// next advance.
pub open spec fn drive_step(m: HandlerModel, now_ms: int) -> (HandlerModel, OutputModel) {
    poll_transition(m, now_ms, InboundPollModel::Pending, SendPoll::Completed)
}

/// How many frames leave the link during the `steps` milliseconds after
/// `start_ms`, under the ideal executor.
pub open spec fn frames_started(m: HandlerModel, start_ms: int, steps: nat) -> int
    decreases steps,
{
    if steps == 0 {
        0
    } else {
        let (m2, out) = drive_step(m, start_ms + 1);
        (if out is StartSend {
            1int
        } else {
            0int
        }) + frames_started(m2, start_ms + 1, (steps - 1) as nat)
    }
}

/// The ticks a window can see of a timer due at `deadline_ms` that re-arms
/// itself every `interval_ms`.
spec fn expected_frames(deadline_ms: int, interval_ms: int, window_end_ms: int) -> int {
    if deadline_ms <= window_end_ms {
        (window_end_ms - deadline_ms) / interval_ms + 1
    } else {
        0
    }
}

/// Between ticks the ideal drive only waits; on each tick one frame leaves
/// and the timer re-arms one interval ahead.
proof fn lemma_paced_drive(m: HandlerModel, now_ms: int, steps: nat)
    requires
        m.pending_events.len() == 0,
        m.outbound == Some(OutboundModel::Ready) || m.outbound matches Some(
            OutboundModel::Sending(_),
        ),
        m.interval_ms >= 1,
        now_ms < m.deadline_ms <= now_ms + m.interval_ms,
        0 <= now_ms,
        now_ms + steps + m.interval_ms <= u64::MAX as int,
    ensures
        frames_started(m, now_ms, steps) == expected_frames(
            m.deadline_ms,
            m.interval_ms,
            now_ms + steps,
        ),
    decreases steps,
{
    if steps > 0 {
        let t = now_ms + 1;
        let (m2, out) = drive_step(m, t);
        let e = now_ms + steps;
        if t == m.deadline_ms {
            assert(out is StartSend);
            assert(m2.deadline_ms == t + m.interval_ms);
            assert(m2.pending_events.len() == 0);
            lemma_paced_drive(m2, t, (steps - 1) as nat);
            if m.deadline_ms + m.interval_ms <= e {
                lemma_div_plus_one(e - m.deadline_ms - m.interval_ms, m.interval_ms);
            } else {
                lemma_basic_div(e - m.deadline_ms, m.interval_ms);
            }
        } else {
            assert(out is Pending);
            assert(m2.deadline_ms == m.deadline_ms);
            lemma_paced_drive(m2, t, (steps - 1) as nat);
        }
    }
}

/// Constant cadence at the handler: from the start of a tick cycle, the
/// ideal drive sees exactly `window_ms / interval_ms` frames leave in a
/// window of `window_ms` milliseconds — one per interval.  Nothing here
/// constrains the queue: pending real payloads decide only which frames
/// are real, never how many leave.
pub proof fn lemma_handler_constant_cadence(m: HandlerModel, now_ms: int, window_ms: int)
    requires
        m.pending_events.len() == 0,
        m.outbound == Some(OutboundModel::Ready),
        m.interval_ms >= 1,
        m.deadline_ms == now_ms + m.interval_ms,
        0 <= now_ms,
        0 <= window_ms,
        now_ms + window_ms + m.interval_ms <= u64::MAX as int,
    ensures
        frames_started(m, now_ms, window_ms as nat) == window_ms / m.interval_ms,
{
    lemma_paced_drive(m, now_ms, window_ms as nat);
    if m.deadline_ms <= now_ms + window_ms {
        lemma_div_plus_one(window_ms - m.interval_ms, m.interval_ms);
    } else {
        lemma_basic_div(window_ms, m.interval_ms);
    }
}


/// The message events delivered while the handler is advanced over a
/// whole wire of inbound frames — one frame per advance, the outbound
/// write left outstanding.
pub open spec fn wire_deliveries(m: HandlerModel, now_ms: int, wire: Seq<Seq<u8>>) -> Seq<Seq<u8>>
    decreases wire.len(),
{
    if wire.len() == 0 {
        Seq::empty()
    } else {
        let (m2, out) = poll_transition(
            m,
            now_ms,
            InboundPollModel::Received(wire[0]),
            SendPoll::Pending,
        );
        let rest = wire_deliveries(m2, now_ms, wire.subrange(1, wire.len() as int));
        match out {
            OutputModel::Event(EventModel::Message(payload)) => seq![payload] + rest,
            _ => rest,
        }
    }
}

/// Inbound filtering over a whole wire, at the advance function: a
/// receiving handler with nothing buffered, fed the wire frame by frame,
/// delivers exactly the subsequence of real frames, in order.
pub proof fn lemma_inbound_filtering_at_poll(m: HandlerModel, now_ms: int, wire: Seq<Seq<u8>>)
    requires
        m.pending_events.len() == 0,
        m.receiving,
    ensures
        wire_deliveries(m, now_ms, wire) == wire.filter(|f: Seq<u8>| !message::is_noise_spec(f)),
    decreases wire.len(),
{
    let pred = |f: Seq<u8>| !message::is_noise_spec(f);
    if wire.len() == 0 {
        assert(wire.filter(pred) =~= Seq::<Seq<u8>>::empty()) by {
            reveal(Seq::filter);
        }
    } else {
        let rest = wire.subrange(1, wire.len() as int);
        let (m2, out) = poll_transition(
            m,
            now_ms,
            InboundPollModel::Received(wire[0]),
            SendPoll::Pending,
        );
        assert(m2.pending_events.len() == 0);
        assert(m2.receiving);
        lemma_inbound_filtering_at_poll(m2, now_ms, rest);
        assert(wire =~= seq![wire[0]] + rest);
        Seq::lemma_filter_prepend(rest, wire[0], pred);
    }
}


/// One step of a link's outbound history: the collaborator hands a payload
/// over, or the executor advances the handler at some instant, reporting
/// whether the outstanding write has completed.  Histories here are
/// failure-free; what one failed write does is the isolation law's ground.
pub ghost enum LinkOp {
    Enqueue(Seq<u8>),
    Advance { now_ms: int, completed: bool },
}

/// The write outcome an advance reports.
pub open spec fn advance_send(completed: bool) -> SendPoll {
    if completed {
        SendPoll::Completed
    } else {
        SendPoll::Pending
    }
}

/// Every payload enqueued over the history can be framed.
pub open spec fn link_ops_valid(ops: Seq<LinkOp>) -> bool {
    forall|i: int| 0 <= i < ops.len()
        ==> ((#[trigger] ops[i]) matches LinkOp::Enqueue(p) ==> message::valid_payload(p))
}

/// The frames the handler starts sending over a history, in order, with
/// the inbound side quiet.
pub open spec fn frames_sent(m: HandlerModel, ops: Seq<LinkOp>) -> Seq<Seq<u8>>
    decreases ops.len(),
{
    if ops.len() == 0 {
        Seq::empty()
    } else {
        match ops[0] {
            LinkOp::Enqueue(p) => frames_sent(
                enqueue_transition(m, p),
                ops.subrange(1, ops.len() as int),
            ),
            LinkOp::Advance { now_ms, completed } => {
                let (m2, out) = poll_transition(
                    m,
                    now_ms,
                    InboundPollModel::Pending,
                    advance_send(completed),
                );
                let rest = frames_sent(m2, ops.subrange(1, ops.len() as int));
                match out {
                    OutputModel::StartSend(frame) => seq![frame] + rest,
                    _ => rest,
                }
            },
        }
    }
}

/// The payloads a history hands over, in arrival order.
pub open spec fn link_arrivals(ops: Seq<LinkOp>) -> Seq<Seq<u8>>
    decreases ops.len(),
{
    if ops.len() == 0 {
        Seq::empty()
    } else {
        match ops[0] {
            LinkOp::Enqueue(p) => seq![p] + link_arrivals(ops.subrange(1, ops.len() as int)),
            LinkOp::Advance { .. } => link_arrivals(ops.subrange(1, ops.len() as int)),
        }
    }
}

/// FIFO preservation at the advance function: over any failure-free
/// history of enqueues and advances, the payloads carried by the real
/// frames the handler starts sending are exactly the first pending or
/// enqueued payloads, in arrival order — interleaved fillers never
/// reorder, lose or duplicate a real payload — and every started frame,
/// real or filler, fills a whole frame.
pub proof fn lemma_fifo_at_poll(m: HandlerModel, ops: Seq<LinkOp>)
    requires
        m.pending_events.len() == 0,
        queue::all_valid_payloads(m.queue),
        link_ops_valid(ops),
    ensures
        ({
            let frames = frames_sent(m, ops);
            let emitted = queue::real_payloads(frames);
            let arrivals = m.queue + link_arrivals(ops);
            &&& emitted.len() <= arrivals.len()
            &&& emitted == arrivals.take(emitted.len() as int)
            &&& forall|i: int| 0 <= i < frames.len() ==> (#[trigger] frames[i]).len()
                == message::MSG_SIZE as int
        }),
    decreases ops.len(),
{
    let frames = frames_sent(m, ops);
    let emitted = queue::real_payloads(frames);
    let arrivals = m.queue + link_arrivals(ops);
    if ops.len() == 0 {
        assert(emitted =~= arrivals.take(0));
    } else {
        let rest = ops.subrange(1, ops.len() as int);
        assert(link_ops_valid(rest)) by {
            assert(forall|i: int| 0 <= i < rest.len() ==> rest[i] == ops[i + 1]);
        }
        match ops[0] {
            LinkOp::Enqueue(p) => {
                assert(message::valid_payload(p)) by {
                    assert(ops[0] matches LinkOp::Enqueue(q) ==> message::valid_payload(q));
                }
                let m1 = enqueue_transition(m, p);
                assert(queue::all_valid_payloads(m1.queue)) by {
                    assert(forall|i: int| 0 <= i < m.queue.len() ==> m1.queue[i] == m.queue[i]);
                }
                lemma_fifo_at_poll(m1, rest);
                assert(arrivals =~= m1.queue + link_arrivals(rest));
            },
            LinkOp::Advance { now_ms, completed } => {
                let send = advance_send(completed);
                let (m2, out) = poll_transition(m, now_ms, InboundPollModel::Pending, send);
                assert(m2.pending_events.len() == 0);
                let frames2 = frames_sent(m2, rest);
                if out is StartSend {
                    assert(queue::all_valid_payloads(m2.queue)) by {
                        if m.queue.len() > 0 {
                            assert(forall|i: int| 0 <= i < m2.queue.len()
                                ==> m2.queue[i] == m.queue[i + 1]);
                        }
                    }
                    lemma_fifo_at_poll(m2, rest);
                    let emitted2 = queue::real_payloads(frames2);
                    let arrivals2 = m2.queue + link_arrivals(rest);
                    if m.queue.len() == 0 {
                        let frame = message::noise_frame_spec();
                        assert(out == OutputModel::StartSend(frame));
                        assert(frames == seq![frame] + frames2);
                        assert(frames.subrange(1, frames.len() as int) =~= frames2);
                        assert(message::is_noise_spec(frame));
                        assert(emitted == emitted2);
                        assert(arrivals =~= arrivals2);
                    } else {
                        let front = m.queue[0];
                        let frame = message::encode_spec(front);
                        assert(out == OutputModel::StartSend(frame));
                        assert(frames == seq![frame] + frames2);
                        assert(frames.subrange(1, frames.len() as int) =~= frames2);
                        message::lemma_real_frame_not_noise(front);
                        message::lemma_decode_encode(front);
                        message::lemma_encode_len(front);
                        assert(queue::carried_payload(frame) == front);
                        assert(emitted == seq![front] + emitted2);
                        assert(arrivals =~= seq![front] + arrivals2);
                        assert(emitted.len() == 1 + emitted2.len());
                        assert(forall|i: int| 0 <= i < emitted2.len()
                            ==> emitted2[i] == arrivals2.take(emitted2.len() as int)[i]);
                        assert(emitted =~= arrivals.take(emitted.len() as int));
                    }
                } else {
                    assert(m2.queue == m.queue);
                    lemma_fifo_at_poll(m2, rest);
                    assert(frames == frames2);
                    assert(arrivals =~= m2.queue + link_arrivals(rest));
                }
            },
        }
    }
}


/// The per-advance emission pattern of a history: whether each advance
/// started a frame.
pub open spec fn send_pattern(m: HandlerModel, ops: Seq<LinkOp>) -> Seq<bool>
    decreases ops.len(),
{
    if ops.len() == 0 {
        Seq::empty()
    } else {
        match ops[0] {
            LinkOp::Enqueue(p) => send_pattern(
                enqueue_transition(m, p),
                ops.subrange(1, ops.len() as int),
            ),
            LinkOp::Advance { now_ms, completed } => {
                let (m2, out) = poll_transition(
                    m,
                    now_ms,
                    InboundPollModel::Pending,
                    advance_send(completed),
                );
                let fired = out is StartSend;
                seq![fired] + send_pattern(m2, ops.subrange(1, ops.len() as int))
            },
        }
    }
}

/// Two outbound slots hold the same shape, whatever frame either carries.
pub open spec fn same_outbound_shape(o1: Option<OutboundModel>, o2: Option<OutboundModel>) -> bool {
    match (o1, o2) {
        (None, None) => true,
        (Some(OutboundModel::PendingOpen), Some(OutboundModel::PendingOpen)) => true,
        (Some(OutboundModel::Ready), Some(OutboundModel::Ready)) => true,
        (Some(OutboundModel::Sending(_)), Some(OutboundModel::Sending(_))) => true,
        _ => false,
    }
}

/// Indistinguishability of load over whole histories: two handlers that
/// agree on everything but their queued payloads and in-flight frame bytes
/// start frames on exactly the same advances.  When traffic leaves never
/// depends on what is queued; what is queued decides only whether a frame
/// is real or filler, and every frame fills the same fixed size.
pub proof fn lemma_send_pattern_independent_of_queue(
    m1: HandlerModel,
    m2: HandlerModel,
    ops: Seq<LinkOp>,
)
    requires
        m1.pending_events.len() == 0,
        m2.pending_events.len() == 0,
        same_outbound_shape(m1.outbound, m2.outbound),
        m1.deadline_ms == m2.deadline_ms,
        m1.interval_ms == m2.interval_ms,
    ensures
        send_pattern(m1, ops) == send_pattern(m2, ops),
    decreases ops.len(),
{
    if ops.len() == 0 {
        assert(send_pattern(m1, ops) =~= send_pattern(m2, ops));
    } else {
        let rest = ops.subrange(1, ops.len() as int);
        match ops[0] {
            LinkOp::Enqueue(p) => {
                lemma_send_pattern_independent_of_queue(
                    enqueue_transition(m1, p),
                    enqueue_transition(m2, p),
                    rest,
                );
            },
            LinkOp::Advance { now_ms, completed } => {
                let send = advance_send(completed);
                let (n1, out1) = poll_transition(m1, now_ms, InboundPollModel::Pending, send);
                let (n2, out2) = poll_transition(m2, now_ms, InboundPollModel::Pending, send);
                assert((out1 is StartSend) == (out2 is StartSend));
                assert(same_outbound_shape(n1.outbound, n2.outbound));
                assert(n1.deadline_ms == n2.deadline_ms);
                lemma_send_pattern_independent_of_queue(n1, n2, rest);
                assert(send_pattern(m1, ops) =~= send_pattern(m2, ops));
            },
        }
    }
}

/// Constant cadence over any observation window: wherever within a tick
/// cycle the window starts, the ideal drive sees `window / interval`
/// frames leave, give or take one.
pub proof fn lemma_handler_cadence_any_window(m: HandlerModel, now_ms: int, window_ms: int)
    requires
        m.pending_events.len() == 0,
        m.outbound == Some(OutboundModel::Ready) || m.outbound matches Some(
            OutboundModel::Sending(_),
        ),
        m.interval_ms >= 1,
        now_ms < m.deadline_ms <= now_ms + m.interval_ms,
        0 <= now_ms,
        0 <= window_ms,
        now_ms + window_ms + m.interval_ms <= u64::MAX as int,
    ensures
        ({
            let count = frames_started(m, now_ms, window_ms as nat);
            window_ms / m.interval_ms <= count <= window_ms / m.interval_ms + 1
        }),
{
    lemma_paced_drive(m, now_ms, window_ms as nat);
    let interval = m.interval_ms;
    let reach = now_ms + window_ms - m.deadline_ms;
    if m.deadline_ms <= now_ms + window_ms {
        lemma_div_plus_one(window_ms - interval, interval);
        lemma_div_is_ordered(window_ms - interval, reach, interval);
        lemma_div_is_ordered(reach, window_ms, interval);
    } else {
        lemma_basic_div(window_ms, interval);
    }
}

} // verus!\n