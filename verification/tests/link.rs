use mix_link::handler::{
    ConnectionEvent, FromBehaviour, InboundPoll, IoErrorKind, MixConnectionHandler, PollOutput,
    SendPoll, ToBehaviour, UpgradeError,
};
use mix_link::message::{decode_frame, encode_payload, encode_noise, is_noise};
use mix_link::scheduler::CadenceScheduler;

fn idle_poll(handler: &mut MixConnectionHandler, now_ms: u64) -> PollOutput {
    handler.poll(now_ms, InboundPoll::Pending, SendPoll::Pending)
}

#[test]
fn fresh_handler_requests_a_substream() {
    let mut handler = MixConnectionHandler::new(500, 0);
    assert_eq!(idle_poll(&mut handler, 0), PollOutput::RequestSubstream);
    assert_eq!(idle_poll(&mut handler, 0), PollOutput::Pending);
}

#[test]
fn negotiated_outbound_is_reported_before_new_work() {
    let mut handler = MixConnectionHandler::new(500, 0);
    assert_eq!(idle_poll(&mut handler, 0), PollOutput::RequestSubstream);
    let wake = handler.on_connection_event(ConnectionEvent::FullyNegotiatedOutbound);
    assert!(!wake);
    assert_eq!(
        idle_poll(&mut handler, 600),
        PollOutput::Event(ToBehaviour::FullyNegotiatedOutbound)
    );
}

#[test]
fn end_to_end_scenario_rate_two_per_second() {
    // Rate 2.0 messages per second: interval 500 ms.  One real payload is
    // queued at t = 0; the first frame leaves at t = 500 and carries it;
    // the three frames up to t = 2000 are noise.
    let mut handler = MixConnectionHandler::new(500, 0);
    assert_eq!(idle_poll(&mut handler, 0), PollOutput::RequestSubstream);
    handler.on_connection_event(ConnectionEvent::FullyNegotiatedOutbound);
    assert_eq!(
        idle_poll(&mut handler, 0),
        PollOutput::Event(ToBehaviour::FullyNegotiatedOutbound)
    );
    handler.on_behaviour_event(FromBehaviour::Message(b"hello".to_vec()));

    let mut frames: Vec<(u64, Vec<u8>)> = Vec::new();
    let mut send = SendPoll::Pending;
    for now in (0..=2000u64).step_by(100) {
        match handler.poll(now, InboundPoll::Pending, send) {
            PollOutput::StartSend(frame) => {
                frames.push((now, frame));
                // The write completes before the next advance.
                send = SendPoll::Completed;
            }
            PollOutput::Pending => {
                send = SendPoll::Pending;
            }
            other => panic!("unexpected advance outcome: {:?}", other),
        }
    }

    assert_eq!(frames.len(), 4);
    assert_eq!(frames[0].0, 500);
    assert_eq!(decode_frame(&frames[0].1), Some(b"hello".to_vec()));
    for (at, frame) in &frames[1..] {
        assert!(*at <= 2000);
        assert!(is_noise(frame), "frame at {} should be filler", at);
    }
    assert_eq!(frames[1].0, 1000);
    assert_eq!(frames[2].0, 1500);
    assert_eq!(frames[3].0, 2000);
}

#[test]
fn constant_cadence_with_many_payloads() {
    // However many real payloads are pending, exactly one frame leaves per
    // 500 ms interval: floor(3000 / 500) = 6 frames in the window.
    let mut handler = MixConnectionHandler::new(500, 0);
    idle_poll(&mut handler, 0);
    handler.on_connection_event(ConnectionEvent::FullyNegotiatedOutbound);
    idle_poll(&mut handler, 0);
    for i in 0..20u8 {
        handler.on_behaviour_event(FromBehaviour::Message(vec![i + 1; 8]));
    }
    let mut sends = 0;
    let mut send = SendPoll::Pending;
    for now in (0..=3000u64).step_by(50) {
        match handler.poll(now, InboundPoll::Pending, send) {
            PollOutput::StartSend(_) => {
                sends += 1;
                send = SendPoll::Completed;
            }
            PollOutput::Pending => {
                send = SendPoll::Pending;
            }
            other => panic!("unexpected advance outcome: {:?}", other),
        }
    }
    assert_eq!(sends, 6);
}

#[test]
fn inbound_filtering_delivers_real_frames_in_order() {
    // Wire sequence: noise, real a, noise, noise, real b, real c.  The
    // collaborator sees exactly a, b, c, in order, and nothing for noise.
    let mut handler = MixConnectionHandler::new(500, 0);
    idle_poll(&mut handler, 0);
    handler.on_connection_event(ConnectionEvent::FullyNegotiatedInbound);

    let wire = vec![
        encode_noise(),
        encode_payload(b"a").unwrap(),
        encode_noise(),
        encode_noise(),
        encode_payload(b"b").unwrap(),
        encode_payload(b"c").unwrap(),
    ];
    let mut delivered: Vec<Vec<u8>> = Vec::new();
    for frame in wire {
        match handler.poll(1, InboundPoll::Received(frame), SendPoll::Pending) {
            PollOutput::Event(ToBehaviour::Message(frame)) => {
                delivered.push(decode_frame(&frame).unwrap());
            }
            PollOutput::Event(other) => panic!("unexpected event: {:?}", other),
            _ => {}
        }
    }
    assert_eq!(delivered, vec![b"a".to_vec(), b"b".to_vec(), b"c".to_vec()]);
}

#[test]
fn fifo_preserved_across_fillers_on_the_wire() {
    let mut handler = MixConnectionHandler::new(100, 0);
    idle_poll(&mut handler, 0);
    handler.on_connection_event(ConnectionEvent::FullyNegotiatedOutbound);
    idle_poll(&mut handler, 0);
    handler.on_behaviour_event(FromBehaviour::Message(b"p1".to_vec()));
    handler.on_behaviour_event(FromBehaviour::Message(b"p2".to_vec()));

    let mut reals: Vec<Vec<u8>> = Vec::new();
    let mut send = SendPoll::Pending;
    for now in (0..=600u64).step_by(50) {
        match handler.poll(now, InboundPoll::Pending, send) {
            PollOutput::StartSend(frame) => {
                if let Some(payload) = decode_frame(&frame) {
                    reals.push(payload);
                }
                send = SendPoll::Completed;
                if now == 300 {
                    handler.on_behaviour_event(FromBehaviour::Message(b"p3".to_vec()));
                }
            }
            _ => {
                send = SendPoll::Pending;
            }
        }
    }
    assert_eq!(reals, vec![b"p1".to_vec(), b"p2".to_vec(), b"p3".to_vec()]);
}

#[test]
fn failure_isolation_single_error_then_fresh_substream() {
    // An injected write failure yields exactly one IOError event, and the
    // next advance requests a fresh outbound substream.
    let mut handler = MixConnectionHandler::new(500, 0);
    idle_poll(&mut handler, 0);
    handler.on_connection_event(ConnectionEvent::FullyNegotiatedOutbound);
    idle_poll(&mut handler, 0);
    handler.on_connection_event(ConnectionEvent::FullyNegotiatedInbound);

    // The tick starts a send.
    match handler.poll(500, InboundPoll::Pending, SendPoll::Pending) {
        PollOutput::StartSend(_) => {}
        other => panic!("expected a send to start, got {:?}", other),
    }
    // The write fails: one IOError event.
    assert_eq!(
        handler.poll(550, InboundPoll::Pending, SendPoll::Failed(IoErrorKind::BrokenPipe)),
        PollOutput::Event(ToBehaviour::IOError(IoErrorKind::BrokenPipe))
    );
    // Inbound progress is untouched: a real frame still comes through,
    // before any outbound work.
    let frame = encode_payload(b"still-receiving").unwrap();
    match handler.poll(560, InboundPoll::Received(frame), SendPoll::Pending) {
        PollOutput::Event(ToBehaviour::Message(frame)) => {
            assert_eq!(decode_frame(&frame), Some(b"still-receiving".to_vec()));
        }
        other => panic!("expected the inbound message, got {:?}", other),
    }
    // The next outbound cycle asks for a fresh substream, nothing more.
    assert_eq!(idle_poll(&mut handler, 570), PollOutput::RequestSubstream);
}

#[test]
fn negotiation_failure_scenario() {
    // A rejected substream negotiation: a single NegotiationFailed event;
    // the outbound slot then waits for the collaborator's redial decision
    // and the handler keeps running.
    let mut handler = MixConnectionHandler::new(500, 0);
    assert_eq!(idle_poll(&mut handler, 0), PollOutput::RequestSubstream);
    assert_eq!(idle_poll(&mut handler, 5), PollOutput::Pending);
    let wake = handler.on_connection_event(ConnectionEvent::DialUpgradeError(
        UpgradeError::NegotiationFailed,
    ));
    assert!(wake, "a pending advance should be woken");
    assert_eq!(
        idle_poll(&mut handler, 10),
        PollOutput::Event(ToBehaviour::NegotiationFailed)
    );
    // No second event, no crash; inbound still works.
    assert_eq!(idle_poll(&mut handler, 20), PollOutput::Pending);
    handler.on_connection_event(ConnectionEvent::FullyNegotiatedInbound);
    let frame = encode_payload(b"x").unwrap();
    match handler.poll(30, InboundPoll::Received(frame), SendPoll::Pending) {
        PollOutput::Event(ToBehaviour::Message(_)) => {}
        other => panic!("expected the inbound message, got {:?}", other),
    }
}

#[test]
fn negotiation_timeout_reports_timed_out_io_error() {
    let mut handler = MixConnectionHandler::new(500, 0);
    idle_poll(&mut handler, 0);
    handler.on_connection_event(ConnectionEvent::DialUpgradeError(UpgradeError::Timeout));
    assert_eq!(
        idle_poll(&mut handler, 10),
        PollOutput::Event(ToBehaviour::IOError(IoErrorKind::TimedOut))
    );
}

#[test]
fn upgrade_io_error_is_forwarded() {
    let mut handler = MixConnectionHandler::new(500, 0);
    idle_poll(&mut handler, 0);
    handler.on_connection_event(ConnectionEvent::DialUpgradeError(UpgradeError::Io(
        IoErrorKind::UnexpectedEof,
    )));
    assert_eq!(
        idle_poll(&mut handler, 10),
        PollOutput::Event(ToBehaviour::IOError(IoErrorKind::UnexpectedEof))
    );
}

#[test]
fn failed_read_is_reported_and_resets_inbound() {
    let mut handler = MixConnectionHandler::new(500, 0);
    idle_poll(&mut handler, 0);
    handler.on_connection_event(ConnectionEvent::FullyNegotiatedInbound);
    // The failed read surfaces its I/O error and resets the inbound slot.
    assert_eq!(
        handler.poll(10, InboundPoll::Failed(IoErrorKind::UnexpectedEof), SendPoll::Pending),
        PollOutput::Event(ToBehaviour::IOError(IoErrorKind::UnexpectedEof))
    );
    // Exactly one event: the next advance goes back to outbound waiting.
    assert_eq!(idle_poll(&mut handler, 15), PollOutput::Pending);
    // A renegotiated inbound substream resumes delivery.
    handler.on_connection_event(ConnectionEvent::FullyNegotiatedInbound);
    let frame = encode_payload(b"back").unwrap();
    match handler.poll(20, InboundPoll::Received(frame), SendPoll::Pending) {
        PollOutput::Event(ToBehaviour::Message(_)) => {}
        other => panic!("expected the inbound message, got {:?}", other),
    }
}

#[test]
fn pending_events_drain_one_per_advance() {
    let mut handler = MixConnectionHandler::new(500, 0);
    idle_poll(&mut handler, 0);
    handler.on_connection_event(ConnectionEvent::DialUpgradeError(UpgradeError::NegotiationFailed));
    handler.on_connection_event(ConnectionEvent::DialUpgradeError(UpgradeError::Timeout));
    assert_eq!(
        idle_poll(&mut handler, 1),
        PollOutput::Event(ToBehaviour::NegotiationFailed)
    );
    assert_eq!(
        idle_poll(&mut handler, 2),
        PollOutput::Event(ToBehaviour::IOError(IoErrorKind::TimedOut))
    );
    assert_eq!(idle_poll(&mut handler, 3), PollOutput::Pending);
}

#[test]
fn try_wake_hands_the_registration_back_once() {
    let mut handler = MixConnectionHandler::new(500, 0);
    idle_poll(&mut handler, 0);
    assert!(!handler.try_wake());
    // A pending advance registers for a wake-up.
    assert_eq!(idle_poll(&mut handler, 0), PollOutput::Pending);
    assert!(handler.try_wake());
    assert!(!handler.try_wake());
}

#[test]
fn scheduler_fires_once_per_interval() {
    let mut scheduler = CadenceScheduler::new(500, 0);
    assert!(!scheduler.is_due(0));
    assert!(!scheduler.is_due(499));
    assert!(scheduler.is_due(500));
    assert!(scheduler.is_due(501));
    scheduler.reset(510);
    assert!(!scheduler.is_due(1009));
    assert!(scheduler.is_due(1010));
}
