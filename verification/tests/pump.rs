use raw_pty_stream::pump::{
    send_message, PumpAction, PumpEvent, RawPtyPump, RawPtyRecovery, ServerEvent, ServerMessage,
    RAW_PTY_ACK_WINDOW_BYTES, RAW_PTY_CHUNK_BYTES,
};
use raw_pty_stream::stream::{RawPtyAttachPlan, RawPtyRange, RawPtyStream, StreamIdSource};

fn new_stream() -> RawPtyStream {
    RawPtyStream::new(&mut StreamIdSource::new(1_700_000_000_123_456_789, 4711))
}

/// Lets the pump act until it sends, waits or ends.
fn drive(pump: &mut RawPtyPump, stream: &RawPtyStream, event: PumpEvent) -> PumpAction {
    match pump.step(event) {
        PumpAction::Read {
            stream_id,
            start_seq,
            max_bytes,
        } => pump.step(PumpEvent::Ranged(stream.range(stream_id, start_seq, max_bytes))),
        action => action,
    }
}

#[test]
fn waits_for_exact_start_ack_and_sends_contiguous_chunks() {
    let mut stream = new_stream();
    stream.process_read(b"before", None, || ());
    let plan = stream.attach(None, |_: Option<&[u8]>| b"snapshot".to_vec());
    let (mut pump, start) = RawPtyPump::start(7, plan.clone());

    assert!(matches!(
        start,
        ServerMessage::RawPtyStreamStart { start_seq: 6, .. }
    ));
    assert_eq!(
        drive(&mut pump, &stream, PumpEvent::Sent(true)),
        PumpAction::AwaitStartAck
    );
    stream.process_read(b"live", None, || ());
    assert!(!pump.acknowledge(plan.stream_id, plan.start_seq + 1));
    assert_eq!(
        drive(&mut pump, &stream, PumpEvent::Woken),
        PumpAction::AwaitStartAck
    );
    assert!(pump.acknowledge(plan.stream_id, plan.start_seq));
    match drive(&mut pump, &stream, PumpEvent::Woken) {
        PumpAction::Send(ServerMessage::RawPtyStreamChunk {
            start_seq, data, ..
        }) => {
            assert_eq!(start_seq, plan.start_seq);
            assert_eq!(data, b"live");
        }
        other => panic!("expected raw chunk, got {other:?}"),
    }
}

#[test]
fn unacknowledged_output_is_limited_to_one_mebibyte() {
    let mut stream = new_stream();
    let plan = stream.attach(None, |_: Option<&[u8]>| Vec::new());
    let (mut pump, _start) = RawPtyPump::start(4, plan.clone());
    assert!(pump.acknowledge(plan.stream_id, plan.start_seq));
    stream.process_read(
        &vec![b'x'; RAW_PTY_ACK_WINDOW_BYTES as usize + 1],
        None,
        || (),
    );

    let mut received = 0usize;
    while received < RAW_PTY_ACK_WINDOW_BYTES as usize {
        match drive(&mut pump, &stream, PumpEvent::Sent(true)) {
            PumpAction::Send(ServerMessage::RawPtyStreamChunk { data, .. }) => {
                received += data.len()
            }
            other => panic!("expected raw chunk, got {other:?}"),
        }
    }
    assert_eq!(received, RAW_PTY_ACK_WINDOW_BYTES as usize);
    assert_eq!(
        drive(&mut pump, &stream, PumpEvent::Sent(true)),
        PumpAction::AwaitAck
    );
}

#[test]
fn cancellation_stops_delivery_and_rejects_late_ack() {
    let mut stream = new_stream();
    let plan = stream.attach(None, |_: Option<&[u8]>| Vec::new());
    let (mut pump, _start) = RawPtyPump::start(4, plan.clone());
    assert!(pump.cancel());
    stream.process_read(b"late", None, || ());
    assert!(!pump.acknowledge(plan.stream_id, plan.start_seq));
    assert_eq!(
        drive(&mut pump, &stream, PumpEvent::Sent(true)),
        PumpAction::Stop
    );
}

#[test]
fn stale_ack_does_not_advance_window() {
    let stream = new_stream();
    let plan = stream.attach(None, |_: Option<&[u8]>| Vec::new());
    let (mut pump, _start) = RawPtyPump::start(3, plan.clone());
    assert!(!pump.acknowledge(plan.stream_id + 1, plan.start_seq));
    assert!(pump.acknowledge(plan.stream_id, plan.start_seq));
    assert!(!pump.acknowledge(plan.stream_id, plan.start_seq + 1));
}

#[test]
fn start_tells_how_the_client_recovers() {
    let resumed = RawPtyAttachPlan {
        stream_id: 9,
        start_seq: 5,
        snapshot: None,
    };
    let (pump, message) = RawPtyPump::start(1, resumed);
    assert_eq!(pump.stream_id(), 9);
    assert_eq!(
        message,
        ServerMessage::RawPtyStreamStart {
            stream_id: 9,
            start_seq: 5,
            recovery: RawPtyRecovery::ExactResume,
            snapshot: None,
        }
    );
    let replayed = RawPtyAttachPlan {
        stream_id: 9,
        start_seq: 5,
        snapshot: Some(b"screen".to_vec()),
    };
    assert_eq!(
        RawPtyPump::start(1, replayed).1,
        ServerMessage::RawPtyStreamStart {
            stream_id: 9,
            start_seq: 5,
            recovery: RawPtyRecovery::BestEffortReplay,
            snapshot: Some(b"screen".to_vec()),
        }
    );
}

#[test]
fn failed_send_ends_delivery() {
    let stream = new_stream();
    let plan = stream.attach(None, |_: Option<&[u8]>| Vec::new());
    let (mut pump, _start) = RawPtyPump::start(4, plan);
    assert_eq!(pump.step(PumpEvent::Sent(false)), PumpAction::Stop);
}

#[test]
fn missing_bytes_are_reported_unless_cancelled() {
    let mut stream = RawPtyStream::with_capacity(4, &mut StreamIdSource::new(1, 2));
    let plan = stream.attach(None, |_: Option<&[u8]>| Vec::new());
    let (mut pump, _start) = RawPtyPump::start(11, plan.clone());
    assert!(pump.acknowledge(plan.stream_id, plan.start_seq));
    stream.process_read(b"overflow", None, || ());
    assert_eq!(
        drive(&mut pump, &stream, PumpEvent::Woken),
        PumpAction::Report(ServerEvent::RawPtyStreamGap {
            client_id: 11,
            stream_id: plan.stream_id,
        })
    );
    pump.cancel();
    assert_eq!(pump.step(PumpEvent::Ranged(None)), PumpAction::Stop);
}

#[test]
fn caught_up_pump_waits_for_a_change() {
    let mut stream = new_stream();
    let plan = stream.attach(None, |_: Option<&[u8]>| Vec::new());
    let (mut pump, _start) = RawPtyPump::start(4, plan.clone());
    assert!(pump.acknowledge(plan.stream_id, plan.start_seq));
    assert_eq!(
        drive(&mut pump, &stream, PumpEvent::Woken),
        PumpAction::AwaitChange
    );
    stream.process_read(b"news", None, || ());
    assert_eq!(
        drive(&mut pump, &stream, PumpEvent::Woken),
        PumpAction::Send(ServerMessage::RawPtyStreamChunk {
            stream_id: plan.stream_id,
            start_seq: 0,
            data: b"news".to_vec(),
        })
    );
    assert_eq!(
        drive(&mut pump, &stream, PumpEvent::Sent(true)),
        PumpAction::AwaitChange
    );
    assert_eq!(pump.state.sent_seq, 4);
}

#[test]
fn range_of_another_position_is_read_again() {
    let stream = new_stream();
    let plan = stream.attach(None, |_: Option<&[u8]>| Vec::new());
    let (mut pump, _start) = RawPtyPump::start(4, plan.clone());
    assert!(pump.acknowledge(plan.stream_id, plan.start_seq));
    assert_eq!(
        pump.step(PumpEvent::Ranged(Some(RawPtyRange {
            start_seq: 3,
            data: b"stray".to_vec(),
        }))),
        PumpAction::Read {
            stream_id: plan.stream_id,
            start_seq: 0,
            max_bytes: RAW_PTY_CHUNK_BYTES,
        }
    );
    assert_eq!(pump.state.sent_seq, 0);
}

#[test]
fn acknowledgements_open_the_window_by_what_was_parsed() {
    let mut stream = new_stream();
    let plan = stream.attach(None, |_: Option<&[u8]>| Vec::new());
    let (mut pump, _start) = RawPtyPump::start(4, plan.clone());
    assert!(pump.acknowledge(plan.stream_id, 0));
    stream.process_read(&vec![b'x'; 2 * 1024 * 1024], None, || ());
    let mut delivered: Vec<u8> = Vec::new();
    while let PumpAction::Send(ServerMessage::RawPtyStreamChunk {
        start_seq, data, ..
    }) = drive(&mut pump, &stream, PumpEvent::Sent(true))
    {
        assert_eq!(start_seq as usize, delivered.len());
        delivered.extend_from_slice(&data);
    }
    assert_eq!(delivered.len(), 1024 * 1024);
    assert!(pump.acknowledge(plan.stream_id, 100));
    assert!(!pump.acknowledge(plan.stream_id, 99));
    assert!(pump.acknowledge(plan.stream_id, 100));
    assert_eq!(
        pump.step(PumpEvent::Woken),
        PumpAction::Read {
            stream_id: plan.stream_id,
            start_seq: 1024 * 1024,
            max_bytes: 100,
        }
    );
    assert!(pump.acknowledge(plan.stream_id, 1024 * 1024));
    assert_eq!(
        pump.step(PumpEvent::Woken),
        PumpAction::Read {
            stream_id: plan.stream_id,
            start_seq: 1024 * 1024,
            max_bytes: 65_536,
        }
    );
}

#[test]
fn only_the_first_cancellation_counts() {
    let stream = new_stream();
    let plan = stream.attach(None, |_: Option<&[u8]>| Vec::new());
    let (mut pump, _start) = RawPtyPump::start(4, plan);
    assert!(pump.cancel());
    assert!(!pump.cancel());
    assert!(pump.cancelled);
}

#[test]
fn messages_are_framed_before_they_are_sent() {
    let message = ServerMessage::RawPtyStreamChunk {
        stream_id: 1,
        start_seq: 2,
        data: b"abc".to_vec(),
    };
    let frame = |message: &ServerMessage| match message {
        ServerMessage::RawPtyStreamChunk { data, .. } => Some(data.clone()),
        ServerMessage::RawPtyStreamStart { .. } => None,
    };
    assert!(send_message(&message, frame, |framed: Vec<u8>| framed == b"abc"));
    assert!(!send_message(&message, frame, |_: Vec<u8>| false));
    let start = ServerMessage::RawPtyStreamStart {
        stream_id: 1,
        start_seq: 2,
        recovery: RawPtyRecovery::ExactResume,
        snapshot: None,
    };
    assert!(!send_message(&start, frame, |_: Vec<u8>| panic!("not framed")));
}

/// A started pump whose first chunk, of four bytes, has been handed out.
fn sending_pump(stream: &mut RawPtyStream) -> (RawPtyPump, u64) {
    let plan = stream.attach(None, |_: Option<&[u8]>| Vec::new());
    let (mut pump, _start) = RawPtyPump::start(4, plan.clone());
    assert!(pump.acknowledge(plan.stream_id, plan.start_seq));
    stream.process_read(b"news", None, || ());
    assert!(matches!(
        drive(&mut pump, stream, PumpEvent::Sent(true)),
        PumpAction::Send(ServerMessage::RawPtyStreamChunk { start_seq: 0, .. })
    ));
    (pump, plan.stream_id)
}

#[test]
fn bytes_whose_sending_failed_cannot_be_acknowledged() {
    let mut stream = new_stream();
    let (mut pump, stream_id) = sending_pump(&mut stream);
    assert_eq!(pump.state.in_flight, 4);
    assert!(!pump.acknowledge(stream_id, 4));
    assert!(!pump.acknowledge(stream_id, 1));
    assert_eq!(pump.step(PumpEvent::Sent(false)), PumpAction::Stop);
    assert_eq!(pump.state.sent_seq, 0);
    assert_eq!(pump.state.acknowledged_seq, 0);
    assert!(!pump.acknowledge(stream_id, 1));
    assert!(!pump.acknowledge(stream_id, 4));
    assert!(pump.acknowledge(stream_id, 0));
}

#[test]
fn acknowledgement_during_sending_changes_nothing() {
    let mut stream = new_stream();
    let (mut pump, stream_id) = sending_pump(&mut stream);
    assert!(!pump.acknowledge(stream_id, 5));
    assert!(!pump.acknowledge(stream_id + 1, 4));
    assert!(!pump.acknowledge(stream_id, 3));
    assert!(!pump.acknowledge(stream_id, 4));
    assert_eq!(pump.state.acknowledged_seq, 0);
    assert!(pump.acknowledge(stream_id, 0));
    assert_eq!(
        drive(&mut pump, &stream, PumpEvent::Sent(true)),
        PumpAction::AwaitChange
    );
    assert_eq!(pump.state.sent_seq, 4);
    assert_eq!(pump.state.acknowledged_seq, 0);
    assert!(pump.acknowledge(stream_id, 3));
    assert!(pump.acknowledge(stream_id, 3));
    assert!(!pump.acknowledge(stream_id, 2));
    assert!(pump.acknowledge(stream_id, 4));
    assert!(!pump.acknowledge(stream_id, 5));
}

#[test]
fn claims_in_flight_are_those_of_the_chunk_being_sent() {
    let mut stream = new_stream();
    let (mut pump, stream_id) = sending_pump(&mut stream);
    assert!(!pump.claims_in_flight(stream_id, 0));
    assert!(pump.claims_in_flight(stream_id, 1));
    assert!(pump.claims_in_flight(stream_id, 4));
    assert!(!pump.claims_in_flight(stream_id, 5));
    assert!(!pump.claims_in_flight(stream_id + 1, 4));
    drive(&mut pump, &stream, PumpEvent::Sent(true));
    assert!(!pump.claims_in_flight(stream_id, 4));
    assert!(pump.acknowledge(stream_id, 4));

    let mut other = new_stream();
    let (mut failing, failing_id) = sending_pump(&mut other);
    assert!(failing.claims_in_flight(failing_id, 4));
    failing.step(PumpEvent::Sent(false));
    assert!(!failing.claims_in_flight(failing_id, 4));
    assert!(!failing.acknowledge(failing_id, 4));
}

#[test]
fn refused_acknowledgement_does_not_open_the_window() {
    let mut stream = new_stream();
    let plan = stream.attach(None, |_: Option<&[u8]>| Vec::new());
    let (mut pump, _start) = RawPtyPump::start(4, plan.clone());
    assert!(pump.acknowledge(plan.stream_id, 0));
    stream.process_read(&vec![b'x'; 2 * 1024 * 1024], None, || ());
    for _ in 0..16 {
        assert!(matches!(
            drive(&mut pump, &stream, PumpEvent::Sent(true)),
            PumpAction::Send(_)
        ));
    }
    assert_eq!(pump.state.sent_seq + pump.state.in_flight, 1024 * 1024);
    assert!(!pump.acknowledge(plan.stream_id, 1024 * 1024));
    assert_eq!(pump.step(PumpEvent::Sent(true)), PumpAction::AwaitAck);
    assert_eq!(pump.state.acknowledged_seq, 0);
    assert!(pump.acknowledge(plan.stream_id, 1024 * 1024));
    assert_eq!(
        pump.step(PumpEvent::Woken),
        PumpAction::Read {
            stream_id: plan.stream_id,
            start_seq: 1024 * 1024,
            max_bytes: 65_536,
        }
    );
}

#[test]
fn cancelled_pump_has_no_acknowledgement_waiting() {
    let mut stream = new_stream();
    let (mut pump, stream_id) = sending_pump(&mut stream);
    assert!(pump.claims_in_flight(stream_id, 4));
    assert!(pump.cancel());
    assert!(!pump.claims_in_flight(stream_id, 4));
    assert!(!pump.acknowledge(stream_id, 4));
    assert_eq!(pump.step(PumpEvent::Sent(true)), PumpAction::Stop);
}

#[test]
fn whole_delivery_is_the_output_from_where_the_client_joined() {
    let mut stream = new_stream();
    let output: Vec<u8> = (0..400_000usize).map(|i| (i % 249) as u8).collect();
    stream.process_read(&output[..1_000], None, || ());
    let plan = stream.attach(None, |_: Option<&[u8]>| Vec::new());
    let (mut pump, _start) = RawPtyPump::start(4, plan.clone());
    assert_eq!(
        drive(&mut pump, &stream, PumpEvent::Sent(true)),
        PumpAction::AwaitStartAck
    );
    assert!(pump.acknowledge(plan.stream_id, 1_000));

    let mut published = 1_000usize;
    let mut delivered: Vec<u8> = Vec::new();
    let mut event = PumpEvent::Woken;
    loop {
        match drive(&mut pump, &stream, event) {
            PumpAction::Send(ServerMessage::RawPtyStreamChunk {
                stream_id,
                start_seq,
                data,
            }) => {
                assert_eq!(stream_id, plan.stream_id);
                assert_eq!(start_seq as usize, 1_000 + delivered.len());
                assert!(!data.is_empty() && data.len() <= 65_536);
                delivered.extend_from_slice(&data);
                assert!(pump.acknowledge(plan.stream_id, start_seq));
                event = PumpEvent::Sent(true);
            }
            PumpAction::AwaitChange => {
                if published == output.len() {
                    break;
                }
                let next = output.len().min(published + 90_001);
                stream.process_read(&output[published..next], None, || ());
                published = next;
                event = PumpEvent::Woken;
            }
            other => panic!("expected a chunk or a pause, got {other:?}"),
        }
    }
    assert_eq!(delivered, &output[1_000..]);
    assert_eq!(pump.state.sent_seq, 400_000);
}
