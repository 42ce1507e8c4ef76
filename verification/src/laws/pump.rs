//! What a pump does with what it is told, and what a client can rely on.

use vstd::prelude::*;

use crate::pump::{sends, PumpAction, PumpEvent, RawPtyPump, RawPtyRecovery};
use crate::pump::{ServerEvent, ServerMessage};
use crate::stream::{RawPtyAttachPlan, RawPtyRange};

verus! {

/// A pump that goes on never stops by itself: it says so exactly if it has been
/// cancelled, and until the start is acknowledged it waits for that and nothing
/// else.
pub proof fn law_only_cancellation_stops_a_pump(pump: RawPtyPump)
    ensures
        pump.next() == PumpAction::Stop <==> pump.cancelled,
        pump.next() == PumpAction::AwaitStartAck <==> !pump.cancelled
            && !pump.state.start_acknowledged,
{
}

/// A started pump waits for an acknowledgement exactly if a mebibyte or more is
/// unacknowledged. Otherwise it asks for the byte after the last one sent, and
/// for as many as fit in the mebibyte and in one message.
pub proof fn law_started_pump_reads_ahead(pump: RawPtyPump)
    requires
        !pump.cancelled,
        pump.state.start_acknowledged,
    ensures
        pump.next() == PumpAction::AwaitAck <==> pump.state.sent_seq - pump.state.acknowledged_seq
            >= 1_048_576,
        pump.state.sent_seq - pump.state.acknowledged_seq < 1_048_576 ==> {
            &&& pump.next() is Read
            &&& pump.next()->stream_id == pump.stream_id
            &&& pump.next()->start_seq == pump.state.sent_seq
            &&& pump.next()->max_bytes == 65_536 || {
                &&& pump.next()->max_bytes < 65_536
                &&& pump.state.sent_seq + pump.next()->max_bytes == pump.state.acknowledged_seq
                    + 1_048_576
            }
            &&& pump.state.acknowledged_seq <= pump.state.sent_seq ==> pump.state.sent_seq
                + pump.next()->max_bytes <= pump.state.acknowledged_seq + 1_048_576
        },
{
}

/// A pump that has just been set out is live, whatever the plan: it stands where
/// the client joins, waits for the acknowledgement of exactly that position, and
/// then asks for the byte there, a message full.
pub proof fn law_new_pump_is_live(client_id: u64, plan: RawPtyAttachPlan)
    ensures
        ({
            let pump = RawPtyPump::started(client_id, plan);
            let joined = pump.acknowledged(plan.start_seq);
            &&& pump.client_id == client_id
            &&& pump.stream_id == plan.stream_id
            &&& !pump.cancelled
            &&& !pump.state.start_acknowledged
            &&& pump.state.start_seq == plan.start_seq
            &&& pump.state.sent_seq == plan.start_seq
            &&& pump.state.acknowledged_seq == plan.start_seq
            &&& pump.state.in_flight == 0
            &&& pump.answer(PumpEvent::Sent(true)) == PumpAction::AwaitStartAck
            &&& pump.after_event(PumpEvent::Sent(true)) == pump
            &&& forall|stream_id: u64, parsed_seq: u64| #[trigger]
                pump.accepts(stream_id, parsed_seq) <==> stream_id == plan.stream_id && parsed_seq
                    == plan.start_seq
            &&& joined.answer(PumpEvent::Woken) == (PumpAction::Read {
                stream_id: plan.stream_id,
                start_seq: plan.start_seq,
                max_bytes: 65_536,
            })
        }),
{
}

/// The first message says where the client joins and carries the plan's
/// snapshot. It promises an exact resume exactly if there is no snapshot.
pub proof fn law_start_tells_the_plan(plan: RawPtyAttachPlan)
    ensures
        RawPtyPump::opening(plan) matches ServerMessage::RawPtyStreamStart {
            stream_id,
            start_seq,
            recovery,
            snapshot,
        } && {
            &&& stream_id == plan.stream_id
            &&& start_seq == plan.start_seq
            &&& snapshot == plan.snapshot
            &&& recovery == RawPtyRecovery::ExactResume <==> plan.snapshot is None
            &&& recovery == RawPtyRecovery::BestEffortReplay <==> plan.snapshot is Some
        },
{
}

/// Sent bytes can be acknowledged at any time, also while a chunk is being sent:
/// of a started pump that goes on, every position from the last acknowledged one
/// to the end of what was sent is accepted, and no other.
pub proof fn law_sent_bytes_can_be_acknowledged_any_time(
    pump: RawPtyPump,
    stream_id: u64,
    parsed_seq: u64,
)
    requires
        pump.state.start_acknowledged,
        !pump.cancelled,
    ensures
        pump.accepts(stream_id, parsed_seq) <==> {
            &&& stream_id == pump.stream_id
            &&& pump.state.acknowledged_seq <= parsed_seq
            &&& parsed_seq <= pump.state.sent_seq
        },
{
}

/// Before the start is acknowledged only the start position is accepted, and
/// after a cancellation nothing is.
pub proof fn law_start_is_acknowledged_first(pump: RawPtyPump, stream_id: u64, parsed_seq: u64)
    requires
        pump.cancelled || !pump.state.start_acknowledged,
    ensures
        pump.accepts(stream_id, parsed_seq) <==> {
            &&& !pump.cancelled
            &&& stream_id == pump.stream_id
            &&& parsed_seq == pump.state.start_seq
        },
{
}

/// Handing a chunk out, sending it or failing to does not take back what could
/// be acknowledged before.
pub proof fn law_sending_takes_no_acknowledgement_back(
    pump: RawPtyPump,
    event: PumpEvent,
    stream_id: u64,
    parsed_seq: u64,
)
    requires
        pump.accepts(stream_id, parsed_seq),
    ensures
        pump.after_event(event).accepts(stream_id, parsed_seq),
{
}

/// An accepted acknowledgement moves the acknowledged position there, counts as
/// that of the start, and changes nothing else.
pub proof fn law_acknowledgement_only_moves_the_position(pump: RawPtyPump, parsed_seq: u64)
    ensures
        ({
            let after = pump.acknowledged(parsed_seq);
            &&& after.state.acknowledged_seq == parsed_seq
            &&& after.state.start_acknowledged
            &&& after.client_id == pump.client_id
            &&& after.stream_id == pump.stream_id
            &&& after.cancelled == pump.cancelled
            &&& after.state.start_seq == pump.state.start_seq
            &&& after.state.sent_seq == pump.state.sent_seq
            &&& after.state.in_flight == pump.state.in_flight
        }),
{
}

/// Of two acknowledgements in turn the second is accepted exactly if it does not
/// go back behind the first and claims nothing unsent.
pub proof fn law_acknowledgements_in_turn(pump: RawPtyPump, first: u64, second: u64)
    requires
        pump.wf(),
        pump.accepts(pump.stream_id, first),
    ensures
        pump.acknowledged(first).accepts(pump.stream_id, second) <==> first <= second
            <= pump.state.sent_seq,
        pump.acknowledged(first).acknowledged(second) == pump.acknowledged(second),
{
}

/// An acknowledgement is in flight exactly if it is for this stream, delivery
/// goes on, and it claims a byte of the chunk being sent and none after it.
pub proof fn law_claims_in_flight(pump: RawPtyPump, stream_id: u64, parsed_seq: u64)
    ensures
        pump.unsettled(stream_id, parsed_seq) <==> {
            &&& stream_id == pump.stream_id
            &&& !pump.cancelled
            &&& pump.state.start_acknowledged
            &&& pump.state.sent_seq < parsed_seq
            &&& parsed_seq - pump.state.sent_seq <= pump.state.in_flight
        },
{
}

/// Nothing that a pump is told by its deliverer changes whom it serves, where it
/// began, what is acknowledged, or whether it is cancelled.
pub proof fn law_events_only_move_what_was_sent(pump: RawPtyPump, event: PumpEvent)
    ensures
        ({
            let after = pump.after_event(event);
            &&& after.client_id == pump.client_id
            &&& after.stream_id == pump.stream_id
            &&& after.cancelled == pump.cancelled
            &&& after.state.start_seq == pump.state.start_seq
            &&& after.state.acknowledged_seq == pump.state.acknowledged_seq
            &&& after.state.start_acknowledged == pump.state.start_acknowledged
            &&& event != PumpEvent::Sent(true) ==> after.state.sent_seq == pump.state.sent_seq
            &&& event is Woken || event == PumpEvent::Ranged(None) ==> after.state.in_flight
                == pump.state.in_flight
        }),
{
}

/// A chunk that was sent counts in full, up to the last position; one that was
/// not counts for nothing. Either way none is on its way any more.
pub proof fn law_sending_is_settled(pump: RawPtyPump, sent: bool)
    ensures
        ({
            let after = pump.after_event(PumpEvent::Sent(sent));
            &&& after.state.in_flight == 0
            &&& !sent ==> after.state.sent_seq == pump.state.sent_seq
            &&& sent && pump.state.sent_seq + pump.state.in_flight <= u64::MAX
                ==> after.state.sent_seq == pump.state.sent_seq + pump.state.in_flight
            &&& sent && pump.state.sent_seq + pump.state.in_flight > u64::MAX
                ==> after.state.sent_seq == u64::MAX
        }),
{
}

/// After a wait or a message that was sent, a pump stops exactly if it is
/// cancelled; after a message that was not sent it stops in any case.
pub proof fn law_delivery_ends_on_cancel_or_failure(pump: RawPtyPump)
    ensures
        pump.answer(PumpEvent::Woken) == PumpAction::Stop <==> pump.cancelled,
        pump.answer(PumpEvent::Sent(true)) == PumpAction::Stop <==> pump.cancelled,
        pump.answer(PumpEvent::Sent(false)) == PumpAction::Stop,
{
}

/// Bytes that the stream no longer holds are reported, with the client and the
/// stream they are missing for, unless the delivery is cancelled anyway. Nothing
/// else is reported.
pub proof fn law_gaps_are_reported(pump: RawPtyPump)
    ensures
        pump.cancelled ==> pump.answer(PumpEvent::Ranged(None)) == PumpAction::Stop,
        !pump.cancelled ==> pump.answer(PumpEvent::Ranged(None)) == PumpAction::Report(
            ServerEvent::RawPtyStreamGap { client_id: pump.client_id, stream_id: pump.stream_id },
        ),
        forall|event: PumpEvent| #[trigger]
            pump.answer(event) is Report ==> event == PumpEvent::Ranged(None),
{
}

/// What was read is sent as it is, under the pump's stream and its own position,
/// and is then on its way; but only if it is not empty and comes right after
/// what was sent. Nothing else is ever sent.
pub proof fn law_what_was_read_is_sent(pump: RawPtyPump, range: RawPtyRange)
    ensures
        range.data@.len() > 0 && range.start_seq == pump.state.sent_seq ==> {
            &&& pump.answer(PumpEvent::Ranged(Some(range))) == PumpAction::Send(
                ServerMessage::RawPtyStreamChunk {
                    stream_id: pump.stream_id,
                    start_seq: pump.state.sent_seq,
                    data: range.data,
                },
            )
            &&& range.data@.len() <= u64::MAX ==> pump.after_event(
                PumpEvent::Ranged(Some(range)),
            ).state.in_flight == range.data@.len()
        },
        range.data@.len() == 0 || range.start_seq != pump.state.sent_seq ==> pump.after_event(
            PumpEvent::Ranged(Some(range)),
        ) == pump,
        range.data@.len() == 0 ==> pump.answer(PumpEvent::Ranged(Some(range)))
            == PumpAction::AwaitChange,
        range.data@.len() > 0 && range.start_seq != pump.state.sent_seq ==> pump.answer(
            PumpEvent::Ranged(Some(range)),
        ) == pump.answer(PumpEvent::Woken),
        forall|event: PumpEvent| #[trigger]
            pump.answer(event) is Send ==> (event matches PumpEvent::Ranged(Some(read))
                && read.data@.len() > 0),
        forall|event: PumpEvent| #[trigger]
            pump.answer(event) == PumpAction::AwaitChange ==> (event matches PumpEvent::Ranged(
                Some(read),
            ) && read.data@.len() == 0),
{
}

/// Neither a wait nor a range that is gone changes a pump.
pub proof fn law_waiting_changes_nothing(pump: RawPtyPump)
    ensures
        pump.after_event(PumpEvent::Woken) == pump,
        pump.after_event(PumpEvent::Ranged(None)) == pump,
{
}

/// One chunk after another: once what was read has been sent, it can be
/// acknowledged to its end, and as long as the window is open the pump asks for
/// the byte after it.
pub proof fn law_next_chunk_follows(pump: RawPtyPump, range: RawPtyRange)
    requires
        pump.wf(),
        !pump.cancelled,
        pump.state.start_acknowledged,
        range.start_seq == pump.state.sent_seq,
        0 < range.data@.len() <= 65_536,
        pump.state.sent_seq + range.data@.len() <= u64::MAX,
        pump.state.sent_seq + range.data@.len() < pump.state.acknowledged_seq + 1_048_576,
    ensures
        ({
            let sending = pump.after_event(PumpEvent::Ranged(Some(range)));
            let sent = sending.after_event(PumpEvent::Sent(true));
            let end = (range.start_seq + range.data@.len()) as u64;
            &&& !sending.accepts(pump.stream_id, end)
            &&& sent.accepts(pump.stream_id, end)
            &&& sent.wf()
            &&& sending.answer(PumpEvent::Sent(true)) matches PumpAction::Read {
                stream_id,
                start_seq,
                max_bytes,
            } && stream_id == pump.stream_id && start_seq == end && max_bytes > 0
        }),
{
}

/// A cancellation ends a delivery that goes on, once, and for good; it changes
/// nothing else.
pub proof fn law_cancellation_is_final(pump: RawPtyPump, stream_id: u64, parsed_seq: u64)
    ensures
        pump.running() <==> !pump.cancelled,
        !pump.halted().running(),
        pump.halted().cancelled,
        pump.halted().client_id == pump.client_id,
        pump.halted().stream_id == pump.stream_id,
        pump.halted().state == pump.state,
        !pump.halted().accepts(stream_id, parsed_seq),
        pump.halted().answer(PumpEvent::Woken) == PumpAction::Stop,
        pump.halted().answer(PumpEvent::Sent(true)) == PumpAction::Stop,
        pump.halted().answer(PumpEvent::Ranged(None)) == PumpAction::Stop,
{
}

/// What a pump can count on: acknowledgements between the start and the end of
/// what was sent, never more than a mebibyte handed out past them, and nothing
/// handed out before the start is acknowledged.
pub proof fn law_pump_invariant(pump: RawPtyPump)
    ensures
        pump.wf() <==> {
            &&& pump.state.start_seq <= pump.state.acknowledged_seq
            &&& pump.state.acknowledged_seq <= pump.state.sent_seq
            &&& pump.state.sent_seq + pump.state.in_flight <= pump.state.acknowledged_seq
                + 1_048_576
            &&& pump.state.start_acknowledged || pump.state.sent_seq + pump.state.in_flight
                == pump.state.start_seq
        },
{
}

/// A message that cannot be framed is not sent, one whose frame is not taken is
/// not sent either, and one that is framed and taken is.
pub proof fn law_sent_means_framed_and_taken<W, S>(
    message: &ServerMessage,
    write_message: W,
    send: S,
    sent: bool,
) where W: FnOnce(&ServerMessage) -> Option<Vec<u8>>, S: FnOnce(Vec<u8>) -> bool
    requires
        sends(message, write_message, send, sent),
    ensures
        (forall|framed: Option<Vec<u8>>| #[trigger]
            write_message.ensures((message,), framed) ==> framed is None) ==> !sent,
        (forall|frame: Vec<u8>, taken: bool| #[trigger]
            send.ensures((frame,), taken) ==> !taken) ==> !sent,
        (forall|framed: Option<Vec<u8>>| #[trigger]
            write_message.ensures((message,), framed) ==> framed is Some) && (forall|
            frame: Vec<u8>,
            taken: bool,
        | #[trigger]
            send.ensures((frame,), taken) ==> taken) ==> sent,
        sent ==> exists|frame: Vec<u8>| #[trigger]
            write_message.ensures((message,), Some(frame)) && send.ensures((frame,), true),
{
}

} // verus!
