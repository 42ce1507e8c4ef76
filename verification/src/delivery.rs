//! Whole deliveries: a stream that is published to and a pump that delivers it,
//! with everything that can happen in between, in any order.

use vstd::prelude::*;

use crate::journal::StreamView;
use crate::laws::TerminalRead;
use crate::pump::{PumpAction, RawPtyPump, RAW_PTY_ACK_WINDOW_BYTES, RAW_PTY_CHUNK_BYTES};
use crate::stream::RawPtyAttachPlan;

verus! {

/// A chunk that was sent to the client.
pub struct SentChunk {
    pub stream_id: u64,
    pub start_seq: int,
    pub data: Seq<u8>,
}

/// What the delivery is at.
pub enum Phase {
    /// The start is being sent.
    Starting,
    /// Nothing is at hand.
    Idle,
    /// The pump has asked for a range.
    Asked { start_seq: u64, max_bytes: usize },
    /// The range has been read.
    Ranged { start_seq: u64, data: Seq<u8> },
    /// A chunk is being sent.
    Sending { data: Seq<u8> },
    /// Delivery has ended.
    Done,
}

/// A delivery: the stream and all its output so far, the pump, and the chunks
/// that have been sent.
pub struct Delivery {
    pub stream: StreamView,
    pub history: Seq<u8>,
    pub pump: RawPtyPump,
    pub phase: Phase,
    pub sent: Seq<SentChunk>,
}

/// What can happen during a delivery.
pub enum DeliveryMove {
    /// Output is published to the stream.
    Publish { read: TerminalRead },
    /// The client acknowledges a position.
    Acknowledge { stream_id: u64, parsed_seq: u64 },
    /// The pump is cancelled.
    Cancel,
    /// The pump says what it wants.
    Ask,
    /// What it asked for is read from the stream.
    Range,
    /// What was read is handed out as a chunk.
    HandOut,
    /// A sending comes to its end.
    Settle { sent: bool },
}

impl Delivery {
    /// A delivery begins: its start is being sent, at a position that the stream
    /// covers.
    pub open spec fn begins(self) -> bool {
        &&& self.stream.journals(self.history)
        &&& self.history.len() <= u64::MAX
        &&& self.stream.covers(self.pump.stream_id, self.pump.state.start_seq as int)
        &&& self.pump.state.sent_seq == self.pump.state.start_seq
        &&& self.pump.state.acknowledged_seq == self.pump.state.start_seq
        &&& self.pump.state.in_flight == 0
        &&& !self.pump.state.start_acknowledged
        &&& self.phase is Starting
        &&& self.sent.len() == 0
    }

    /// The delivery after a move. One that does not go with the phase changes
    /// nothing.
    pub open spec fn after(self, step: DeliveryMove, max_bytes: int) -> Delivery {
        match step {
            DeliveryMove::Publish { read } => Delivery {
                stream: self.stream.publish(read.bytes, read.primary_snapshot, max_bytes),
                history: self.history + read.bytes,
                ..self
            },
            DeliveryMove::Acknowledge { stream_id, parsed_seq } => if self.pump.accepts(
                stream_id,
                parsed_seq,
            ) {
                Delivery { pump: self.pump.acknowledged(parsed_seq), ..self }
            } else {
                self
            },
            DeliveryMove::Cancel => Delivery {
                pump: RawPtyPump { cancelled: true, ..self.pump },
                ..self
            },
            DeliveryMove::Ask => if self.phase is Idle {
                self.asked()
            } else {
                self
            },
            DeliveryMove::Range => match self.phase {
                Phase::Asked { start_seq, max_bytes } => if self.stream.covers(
                    self.pump.stream_id,
                    start_seq as int,
                ) {
                    Delivery {
                        phase: Phase::Ranged {
                            start_seq,
                            data: self.stream.read(start_seq as int, max_bytes as int),
                        },
                        ..self
                    }
                } else {
                    Delivery { phase: Phase::Done, ..self }
                },
                _ => self,
            },
            DeliveryMove::HandOut => match self.phase {
                Phase::Ranged { start_seq, data } => if data.len() == 0 || start_seq
                    != self.pump.state.sent_seq {
                    Delivery { phase: Phase::Idle, ..self }
                } else {
                    Delivery {
                        pump: self.pump.sending(data.len() as int),
                        phase: Phase::Sending { data },
                        ..self
                    }
                },
                _ => self,
            },
            DeliveryMove::Settle { sent } => match self.phase {
                Phase::Starting => self.settled(sent, self.sent),
                Phase::Sending { data } => self.settled(
                    sent,
                    self.sent.push(
                        SentChunk {
                            stream_id: self.pump.stream_id,
                            start_seq: self.pump.state.sent_seq as int,
                            data,
                        },
                    ),
                ),
                _ => self,
            },
        }
    }

    /// The delivery after the pump has said what it does next.
    pub open spec fn asked(self) -> Delivery {
        Delivery {
            phase: match self.pump.next() {
                PumpAction::Read { stream_id, start_seq, max_bytes } => Phase::Asked {
                    start_seq,
                    max_bytes,
                },
                PumpAction::Stop => Phase::Done,
                _ => Phase::Idle,
            },
            ..self
        }
    }

    /// The delivery after a sending has ended, with the chunks sent if it went
    /// well.
    pub open spec fn settled(self, sent: bool, chunks: Seq<SentChunk>) -> Delivery {
        if sent {
            Delivery { pump: self.pump.sent(), phase: Phase::Idle, sent: chunks, ..self }
        } else {
            Delivery { pump: self.pump.unsent(), phase: Phase::Done, ..self }
        }
    }

    pub open spec fn after_all(self, steps: Seq<DeliveryMove>, max_bytes: int) -> Delivery
        decreases steps.len(),
    {
        if steps.len() == 0 {
            self
        } else {
            self.after_all(steps.drop_last(), max_bytes).after(steps.last(), max_bytes)
        }
    }

    /// Whether the bytes from `start_seq` on are these in the stream's output.
    pub open spec fn outputs(self, start_seq: int, data: Seq<u8>) -> bool {
        &&& 0 <= start_seq
        &&& start_seq + data.len() <= self.history.len()
        &&& data == self.history.subrange(start_seq, start_seq + data.len())
    }

    /// The chunks sent: of the right stream, none empty or too long, each with
    /// the output at its position.
    pub open spec fn sent_output(self) -> bool {
        forall|k: int|
            0 <= k < self.sent.len() ==> {
                &&& (#[trigger] self.sent[k]).stream_id == self.pump.stream_id
                &&& 1 <= self.sent[k].data.len() <= RAW_PTY_CHUNK_BYTES
                &&& self.outputs(self.sent[k].start_seq, self.sent[k].data)
            }
    }

    /// The chunks sent begin where the client joined, follow each other without
    /// gap or overlap, and end where the pump has got to.
    pub open spec fn sent_contiguously(self) -> bool {
        &&& self.sent.len() == 0 ==> self.pump.state.sent_seq == self.pump.state.start_seq
        &&& self.sent.len() > 0 ==> self.sent[0].start_seq == self.pump.state.start_seq
            && self.sent.last().start_seq + self.sent.last().data.len() == self.pump.state.sent_seq
        &&& forall|j: int, k: int|
            0 <= j && k == j + 1 && k < self.sent.len() ==> (#[trigger] self.sent[j]).start_seq
                + self.sent[j].data.len() == (#[trigger] self.sent[k]).start_seq
    }

    /// A chunk that can be handed out or has been: the output after what was
    /// sent, not too long, for a client that has acknowledged the start.
    spec fn next_chunk(self, data: Seq<u8>) -> bool {
        &&& self.pump.state.start_acknowledged
        &&& data.len() <= RAW_PTY_CHUNK_BYTES
        &&& self.outputs(self.pump.state.sent_seq as int, data)
    }

    spec fn inv(self) -> bool {
        &&& self.pump.wf()
        &&& self.stream.journals(self.history)
        &&& self.history.len() <= u64::MAX
        &&& self.pump.stream_id == self.stream.stream_id
        &&& self.sent_output()
        &&& self.sent_contiguously()
        &&& joined_data(self.sent) == self.history.subrange(
            self.pump.state.start_seq as int,
            self.pump.state.sent_seq as int,
        )
        &&& self.pump.state.sent_seq <= self.history.len()
        &&& self.sent.len() > 0 ==> self.pump.state.start_acknowledged
        &&& match self.phase {
            Phase::Asked { start_seq, max_bytes } => {
                &&& self.pump.state.in_flight == 0
                &&& self.pump.state.start_acknowledged
                &&& start_seq == self.pump.state.sent_seq
                &&& max_bytes <= RAW_PTY_CHUNK_BYTES
                &&& max_bytes <= self.pump.allowance()
            },
            Phase::Ranged { start_seq, data } => {
                &&& self.pump.state.in_flight == 0
                &&& start_seq == self.pump.state.sent_seq
                &&& data.len() <= self.pump.allowance()
                &&& self.next_chunk(data)
            },
            Phase::Sending { data } => {
                &&& self.pump.state.in_flight == data.len()
                &&& data.len() > 0
                &&& self.next_chunk(data)
            },
            _ => self.pump.state.in_flight == 0,
        }
    }
}

/// The bytes of all chunks, in order.
pub open spec fn joined_data(chunks: Seq<SentChunk>) -> Seq<u8>
    decreases chunks.len(),
{
    if chunks.len() == 0 {
        Seq::empty()
    } else {
        joined_data(chunks.drop_last()) + chunks.last().data
    }
}

proof fn lemma_publish_keeps(before: Delivery, read: TerminalRead, max_bytes: nat)
    requires
        before.inv(),
        before.history.len() + read.bytes.len() <= u64::MAX,
    ensures
        before.after(DeliveryMove::Publish { read }, max_bytes as int).inv(),
{
    let after = before.after(DeliveryMove::Publish { read }, max_bytes as int);
    let state = before.pump.state;
    assert(after.stream.bytes =~= after.history.skip(after.stream.start));
    assert forall|start_seq: int, data: Seq<u8>| before.outputs(start_seq, data) implies #[trigger]
    after.outputs(start_seq, data) by {
        assert(data =~= after.history.subrange(start_seq, start_seq + data.len()));
    }
    assert forall|k: int| 0 <= k < after.sent.len() implies (#[trigger] after.sent[k]).stream_id
        == after.pump.stream_id && 1 <= after.sent[k].data.len() <= RAW_PTY_CHUNK_BYTES
        && after.outputs(after.sent[k].start_seq, after.sent[k].data) by {
        assert(before.outputs(before.sent[k].start_seq, before.sent[k].data));
    }
    assert(after.history.subrange(state.start_seq as int, state.sent_seq as int)
        =~= before.history.subrange(state.start_seq as int, state.sent_seq as int));
}

proof fn lemma_range_keeps(before: Delivery, max_bytes: nat)
    requires
        before.inv(),
    ensures
        before.after(DeliveryMove::Range, max_bytes as int).inv(),
{
    let after = before.after(DeliveryMove::Range, max_bytes as int);
    if let Phase::Ranged { start_seq, data } = after.phase {
        if before.phase is Asked {
            let seq = start_seq as int;
            assert(data =~= before.history.subrange(seq, seq + data.len()));
        }
    }
}

proof fn lemma_settle_keeps(before: Delivery, sent: bool, max_bytes: nat)
    requires
        before.inv(),
    ensures
        before.after(DeliveryMove::Settle { sent }, max_bytes as int).inv(),
{
    let after = before.after(DeliveryMove::Settle { sent }, max_bytes as int);
    if let Phase::Sending { data } = before.phase {
        if sent {
            let state = before.pump.state;
            assert(after.sent.drop_last() =~= before.sent);
            assert(joined_data(after.sent) =~= after.history.subrange(
                state.start_seq as int,
                after.pump.state.sent_seq as int,
            ));
            assert forall|k: int| 0 <= k < after.sent.len() implies (
            #[trigger] after.sent[k]).stream_id == after.pump.stream_id && 1
                <= after.sent[k].data.len() <= RAW_PTY_CHUNK_BYTES && after.outputs(
                after.sent[k].start_seq,
                after.sent[k].data,
            ) by {
                if k < before.sent.len() {
                    assert(after.sent[k] == before.sent[k]);
                    assert(before.outputs(before.sent[k].start_seq, before.sent[k].data));
                }
            }
            assert forall|j: int, k: int|
                0 <= j && k == j + 1 && k < after.sent.len() implies (
            #[trigger] after.sent[j]).start_seq + after.sent[j].data.len() == (
            #[trigger] after.sent[k]).start_seq by {
                assert(after.sent[j] == before.sent[j]);
                if k < before.sent.len() {
                    assert(after.sent[k] == before.sent[k]);
                } else {
                    assert(before.sent[j] == before.sent.last());
                }
            }
            if before.sent.len() > 0 {
                assert(after.sent[0] == before.sent[0]);
            }
        }
    }
}

proof fn lemma_move_keeps(before: Delivery, step: DeliveryMove, max_bytes: nat)
    requires
        before.inv(),
        before.after(step, max_bytes as int).history.len() <= u64::MAX,
    ensures
        before.after(step, max_bytes as int).inv(),
{
    match step {
        DeliveryMove::Publish { read } => lemma_publish_keeps(before, read, max_bytes),
        DeliveryMove::Range => lemma_range_keeps(before, max_bytes),
        DeliveryMove::Settle { sent } => lemma_settle_keeps(before, sent, max_bytes),
        _ => {},
    }
}

proof fn lemma_moves_keep(before: Delivery, steps: Seq<DeliveryMove>, max_bytes: nat)
    requires
        before.begins(),
        before.after_all(steps, max_bytes as int).history.len() <= u64::MAX,
    ensures
        before.after_all(steps, max_bytes as int).inv(),
        before.after_all(steps, max_bytes as int).pump.stream_id == before.pump.stream_id,
        before.after_all(steps, max_bytes as int).pump.state.start_seq
            == before.pump.state.start_seq,
        before.history.is_prefix_of(before.after_all(steps, max_bytes as int).history),
    decreases steps.len(),
{
    let after = before.after_all(steps, max_bytes as int);
    if steps.len() == 0 {
        let at = before.pump.state.start_seq as int;
        assert(before.history.subrange(at, at) =~= Seq::empty());
        assert(before.history =~= before.history.subrange(0, before.history.len() as int));
    } else {
        let earlier = before.after_all(steps.drop_last(), max_bytes as int);
        lemma_moves_keep(before, steps.drop_last(), max_bytes);
        lemma_move_keeps(earlier, steps.last(), max_bytes);
        assert(before.history =~= after.history.subrange(0, before.history.len() as int));
    }
}

/// A client that attaches, to resume or to start over, can be delivered to: its
/// delivery begins at a position that the stream covers.
pub proof fn law_attached_clients_begin(
    stream: StreamView,
    history: Seq<u8>,
    resume: Option<(u64, u64)>,
    plan: RawPtyAttachPlan,
    client_id: u64,
)
    requires
        stream.journals(history),
        history.len() <= u64::MAX,
        plan.stream_id == stream.stream_id,
        stream.resumes(resume) ==> resume == Some((plan.stream_id, plan.start_seq)),
        !stream.resumes(resume) ==> plan.start_seq == stream.end(),
    ensures
        (Delivery {
            stream,
            history,
            pump: RawPtyPump::started(client_id, plan),
            phase: Phase::Starting,
            sent: Seq::empty(),
        }).begins(),
{
}

/// Whatever is published, acknowledged or cancelled while a stream is delivered,
/// the chunks sent are the output from where the client joined: they begin
/// there, follow each other without gap, overlap or repeat, and joined they are
/// the output up to where the pump has got to. None is empty or longer than a
/// message holds, and none is sent before the start is acknowledged.
pub proof fn law_whole_delivery_is_the_output(
    delivery: Delivery,
    steps: Seq<DeliveryMove>,
    max_bytes: nat,
)
    requires
        delivery.begins(),
        delivery.after_all(steps, max_bytes as int).history.len() <= u64::MAX,
    ensures
        ({
            let after = delivery.after_all(steps, max_bytes as int);
            let state = after.pump.state;
            &&& after.pump.stream_id == delivery.pump.stream_id
            &&& state.start_seq == delivery.pump.state.start_seq
            &&& delivery.history.is_prefix_of(after.history)
            &&& after.sent_output()
            &&& after.sent_contiguously()
            &&& joined_data(after.sent) == after.history.subrange(
                state.start_seq as int,
                state.sent_seq as int,
            )
            &&& after.sent.len() > 0 || after.phase is Sending ==> state.start_acknowledged
        }),
{
    lemma_moves_keep(delivery, steps, max_bytes);
}

/// A delivery goes on: whatever has happened before, if it has not been cancelled,
/// the start is acknowledged, less than a mebibyte is unacknowledged and the
/// stream holds output that was not sent, then asking, reading, handing out and
/// sending in turn send the output that comes next: all there is, or a message
/// full, or what the mebibyte has room for.
pub proof fn law_whole_delivery_goes_on(
    delivery: Delivery,
    steps: Seq<DeliveryMove>,
    max_bytes: nat,
)
    requires
        delivery.begins(),
        ({
            let before = delivery.after_all(steps, max_bytes as int);
            let state = before.pump.state;
            &&& before.history.len() <= u64::MAX
            &&& before.phase is Idle
            &&& !before.pump.cancelled
            &&& state.start_acknowledged
            &&& state.sent_seq - state.acknowledged_seq < 1_048_576
            &&& before.stream.start <= state.sent_seq < before.history.len()
        }),
    ensures
        ({
            let max = max_bytes as int;
            let before = delivery.after_all(steps, max);
            let after = before.after(DeliveryMove::Ask, max).after(DeliveryMove::Range, max).after(
                DeliveryMove::HandOut,
                max,
            ).after(DeliveryMove::Settle { sent: true }, max);
            let from = before.pump.state.sent_seq as int;
            let count = after.pump.state.sent_seq - from;
            &&& after.phase is Idle
            &&& 0 < count <= 65_536
            &&& from + count - before.pump.state.acknowledged_seq <= 1_048_576
            &&& {
                ||| from + count == before.history.len()
                ||| count == 65_536
                ||| from + count - before.pump.state.acknowledged_seq == 1_048_576
            }
            &&& after.sent.len() == before.sent.len() + 1
            &&& after.sent.last().stream_id == before.pump.stream_id
            &&& after.sent.last().start_seq == from
            &&& after.sent.last().data == before.history.subrange(from, from + count)
        }),
{
    lemma_moves_keep(delivery, steps, max_bytes);
    let max = max_bytes as int;
    let before = delivery.after_all(steps, max);
    let asked = before.after(DeliveryMove::Ask, max);
    let from = before.pump.state.sent_seq as int;
    assert(asked.phase is Asked);
    let ranged = asked.after(DeliveryMove::Range, max);
    assert(ranged.phase is Ranged);
    lemma_range_keeps(asked, max_bytes);
    let handed = ranged.after(DeliveryMove::HandOut, max);
    assert(handed.phase is Sending);
    let data = handed.phase->Sending_data;
    assert(data =~= before.history.subrange(from, from + data.len()));
}

/// At every moment of a delivery, what has been handed out is at most the window
/// past what was acknowledged, and nothing unsent is acknowledged.
pub proof fn law_whole_delivery_keeps_the_window(
    delivery: Delivery,
    steps: Seq<DeliveryMove>,
    max_bytes: nat,
)
    requires
        delivery.begins(),
        delivery.after_all(steps, max_bytes as int).history.len() <= u64::MAX,
    ensures
        ({
            let state = delivery.after_all(steps, max_bytes as int).pump.state;
            &&& state.start_seq <= state.acknowledged_seq <= state.sent_seq
            &&& state.sent_seq + state.in_flight - state.acknowledged_seq
                <= RAW_PTY_ACK_WINDOW_BYTES
        }),
{
    lemma_moves_keep(delivery, steps, max_bytes);
}

} // verus!
