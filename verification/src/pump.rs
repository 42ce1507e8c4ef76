//! Delivery of a stream to one client: what is sent next, how far ahead of the
//! client's acknowledgements, and when delivery ends.

use vstd::prelude::*;

use crate::journal::saturate;
use crate::stream::{RawPtyAttachPlan, RawPtyRange};

verus! {

/// Largest number of bytes sent in one message.
pub const RAW_PTY_CHUNK_BYTES: usize = 64 * 1024;

/// Largest number of bytes sent ahead of the client's acknowledgements.
pub const RAW_PTY_ACK_WINDOW_BYTES: u64 = 1024 * 1024;

/// How long a pump waits for news before it looks again.
pub const RAW_PTY_WAIT_INTERVAL_MILLIS: u64 = 100;

/// How a client comes by the state from which its stream goes on.
#[derive(Debug, Clone, Copy, PartialEq, Eq, Structural)]
pub enum RawPtyRecovery {
    BestEffortReplay,
    ExactResume,
}

/// What a pump sends to its client.
#[derive(Debug, PartialEq, Eq)]
pub enum ServerMessage {
    RawPtyStreamStart {
        stream_id: u64,
        start_seq: u64,
        recovery: RawPtyRecovery,
        snapshot: Option<Vec<u8>>,
    },
    RawPtyStreamChunk { stream_id: u64, start_seq: u64, data: Vec<u8> },
}

/// What a pump reports to the server.
#[derive(Debug, Clone, Copy, PartialEq, Eq, Structural)]
pub enum ServerEvent {
    RawPtyStreamGap { client_id: u64, stream_id: u64 },
}

/// What a pump wants done next.
#[derive(Debug, PartialEq, Eq)]
pub enum PumpAction {
    /// End delivery.
    Stop,
    /// Wait until the start is acknowledged or delivery cancelled.
    AwaitStartAck,
    /// Wait for an acknowledgement, for a cancellation, or for a while.
    AwaitAck,
    /// Wait for a change of the stream, or for a while.
    AwaitChange,
    /// Read a range of the stream.
    Read { stream_id: u64, start_seq: u64, max_bytes: usize },
    /// Send a message to the client.
    Send(ServerMessage),
    /// Report to the server that bytes are missing, and end delivery.
    Report(ServerEvent),
}

/// What came of a pump's last action.
#[derive(Debug, PartialEq, Eq)]
pub enum PumpEvent {
    /// A wait is over.
    Woken,
    /// Whether the message was sent.
    Sent(bool),
    /// The range that was read, if the stream still covers it.
    Ranged(Option<RawPtyRange>),
}

/// How far a delivery has come.
#[derive(Debug)]
pub struct PumpState {
    pub start_seq: u64,
    pub acknowledged_seq: u64,
    /// Position after the last byte that was sent.
    pub sent_seq: u64,
    pub start_acknowledged: bool,
    /// Length of the chunk that is being sent.
    pub in_flight: u64,
}

/// The delivery of one stream to one client.
#[derive(Debug)]
pub struct RawPtyPump {
    pub client_id: u64,
    pub stream_id: u64,
    pub cancelled: bool,
    pub state: PumpState,
}

impl RawPtyPump {
    /// Nothing is sent before the start is acknowledged, nothing unsent is
    /// acknowledged, and no more than the window is sent ahead.
    pub open spec fn wf(self) -> bool {
        &&& self.state.start_seq <= self.state.acknowledged_seq <= self.state.sent_seq
        &&& self.state.sent_seq + self.state.in_flight - self.state.acknowledged_seq
            <= RAW_PTY_ACK_WINDOW_BYTES
        &&& !self.state.start_acknowledged ==> self.state.sent_seq == self.state.start_seq
            && self.state.in_flight == 0
    }

    /// Number of bytes that may be sent before the next acknowledgement.
    pub open spec fn allowance(self) -> int {
        if self.state.sent_seq <= self.state.acknowledged_seq {
            RAW_PTY_ACK_WINDOW_BYTES as int
        } else if self.state.sent_seq - self.state.acknowledged_seq < RAW_PTY_ACK_WINDOW_BYTES {
            RAW_PTY_ACK_WINDOW_BYTES - (self.state.sent_seq - self.state.acknowledged_seq)
        } else {
            0
        }
    }

    /// What a pump that has nothing at hand does next.
    pub open spec fn next(self) -> PumpAction {
        if self.cancelled {
            PumpAction::Stop
        } else if !self.state.start_acknowledged {
            PumpAction::AwaitStartAck
        } else if self.allowance() == 0 {
            PumpAction::AwaitAck
        } else {
            PumpAction::Read {
                stream_id: self.stream_id,
                start_seq: self.state.sent_seq,
                max_bytes: if self.allowance() < RAW_PTY_CHUNK_BYTES {
                    self.allowance() as usize
                } else {
                    RAW_PTY_CHUNK_BYTES
                },
            }
        }
    }

    /// Whether an acknowledgement is accepted: the first has to be that of the
    /// start, the later ones have to go forward, within what was sent.
    pub open spec fn accepts(self, stream_id: u64, parsed_seq: u64) -> bool {
        &&& stream_id == self.stream_id
        &&& !self.cancelled
        &&& if self.state.start_acknowledged {
            self.state.acknowledged_seq <= parsed_seq <= self.state.sent_seq
        } else {
            parsed_seq == self.state.start_seq
        }
    }

    /// Whether an acknowledgement claims bytes that are being sent.
    pub open spec fn unsettled(self, stream_id: u64, parsed_seq: u64) -> bool {
        &&& stream_id == self.stream_id
        &&& !self.cancelled
        &&& self.state.start_acknowledged
        &&& self.state.sent_seq < parsed_seq <= self.state.sent_seq + self.state.in_flight
    }

    /// The pump after an accepted acknowledgement.
    pub open spec fn acknowledged(self, parsed_seq: u64) -> RawPtyPump {
        RawPtyPump {
            state: PumpState {
                acknowledged_seq: parsed_seq,
                start_acknowledged: true,
                ..self.state
            },
            ..self
        }
    }

    /// The pump after a chunk of `count` bytes has been handed out for sending.
    pub open spec fn sending(self, count: int) -> RawPtyPump {
        RawPtyPump { state: PumpState { in_flight: count as u64, ..self.state }, ..self }
    }

    /// The pump after what it handed out has been sent.
    pub open spec fn sent(self) -> RawPtyPump {
        RawPtyPump {
            state: PumpState {
                sent_seq: saturate(self.state.sent_seq + self.state.in_flight) as u64,
                in_flight: 0,
                ..self.state
            },
            ..self
        }
    }

    /// The pump after what it handed out could not be sent.
    pub open spec fn unsent(self) -> RawPtyPump {
        RawPtyPump { state: PumpState { in_flight: 0, ..self.state }, ..self }
    }

    /// The pump that sets out to deliver a stream as planned.
    pub open spec fn started(client_id: u64, plan: RawPtyAttachPlan) -> RawPtyPump {
        RawPtyPump {
            client_id,
            stream_id: plan.stream_id,
            cancelled: false,
            state: PumpState {
                start_seq: plan.start_seq,
                acknowledged_seq: plan.start_seq,
                sent_seq: plan.start_seq,
                start_acknowledged: false,
                in_flight: 0,
            },
        }
    }

    /// The first message to the client: where it joins, and how it comes by the
    /// state to go on from.
    pub open spec fn opening(plan: RawPtyAttachPlan) -> ServerMessage {
        ServerMessage::RawPtyStreamStart {
            stream_id: plan.stream_id,
            start_seq: plan.start_seq,
            recovery: if plan.snapshot is Some {
                RawPtyRecovery::BestEffortReplay
            } else {
                RawPtyRecovery::ExactResume
            },
            snapshot: plan.snapshot,
        }
    }

    /// The pump after it has been told what came of its last action.
    pub open spec fn after_event(self, event: PumpEvent) -> RawPtyPump {
        match event {
            PumpEvent::Sent(true) => self.sent(),
            PumpEvent::Sent(false) => self.unsent(),
            PumpEvent::Ranged(Some(range)) => if range.data@.len() > 0 && range.start_seq
                == self.state.sent_seq {
                self.sending(range.data@.len() as int)
            } else {
                self
            },
            _ => self,
        }
    }

    /// What the pump wants done next when it is told what came of its last
    /// action.
    pub open spec fn answer(self, event: PumpEvent) -> PumpAction {
        match event {
            PumpEvent::Woken => self.next(),
            PumpEvent::Sent(true) => self.sent().next(),
            PumpEvent::Sent(false) => PumpAction::Stop,
            PumpEvent::Ranged(None) => if self.cancelled {
                PumpAction::Stop
            } else {
                PumpAction::Report(
                    ServerEvent::RawPtyStreamGap {
                        client_id: self.client_id,
                        stream_id: self.stream_id,
                    },
                )
            },
            PumpEvent::Ranged(Some(range)) => if range.data@.len() == 0 {
                PumpAction::AwaitChange
            } else if range.start_seq != self.state.sent_seq {
                self.next()
            } else {
                PumpAction::Send(
                    ServerMessage::RawPtyStreamChunk {
                        stream_id: self.stream_id,
                        start_seq: range.start_seq,
                        data: range.data,
                    },
                )
            },
        }
    }

    /// Whether a cancellation ends a delivery that still goes on.
    pub open spec fn running(self) -> bool {
        !self.cancelled
    }

    /// The pump after a cancellation.
    pub open spec fn halted(self) -> RawPtyPump {
        RawPtyPump { cancelled: true, ..self }
    }

    /// Sets out to deliver a stream as planned. The message is the first to be
    /// sent: it tells the client where it joins.
    pub fn start(client_id: u64, plan: RawPtyAttachPlan) -> (started: (Self, ServerMessage))
        ensures
            started.0.wf(),
            started.0 == RawPtyPump::started(client_id, plan),
            started.1 == RawPtyPump::opening(plan),
            started.1 == (ServerMessage::RawPtyStreamStart {
                stream_id: plan.stream_id,
                start_seq: plan.start_seq,
                recovery: if plan.snapshot is Some {
                    RawPtyRecovery::BestEffortReplay
                } else {
                    RawPtyRecovery::ExactResume
                },
                snapshot: plan.snapshot,
            }),
    {
        let stream_id: u64 = plan.stream_id;
        let start_seq: u64 = plan.start_seq;
        let recovery = if plan.snapshot.is_some() {
            RawPtyRecovery::BestEffortReplay
        } else {
            RawPtyRecovery::ExactResume
        };
        let pump = RawPtyPump {
            client_id,
            stream_id,
            cancelled: false,
            state: PumpState {
                start_seq,
                acknowledged_seq: start_seq,
                sent_seq: start_seq,
                start_acknowledged: false,
                in_flight: 0,
            },
        };
        let message = ServerMessage::RawPtyStreamStart {
            stream_id,
            start_seq,
            recovery,
            snapshot: plan.snapshot,
        };
        (pump, message)
    }

    fn next_action(&self) -> (action: PumpAction)
        ensures
            action == self.next(),
    {
        if self.cancelled {
            return PumpAction::Stop;
        }
        if !self.state.start_acknowledged {
            return PumpAction::AwaitStartAck;
        }
        let unacked: u64 = self.state.sent_seq.saturating_sub(self.state.acknowledged_seq);
        let allowance: usize = RAW_PTY_ACK_WINDOW_BYTES.saturating_sub(unacked) as usize;
        if allowance == 0 {
            return PumpAction::AwaitAck;
        }
        PumpAction::Read {
            stream_id: self.stream_id,
            start_seq: self.state.sent_seq,
            max_bytes: if allowance < RAW_PTY_CHUNK_BYTES {
                allowance
            } else {
                RAW_PTY_CHUNK_BYTES
            },
        }
    }

    /// Takes note of what came of the last action and says what to do next.
    pub fn step(&mut self, event: PumpEvent) -> (action: PumpAction)
        ensures
            *final(self) == old(self).after_event(event),
            action == old(self).answer(event),
            match event {
                PumpEvent::Woken => {
                    &&& *final(self) == *old(self)
                    &&& action == old(self).next()
                },
                PumpEvent::Sent(true) => {
                    &&& *final(self) == old(self).sent()
                    &&& action == old(self).sent().next()
                },
                PumpEvent::Sent(false) => {
                    &&& *final(self) == old(self).unsent()
                    &&& action == PumpAction::Stop
                },
                PumpEvent::Ranged(None) => {
                    &&& *final(self) == *old(self)
                    &&& action == if old(self).cancelled {
                        PumpAction::Stop
                    } else {
                        PumpAction::Report(
                            ServerEvent::RawPtyStreamGap {
                                client_id: old(self).client_id,
                                stream_id: old(self).stream_id,
                            },
                        )
                    }
                },
                PumpEvent::Ranged(Some(range)) => if range.data@.len() == 0 {
                    &&& *final(self) == *old(self)
                    &&& action == PumpAction::AwaitChange
                } else if range.start_seq != old(self).state.sent_seq {
                    &&& *final(self) == *old(self)
                    &&& action == old(self).next()
                } else {
                    &&& *final(self) == old(self).sending(range.data@.len() as int)
                    &&& action == PumpAction::Send(
                        ServerMessage::RawPtyStreamChunk {
                            stream_id: old(self).stream_id,
                            start_seq: range.start_seq,
                            data: range.data,
                        },
                    )
                },
            },
            old(self).wf() && (event matches PumpEvent::Ranged(Some(range)) ==> old(
                self,
            ).state.start_acknowledged && range.data@.len() <= old(self).allowance())
                ==> final(self).wf(),
    {
        match event {
            PumpEvent::Woken => self.next_action(),
            PumpEvent::Sent(sent) => {
                let in_flight: u64 = self.state.in_flight;
                self.state.in_flight = 0;
                if !sent {
                    return PumpAction::Stop;
                }
                self.state.sent_seq = self.state.sent_seq.saturating_add(in_flight);
                self.next_action()
            },
            PumpEvent::Ranged(None) => {
                if self.cancelled {
                    PumpAction::Stop
                } else {
                    PumpAction::Report(
                        ServerEvent::RawPtyStreamGap {
                            client_id: self.client_id,
                            stream_id: self.stream_id,
                        },
                    )
                }
            },
            PumpEvent::Ranged(Some(range)) => {
                if range.data.len() == 0 {
                    return PumpAction::AwaitChange;
                }
                if self.state.sent_seq != range.start_seq {
                    return self.next_action();
                }
                self.state.in_flight = range.data.len() as u64;
                PumpAction::Send(
                    ServerMessage::RawPtyStreamChunk {
                        stream_id: self.stream_id,
                        start_seq: range.start_seq,
                        data: range.data,
                    },
                )
            },
        }
    }

    pub fn stream_id(&self) -> (stream_id: u64)
        ensures
            stream_id == self.stream_id,
    {
        self.stream_id
    }

    /// Accepts only the exact start ACK, then monotonic parser-completion ACKs
    /// that do not claim bytes which have not been sent by this pump. On
    /// acceptance, those who wait for an acknowledgement or for a change of the
    /// stream are to be woken. A refused acknowledgement changes nothing.
    pub fn acknowledge(&mut self, stream_id: u64, parsed_seq: u64) -> (accepted: bool)
        ensures
            accepted == old(self).accepts(stream_id, parsed_seq),
            *final(self) == if accepted {
                old(self).acknowledged(parsed_seq)
            } else {
                *old(self)
            },
            old(self).wf() ==> final(self).wf(),
    {
        if stream_id != self.stream_id || self.cancelled {
            return false;
        }
        if !self.state.start_acknowledged {
            if parsed_seq != self.state.start_seq {
                return false;
            }
            self.state.start_acknowledged = true;
        } else if parsed_seq < self.state.acknowledged_seq || parsed_seq > self.state.sent_seq {
            return false;
        }
        self.state.acknowledged_seq = parsed_seq;
        true
    }

    /// Whether an acknowledgement claims bytes of the chunk that is being sent.
    /// Whether such bytes have been sent is known only when the sending is over,
    /// so it is better to ask for its acceptance then.
    pub fn claims_in_flight(&self, stream_id: u64, parsed_seq: u64) -> (unsettled: bool)
        ensures
            unsettled == self.unsettled(stream_id, parsed_seq),
    {
        stream_id == self.stream_id && !self.cancelled && self.state.start_acknowledged
            && self.state.sent_seq < parsed_seq && parsed_seq
            <= self.state.sent_seq.saturating_add(self.state.in_flight)
    }

    /// Ends delivery. The first cancellation has what is still to be sent
    /// dropped and wakes those who wait; the others change nothing.
    pub fn cancel(&mut self) -> (first: bool)
        ensures
            first == old(self).running(),
            *final(self) == old(self).halted(),
            first == !old(self).cancelled,
            *final(self) == (RawPtyPump { cancelled: true, ..*old(self) }),
            old(self).wf() ==> final(self).wf(),
    {
        if self.cancelled {
            return false;
        }
        self.cancelled = true;
        true
    }
}

/// Whether framing a message and sending the frame can come out as `sent`.
pub open spec fn sends<W, S>(message: &ServerMessage, write_message: W, send: S, sent: bool) -> bool where
    W: FnOnce(&ServerMessage) -> Option<Vec<u8>>,
    S: FnOnce(Vec<u8>) -> bool,
 {
    ||| write_message.ensures((message,), None) && !sent
    ||| exists|framed: Vec<u8>| #[trigger]
        write_message.ensures((message,), Some(framed)) && send.ensures((framed,), sent)
}

/// Frames a message and sends it. One that cannot be framed is not sent.
pub fn send_message<W, S>(message: &ServerMessage, write_message: W, send: S) -> (sent: bool) where
    W: FnOnce(&ServerMessage) -> Option<Vec<u8>>,
    S: FnOnce(Vec<u8>) -> bool,

    requires
        write_message.requires((message,)),
        forall|framed: Vec<u8>|
            write_message.ensures((message,), Some(framed)) ==> send.requires((framed,)),
    ensures
        sends(message, write_message, send, sent),
        exists|framed: Option<Vec<u8>>| #[trigger]
            write_message.ensures((message,), framed) && match framed {
                Some(bytes) => send.ensures((bytes,), sent),
                None => !sent,
            },
{
    match write_message(message) {
        Some(framed) => send(framed),
        None => false,
    }
}

} // verus!
