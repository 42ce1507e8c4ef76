//! One terminal stream: its journal, the screen snapshots that go with it, and
//! the clients that follow it.

use std::collections::VecDeque;

use vstd::prelude::*;
use vstd::slice::{slice_subrange, slice_to_vec};

use crate::alt_screen::contains_alternate_screen_enter;
use crate::alt_screen::enters_alternate_screen;
use crate::journal::{clip, contents, joined, last_bytes, lemma_joined_at, lemma_joined_split};
use crate::journal::{RawPtyStreamState, StreamView};

verus! {

/// Bytes that a stream keeps unless told otherwise.
pub const DEFAULT_JOURNAL_BYTES: usize = 32 * 1024 * 1024;

/// Bytes of output remembered so that a control sequence is recognized though
/// it arrives in several reads.
pub const ALT_SCREEN_SCAN_TAIL_BYTES: usize = 64;

/// Consecutive bytes of a stream, the first of them at `start_seq`.
#[derive(Debug, Clone, PartialEq, Eq)]
pub struct RawPtyRange {
    pub start_seq: u64,
    pub data: Vec<u8>,
}

/// Where a client joins a stream. Without a snapshot it goes on from what it
/// has already parsed; with one it starts over from the snapshot.
#[derive(Debug, Clone, PartialEq, Eq)]
pub struct RawPtyAttachPlan {
    pub stream_id: u64,
    pub start_seq: u64,
    pub snapshot: Option<Vec<u8>>,
}

/// Keeps publication notifications enabled until it is handed back. Only
/// subscribing makes one.
#[derive(Debug)]
pub struct RawPtySubscription {
    stream_id: u64,
}

impl RawPtySubscription {
    /// The stream that is followed.
    pub closed spec fn followed(self) -> u64 {
        self.stream_id
    }
}

/// Whether `slice` shows the bytes of `buffer`.
pub open spec fn shows(slice: Option<&[u8]>, buffer: Option<Seq<u8>>) -> bool {
    match slice {
        Some(bytes) => buffer == Some(bytes@),
        None => buffer is None,
    }
}

/// Whether `bytes` can be what `snapshot` makes of `buffer`.
pub open spec fn made_from<F: FnOnce(Option<&[u8]>) -> Vec<u8>>(
    buffer: Option<Seq<u8>>,
    snapshot: F,
    bytes: Vec<u8>,
) -> bool {
    exists|primary: Option<&[u8]>|
        shows(primary, buffer) && #[trigger] snapshot.ensures((primary,), bytes)
}

impl StreamView {
    /// Whether `seq` is a position of this stream from which on no byte has
    /// been dropped.
    pub open spec fn covers(self, stream_id: u64, seq: int) -> bool {
        stream_id == self.stream_id && self.start <= seq <= self.end()
    }

    /// At most `max_bytes` retained bytes from `seq` on. At the last sequence
    /// position there is nothing to read.
    pub open spec fn read(self, seq: int, max_bytes: int) -> Seq<u8> {
        if seq >= u64::MAX {
            Seq::empty()
        } else {
            clip(self.bytes, seq - self.start, max_bytes)
        }
    }

    /// Whether a client that has parsed the given stream up to the given
    /// position can go on from there.
    pub open spec fn resumes(self, resume: Option<(u64, u64)>) -> bool {
        match resume {
            Some((stream_id, parsed_seq)) => self.covers(stream_id, parsed_seq as int),
            None => false,
        }
    }

    /// The bytes that a request for a range is answered with, if it is.
    pub open spec fn range_of(self, stream_id: u64, seq: int, max_bytes: int) -> Option<Seq<u8>> {
        if self.covers(stream_id, seq) {
            Some(self.read(seq, max_bytes))
        } else {
            None
        }
    }

    /// Whether a read of `bytes` completes a switch to the alternate screen, or
    /// one is still remembered.
    pub open spec fn sees_switch(self, bytes: Seq<u8>) -> bool {
        enters_alternate_screen(self.scanned(bytes))
    }

    /// Where a client joins that asks to resume as given: there if it can, else
    /// at the end.
    pub open spec fn cutoff(self, resume: Option<(u64, u64)>) -> int {
        match resume {
            Some((_, parsed_seq)) => if self.resumes(resume) {
                parsed_seq as int
            } else {
                self.end()
            },
            None => self.end(),
        }
    }

    /// The state of a stream that has had no output.
    pub open spec fn fresh(stream_id: u64) -> StreamView {
        StreamView {
            stream_id,
            start: 0,
            bytes: Seq::empty(),
            trimmed: Seq::empty(),
            primary_snapshot: None,
            scan_tail: Seq::empty(),
        }
    }

    /// The state after a scan of `bytes` for control sequences.
    pub open spec fn after_scan(self, bytes: Seq<u8>) -> StreamView {
        StreamView {
            scan_tail: last_bytes(self.scanned(bytes), ALT_SCREEN_SCAN_TAIL_BYTES as int),
            ..self
        }
    }

    /// The state after a read whose output is `bytes`, taken together with a
    /// snapshot of the primary screen if there is one.
    pub open spec fn publish(
        self,
        bytes: Seq<u8>,
        primary_snapshot: Option<Seq<u8>>,
        max_bytes: int,
    ) -> StreamView {
        StreamView {
            primary_snapshot: if primary_snapshot is Some {
                primary_snapshot
            } else {
                self.primary_snapshot
            },
            ..self
        }.append(bytes, max_bytes)
    }

    /// Whether the stream's whole output is `history` and the journal holds the
    /// end of it, each byte at its place in the output.
    pub open spec fn journals(self, history: Seq<u8>) -> bool {
        &&& 0 <= self.start
        &&& self.start + self.bytes.len() == history.len()
        &&& self.bytes == history.skip(self.start)
    }

    /// The output in which the scan for control sequences looks on a read of
    /// `bytes`.
    pub open spec fn scanned(self, bytes: Seq<u8>) -> Seq<u8> {
        self.scan_tail + bytes
    }
}

/// The identifier of a stream: the low 64 bits of its process's time in
/// nanoseconds, rotated left by 17, the process number in the upper half, and
/// the number of the stream in its process, added up in 64 bits.
pub open spec fn stream_id_of(since_epoch_nanos: u128, process_id: u32, generation: u64) -> int {
    let epoch = since_epoch_nanos as int % 0x1_0000_0000_0000_0000;
    let rotated = (epoch % 0x8000_0000_0000) * 0x2_0000 + epoch / 0x8000_0000_0000;
    (rotated + process_id * 0x1_0000_0000 + generation) % 0x1_0000_0000_0000_0000
}

fn stream_id_from(since_epoch_nanos: u128, process_id: u32, generation: u64) -> (id: u64)
    ensures
        id == stream_id_of(since_epoch_nanos, process_id, generation),
{
    let epoch: u64 = #[verifier::truncate]
    (since_epoch_nanos as u64);
    assert(epoch == since_epoch_nanos % 0x1_0000_0000_0000_0000) by (bit_vector)
        requires
            epoch == since_epoch_nanos as u64,
    ;
    let rotated_epoch: u64 = (epoch << 17) | (epoch >> 47);
    assert(((epoch << 17) | (epoch >> 47)) == (epoch % 0x8000_0000_0000) * 0x2_0000 + epoch
        / 0x8000_0000_0000) by (bit_vector);
    let process: u64 = process_id as u64;
    let rotated_process: u64 = process << 32;
    assert((process << 32) == process * 0x1_0000_0000) by (bit_vector)
        requires
            process <= 0xffff_ffff,
    ;
    rotated_epoch.wrapping_add(rotated_process).wrapping_add(generation)
}

/// Where the streams of one process get their identifiers from: the time, which
/// is the same for all of them, the process number, and the number of the next
/// stream.
#[derive(Debug)]
pub struct StreamIdSource {
    pub since_epoch_nanos: u128,
    pub process_id: u32,
    pub next_generation: u64,
}

impl StreamIdSource {
    /// The identifier that is given out next.
    pub open spec fn next_id(self) -> u64 {
        stream_id_of(self.since_epoch_nanos, self.process_id, self.next_generation) as u64
    }

    /// The source after `count` identifiers have been given out. The numbers of
    /// the streams wrap around.
    pub open spec fn advanced(self, count: nat) -> StreamIdSource {
        StreamIdSource {
            next_generation: ((self.next_generation + count) % 0x1_0000_0000_0000_0000) as u64,
            ..self
        }
    }

    /// The source that a process starts with.
    pub open spec fn first(since_epoch_nanos: u128, process_id: u32) -> StreamIdSource {
        StreamIdSource { since_epoch_nanos, process_id, next_generation: 1 }
    }

    /// A source for the process with the given number; the first stream is
    /// number one.
    pub fn new(since_epoch_nanos: u128, process_id: u32) -> (ids: Self)
        ensures
            ids == StreamIdSource::first(since_epoch_nanos, process_id),
            ids == (StreamIdSource { since_epoch_nanos, process_id, next_generation: 1 }),
    {
        StreamIdSource { since_epoch_nanos, process_id, next_generation: 1 }
    }

    fn issue(&mut self) -> (id: u64)
        ensures
            id == old(self).next_id(),
            *final(self) == old(self).advanced(1),
    {
        let generation: u64 = self.next_generation;
        self.next_generation = generation.wrapping_add(1);
        stream_id_from(self.since_epoch_nanos, self.process_id, generation)
    }
}

/// A bounded journal of the output of one terminal, in step with its parser.
#[derive(Debug)]
pub struct RawPtyStream {
    pub state: RawPtyStreamState,
    pub max_bytes: usize,
    pub subscribers: usize,
    /// Whether those who wait for a change of the stream are to be woken.
    pub notify_due: bool,
}

impl RawPtyStream {
    /// The journal is consistent and within its bound.
    pub open spec fn wf(self) -> bool {
        &&& self.state.wf()
        &&& self.state@.bytes.len() <= self.max_bytes
        &&& self.state@.scan_tail.len() <= ALT_SCREEN_SCAN_TAIL_BYTES
    }

    /// The stream with one more follower. The count wraps around.
    pub open spec fn subscribed(self) -> RawPtyStream {
        RawPtyStream {
            subscribers: if self.subscribers == usize::MAX {
                0
            } else {
                (self.subscribers + 1) as usize
            },
            ..self
        }
    }

    /// The stream with one follower less, the others about to look again.
    pub open spec fn unsubscribed(self) -> RawPtyStream {
        RawPtyStream {
            subscribers: if self.subscribers == 0 {
                usize::MAX
            } else {
                (self.subscribers - 1) as usize
            },
            notify_due: true,
            ..self
        }
    }

    /// The stream when those who wait for a change are to be woken.
    pub open spec fn waking(self) -> RawPtyStream {
        RawPtyStream { notify_due: true, ..self }
    }

    /// The stream when no one is to be woken.
    pub open spec fn quiet(self) -> RawPtyStream {
        RawPtyStream { notify_due: false, ..self }
    }

    /// Whether after the next read those who wait are to be woken.
    pub open spec fn wakes_on_read(self) -> bool {
        self.notify_due || self.subscribers != 0
    }

    /// An empty stream that keeps the default number of bytes.
    pub fn new(ids: &mut StreamIdSource) -> (stream: Self)
        ensures
            *final(ids) == old(ids).advanced(1),
            stream.wf(),
            stream.max_bytes == DEFAULT_JOURNAL_BYTES,
            stream.subscribers == 0,
            !stream.notify_due,
            stream.state@ == StreamView::fresh(old(ids).next_id()),
            stream.state@ == (StreamView {
                stream_id: old(ids).next_id(),
                start: 0,
                bytes: Seq::empty(),
                trimmed: Seq::empty(),
                primary_snapshot: None,
                scan_tail: Seq::empty(),
            }),
    {
        Self::with_capacity(DEFAULT_JOURNAL_BYTES, ids)
    }

    /// An empty stream that keeps `max_bytes`, under the next identifier.
    pub fn with_capacity(max_bytes: usize, ids: &mut StreamIdSource) -> (stream: Self)
        ensures
            *final(ids) == old(ids).advanced(1),
            stream.wf(),
            stream.max_bytes == max_bytes,
            stream.subscribers == 0,
            !stream.notify_due,
            stream.state@ == StreamView::fresh(old(ids).next_id()),
            stream.state@ == (StreamView {
                stream_id: old(ids).next_id(),
                start: 0,
                bytes: Seq::empty(),
                trimmed: Seq::empty(),
                primary_snapshot: None,
                scan_tail: Seq::empty(),
            }),
    {
        let stream_id: u64 = ids.issue();
        RawPtyStream {
            state: RawPtyStreamState {
                stream_id,
                end_seq: 0,
                retained_bytes: 0,
                chunks: VecDeque::new(),
                primary_snapshot: None,
                control_scan_tail: Vec::new(),
            },
            max_bytes,
            subscribers: 0,
            notify_due: false,
        }
    }

    /// At most `max_bytes` bytes from `start_seq` on, unless the stream is
    /// another one, the position lies ahead, or bytes from there on have
    /// already been dropped.
    pub fn range(&self, stream_id: u64, start_seq: u64, max_bytes: usize) -> (range: Option<
        RawPtyRange,
    >)
        requires
            self.wf(),
        ensures
            match range {
                Some(found) => self.state@.range_of(
                    stream_id,
                    start_seq as int,
                    max_bytes as int,
                ) == Some(found.data@),
                None => self.state@.range_of(stream_id, start_seq as int, max_bytes as int) is None,
            },
            range is Some <==> self.state@.covers(stream_id, start_seq as int),
            range matches Some(found) ==> {
                &&& found.start_seq == start_seq
                &&& found.data@ == self.state@.read(start_seq as int, max_bytes as int)
            },
    {
        if stream_id != self.state.stream_id || start_seq < self.state.earliest_seq() || start_seq
            > self.state.end_seq {
            return None;
        }
        let ghost chunks = self.state.chunks@;
        let ghost start = self.state@.start;
        let ghost max = max_bytes as int;
        let mut data: Vec<u8> = Vec::new();
        let mut i: usize = 0;
        assert(chunks.take(0) =~= Seq::empty());
        while i < self.state.chunks.len() && data.len() < max_bytes
            invariant
                self.wf(),
                chunks == self.state.chunks@,
                start == self.state@.start,
                max == max_bytes,
                start <= start_seq,
                i <= chunks.len(),
                data@.len() <= max,
                data@ == (if start_seq >= u64::MAX {
                    Seq::empty()
                } else {
                    clip(joined(chunks.take(i as int)), start_seq - start, max)
                }),
            decreases chunks.len() - i,
        {
            let chunk = &self.state.chunks[i];
            let ghost earlier = joined(chunks.take(i as int));
            let ghost later = joined(chunks.take(i + 1));
            proof {
                lemma_joined_at(chunks, i as int);
            }
            let retained = chunk.retained();
            let chunk_end: u64 = chunk.start_seq.saturating_add(retained.len() as u64);
            if chunk_end > start_seq {
                let offset: usize = start_seq.saturating_sub(chunk.start_seq) as usize;
                let available: usize = retained.len() - offset;
                let room: usize = max_bytes - data.len();
                let take: usize = if available < room {
                    available
                } else {
                    room
                };
                data.extend_from_slice(slice_subrange(retained, offset, offset + take));
                assert(data@ =~= clip(later, start_seq - start, max));
            } else {
                assert(start_seq < u64::MAX ==> data@ =~= clip(later, start_seq - start, max));
            }
            i = i + 1;
        }
        proof {
            lemma_joined_split(chunks, i as int);
            assert(data@ =~= self.state@.read(start_seq as int, max)) by {
                if i == chunks.len() {
                    assert(chunks.take(i as int) =~= chunks);
                }
            }
        }
        Some(RawPtyRange { start_seq, data })
    }

    /// Whether the output now holds a switch to the alternate screen, seen
    /// across the end of the previous reads. The last bytes are remembered for
    /// the next read.
    pub fn entering_alternate_screen(&mut self, bytes: &[u8]) -> (entering: bool)
        requires
            old(self).wf(),
        ensures
            final(self).wf(),
            entering == old(self).state@.sees_switch(bytes@),
            entering == enters_alternate_screen(old(self).state@.scanned(bytes@)),
            final(self).state@ == (StreamView {
                scan_tail: last_bytes(
                    old(self).state@.scanned(bytes@),
                    ALT_SCREEN_SCAN_TAIL_BYTES as int,
                ),
                ..old(self).state@
            }),
            final(self).state@ == old(self).state@.after_scan(bytes@),
            final(self).state.chunks == old(self).state.chunks,
            final(self).max_bytes == old(self).max_bytes,
            final(self).subscribers == old(self).subscribers,
            final(self).notify_due == old(self).notify_due,
    {
        let mut candidate: Vec<u8> = Vec::new();
        candidate.extend_from_slice(self.state.control_scan_tail.as_slice());
        candidate.extend_from_slice(bytes);
        assert(candidate@ =~= self.state@.scanned(bytes@));
        let entering = contains_alternate_screen_enter(candidate.as_slice());
        let len: usize = candidate.len();
        let keep: usize = if len < ALT_SCREEN_SCAN_TAIL_BYTES {
            len
        } else {
            ALT_SCREEN_SCAN_TAIL_BYTES
        };
        self.state.control_scan_tail = slice_to_vec(
            slice_subrange(candidate.as_slice(), len - keep, len),
        );
        assert(self.state.control_scan_tail@ =~= last_bytes(
            candidate@,
            ALT_SCREEN_SCAN_TAIL_BYTES as int,
        ));
        entering
    }

    /// Counts one more follower of the stream.
    pub fn subscribe(&mut self) -> (subscription: RawPtySubscription)
        ensures
            subscription.followed() == old(self).state.stream_id,
            *final(self) == old(self).subscribed(),
    {
        self.subscribers = self.subscribers.wrapping_add(1);
        RawPtySubscription { stream_id: self.state.stream_id }
    }

    /// Counts one follower less, and has the others look again.
    pub fn unsubscribe(&mut self, _subscription: RawPtySubscription)
        requires
            _subscription.followed() == old(self).state.stream_id,
        ensures
            *final(self) == old(self).unsubscribed(),
    {
        self.subscribers = self.subscribers.wrapping_sub(1);
        self.notify_waiters();
    }

    /// Asks that those who wait for a change of the stream be woken.
    pub fn notify_waiters(&mut self)
        ensures
            *final(self) == old(self).waking(),
            *final(self) == (RawPtyStream { notify_due: true, ..*old(self) }),
    {
        self.notify_due = true;
    }

    /// Takes over the waking of those who wait for a change, if it is due.
    pub fn take_notification(&mut self) -> (due: bool)
        ensures
            due == old(self).notify_due,
            *old(self) == (if due {
                final(self).waking()
            } else {
                final(self).quiet()
            }),
            *final(self) == old(self).quiet(),
            *final(self) == (RawPtyStream { notify_due: false, ..*old(self) }),
    {
        let due = self.notify_due;
        self.notify_due = false;
        due
    }

    /// Parses the output of one read and publishes it as one step, so that no
    /// snapshot and no position to resume from can come between the two.
    pub fn process_read<T, F: FnOnce() -> T>(
        &mut self,
        bytes: &[u8],
        primary_snapshot: Option<Vec<u8>>,
        parse: F,
    ) -> (result: T)
        requires
            old(self).wf(),
            old(self).state@.bytes.len() + bytes@.len() <= usize::MAX,
            parse.requires(()),
        ensures
            final(self).wf(),
            parse.ensures((), result),
            final(self).state@ == old(self).state@.publish(
                bytes@,
                contents(primary_snapshot),
                old(self).max_bytes as int,
            ),
            bytes@.len() == 0 ==> final(self).state.chunks == old(self).state.chunks,
            final(self).max_bytes == old(self).max_bytes,
            final(self).subscribers == old(self).subscribers,
            final(self).notify_due == old(self).wakes_on_read(),
            final(self).notify_due == (old(self).notify_due || old(self).subscribers != 0),
    {
        if let Some(snapshot) = primary_snapshot {
            self.state.primary_snapshot = Some(snapshot);
        }
        let result = parse();
        self.state.append(bytes, self.max_bytes);
        if self.subscribers != 0 {
            self.notify_waiters();
        }
        result
    }

    /// Decides where a client joins: at the position it resumes from if the
    /// journal still covers it, else at the end, with a snapshot made from the
    /// latest snapshot of the primary screen.
    pub fn attach<F: FnOnce(Option<&[u8]>) -> Vec<u8>>(
        &self,
        resume: Option<(u64, u64)>,
        snapshot: F,
    ) -> (plan: RawPtyAttachPlan)
        requires
            self.wf(),
            !self.state@.resumes(resume) ==> forall|primary: Option<&[u8]>|
                shows(primary, self.state@.primary_snapshot) ==> snapshot.requires((primary,)),
        ensures
            plan.stream_id == self.state@.stream_id,
            plan.start_seq == self.state@.cutoff(resume),
            plan.snapshot is None <==> self.state@.resumes(resume),
            plan.snapshot matches Some(bytes) ==> made_from(
                self.state@.primary_snapshot,
                snapshot,
                bytes,
            ),
            self.state@.resumes(resume) ==> {
                &&& resume == Some((plan.stream_id, plan.start_seq))
                &&& plan.snapshot is None
            },
            !self.state@.resumes(resume) ==> {
                &&& plan.start_seq == self.state@.end()
                &&& plan.snapshot matches Some(bytes) && exists|primary: Option<&[u8]>|
                    shows(primary, self.state@.primary_snapshot) && snapshot.ensures(
                        (primary,),
                        bytes,
                    )
            },
    {
        if let Some((stream_id, parsed_seq)) = resume {
            if stream_id == self.state.stream_id && parsed_seq >= self.state.earliest_seq()
                && parsed_seq <= self.state.end_seq {
                return RawPtyAttachPlan {
                    stream_id: self.state.stream_id,
                    start_seq: parsed_seq,
                    snapshot: None,
                };
            }
        }
        let primary: Option<&[u8]> = match &self.state.primary_snapshot {
            Some(bytes) => Some(bytes.as_slice()),
            None => None,
        };
        assert(shows(primary, self.state@.primary_snapshot));
        RawPtyAttachPlan {
            stream_id: self.state.stream_id,
            start_seq: self.state.end_seq,
            snapshot: Some(snapshot(primary)),
        }
    }
}

} // verus!
