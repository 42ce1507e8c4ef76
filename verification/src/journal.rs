//! The bounded journal of one terminal stream: the most recent output bytes,
//! held in chunks and addressed by their sequence position in the stream.

use std::collections::VecDeque;

use vstd::arithmetic::div_mod::lemma_add_mod_noop_right;
use vstd::prelude::*;
use vstd::slice::{slice_subrange, slice_to_vec};

verus! {

/// Largest number of bytes one chunk of the journal holds.
pub const MAX_JOURNAL_CHUNK_BYTES: usize = 64 * 1024;

/// Sequence positions are 64 bits wide and stop growing at the last one.
pub open spec fn saturate(position: int) -> int {
    if position <= u64::MAX {
        position
    } else {
        u64::MAX as int
    }
}

/// The part of `bytes` from offset `from` on, at most `max` bytes of it.
pub open spec fn clip(bytes: Seq<u8>, from: int, max: int) -> Seq<u8> {
    if from >= bytes.len() {
        Seq::empty()
    } else if from + max <= bytes.len() {
        bytes.subrange(from, from + max)
    } else {
        bytes.subrange(from, bytes.len() as int)
    }
}

/// A run of consecutive bytes. Trimming advances `head` and leaves the bytes
/// where they are; `start_seq` is the position of the byte at `head`.
#[derive(Debug)]
pub struct JournalChunk {
    pub start_seq: u64,
    pub data: Vec<u8>,
    pub head: usize,
}

impl JournalChunk {
    /// The bytes that have not been trimmed.
    pub open spec fn kept(self) -> Seq<u8> {
        self.data@.subrange(self.head as int, self.data@.len() as int)
    }

    pub fn retained(&self) -> (bytes: &[u8])
        requires
            self.head <= self.data@.len(),
        ensures
            bytes@ == self.kept(),
    {
        slice_subrange(self.data.as_slice(), self.head, self.data.len())
    }

    pub fn retained_len(&self) -> (len: usize)
        ensures
            self.head <= self.data@.len() ==> len == self.kept().len(),
            len == if self.head <= self.data@.len() {
                self.data@.len() - self.head
            } else {
                0
            },
    {
        self.data.len().saturating_sub(self.head)
    }
}

/// The kept bytes of all chunks, in order.
pub open spec fn joined(chunks: Seq<JournalChunk>) -> Seq<u8>
    decreases chunks.len(),
{
    if chunks.len() == 0 {
        Seq::empty()
    } else {
        joined(chunks.drop_last()) + chunks.last().kept()
    }
}

/// Number of bytes from the beginning of the first chunk's data to the end of
/// the last chunk's, when every chunk but the last is full.
pub open spec fn span(chunks: Seq<JournalChunk>) -> int {
    if chunks.len() == 0 {
        0
    } else {
        (chunks.len() - 1) * MAX_JOURNAL_CHUNK_BYTES + chunks.last().data@.len()
    }
}

/// The bytes that have been trimmed from the first chunk and are still stored
/// in it.
pub open spec fn trimmed(chunks: Seq<JournalChunk>) -> Seq<u8> {
    if chunks.len() == 0 {
        Seq::empty()
    } else {
        chunks[0].data@.subrange(0, chunks[0].head as int)
    }
}

/// The bytes before offset `at` that share its chunk, when `stored` is cut into
/// full chunks from its beginning.
pub open spec fn same_chunk_before(stored: Seq<u8>, at: int) -> Seq<u8> {
    stored.subrange(at - at % (MAX_JOURNAL_CHUNK_BYTES as int), at)
}

/// The last `count` of `bytes`, or all of them if there are fewer.
pub open spec fn last_bytes(bytes: Seq<u8>, count: int) -> Seq<u8> {
    if bytes.len() <= count {
        bytes
    } else {
        bytes.skip(bytes.len() - count)
    }
}

/// No chunk is used up or too long, every chunk but the last is full, and only
/// the first one has been trimmed.
pub open spec fn packed(chunks: Seq<JournalChunk>) -> bool {
    &&& forall|i: int|
        0 <= i < chunks.len() ==> (#[trigger] chunks[i]).head < chunks[i].data@.len()
            <= MAX_JOURNAL_CHUNK_BYTES
    &&& forall|i: int|
        0 <= i < chunks.len() - 1 ==> (#[trigger] chunks[i]).data@.len() == MAX_JOURNAL_CHUNK_BYTES
    &&& forall|i: int| 0 < i < chunks.len() ==> (#[trigger] chunks[i]).head == 0
}

/// Each chunk begins where the one before it ends.
pub open spec fn consecutive(chunks: Seq<JournalChunk>) -> bool {
    forall|i: int|
        0 < i < chunks.len() ==> (#[trigger] chunks[i]).start_seq == saturate(
            chunks[0].start_seq - chunks[0].head + i * MAX_JOURNAL_CHUNK_BYTES,
        )
}

proof fn lemma_joined_push(chunks: Seq<JournalChunk>, chunk: JournalChunk)
    ensures
        joined(chunks.push(chunk)) == joined(chunks) + chunk.kept(),
{
    assert(chunks.push(chunk).drop_last() =~= chunks);
}

pub(crate) proof fn lemma_joined_front(chunks: Seq<JournalChunk>)
    requires
        chunks.len() > 0,
    ensures
        joined(chunks) == chunks[0].kept() + joined(chunks.skip(1)),
    decreases chunks.len(),
{
    if chunks.len() == 1 {
        assert(chunks.drop_last() =~= Seq::empty());
        assert(chunks.skip(1) =~= Seq::empty());
        assert(joined(chunks) =~= chunks[0].kept() + joined(chunks.skip(1)));
    } else {
        lemma_joined_front(chunks.drop_last());
        assert(chunks.drop_last().skip(1) =~= chunks.skip(1).drop_last());
        assert(joined(chunks) =~= chunks[0].kept() + joined(chunks.skip(1)));
    }
}

pub(crate) proof fn lemma_joined_len(chunks: Seq<JournalChunk>)
    requires
        packed(chunks),
    ensures
        joined(chunks).len() == span(chunks) - trimmed(chunks).len(),
    decreases chunks.len(),
{
    if chunks.len() > 1 {
        let rest = chunks.drop_last();
        assert(packed(rest)) by {
            assert forall|i: int| 0 <= i < rest.len() implies rest[i] == chunks[i] by {}
        }
        assert(rest.last() == chunks[chunks.len() - 2]);
        assert(rest[0] == chunks[0]);
        lemma_joined_len(rest);
    } else if chunks.len() == 1 {
        assert(joined(chunks.drop_last()) =~= Seq::empty());
    }
}

/// The chunk at `i` holds the bytes that follow those of the chunks before it,
/// and begins at the position of the first of them.
pub(crate) proof fn lemma_joined_at(chunks: Seq<JournalChunk>, i: int)
    requires
        packed(chunks),
        consecutive(chunks),
        0 <= i < chunks.len(),
    ensures
        joined(chunks.take(i + 1)) == joined(chunks.take(i)) + chunks[i].kept(),
        chunks[i].start_seq == saturate(chunks[0].start_seq + joined(chunks.take(i)).len()),
{
    let before = chunks.take(i);
    assert(chunks.take(i + 1).drop_last() =~= before);
    assert forall|k: int| 0 <= k < i implies before[k] == chunks[k] by {}
    lemma_joined_len(before);
    if i > 0 {
        assert(before.last() == chunks[i - 1]);
    }
}

pub(crate) proof fn lemma_joined_split(chunks: Seq<JournalChunk>, i: int)
    requires
        0 <= i <= chunks.len(),
    ensures
        joined(chunks) == joined(chunks.take(i)) + joined(chunks.skip(i)),
    decreases chunks.len(),
{
    if i == chunks.len() {
        assert(chunks.take(i) =~= chunks);
        assert(chunks.skip(i) =~= Seq::empty());
        assert(joined(chunks) =~= joined(chunks) + joined(chunks.skip(i)));
    } else {
        lemma_joined_split(chunks.drop_last(), i);
        assert(chunks.drop_last().take(i) =~= chunks.take(i));
        assert(chunks.drop_last().skip(i) =~= chunks.skip(i).drop_last());
        assert(joined(chunks) =~= joined(chunks.take(i)) + joined(chunks.skip(i)));
    }
}

/// Dropping goes on within `stored` as it does from the beginning of the chunk
/// it has reached.
pub(crate) proof fn lemma_same_chunk_step(stored: Seq<u8>, at: int, step: int)
    requires
        0 <= at,
        0 <= step,
        at + step <= stored.len(),
    ensures
        same_chunk_before(same_chunk_before(stored, at) + stored.skip(at), at % (
        MAX_JOURNAL_CHUNK_BYTES as int) + step) == same_chunk_before(stored, at + step),
{
    let size = MAX_JOURNAL_CHUNK_BYTES as int;
    let reached = at - at % size;
    lemma_add_mod_noop_right(step, at, size);
    assert(same_chunk_before(stored, at) + stored.skip(at) =~= stored.skip(reached));
    assert(same_chunk_before(stored.skip(reached), at % size + step) =~= same_chunk_before(
        stored,
        at + step,
    ));
}

/// What a stream's state stands for.
#[verifier::ext_equal]
pub struct StreamView {
    pub stream_id: u64,
    /// Position of the earliest retained byte, or of the next byte to come
    /// when none is retained.
    pub start: int,
    /// The retained bytes, earliest first.
    pub bytes: Seq<u8>,
    /// The bytes before those, as far as they are still stored in the chunk of
    /// the earliest one.
    pub trimmed: Seq<u8>,
    pub primary_snapshot: Option<Seq<u8>>,
    pub scan_tail: Seq<u8>,
}

impl StreamView {
    /// Position after the latest byte.
    pub open spec fn end(self) -> int {
        saturate(self.start + self.bytes.len())
    }

    /// Number of the earliest bytes that have to go so that at most `max_bytes`
    /// are left once `bytes` have been added.
    pub open spec fn excess(self, bytes: Seq<u8>, max_bytes: int) -> int {
        if self.bytes.len() + bytes.len() > max_bytes {
            self.bytes.len() + bytes.len() - max_bytes
        } else {
            0
        }
    }

    /// The state after `bytes` have been published to a journal that keeps
    /// `max_bytes`.
    pub open spec fn append(self, bytes: Seq<u8>, max_bytes: int) -> StreamView {
        if bytes.len() == 0 {
            self
        } else {
            let dropped = self.excess(bytes, max_bytes);
            StreamView {
                start: saturate(self.start + dropped),
                bytes: (self.bytes + bytes).skip(dropped),
                trimmed: if max_bytes == 0 {
                    Seq::empty()
                } else {
                    same_chunk_before(
                        self.trimmed + self.bytes + bytes,
                        self.trimmed.len() + dropped,
                    )
                },
                ..self
            }
        }
    }
}

/// The journal of a stream together with what a client needs to join it.
#[derive(Debug)]
pub struct RawPtyStreamState {
    pub stream_id: u64,
    pub end_seq: u64,
    pub retained_bytes: usize,
    pub chunks: VecDeque<JournalChunk>,
    pub primary_snapshot: Option<Vec<u8>>,
    pub control_scan_tail: Vec<u8>,
}

/// The bytes of an optional buffer.
pub open spec fn contents(buffer: Option<Vec<u8>>) -> Option<Seq<u8>> {
    match buffer {
        Some(bytes) => Some(bytes@),
        None => None,
    }
}

impl View for RawPtyStreamState {
    type V = StreamView;

    open spec fn view(&self) -> StreamView {
        StreamView {
            stream_id: self.stream_id,
            start: self.earliest(),
            bytes: joined(self.chunks@),
            trimmed: trimmed(self.chunks@),
            primary_snapshot: contents(self.primary_snapshot),
            scan_tail: self.control_scan_tail@,
        }
    }
}

impl RawPtyStreamState {
    /// Position of the earliest byte in the journal.
    pub open spec fn earliest(self) -> int {
        if self.chunks@.len() == 0 {
            self.end_seq as int
        } else {
            self.chunks@[0].start_seq as int
        }
    }

    /// The chunks are in order and the counters say what they hold.
    pub open spec fn wf(self) -> bool {
        &&& packed(self.chunks@)
        &&& consecutive(self.chunks@)
        &&& self.end_seq == self@.end()
        &&& self.retained_bytes == self@.bytes.len()
    }

    /// Position of the earliest byte that can still be read.
    pub fn earliest_seq(&self) -> (seq: u64)
        ensures
            seq == self@.start,
    {
        if self.chunks.len() == 0 {
            self.end_seq
        } else {
            self.chunks[0].start_seq
        }
    }

    /// Adds the bytes from offset `from` on, as many as fit in one chunk: the
    /// last chunk if it has room, a new one otherwise. Returns how many.
    fn append_piece(&mut self, bytes: &[u8], from: usize) -> (taken: usize)
        requires
            old(self).wf(),
            from < bytes@.len(),
            old(self).retained_bytes + bytes@.len() - from <= usize::MAX,
        ensures
            final(self).wf(),
            0 < taken <= bytes@.len() - from,
            final(self)@ == (StreamView {
                bytes: old(self)@.bytes + bytes@.subrange(from as int, from + taken),
                ..old(self)@
            }),
    {
        let remaining: usize = bytes.len() - from;
        let chunk_count: usize = self.chunks.len();
        proof {
            lemma_joined_len(self.chunks@);
        }
        let append_to_back = chunk_count > 0 && self.chunks[chunk_count - 1].data.len()
            < MAX_JOURNAL_CHUNK_BYTES;
        if append_to_back {
            let ghost before = self.chunks@;
            let back = self.chunks.pop_back();
            match back {
                Some(chunk) => {
                    let mut chunk = chunk;
                    let room: usize = MAX_JOURNAL_CHUNK_BYTES - chunk.data.len();
                    let taken: usize = if remaining < room {
                        remaining
                    } else {
                        room
                    };
                    let ghost added = bytes@.subrange(from as int, from + taken);
                    chunk.data.extend_from_slice(slice_subrange(bytes, from, from + taken));
                    proof {
                        let rest = before.drop_last();
                        assert(self.chunks@ =~= rest);
                        assert(chunk.data@ =~= before.last().data@ + added);
                        assert(chunk.kept() =~= before.last().kept() + added);
                        lemma_joined_push(rest, chunk);
                        assert(joined(rest.push(chunk)) =~= joined(before) + added);
                        assert forall|i: int| 0 <= i < before.len() - 1 implies rest.push(chunk)[i]
                            == before[i] by {}
                        assert(rest.push(chunk)[before.len() - 1] == chunk);
                        assert(trimmed(rest.push(chunk)) =~= trimmed(before));
                        assert(packed(rest.push(chunk)));
                        lemma_joined_len(rest.push(chunk));
                    }
                    self.chunks.push_back(chunk);
                    self.end_seq = self.end_seq.saturating_add(taken as u64);
                    self.retained_bytes = self.retained_bytes.saturating_add(taken);
                    taken
                },
                None => 0,
            }
        } else {
            let taken: usize = if remaining < MAX_JOURNAL_CHUNK_BYTES {
                remaining
            } else {
                MAX_JOURNAL_CHUNK_BYTES
            };
            let ghost before = self.chunks@;
            let ghost added = bytes@.subrange(from as int, from + taken);
            let chunk = JournalChunk {
                start_seq: self.end_seq,
                data: slice_to_vec(slice_subrange(bytes, from, from + taken)),
                head: 0,
            };
            proof {
                assert(chunk.kept() =~= added);
                lemma_joined_push(before, chunk);
                assert forall|i: int| 0 <= i < before.len() implies before.push(chunk)[i]
                    == before[i] by {}
                assert(before.push(chunk)[before.len() as int] == chunk);
                assert(trimmed(before.push(chunk)) =~= trimmed(before));
                assert(packed(before.push(chunk)));
                lemma_joined_len(before.push(chunk));
            }
            self.chunks.push_back(chunk);
            self.end_seq = self.end_seq.saturating_add(taken as u64);
            self.retained_bytes = self.retained_bytes.saturating_add(taken);
            taken
        }
    }

    /// Drops up to `excess` of the earliest bytes: the first chunk if they
    /// reach past it, else only the part of it that they cover.
    fn trim_front(&mut self, excess: usize) -> (dropped: usize)
        requires
            old(self).wf(),
            0 < excess <= old(self).retained_bytes,
        ensures
            final(self).wf(),
            0 < dropped <= excess,
            final(self)@ == (StreamView {
                start: saturate(old(self)@.start + dropped),
                bytes: old(self)@.bytes.skip(dropped as int),
                trimmed: if dropped == old(self)@.bytes.len() {
                    Seq::empty()
                } else {
                    same_chunk_before(
                        old(self)@.trimmed + old(self)@.bytes,
                        old(self)@.trimmed.len() + dropped,
                    )
                },
                ..old(self)@
            }),
    {
        let ghost before = self.chunks@;
        proof {
            lemma_joined_len(before);
            lemma_joined_front(before);
        }
        let front = self.chunks.pop_front();
        match front {
            Some(chunk) => {
                let mut chunk = chunk;
                let front_len: usize = chunk.retained_len();
                let ghost rest = before.skip(1);
                assert(self.chunks@ =~= rest);
                assert forall|i: int| 0 <= i < rest.len() implies rest[i] == before[i + 1] by {}
                assert(rest.len() > 0 ==> rest.last() == before.last());
                if excess >= front_len {
                    self.retained_bytes = self.retained_bytes - front_len;
                    proof {
                        assert(joined(before).skip(front_len as int) =~= joined(rest));
                        assert(packed(rest));
                        assert(consecutive(rest));
                        if rest.len() > 0 {
                            let at = chunk.data@.len() as int;
                            assert(at == MAX_JOURNAL_CHUNK_BYTES);
                            assert(same_chunk_before(trimmed(before) + joined(before), at)
                                =~= trimmed(rest));
                        }
                    }
                    front_len
                } else {
                    let ghost original = chunk;
                    chunk.head = chunk.head + excess;
                    chunk.start_seq = chunk.start_seq.saturating_add(excess as u64);
                    self.retained_bytes = self.retained_bytes - excess;
                    let ghost after = seq![chunk] + rest;
                    proof {
                        assert(after.skip(1) =~= rest);
                        lemma_joined_front(after);
                        assert(chunk.kept() =~= original.kept().skip(excess as int));
                        assert(joined(before).skip(excess as int) =~= joined(after));
                        assert forall|i: int| 0 < i < after.len() implies after[i] == before[i] by {}
                        assert(after.last().data@ == before.last().data@);
                        assert(packed(after));
                        assert(consecutive(after));
                        let at = chunk.head as int;
                        assert(at % (MAX_JOURNAL_CHUNK_BYTES as int) == at);
                        assert(same_chunk_before(trimmed(before) + joined(before), at) =~= trimmed(
                            after,
                        ));
                    }
                    self.chunks.push_front(chunk);
                    assert(self.chunks@ =~= after);
                    excess
                }
            },
            None => 0,
        }
    }

    /// Publishes `bytes` at the end of the journal, then drops the earliest
    /// bytes until at most `max_bytes` are left.
    pub fn append(&mut self, bytes: &[u8], max_bytes: usize)
        requires
            old(self).wf(),
            old(self)@.bytes.len() + bytes@.len() <= usize::MAX,
        ensures
            final(self).wf(),
            final(self)@ == old(self)@.append(bytes@, max_bytes as int),
            bytes@.len() == 0 ==> *final(self) == *old(self),
    {
        if bytes.len() == 0 {
            return;
        }
        let mut from: usize = 0;
        assert(bytes@.subrange(0, 0) =~= Seq::empty());
        assert(self@ =~= (StreamView { bytes: old(self)@.bytes + bytes@.subrange(0, 0), ..old(self)@ }));
        while from < bytes.len()
            invariant
                self.wf(),
                from <= bytes@.len(),
                old(self)@.bytes.len() + bytes@.len() <= usize::MAX,
                self@ == (StreamView {
                    bytes: old(self)@.bytes + bytes@.subrange(0, from as int),
                    ..old(self)@
                }),
            decreases bytes@.len() - from,
        {
            let taken: usize = self.append_piece(bytes, from);
            assert(bytes@.subrange(0, from + taken) =~= bytes@.subrange(0, from as int)
                + bytes@.subrange(from as int, from + taken));
            assert(self@.bytes =~= old(self)@.bytes + bytes@.subrange(0, from + taken));
            from = from + taken;
        }
        assert(bytes@.subrange(0, bytes@.len() as int) =~= bytes@);
        let ghost full = self@;
        let ghost stored = full.trimmed + full.bytes;
        let ghost mut dropped: int = 0;
        assert(full.bytes.skip(0) =~= full.bytes);
        while self.retained_bytes > max_bytes
            invariant
                self.wf(),
                full.bytes == old(self)@.bytes + bytes@,
                stored == full.trimmed + full.bytes,
                0 <= dropped <= old(self)@.excess(bytes@, max_bytes as int),
                self@ == (StreamView {
                    start: saturate(full.start + dropped),
                    bytes: full.bytes.skip(dropped),
                    trimmed: if dropped == full.bytes.len() {
                        Seq::empty()
                    } else {
                        same_chunk_before(stored, full.trimmed.len() + dropped)
                    },
                    ..full
                }),
            decreases self.retained_bytes,
        {
            let excess: usize = self.retained_bytes - max_bytes;
            let step: usize = self.trim_front(excess);
            proof {
                assert(full.bytes.skip(dropped).skip(step as int) =~= full.bytes.skip(dropped + step));
                assert(full.bytes.skip(dropped) =~= stored.skip(full.trimmed.len() + dropped));
                lemma_same_chunk_step(stored, full.trimmed.len() + dropped, step as int);
                dropped = dropped + step;
            }
        }
    }
}

} // verus!
