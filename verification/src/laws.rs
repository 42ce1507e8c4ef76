//! Laws of the library: what holds across its operations.

use vstd::arithmetic::div_mod::{lemma_add_mod_noop_right, lemma_small_mod, lemma_sub_mod_noop};
use vstd::prelude::*;

use crate::alt_screen::{enters_alternate_screen, enters_at, is_param_byte};
use crate::journal::{clip, joined, last_bytes, packed, same_chunk_before, saturate, span};
use crate::journal::{lemma_joined_at, lemma_joined_front, lemma_joined_len, lemma_joined_split};
use crate::journal::{lemma_same_chunk_step, JournalChunk, RawPtyStreamState, StreamView};
use crate::journal::MAX_JOURNAL_CHUNK_BYTES;
use crate::pump::{PumpAction, RawPtyPump, RAW_PTY_ACK_WINDOW_BYTES, RAW_PTY_CHUNK_BYTES};
use crate::stream::{stream_id_of, RawPtyStream, StreamIdSource, ALT_SCREEN_SCAN_TAIL_BYTES};

pub mod pump;
pub mod screen;
pub mod stream;

verus! {

/// A journal holds the latest bytes, as many as it keeps.
pub proof fn law_journal_keeps_the_latest_bytes(stream: StreamView, bytes: Seq<u8>, max_bytes: nat)
    requires
        bytes.len() > 0,
    ensures
        stream.append(bytes, max_bytes as int).bytes == last_bytes(
            stream.bytes + bytes,
            max_bytes as int,
        ),
        stream.append(bytes, max_bytes as int).bytes.len() <= max_bytes,
{
    let all = stream.bytes + bytes;
    assert(all.skip(0) =~= all);
}

/// What was published can be read back at the position where the stream ended
/// before, if it fits in the journal.
pub proof fn law_what_was_published_is_read_back(
    stream: StreamView,
    bytes: Seq<u8>,
    primary_snapshot: Option<Seq<u8>>,
    max_bytes: int,
    wanted: nat,
)
    requires
        0 <= stream.start,
        0 < bytes.len() <= max_bytes,
        stream.start + stream.bytes.len() + bytes.len() <= u64::MAX,
    ensures
        stream.publish(bytes, primary_snapshot, max_bytes).covers(stream.stream_id, stream.end()),
        stream.publish(bytes, primary_snapshot, max_bytes).read(stream.end(), wanted as int)
            == clip(bytes, 0, wanted as int),
{
    let after = stream.publish(bytes, primary_snapshot, max_bytes);
    assert(after.read(stream.end(), wanted as int) =~= clip(bytes, 0, wanted as int));
}

/// The journal follows the output: publication appends to it.
pub proof fn law_journal_follows_the_output(
    stream: StreamView,
    history: Seq<u8>,
    bytes: Seq<u8>,
    primary_snapshot: Option<Seq<u8>>,
    max_bytes: nat,
)
    requires
        stream.journals(history),
        history.len() + bytes.len() <= u64::MAX,
    ensures
        stream.publish(bytes, primary_snapshot, max_bytes as int).journals(history + bytes),
{
    let after = stream.publish(bytes, primary_snapshot, max_bytes as int);
    assert(after.bytes =~= (history + bytes).skip(after.start));
}

/// One read of a terminal: its output, and a snapshot of the primary screen if
/// one was taken with it.
pub struct TerminalRead {
    pub bytes: Seq<u8>,
    pub primary_snapshot: Option<Seq<u8>>,
}

/// The bytes of all reads, in order.
pub open spec fn output_of(reads: Seq<TerminalRead>) -> Seq<u8>
    decreases reads.len(),
{
    if reads.len() == 0 {
        Seq::empty()
    } else {
        output_of(reads.drop_last()) + reads.last().bytes
    }
}

/// The stream after all reads have been published.
pub open spec fn after_reads(
    stream: StreamView,
    reads: Seq<TerminalRead>,
    max_bytes: int,
) -> StreamView
    decreases reads.len(),
{
    if reads.len() == 0 {
        stream
    } else {
        after_reads(stream, reads.drop_last(), max_bytes).publish(
            reads.last().bytes,
            reads.last().primary_snapshot,
            max_bytes,
        )
    }
}

/// However output is cut into reads, the journal holds the end of all of it, as
/// much as it keeps, at the right positions.
pub proof fn law_any_reads_are_journaled(
    stream: StreamView,
    history: Seq<u8>,
    reads: Seq<TerminalRead>,
    max_bytes: nat,
)
    requires
        stream.journals(history),
        stream.bytes == last_bytes(history, max_bytes as int),
        history.len() + output_of(reads).len() <= u64::MAX,
    ensures
        after_reads(stream, reads, max_bytes as int).journals(history + output_of(reads)),
        after_reads(stream, reads, max_bytes as int).bytes == last_bytes(
            history + output_of(reads),
            max_bytes as int,
        ),
    decreases reads.len(),
{
    let max = max_bytes as int;
    if reads.len() == 0 {
        assert(history + output_of(reads) =~= history);
    } else {
        let earlier = reads.drop_last();
        law_any_reads_are_journaled(stream, history, earlier, max_bytes);
        let after = after_reads(stream, reads, max);
        let all = history + output_of(reads);
        assert(all =~= history + output_of(earlier) + reads.last().bytes);
        assert(after.bytes =~= all.skip(after.start));
        assert(after.bytes =~= last_bytes(all, max));
    }
}

/// The snapshot of the primary screen that a stream has is the latest one taken:
/// a new one replaces it, and neither a read without one nor trimming drops it.
pub proof fn law_latest_snapshot_stays(
    stream: StreamView,
    reads: Seq<TerminalRead>,
    max_bytes: int,
    latest: int,
)
    requires
        -1 <= latest < reads.len(),
        latest >= 0 ==> reads[latest].primary_snapshot is Some,
        forall|i: int| latest < i < reads.len() ==> (#[trigger] reads[i]).primary_snapshot is None,
    ensures
        after_reads(stream, reads, max_bytes).primary_snapshot == if latest >= 0 {
            reads[latest].primary_snapshot
        } else {
            stream.primary_snapshot
        },
    decreases reads.len(),
{
    if reads.len() > 0 && latest < reads.len() - 1 {
        assert(reads[reads.len() - 1].primary_snapshot is None);
        law_latest_snapshot_stays(stream, reads.drop_last(), max_bytes, latest);
    }
}

/// Where output is cut into reads does not matter: two publications leave the
/// stream as one publication of all the bytes does.
pub proof fn law_split_reads_are_one_read(
    stream: StreamView,
    first: Seq<u8>,
    second: Seq<u8>,
    max_bytes: nat,
)
    requires
        0 <= stream.start,
        stream.trimmed.len() < MAX_JOURNAL_CHUNK_BYTES,
    ensures
        stream.append(first, max_bytes as int).append(second, max_bytes as int) == stream.append(
            first + second,
            max_bytes as int,
        ),
{
    let max = max_bytes as int;
    let once = stream.append(first, max);
    let twice = once.append(second, max);
    let whole = stream.append(first + second, max);
    if first.len() == 0 {
        assert(first + second =~= second);
    } else if second.len() == 0 {
        assert(first + second =~= first);
    } else {
        let stored = stream.trimmed + stream.bytes + (first + second);
        let reached = stream.trimmed.len() + stream.excess(first, max);
        assert(twice.bytes =~= whole.bytes);
        if max > 0 {
            let step = once.excess(second, max);
            assert(once.trimmed =~= same_chunk_before(stored, reached));
            assert(once.trimmed + once.bytes + second =~= same_chunk_before(stored, reached)
                + stored.skip(reached));
            lemma_same_chunk_step(stored, reached, step);
            assert(twice.trimmed == whole.trimmed);
        }
        assert(twice =~= whole);
    }
}

/// A sequence position is an index into the output: what is read from a covered
/// position is the output from there on.
pub proof fn law_positions_index_the_output(
    stream: StreamView,
    history: Seq<u8>,
    seq: int,
    wanted: nat,
)
    requires
        stream.journals(history),
        history.len() <= u64::MAX,
        stream.covers(stream.stream_id, seq),
    ensures
        stream.end() == history.len(),
        stream.read(seq, wanted as int) == clip(history, seq, wanted as int),
{
    assert(stream.read(seq, wanted as int) =~= clip(history, seq, wanted as int));
}

/// A byte does not change as long as it is retained: what is read from a
/// position after a publication begins with what was read there before.
pub proof fn law_retained_bytes_do_not_change(
    stream: StreamView,
    bytes: Seq<u8>,
    max_bytes: nat,
    seq: int,
    wanted: nat,
)
    requires
        0 <= stream.start <= u64::MAX,
        stream.covers(stream.stream_id, seq),
        stream.append(bytes, max_bytes as int).covers(stream.stream_id, seq),
    ensures
        stream.read(seq, wanted as int).is_prefix_of(
            stream.append(bytes, max_bytes as int).read(seq, wanted as int),
        ),
{
    let after = stream.append(bytes, max_bytes as int);
    let earlier = stream.read(seq, wanted as int);
    let later = after.read(seq, wanted as int);
    assert(earlier =~= later.subrange(0, earlier.len() as int));
}

/// Publication moves the end by the number of bytes and never moves the
/// beginning back.
pub proof fn law_positions_advance(stream: StreamView, bytes: Seq<u8>, max_bytes: nat)
    requires
        0 <= stream.start <= u64::MAX,
    ensures
        stream.append(bytes, max_bytes as int).end() == saturate(stream.end() + bytes.len()),
        stream.append(bytes, max_bytes as int).start >= stream.start,
        stream.append(bytes, max_bytes as int).stream_id == stream.stream_id,
{
}

/// After a publication a position can be read from exactly if it is not before
/// the bytes that were dropped.
pub proof fn law_dropped_positions_are_refused(
    stream: StreamView,
    bytes: Seq<u8>,
    max_bytes: nat,
    seq: int,
)
    requires
        0 <= stream.start <= u64::MAX,
        bytes.len() > 0,
        stream.covers(stream.stream_id, seq),
    ensures
        stream.append(bytes, max_bytes as int).covers(stream.stream_id, seq) <==> seq >= saturate(
            stream.start + stream.excess(bytes, max_bytes as int),
        ),
{
}

/// A read gives all there is from its position on, up to what was asked for.
pub proof fn law_read_gives_all_there_is(stream: StreamView, seq: int, wanted: nat)
    requires
        stream.start + stream.bytes.len() <= u64::MAX,
        stream.covers(stream.stream_id, seq),
    ensures
        stream.read(seq, wanted as int).len() == if stream.end() - seq < wanted {
            stream.end() - seq
        } else {
            wanted as int
        },
{
}

/// Reads that follow each other give the same bytes as one long read.
pub proof fn law_consecutive_reads_join(stream: StreamView, seq: int, first: nat, second: nat)
    requires
        stream.start + stream.bytes.len() <= u64::MAX,
        stream.covers(stream.stream_id, seq),
    ensures
        stream.covers(stream.stream_id, seq + stream.read(seq, first as int).len()),
        stream.read(seq, first as int) + stream.read(
            seq + stream.read(seq, first as int).len(),
            second as int,
        ) == stream.read(seq, (first + second) as int),
{
    let one = stream.read(seq, first as int);
    let two = stream.read(seq + one.len(), second as int);
    assert(one + two =~= stream.read(seq, (first + second) as int));
}

/// The end of a stream, where a client with a snapshot joins, can be read from,
/// and nothing is there yet.
pub proof fn law_cutoff_is_the_end(stream: StreamView, wanted: nat)
    requires
        0 <= stream.start <= u64::MAX,
    ensures
        stream.covers(stream.stream_id, stream.end()),
        stream.read(stream.end(), wanted as int) == Seq::<u8>::empty(),
{
}

/// Small reads share chunks: there are no more chunks than the bytes need, and
/// none is too long.
pub proof fn law_chunks_are_coalesced(state: RawPtyStreamState)
    requires
        state.wf(),
    ensures
        state.chunks@.len() == (state@.trimmed.len() + state@.bytes.len() + MAX_JOURNAL_CHUNK_BYTES
            - 1) / MAX_JOURNAL_CHUNK_BYTES as int,
        forall|i: int|
            0 <= i < state.chunks@.len() ==> (#[trigger] state.chunks@[i]).data@.len()
                <= MAX_JOURNAL_CHUNK_BYTES,
{
    lemma_joined_len(state.chunks@);
    if state.chunks@.len() > 0 {
        assert(state.chunks@.last().data@.len() > 0);
    }
}

/// The chunks are what the trimmed and the retained bytes give when they are cut
/// into pieces of the largest length; trimming leaves the bytes where they are.
pub proof fn law_chunks_hold_the_stored_bytes(state: RawPtyStreamState, i: int)
    requires
        state.wf(),
        0 <= i < state.chunks@.len(),
    ensures
        state.chunks@[i].data@ == clip(
            state@.trimmed + state@.bytes,
            i * MAX_JOURNAL_CHUNK_BYTES,
            MAX_JOURNAL_CHUNK_BYTES as int,
        ),
        state.chunks@[i].head == if i == 0 {
            state@.trimmed.len()
        } else {
            0
        },
        state.chunks@[i].start_seq == if i == 0 {
            state@.start
        } else {
            saturate(state@.start - state@.trimmed.len() + i * MAX_JOURNAL_CHUNK_BYTES)
        },
{
    let chunks = state.chunks@;
    let size = MAX_JOURNAL_CHUNK_BYTES as int;
    let before = chunks.take(i);
    let after = chunks.skip(i);
    lemma_joined_len(chunks);
    lemma_joined_split(chunks, i);
    assert forall|k: int| 0 <= k < i implies before[k] == chunks[k] by {}
    lemma_joined_len(before);
    if i > 0 {
        assert(before.last() == chunks[i - 1]);
    }
    assert forall|k: int| 0 <= k < after.len() implies after[k] == chunks[i + k] by {}
    lemma_joined_front(after);
    assert(state.chunks@[i].data@ =~= clip(state@.trimmed + state@.bytes, i * size, size));
}

/// Number of bytes kept in all chunks.
pub open spec fn kept_bytes(chunks: Seq<JournalChunk>) -> nat
    decreases chunks.len(),
{
    if chunks.len() == 0 {
        0
    } else {
        kept_bytes(chunks.drop_last()) + chunks.last().kept().len()
    }
}

/// Number of bytes stored in all chunks, trimmed or not.
pub open spec fn stored_bytes(chunks: Seq<JournalChunk>) -> nat
    decreases chunks.len(),
{
    if chunks.len() == 0 {
        0
    } else {
        stored_bytes(chunks.drop_last()) + chunks.last().data@.len()
    }
}

proof fn lemma_kept_bytes(chunks: Seq<JournalChunk>)
    ensures
        kept_bytes(chunks) == joined(chunks).len(),
    decreases chunks.len(),
{
    if chunks.len() > 0 {
        lemma_kept_bytes(chunks.drop_last());
    }
}

proof fn lemma_stored_bytes(chunks: Seq<JournalChunk>)
    requires
        packed(chunks),
    ensures
        stored_bytes(chunks) == span(chunks),
    decreases chunks.len(),
{
    if chunks.len() > 0 {
        let rest = chunks.drop_last();
        assert forall|i: int| 0 <= i < rest.len() implies rest[i] == chunks[i] by {}
        let size = MAX_JOURNAL_CHUNK_BYTES as int;
        if rest.len() > 0 {
            assert(rest.last() == chunks[chunks.len() - 2]);
            assert(rest.last().data@.len() == size);
            assert((rest.len() - 1) * size + size == rest.len() * size) by (nonlinear_arith);
        }
        assert(packed(rest));
        lemma_stored_bytes(rest);
        assert(rest.len() == chunks.len() - 1);
        assert(span(rest) == rest.len() * size) by {
            if rest.len() == 0 {
                assert(0 * size == 0);
            }
        }
        assert(span(chunks) == rest.len() * size + chunks.last().data@.len());
    }
}

/// The counters add up: each chunk ends where the next begins, the last one at
/// the end of the stream, and no chunk is used up.
pub proof fn law_counters_add_up(state: RawPtyStreamState)
    requires
        state.wf(),
        state@.start + state@.bytes.len() <= u64::MAX,
    ensures
        state.retained_bytes == kept_bytes(state.chunks@),
        state@.start + state.retained_bytes == state.end_seq,
        forall|i: int|
            0 <= i < state.chunks@.len() ==> {
                &&& (#[trigger] state.chunks@[i]).head < state.chunks@[i].data@.len()
                &&& state.chunks@[i].data@.len() <= MAX_JOURNAL_CHUNK_BYTES
                &&& state.chunks@[i].start_seq + state.chunks@[i].kept().len() == if i + 1
                    < state.chunks@.len() {
                    state.chunks@[i + 1].start_seq
                } else {
                    state.end_seq
                }
            },
{
    let chunks = state.chunks@;
    lemma_kept_bytes(chunks);
    assert forall|i: int| 0 <= i < chunks.len() implies (#[trigger] chunks[i]).start_seq
        + chunks[i].kept().len() == if i + 1 < chunks.len() {
        chunks[i + 1].start_seq
    } else {
        state.end_seq
    } by {
        lemma_joined_at(chunks, i);
        lemma_joined_split(chunks, i + 1);
        if i + 1 < chunks.len() {
            lemma_joined_at(chunks, i + 1);
        } else {
            assert(chunks.take(i + 1) =~= chunks);
        }
    }
}

/// A journal within its bound takes little more room than the bytes it keeps:
/// less than one chunk of trimmed bytes, and at most two chunks more than the
/// bytes fill.
pub proof fn law_journal_space_is_bounded(state: RawPtyStreamState, max_bytes: nat)
    requires
        state.wf(),
        state@.bytes.len() <= max_bytes,
    ensures
        stored_bytes(state.chunks@) <= max_bytes + MAX_JOURNAL_CHUNK_BYTES - 1,
        state.chunks@.len() <= max_bytes as int / MAX_JOURNAL_CHUNK_BYTES as int + 2,
        forall|i: int|
            0 <= i < state.chunks@.len() - 1 ==> (#[trigger] state.chunks@[i]).data@.len()
                == MAX_JOURNAL_CHUNK_BYTES,
        forall|i: int| 0 < i < state.chunks@.len() ==> (#[trigger] state.chunks@[i]).head == 0,
{
    law_chunks_are_coalesced(state);
    lemma_joined_len(state.chunks@);
    lemma_stored_bytes(state.chunks@);
    if state.chunks@.len() > 0 {
        assert(state.chunks@[0].head < state.chunks@[0].data@.len());
    }
}

/// At one time and in one process, the number of the stream decides its
/// identifier.
pub proof fn law_generations_are_unique(
    since_epoch_nanos: u128,
    process_id: u32,
    first: u64,
    second: u64,
)
    requires
        first != second,
    ensures
        stream_id_of(since_epoch_nanos, process_id, first) != stream_id_of(
            since_epoch_nanos,
            process_id,
            second,
        ),
{
}

/// No two streams of a process have the same identifier, until the numbers of
/// the streams have wrapped around.
pub proof fn law_stream_ids_are_unique(ids: StreamIdSource, first: nat, second: nat)
    requires
        first < second < first + 0x1_0000_0000_0000_0000,
    ensures
        ids.advanced(first).next_id() != ids.advanced(second).next_id(),
        ids.advanced(first).advanced(1) == ids.advanced(first + 1),
{
    let size: int = 0x1_0000_0000_0000_0000;
    let one = ids.advanced(first);
    let two = ids.advanced(second);
    assert(one.next_generation != two.next_generation) by {
        lemma_sub_mod_noop(ids.next_generation + second, ids.next_generation + first, size);
        lemma_small_mod((second - first) as nat, size as nat);
        lemma_small_mod(0, size as nat);
    }
    lemma_add_mod_noop_right(1, (ids.next_generation + first) as int, size);
    law_generations_are_unique(
        ids.since_epoch_nanos,
        ids.process_id,
        one.next_generation,
        two.next_generation,
    );
}

/// A position of one stream is never taken for a position of another stream of
/// the process: nothing is read from there, and no client resumes there.
pub proof fn law_other_streams_are_refused(
    ids: StreamIdSource,
    one: nat,
    other: nat,
    stream: StreamView,
    seq: u64,
)
    requires
        one != other,
        one < other + 0x1_0000_0000_0000_0000,
        other < one + 0x1_0000_0000_0000_0000,
        stream.stream_id == ids.advanced(one).next_id(),
    ensures
        !stream.covers(ids.advanced(other).next_id(), seq as int),
        !stream.resumes(Some((ids.advanced(other).next_id(), seq))),
{
    if one < other {
        law_stream_ids_are_unique(ids, one, other);
    } else {
        law_stream_ids_are_unique(ids, other, one);
    }
}

/// Handing a subscription back undoes it, but for the waking of the others.
pub proof fn law_subscription_is_undone(stream: RawPtyStream)
    ensures
        stream.subscribed().unsubscribed() == (RawPtyStream { notify_due: true, ..stream }),
{
}

/// The remembered bytes are the end of all output seen so far.
pub proof fn law_scan_tail_follows_the_output(history: Seq<u8>, bytes: Seq<u8>)
    ensures
        last_bytes(
            last_bytes(history, ALT_SCREEN_SCAN_TAIL_BYTES as int) + bytes,
            ALT_SCREEN_SCAN_TAIL_BYTES as int,
        ) == last_bytes(history + bytes, ALT_SCREEN_SCAN_TAIL_BYTES as int),
{
    assert(last_bytes(
        last_bytes(history, ALT_SCREEN_SCAN_TAIL_BYTES as int) + bytes,
        ALT_SCREEN_SCAN_TAIL_BYTES as int,
    ) =~= last_bytes(history + bytes, ALT_SCREEN_SCAN_TAIL_BYTES as int));
}

proof fn lemma_enters_at_skip(bytes: Seq<u8>, skipped: int, at: int, last: int)
    requires
        0 <= skipped <= bytes.len(),
        0 <= at,
    ensures
        enters_at(bytes.skip(skipped), at, last) <==> enters_at(bytes, at + skipped, last + skipped),
{
    let rest = bytes.skip(skipped);
    if at + 3 <= last < rest.len() {
        assert(rest.subrange(at + 3, last) =~= bytes.subrange(at + skipped + 3, last + skipped));
        if enters_at(rest, at, last) {
            assert forall|k: int| at + skipped + 3 <= k < last + skipped implies is_param_byte(
                #[trigger] bytes[k],
            ) by {
                assert(is_param_byte(rest[k - skipped]));
            }
        }
    }
}

/// A switch to the alternate screen is found on the read that completes it,
/// however the output was cut into reads, as long as it began within the
/// remembered bytes.
pub proof fn law_split_sequences_are_found(history: Seq<u8>, bytes: Seq<u8>)
    ensures
        enters_alternate_screen(last_bytes(history, ALT_SCREEN_SCAN_TAIL_BYTES as int) + bytes)
            <==> exists|at: int, last: int| #[trigger]
            enters_at(history + bytes, at, last) && at >= history.len()
                - ALT_SCREEN_SCAN_TAIL_BYTES,
{
    let all = history + bytes;
    let tail = last_bytes(history, ALT_SCREEN_SCAN_TAIL_BYTES as int);
    let skipped = history.len() - tail.len();
    assert(tail + bytes =~= all.skip(skipped));
    if enters_alternate_screen(tail + bytes) {
        let (at, last) = choose|at: int, last: int| enters_at(tail + bytes, at, last);
        lemma_enters_at_skip(all, skipped, at, last);
        assert(enters_at(all, at + skipped, last + skipped));
    }
    if exists|at: int, last: int| #[trigger]
        enters_at(all, at, last) && at >= history.len() - ALT_SCREEN_SCAN_TAIL_BYTES {
        let (at, last) = choose|at: int, last: int| #[trigger]
            enters_at(all, at, last) && at >= history.len() - ALT_SCREEN_SCAN_TAIL_BYTES;
        lemma_enters_at_skip(all, skipped, at - skipped, last - skipped);
        assert(enters_at(tail + bytes, at - skipped, last - skipped));
    }
}

/// Nothing is read for a client before it has acknowledged the start.
pub proof fn law_nothing_is_sent_before_the_start_ack(pump: RawPtyPump)
    requires
        !pump.state.start_acknowledged,
    ensures
        pump.next() == PumpAction::Stop || pump.next() == PumpAction::AwaitStartAck,
{
}

/// Only the exact position of the start is accepted as the first
/// acknowledgement.
pub proof fn law_start_ack_is_exact(pump: RawPtyPump, stream_id: u64, parsed_seq: u64)
    requires
        !pump.state.start_acknowledged,
    ensures
        pump.accepts(stream_id, parsed_seq) <==> stream_id == pump.stream_id && !pump.cancelled
            && parsed_seq == pump.state.start_seq,
{
}

/// Acknowledgements never go back and never claim what was not sent.
pub proof fn law_acks_are_monotonic(pump: RawPtyPump, stream_id: u64, parsed_seq: u64)
    requires
        pump.wf(),
        pump.accepts(stream_id, parsed_seq),
    ensures
        pump.state.acknowledged_seq <= parsed_seq <= pump.state.sent_seq,
        pump.acknowledged(parsed_seq).wf(),
{
}

/// An acknowledgement never takes back room in the window, so what was asked
/// for before it still fits after it.
pub proof fn law_acks_open_the_window(pump: RawPtyPump, stream_id: u64, parsed_seq: u64)
    requires
        pump.wf(),
        pump.accepts(stream_id, parsed_seq),
    ensures
        pump.acknowledged(parsed_seq).allowance() >= pump.allowance(),
        parsed_seq == pump.state.sent_seq ==> pump.acknowledged(parsed_seq).allowance()
            == RAW_PTY_ACK_WINDOW_BYTES,
{
}

/// Bytes that were handed out but not sent are never acknowledged: neither while
/// their chunk is on its way nor after its sending has failed is a position past
/// what was sent before accepted.
pub proof fn law_unsent_bytes_are_not_acknowledged(
    pump: RawPtyPump,
    count: nat,
    stream_id: u64,
    parsed_seq: u64,
)
    requires
        pump.wf(),
        parsed_seq > pump.state.sent_seq,
    ensures
        !pump.sending(count as int).accepts(stream_id, parsed_seq),
        !pump.sending(count as int).unsent().accepts(stream_id, parsed_seq),
{
}

/// An acknowledgement of bytes that are being sent is settled by the end of the
/// sending: it is accepted once they have been sent, and refused if they could
/// not be.
pub proof fn law_claims_in_flight_are_settled(pump: RawPtyPump, stream_id: u64, parsed_seq: u64)
    requires
        pump.wf(),
        pump.unsettled(stream_id, parsed_seq),
    ensures
        !pump.accepts(stream_id, parsed_seq),
        pump.sent().accepts(stream_id, parsed_seq),
        !pump.sent().unsettled(stream_id, parsed_seq),
        !pump.unsent().accepts(stream_id, parsed_seq),
        !pump.unsent().unsettled(stream_id, parsed_seq),
{
}

/// Once bytes have been sent they can be acknowledged, up to the last one.
pub proof fn law_sent_bytes_can_be_acknowledged(pump: RawPtyPump, parsed_seq: u64)
    requires
        pump.wf(),
        pump.state.start_acknowledged,
        !pump.cancelled,
    ensures
        pump.sent().accepts(pump.stream_id, parsed_seq) <==> pump.sent().state.acknowledged_seq
            <= parsed_seq <= pump.state.sent_seq + pump.state.in_flight,
{
}

/// A cancelled pump accepts no acknowledgement, has none waiting, and does
/// nothing more.
pub proof fn law_cancelled_pump_is_done(pump: RawPtyPump, stream_id: u64, parsed_seq: u64)
    requires
        pump.cancelled,
    ensures
        !pump.accepts(stream_id, parsed_seq),
        !pump.unsettled(stream_id, parsed_seq),
        pump.next() == PumpAction::Stop,
        pump.sent().next() == PumpAction::Stop,
{
}

/// A pump asks for the byte after the last one sent, for no more than it may
/// send, and for no more than one message holds.
pub proof fn law_requests_fit_the_window(pump: RawPtyPump)
    requires
        pump.next() is Read,
    ensures
        pump.next()->stream_id == pump.stream_id,
        pump.next()->start_seq == pump.state.sent_seq,
        0 < pump.next()->max_bytes <= pump.allowance(),
        pump.next()->max_bytes <= RAW_PTY_CHUNK_BYTES,
{
}

/// What is sent without acknowledgement never exceeds the window: sending what
/// was asked for stays within it, also when an acknowledgement has come in
/// between.
pub proof fn law_unacknowledged_output_is_limited(
    asking: RawPtyPump,
    stream_id: u64,
    parsed_seq: u64,
    count: nat,
)
    requires
        asking.wf(),
        asking.next() is Read,
        count <= asking.next()->max_bytes,
    ensures
        asking.sending(count as int).wf(),
        asking.sending(count as int).sent().wf(),
        asking.accepts(stream_id, parsed_seq) ==> {
            &&& asking.acknowledged(parsed_seq).sending(count as int).wf()
            &&& asking.acknowledged(parsed_seq).sending(count as int).sent().wf()
        },
        ({
            let after = asking.sending(count as int).sent().state;
            after.sent_seq - after.acknowledged_seq <= RAW_PTY_ACK_WINDOW_BYTES
        }),
{
}

/// What can happen to a pump: an acknowledgement comes in, it is cancelled, a
/// chunk that it asked for is handed out, or the sending of one comes to its
/// end.
pub enum PumpMove {
    Acknowledge { stream_id: u64, parsed_seq: u64 },
    Cancel,
    HandOut { count: nat },
    Sent { sent: bool },
}

/// Chunks are handed out only once the start is acknowledged, one at a time, and
/// no longer than a request could have asked for.
pub open spec fn can_move(pump: RawPtyPump, step: PumpMove) -> bool {
    step matches PumpMove::HandOut { count } ==> {
        &&& pump.state.start_acknowledged
        &&& pump.state.in_flight == 0
        &&& count <= pump.allowance()
    }
}

pub open spec fn after_move(pump: RawPtyPump, step: PumpMove) -> RawPtyPump {
    match step {
        PumpMove::Acknowledge { stream_id, parsed_seq } => if pump.accepts(stream_id, parsed_seq) {
            pump.acknowledged(parsed_seq)
        } else {
            pump
        },
        PumpMove::Cancel => RawPtyPump { cancelled: true, ..pump },
        PumpMove::HandOut { count } => pump.sending(count as int),
        PumpMove::Sent { sent } => if sent {
            pump.sent()
        } else {
            pump.unsent()
        },
    }
}

pub open spec fn after_moves(pump: RawPtyPump, steps: Seq<PumpMove>) -> RawPtyPump
    decreases steps.len(),
{
    if steps.len() == 0 {
        pump
    } else {
        after_move(after_moves(pump, steps.drop_last()), steps.last())
    }
}

pub open spec fn can_move_all(pump: RawPtyPump, steps: Seq<PumpMove>) -> bool
    decreases steps.len(),
{
    steps.len() > 0 ==> can_move_all(pump, steps.drop_last()) && can_move(
        after_moves(pump, steps.drop_last()),
        steps.last(),
    )
}

/// Whatever happens, in whatever order: the unacknowledged output stays within
/// the window, neither what was sent nor what was acknowledged goes back, and a
/// cancellation is final.
pub proof fn law_every_delivery_keeps_the_window(pump: RawPtyPump, steps: Seq<PumpMove>)
    requires
        pump.wf(),
        can_move_all(pump, steps),
    ensures
        after_moves(pump, steps).wf(),
        after_moves(pump, steps).stream_id == pump.stream_id,
        after_moves(pump, steps).state.start_seq == pump.state.start_seq,
        after_moves(pump, steps).state.sent_seq >= pump.state.sent_seq,
        after_moves(pump, steps).state.acknowledged_seq >= pump.state.acknowledged_seq,
        pump.state.start_acknowledged ==> after_moves(pump, steps).state.start_acknowledged,
        pump.cancelled ==> after_moves(pump, steps).cancelled,
    decreases steps.len(),
{
    if steps.len() > 0 {
        law_every_delivery_keeps_the_window(pump, steps.drop_last());
    }
}

/// Position of the last acknowledgement that was accepted.
pub open spec fn last_accepted(pump: RawPtyPump, steps: Seq<PumpMove>) -> u64
    decreases steps.len(),
{
    if steps.len() == 0 {
        pump.state.acknowledged_seq
    } else {
        match steps.last() {
            PumpMove::Acknowledge { stream_id, parsed_seq } => if after_moves(
                pump,
                steps.drop_last(),
            ).accepts(stream_id, parsed_seq) {
                parsed_seq
            } else {
                last_accepted(pump, steps.drop_last())
            },
            _ => last_accepted(pump, steps.drop_last()),
        }
    }
}

/// Only what was accepted counts: what has been handed out never exceeds the
/// last accepted position by more than the window, and until the pump is
/// cancelled the last accepted acknowledgement is accepted again and changes
/// nothing.
pub proof fn law_only_accepted_acks_count(pump: RawPtyPump, steps: Seq<PumpMove>)
    requires
        pump.wf(),
        can_move_all(pump, steps),
    ensures
        ({
            let after = after_moves(pump, steps);
            let accepted = last_accepted(pump, steps);
            &&& after.state.acknowledged_seq == accepted
            &&& after.state.sent_seq + after.state.in_flight - accepted <= RAW_PTY_ACK_WINDOW_BYTES
            &&& after.state.start_acknowledged && !after.cancelled ==> {
                &&& after.accepts(after.stream_id, accepted)
                &&& after.acknowledged(accepted) == after
            }
        }),
    decreases steps.len(),
{
    law_every_delivery_keeps_the_window(pump, steps);
    if steps.len() > 0 {
        law_only_accepted_acks_count(pump, steps.drop_last());
    }
}

/// The answer to a request can be handed out, also when acknowledgements have
/// come in or the pump was cancelled in between.
pub proof fn law_answers_can_be_handed_out(
    asking: RawPtyPump,
    meanwhile: Seq<PumpMove>,
    count: nat,
)
    requires
        asking.wf(),
        asking.state.in_flight == 0,
        asking.next() is Read,
        count <= asking.next()->max_bytes,
        forall|i: int|
            0 <= i < meanwhile.len() ==> (#[trigger] meanwhile[i]) is Acknowledge || meanwhile[i]
                is Cancel,
    ensures
        after_moves(asking, meanwhile).wf(),
        after_moves(asking, meanwhile).state.in_flight == 0,
        after_moves(asking, meanwhile).state.sent_seq == asking.state.sent_seq,
        after_moves(asking, meanwhile).allowance() >= asking.allowance(),
        can_move(after_moves(asking, meanwhile), PumpMove::HandOut { count }),
    decreases meanwhile.len(),
{
    if meanwhile.len() > 0 {
        let earlier = meanwhile.drop_last();
        assert forall|i: int| 0 <= i < earlier.len() implies (#[trigger] earlier[i]) is Acknowledge
            || earlier[i] is Cancel by {
            assert(earlier[i] == meanwhile[i]);
        }
        assert(meanwhile[meanwhile.len() - 1] == meanwhile.last());
        law_answers_can_be_handed_out(asking, earlier, count);
    }
}

/// Only a chunk that was sent moves the limit of what can be acknowledged:
/// whatever else happens, no position past it is accepted.
pub proof fn law_only_sending_moves_the_limit(
    pump: RawPtyPump,
    steps: Seq<PumpMove>,
    stream_id: u64,
    parsed_seq: u64,
)
    requires
        pump.wf(),
        can_move_all(pump, steps),
        !steps.contains(PumpMove::Sent { sent: true }),
    ensures
        after_moves(pump, steps).state.sent_seq == pump.state.sent_seq,
        parsed_seq > pump.state.sent_seq ==> !after_moves(pump, steps).accepts(
            stream_id,
            parsed_seq,
        ),
    decreases steps.len(),
{
    law_every_delivery_keeps_the_window(pump, steps);
    if steps.len() > 0 {
        let earlier = steps.drop_last();
        assert(steps.contains(steps.last())) by {
            assert(steps[steps.len() - 1] == steps.last());
        }
        assert(!earlier.contains(PumpMove::Sent { sent: true })) by {
            if earlier.contains(PumpMove::Sent { sent: true }) {
                let i = choose|i: int|
                    0 <= i < earlier.len() && earlier[i] == (PumpMove::Sent { sent: true });
                assert(steps[i] == earlier[i]);
            }
        }
        law_only_sending_moves_the_limit(pump, earlier, stream_id, parsed_seq);
    }
}

/// A full window is the only thing that keeps a started pump from reading.
pub proof fn law_full_window_waits(pump: RawPtyPump)
    requires
        pump.wf(),
        pump.state.start_acknowledged,
        !pump.cancelled,
    ensures
        pump.next() == PumpAction::AwaitAck <==> pump.state.sent_seq - pump.state.acknowledged_seq
            == RAW_PTY_ACK_WINDOW_BYTES,
        pump.next() != PumpAction::AwaitAck ==> pump.next() is Read,
{
}

/// What a client has been sent is the output from where it joined: each chunk
/// that is sent extends it by the bytes that come next, whatever was published
/// meanwhile.
pub proof fn law_delivery_is_the_output(
    pump: RawPtyPump,
    stream: StreamView,
    history: Seq<u8>,
    delivered: Seq<u8>,
)
    requires
        pump.wf(),
        stream.journals(history),
        history.len() <= u64::MAX,
        stream.covers(pump.stream_id, pump.state.sent_seq as int),
        delivered == history.subrange(pump.state.start_seq as int, pump.state.sent_seq as int),
        pump.next() is Read,
    ensures
        ({
            let chunk = stream.read(pump.next()->start_seq as int, pump.next()->max_bytes as int);
            let after = pump.sending(chunk.len() as int).sent();
            &&& after.wf()
            &&& after.state.sent_seq <= history.len()
            &&& delivered + chunk == history.subrange(
                after.state.start_seq as int,
                after.state.sent_seq as int,
            )
        }),
{
    let chunk = stream.read(pump.next()->start_seq as int, pump.next()->max_bytes as int);
    let after = pump.sending(chunk.len() as int).sent();
    assert(delivered + chunk =~= history.subrange(
        after.state.start_seq as int,
        after.state.sent_seq as int,
    ));
}

/// Chunks follow each other without gap or overlap: after a pump has sent what
/// it read, it asks for the byte after the last one sent, and the stream covers
/// that position.
pub proof fn law_chunks_are_contiguous(pump: RawPtyPump, stream: StreamView)
    requires
        stream.start + stream.bytes.len() <= u64::MAX,
        stream.covers(pump.stream_id, pump.state.sent_seq as int),
        pump.next() is Read,
    ensures
        ({
            let chunk = stream.read(
                pump.state.sent_seq as int,
                pump.next()->max_bytes as int,
            );
            let after = pump.sending(chunk.len() as int).sent();
            &&& pump.next()->start_seq == pump.state.sent_seq
            &&& after.state.sent_seq == pump.state.sent_seq + chunk.len()
            &&& stream.covers(after.stream_id, after.state.sent_seq as int)
            &&& after.next() matches PumpAction::Read { start_seq, .. } ==> start_seq
                == pump.state.sent_seq + chunk.len()
        }),
{
}

} // verus!
