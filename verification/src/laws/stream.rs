//! What a stream's operations do, byte by byte and position by position.

use vstd::prelude::*;

use crate::journal::{clip, contents, last_bytes, saturate, JournalChunk, RawPtyStreamState};
use crate::journal::StreamView;
use crate::laws::{law_chunks_hold_the_stored_bytes, law_counters_add_up};
use crate::stream::{made_from, shows, stream_id_of, RawPtyStream, StreamIdSource};

verus! {

/// Positions count up to the last one that 64 bits hold and stay there.
pub proof fn law_positions_count_up(position: int, more: nat)
    requires
        0 <= position,
    ensures
        0 <= saturate(position) <= 0xffff_ffff_ffff_ffff,
        position <= 0xffff_ffff_ffff_ffff ==> saturate(position) == position,
        position >= 0xffff_ffff_ffff_ffff ==> saturate(position) == 0xffff_ffff_ffff_ffff,
        saturate(saturate(position) + more) == saturate(position + more),
{
}

/// A clip holds the bytes from its offset on, in order, as many as there are and
/// as were asked for.
pub proof fn law_clip_is_a_run_of_bytes(bytes: Seq<u8>, from: nat, max: nat)
    ensures
        clip(bytes, from as int, max as int).len() <= max,
        from + clip(bytes, from as int, max as int).len() <= bytes.len() || clip(
            bytes,
            from as int,
            max as int,
        ).len() == 0,
        clip(bytes, from as int, max as int).len() == max || from + clip(
            bytes,
            from as int,
            max as int,
        ).len() >= bytes.len(),
        forall|i: int|
            0 <= i < clip(bytes, from as int, max as int).len() ==> #[trigger] clip(
                bytes,
                from as int,
                max as int,
            )[i] == bytes[from + i],
{
}

/// The last bytes are the end of the bytes: as many as asked for, or all.
pub proof fn law_last_bytes_are_the_end(bytes: Seq<u8>, count: nat)
    ensures
        last_bytes(bytes, count as int).len() == if bytes.len() < count {
            bytes.len()
        } else {
            count
        },
        forall|i: int|
            0 <= i < last_bytes(bytes, count as int).len() ==> #[trigger] last_bytes(
                bytes,
                count as int,
            )[i] == bytes[bytes.len() - last_bytes(bytes, count as int).len() + i],
{
}

/// A position is covered exactly if it is one of this stream, not before the
/// earliest retained byte and not past the latest.
pub proof fn law_covered_positions(stream: StreamView, stream_id: u64, seq: u64)
    ensures
        stream.covers(stream_id, seq as int) <==> {
            &&& stream_id == stream.stream_id
            &&& stream.start <= seq
            &&& seq <= stream.start + stream.bytes.len()
        },
{
}

/// A client can resume from exactly the positions that can be read from. It then
/// joins there, and otherwise at the end.
pub proof fn law_resume_is_exact(stream: StreamView, stream_id: u64, seq: u64)
    requires
        0 <= stream.start <= u64::MAX,
    ensures
        stream.resumes(Some((stream_id, seq))) <==> {
            &&& stream_id == stream.stream_id
            &&& stream.start <= seq
            &&& seq <= stream.start + stream.bytes.len()
        },
        stream.resumes(Some((stream_id, seq))) <==> stream.covers(stream_id, seq as int),
        !stream.resumes(None),
        stream.resumes(Some((stream_id, seq))) ==> stream.cutoff(Some((stream_id, seq))) == seq,
        !stream.resumes(Some((stream_id, seq))) ==> stream.cutoff(Some((stream_id, seq)))
            == stream.cutoff(None),
        stream.start + stream.bytes.len() <= u64::MAX ==> stream.cutoff(None) == stream.start
            + stream.bytes.len(),
        stream.start + stream.bytes.len() > u64::MAX ==> stream.cutoff(None) == u64::MAX,
{
}

/// A client that has parsed the output up to a position resumes exactly if the
/// journal still holds all that it missed; what it parsed and what it then reads
/// are together the whole output.
pub proof fn law_resuming_misses_nothing(
    stream: StreamView,
    history: Seq<u8>,
    parsed: u64,
    wanted: nat,
)
    requires
        stream.journals(history),
        history.len() < u64::MAX,
        parsed <= history.len() <= wanted,
    ensures
        stream.resumes(Some((stream.stream_id, parsed))) <==> history.len() - parsed
            <= stream.bytes.len(),
        stream.resumes(Some((stream.stream_id, parsed))) ==> history.take(parsed as int)
            + stream.read(stream.cutoff(Some((stream.stream_id, parsed))), wanted as int)
            == history,
        stream.read(stream.cutoff(None), wanted as int).len() == 0,
{
    if stream.resumes(Some((stream.stream_id, parsed))) {
        let missed = stream.read(parsed as int, wanted as int);
        assert(history.take(parsed as int) + missed =~= history);
    }
}

/// A position that can be resumed from stays one, whatever is published meanwhile,
/// as long as the journal has room for all the output from there on.
pub proof fn law_resuming_stays_possible(
    stream: StreamView,
    bytes: Seq<u8>,
    primary_snapshot: Option<Seq<u8>>,
    max_bytes: nat,
    seq: u64,
)
    requires
        0 <= stream.start,
        stream.start + stream.bytes.len() + bytes.len() <= u64::MAX,
        stream.resumes(Some((stream.stream_id, seq))),
        stream.start + stream.bytes.len() + bytes.len() - seq <= max_bytes,
    ensures
        ({
            let after = stream.publish(bytes, primary_snapshot, max_bytes as int);
            &&& after.resumes(Some((stream.stream_id, seq)))
            &&& after.cutoff(Some((stream.stream_id, seq))) == seq
        }),
{
}

/// A read from a covered position gives the bytes there, in order: all there are,
/// or as many as were asked for.
pub proof fn law_read_gives_the_bytes_there(stream: StreamView, seq: u64, wanted: nat)
    requires
        stream.covers(stream.stream_id, seq as int),
    ensures
        seq < u64::MAX ==> stream.read(seq as int, wanted as int).len() == if stream.start
            + stream.bytes.len() - seq < wanted {
            stream.start + stream.bytes.len() - seq
        } else {
            wanted as int
        },
        seq == u64::MAX ==> stream.read(seq as int, wanted as int).len() == 0,
        forall|i: int|
            0 <= i < stream.read(seq as int, wanted as int).len() ==> #[trigger] stream.read(
                seq as int,
                wanted as int,
            )[i] == stream.bytes[seq - stream.start + i],
{
}

/// A request for a range is answered exactly if the position is covered, and then
/// with what is to be read there, also if nothing is there or nothing is wanted.
pub proof fn law_ranges_are_answered(stream: StreamView, stream_id: u64, seq: u64, wanted: nat)
    ensures
        stream.range_of(stream_id, seq as int, wanted as int) is Some <==> {
            &&& stream_id == stream.stream_id
            &&& stream.start <= seq
            &&& seq <= stream.start + stream.bytes.len()
        },
        stream.range_of(stream_id, seq as int, wanted as int) matches Some(bytes) ==> bytes
            == stream.read(seq as int, wanted as int),
{
}

/// A publication adds its bytes at the end and drops from the beginning only what
/// the journal has no room for. The positions of the bytes that stay do not
/// change.
pub proof fn law_publication_adds_at_the_end(
    stream: StreamView,
    bytes: Seq<u8>,
    primary_snapshot: Option<Seq<u8>>,
    max_bytes: nat,
)
    requires
        0 <= stream.start,
        bytes.len() > 0,
    ensures
        ({
            let after = stream.publish(bytes, primary_snapshot, max_bytes as int);
            let total = stream.bytes.len() + bytes.len();
            let dropped = total - after.bytes.len();
            &&& after.bytes.len() == if total < max_bytes {
                total
            } else {
                max_bytes
            }
            &&& stream.start + dropped <= u64::MAX ==> after.start == stream.start + dropped
            &&& stream.start + dropped > u64::MAX ==> after.start == u64::MAX
            &&& forall|i: int|
                0 <= i < after.bytes.len() ==> #[trigger] after.bytes[i] == if i + dropped
                    < stream.bytes.len() {
                    stream.bytes[i + dropped]
                } else {
                    bytes[i + dropped - stream.bytes.len()]
                }
        }),
{
}

/// A publication keeps the identifier and the remembered end of the scanned
/// output, and replaces the snapshot exactly if a new one comes with it. One
/// without bytes does nothing else.
pub proof fn law_publication_keeps_the_rest(
    stream: StreamView,
    bytes: Seq<u8>,
    primary_snapshot: Option<Seq<u8>>,
    max_bytes: nat,
)
    ensures
        ({
            let after = stream.publish(bytes, primary_snapshot, max_bytes as int);
            &&& after.stream_id == stream.stream_id
            &&& after.scan_tail == stream.scan_tail
            &&& primary_snapshot is Some ==> after.primary_snapshot == primary_snapshot
            &&& primary_snapshot is None ==> after.primary_snapshot == stream.primary_snapshot
            &&& bytes.len() == 0 ==> after.start == stream.start && after.bytes == stream.bytes
                && after.trimmed == stream.trimmed
        }),
{
}

/// Trimming leaves at most the rest of one chunk of 64 kibibytes behind: of the
/// dropped bytes those stay stored that share the chunk of the earliest retained
/// byte, and none if no byte is kept.
pub proof fn law_trimming_leaves_less_than_a_chunk(
    stream: StreamView,
    bytes: Seq<u8>,
    max_bytes: nat,
)
    requires
        bytes.len() > 0,
        stream.trimmed.len() < 65_536,
    ensures
        ({
            let after = stream.append(bytes, max_bytes as int);
            let stored = stream.trimmed + stream.bytes + bytes;
            let gone = stored.len() - after.bytes.len();
            &&& after.trimmed.len() < 65_536
            &&& max_bytes == 0 ==> after.trimmed.len() == 0
            &&& max_bytes > 0 ==> after.trimmed.len() == gone % 65_536
            &&& forall|i: int|
                0 <= i < after.trimmed.len() ==> #[trigger] after.trimmed[i] == stored[gone
                    - after.trimmed.len() + i]
        }),
{
}

/// A scan looks at the remembered bytes with the new ones after them and
/// remembers the last 64 of these; it leaves the journal and the snapshot alone.
pub proof fn law_scan_remembers_the_end(stream: StreamView, bytes: Seq<u8>)
    ensures
        ({
            let seen = stream.scanned(bytes);
            let after = stream.after_scan(bytes);
            &&& seen.len() == stream.scan_tail.len() + bytes.len()
            &&& forall|i: int|
                0 <= i < seen.len() ==> #[trigger] seen[i] == if i < stream.scan_tail.len() {
                    stream.scan_tail[i]
                } else {
                    bytes[i - stream.scan_tail.len()]
                }
            &&& after.scan_tail.len() == if seen.len() < 64 {
                seen.len()
            } else {
                64
            }
            &&& forall|i: int|
                0 <= i < after.scan_tail.len() ==> #[trigger] after.scan_tail[i] == seen[seen.len()
                    - after.scan_tail.len() + i]
            &&& after.stream_id == stream.stream_id
            &&& after.start == stream.start
            &&& after.bytes == stream.bytes
            &&& after.trimmed == stream.trimmed
            &&& after.primary_snapshot == stream.primary_snapshot
        }),
{
}

/// A new stream has the identifier it was given, and nothing else yet.
pub proof fn law_new_stream_is_empty(stream_id: u64, seq: u64, wanted: nat)
    ensures
        ({
            let stream = StreamView::fresh(stream_id);
            &&& stream.stream_id == stream_id
            &&& stream.start == 0
            &&& stream.bytes.len() == 0
            &&& stream.trimmed.len() == 0
            &&& stream.scan_tail.len() == 0
            &&& stream.primary_snapshot is None
            &&& stream.covers(stream_id, seq as int) <==> seq == 0
            &&& stream.cutoff(None) == 0
            &&& stream.read(0, wanted as int).len() == 0
        }),
{
}

/// What the fields of a stream's state stand for: its positions and counters, the
/// snapshot, and the remembered end of the scanned output.
pub proof fn law_state_is_what_it_stands_for(state: RawPtyStreamState)
    requires
        state.wf(),
    ensures
        state@.stream_id == state.stream_id,
        state.chunks@.len() == 0 ==> state@.start == state.end_seq,
        state.chunks@.len() > 0 ==> state@.start == state.chunks@[0].start_seq,
        state@.bytes.len() == state.retained_bytes,
        state@.start + state.retained_bytes <= u64::MAX ==> state.end_seq == state@.start
            + state.retained_bytes,
        state@.start + state.retained_bytes > u64::MAX ==> state.end_seq == u64::MAX,
        state.chunks@.len() > 0 ==> state@.trimmed.len() == state.chunks@[0].head,
        state.chunks@.len() == 0 ==> state@.trimmed.len() == 0 && state.retained_bytes == 0,
        state.primary_snapshot is None <==> state@.primary_snapshot is None,
        state.primary_snapshot matches Some(bytes) ==> state@.primary_snapshot == Some(bytes@),
        state@.scan_tail == state.control_scan_tail@,
{
}

/// The bytes of the chunks are the bytes of the journal: the one at offset
/// `offset` of chunk `index` is found as far from the earliest retained byte as
/// full chunks of 64 kibibytes put it, and so is its position.
pub proof fn law_chunk_bytes_are_the_journal(state: RawPtyStreamState, index: int, offset: int)
    requires
        state.wf(),
        state@.start + state@.bytes.len() <= u64::MAX,
        0 <= index < state.chunks@.len(),
        state.chunks@[index].head <= offset < state.chunks@[index].data@.len(),
    ensures
        ({
            let at = index * 65_536 + offset - state.chunks@[0].head;
            &&& 0 <= at < state@.bytes.len()
            &&& state@.bytes[at] == state.chunks@[index].data@[offset]
            &&& state@.start + at == state.chunks@[index].start_seq + offset
                - state.chunks@[index].head
        }),
{
    law_counters_add_up(state);
    law_chunks_hold_the_stored_bytes(state, index);
    law_chunks_hold_the_stored_bytes(state, 0);
    let at = index * 65_536 + offset - state.chunks@[0].head;
    let stored = state@.trimmed + state@.bytes;
    assert(state.chunks@[index].data@[offset] == stored[index * 65_536 + offset]);
    assert(stored[index * 65_536 + offset] == state@.bytes[at]);
}

/// The kept bytes of a chunk are those from its head on.
pub proof fn law_kept_bytes_begin_at_the_head(chunk: JournalChunk)
    requires
        chunk.head <= chunk.data@.len(),
    ensures
        chunk.kept().len() == chunk.data@.len() - chunk.head,
        forall|i: int|
            0 <= i < chunk.kept().len() ==> #[trigger] chunk.kept()[i] == chunk.data@[chunk.head
                + i],
{
}

/// An optional buffer stands for its bytes, and a slice shows it exactly if it
/// has the same bytes, or both are missing.
pub proof fn law_buffers_are_shown_as_they_are(buffer: Option<Vec<u8>>, slice: Option<&[u8]>)
    ensures
        contents(buffer) is Some <==> buffer is Some,
        buffer matches Some(bytes) ==> contents(buffer) == Some(bytes@),
        shows(slice, contents(buffer)) <==> {
            ||| slice is None && buffer is None
            ||| slice is Some && buffer is Some && slice->0@ == buffer->0@
        },
{
}

/// The snapshot for a client is made from the latest snapshot of the primary
/// screen: one that only some buffers can give is given only if the stream has
/// such a buffer.
pub proof fn law_snapshot_is_made_from_the_latest<F: FnOnce(Option<&[u8]>) -> Vec<u8>>(
    latest: Option<Seq<u8>>,
    snapshot: F,
    bytes: Vec<u8>,
)
    requires
        made_from(latest, snapshot, bytes),
    ensures
        exists|primary: Option<&[u8]>| #[trigger]
            snapshot.ensures((primary,), bytes) && (primary is None <==> latest is None) && (
            primary matches Some(slice) ==> latest == Some(slice@)),
{
    let primary = choose|primary: Option<&[u8]>|
        shows(primary, latest) && #[trigger] snapshot.ensures((primary,), bytes);
    assert(snapshot.ensures((primary,), bytes));
}

/// An identifier is the time, rotated left by 17 bits, plus the process number
/// shifted left by 32 bits, plus the number of the stream, in 64 bits.
pub proof fn law_identifier_mixes_its_parts(
    since_epoch_nanos: u128,
    process_id: u32,
    generation: u64,
)
    ensures
        ({
            let epoch = since_epoch_nanos as u64;
            let process = process_id as u64;
            stream_id_of(since_epoch_nanos, process_id, generation) == (((epoch << 17u64) | (epoch
                >> 47u64)) + (process << 32u64) + generation) % 0x1_0000_0000_0000_0000
        }),
{
    let epoch: u64 = since_epoch_nanos as u64;
    let process: u64 = process_id as u64;
    assert(epoch == since_epoch_nanos % 0x1_0000_0000_0000_0000) by (bit_vector)
        requires
            epoch == since_epoch_nanos as u64,
    ;
    assert(((epoch << 17u64) | (epoch >> 47u64)) == (epoch % 0x8000_0000_0000) * 0x2_0000 + epoch
        / 0x8000_0000_0000) by (bit_vector);
    assert((process << 32u64) == process * 0x1_0000_0000) by (bit_vector)
        requires
            process <= 0xffff_ffff,
    ;
}

/// A process starts with stream number one and its own time and number; each
/// identifier given out takes the next number, which wraps around, and changes
/// nothing else.
pub proof fn law_streams_are_numbered(
    since_epoch_nanos: u128,
    process_id: u32,
    ids: StreamIdSource,
)
    ensures
        StreamIdSource::first(since_epoch_nanos, process_id).since_epoch_nanos
            == since_epoch_nanos,
        StreamIdSource::first(since_epoch_nanos, process_id).process_id == process_id,
        StreamIdSource::first(since_epoch_nanos, process_id).next_generation == 1,
        ids.next_generation < u64::MAX ==> ids.advanced(1).next_generation == ids.next_generation
            + 1,
        ids.next_generation == u64::MAX ==> ids.advanced(1).next_generation == 0,
        ids.advanced(1).since_epoch_nanos == ids.since_epoch_nanos,
        ids.advanced(1).process_id == ids.process_id,
        ids.next_id() == stream_id_of(
            ids.since_epoch_nanos,
            ids.process_id,
            ids.next_generation,
        ),
{
}

/// Subscribing and unsubscribing count the followers, in a counter that wraps
/// around; only unsubscribing has the others woken. The journal stays as it is.
pub proof fn law_followers_are_counted(stream: RawPtyStream)
    ensures
        stream.subscribers < usize::MAX ==> stream.subscribed().subscribers == stream.subscribers
            + 1,
        stream.subscribers == usize::MAX ==> stream.subscribed().subscribers == 0,
        stream.subscribed().state == stream.state,
        stream.subscribed().max_bytes == stream.max_bytes,
        stream.subscribed().notify_due == stream.notify_due,
        stream.subscribers > 0 ==> stream.unsubscribed().subscribers == stream.subscribers - 1,
        stream.subscribers == 0 ==> stream.unsubscribed().subscribers == usize::MAX,
        stream.unsubscribed().state == stream.state,
        stream.unsubscribed().max_bytes == stream.max_bytes,
        stream.unsubscribed().notify_due,
{
}

/// A read wakes those who wait exactly if someone follows the stream or waking
/// was due before; waking is asked for and taken over without any other change.
pub proof fn law_followers_are_woken(stream: RawPtyStream)
    ensures
        stream.wakes_on_read() <==> stream.notify_due || stream.subscribers > 0,
        stream.subscribers < usize::MAX ==> stream.subscribed().wakes_on_read(),
        stream.waking().notify_due,
        !stream.quiet().notify_due,
        stream.waking().state == stream.state,
        stream.waking().max_bytes == stream.max_bytes,
        stream.waking().subscribers == stream.subscribers,
        stream.quiet().state == stream.state,
        stream.quiet().max_bytes == stream.max_bytes,
        stream.quiet().subscribers == stream.subscribers,
        stream.waking().quiet() == stream.quiet(),
{
}

/// A stream is in order exactly if its journal is, holds no more than the stream
/// keeps, and no more than 64 scanned bytes are remembered.
pub proof fn law_stream_invariant(stream: RawPtyStream)
    ensures
        stream.wf() <==> {
            &&& stream.state.wf()
            &&& stream.state.retained_bytes <= stream.max_bytes
            &&& stream.state.control_scan_tail@.len() <= 64
        },
{
}

} // verus!
