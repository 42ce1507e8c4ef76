use std::sync::atomic::{AtomicBool, Ordering};

use raw_pty_stream::alt_screen::contains_alternate_screen_enter;
use raw_pty_stream::journal::{JournalChunk, MAX_JOURNAL_CHUNK_BYTES};
use raw_pty_stream::stream::{
    RawPtyStream, StreamIdSource, ALT_SCREEN_SCAN_TAIL_BYTES, DEFAULT_JOURNAL_BYTES,
};

fn with_capacity(max_bytes: usize) -> RawPtyStream {
    RawPtyStream::with_capacity(
        max_bytes,
        &mut StreamIdSource::new(1_700_000_000_123_456_789, 4711),
    )
}

fn ids_at(since_epoch_nanos: u128, process_id: u32, next_generation: u64) -> StreamIdSource {
    StreamIdSource {
        since_epoch_nanos,
        process_id,
        next_generation,
    }
}

#[test]
fn ordered_append_partial_ranges_and_trimming() {
    let mut stream = with_capacity(5);
    stream.process_read(b"abc", None, || ());
    stream.process_read(b"defg", None, || ());
    let id = stream.state.stream_id;
    assert!(stream.range(id, 1, 4).is_none());
    assert_eq!(stream.range(id, 2, 3).expect("retained range").data, b"cde");
    assert_eq!(stream.range(id, 5, 8).expect("retained tail").data, b"fg");
}

#[test]
fn exact_resume_and_generation_mismatch_choose_expected_cutoff() {
    let mut stream = with_capacity(8);
    stream.process_read(b"abcdef", None, || ());
    let id = stream.state.stream_id;
    let resumed = stream.attach(Some((id, 3)), |_: Option<&[u8]>| -> Vec<u8> {
        panic!("resume must not snapshot")
    });
    assert_eq!((resumed.start_seq, resumed.snapshot), (3, None));

    let mismatch = stream.attach(Some((id + 1, 3)), |_: Option<&[u8]>| b"snapshot".to_vec());
    assert_eq!(mismatch.start_seq, 6);
    assert_eq!(mismatch.snapshot.as_deref(), Some(b"snapshot".as_slice()));

    stream.process_read(b"ghijkl", None, || ());
    let stale = stream.attach(Some((id, 0)), |_: Option<&[u8]>| b"reconstructed".to_vec());
    assert_eq!(stale.start_seq, 12);
    assert_eq!(stale.snapshot.as_deref(), Some(b"reconstructed".as_slice()));
}

#[test]
fn attach_cutoff_cannot_split_parse_and_publication() {
    let mut stream = with_capacity(8);
    let parsed = std::sync::Arc::new(AtomicBool::new(false));
    stream.process_read(b"live", None, || parsed.store(true, Ordering::Release));
    let plan = stream.attach(None, |_: Option<&[u8]>| {
        assert!(parsed.load(Ordering::Acquire));
        b"state".to_vec()
    });
    assert_eq!(plan.start_seq, 4);
    assert_eq!(
        stream
            .range(plan.stream_id, plan.start_seq, 8)
            .expect("cutoff range")
            .data,
        b""
    );
}

#[test]
fn tiny_reads_are_coalesced_into_bounded_journal_chunks() {
    let mut stream = with_capacity(MAX_JOURNAL_CHUNK_BYTES * 2);
    for _ in 0..(MAX_JOURNAL_CHUNK_BYTES + 17) {
        stream.process_read(b"x", None, || ());
    }
    let state = &stream.state;
    assert_eq!(state.retained_bytes, MAX_JOURNAL_CHUNK_BYTES + 17);
    assert_eq!(state.chunks.len(), 2);
    assert!(state
        .chunks
        .iter()
        .all(|chunk| chunk.data.len() <= MAX_JOURNAL_CHUNK_BYTES));
}

#[test]
fn steady_state_trimming_advances_chunk_head_without_shifting_bytes() {
    let mut stream = with_capacity(MAX_JOURNAL_CHUNK_BYTES);
    stream.process_read(&vec![b'x'; MAX_JOURNAL_CHUNK_BYTES], None, || ());
    stream.process_read(b"y", None, || ());

    let state = &stream.state;
    let front = state
        .chunks
        .front()
        .expect("partially retained front chunk");
    assert_eq!(front.head, 1);
    assert_eq!(front.data.len(), MAX_JOURNAL_CHUNK_BYTES);
    assert_eq!(front.retained_len(), MAX_JOURNAL_CHUNK_BYTES - 1);
    assert_eq!(state.retained_bytes, MAX_JOURNAL_CHUNK_BYTES);
    assert_eq!(state.chunks.len(), 2);
    let stream_id = state.stream_id;

    let range = stream
        .range(stream_id, 1, MAX_JOURNAL_CHUNK_BYTES)
        .expect("retained journal range");
    assert_eq!(range.data.len(), MAX_JOURNAL_CHUNK_BYTES);
    assert_eq!(range.data.last(), Some(&b'y'));
}

#[test]
fn split_alternate_screen_enter_caches_primary_snapshot_for_attach() {
    let mut stream = with_capacity(64);
    assert!(!stream.entering_alternate_screen(b"\x1b[?10"));
    assert!(stream.entering_alternate_screen(b"49h"));
    stream.process_read(b"49h", Some(b"primary-state".to_vec()), || ());
    let plan = stream.attach(None, |primary: Option<&[u8]>| primary.unwrap_or_default().to_vec());
    assert_eq!(plan.snapshot.as_deref(), Some(b"primary-state".as_slice()));
}

#[test]
fn stream_generations_are_unique() {
    let mut ids = StreamIdSource::new(99, 7);
    let first = RawPtyStream::with_capacity(8, &mut ids).state.stream_id;
    let second = RawPtyStream::with_capacity(8, &mut ids).state.stream_id;
    assert_ne!(first, second);
}

#[test]
fn streams_of_a_process_are_not_mistaken_for_each_other() {
    let mut ids = StreamIdSource::new(1_700_000_000_123_456_789, 4711);
    assert_eq!(ids.next_generation, 1);
    let mut first = RawPtyStream::with_capacity(8, &mut ids);
    let mut second = RawPtyStream::with_capacity(8, &mut ids);
    assert_eq!(ids.next_generation, 3);
    first.process_read(b"one", None, || ());
    second.process_read(b"two", None, || ());
    let first_id = first.state.stream_id;
    assert_eq!(second.state.stream_id, first_id.wrapping_add(1));
    assert!(second.range(first_id, 0, 8).is_none());
    let plan = second.attach(Some((first_id, 1)), |_: Option<&[u8]>| b"fresh".to_vec());
    assert_eq!(plan.start_seq, 3);
    assert_eq!(plan.snapshot.as_deref(), Some(b"fresh".as_slice()));
}

#[test]
fn stream_numbers_wrap_around() {
    let mut ids = ids_at(5, 6, u64::MAX);
    let last = RawPtyStream::with_capacity(8, &mut ids).state.stream_id;
    assert_eq!(ids.next_generation, 0);
    let next = RawPtyStream::with_capacity(8, &mut ids).state.stream_id;
    assert_eq!(next, last.wrapping_add(1));
}

#[test]
fn stream_identifier_mixes_time_process_and_generation() {
    let nanos: u128 = 0x1_8765_4321_0fed_cba9;
    let id = RawPtyStream::new(&mut ids_at(nanos, 0xdead_beef, 5)).state.stream_id;
    let expected = 0x8765_4321_0fed_cba9_u64
        .rotate_left(17)
        .wrapping_add(0xdead_beef_u64.rotate_left(32))
        .wrapping_add(5);
    assert_eq!(id, expected);
    assert_eq!(RawPtyStream::new(&mut ids_at(0, 0, 0)).state.stream_id, 0);
    assert_eq!(
        RawPtyStream::new(&mut ids_at(1, 1, u64::MAX)).state.stream_id,
        0x1_0001_ffff
    );
}

#[test]
fn new_stream_is_empty_and_keeps_the_default() {
    let stream = RawPtyStream::new(&mut StreamIdSource::new(1, 2));
    assert_eq!(stream.max_bytes, DEFAULT_JOURNAL_BYTES);
    assert_eq!(stream.max_bytes, 33_554_432);
    assert_eq!(stream.subscribers, 0);
    assert!(!stream.notify_due);
    assert_eq!(stream.state.end_seq, 0);
    assert_eq!(stream.state.earliest_seq(), 0);
    assert_eq!(
        stream.range(stream.state.stream_id, 0, 10).expect("start").data,
        b""
    );
}

#[test]
fn ranges_refuse_other_streams_and_positions_ahead() {
    let mut stream = with_capacity(10);
    stream.process_read(b"abcdef", None, || ());
    let id = stream.state.stream_id;
    assert!(stream.range(id + 1, 0, 4).is_none());
    assert!(stream.range(id, 7, 4).is_none());
    assert_eq!(stream.range(id, 6, 4).expect("end").data, b"");
    assert_eq!(stream.range(id, 0, 0).expect("nothing wanted").data, b"");
    let whole = stream.range(id, 0, 100).expect("whole journal");
    assert_eq!(whole.start_seq, 0);
    assert_eq!(whole.data, b"abcdef");
}

#[test]
fn ranges_cross_chunks() {
    let mut stream = with_capacity(3 * MAX_JOURNAL_CHUNK_BYTES);
    let output: Vec<u8> = (0..200_000usize).map(|i| (i % 251) as u8).collect();
    stream.process_read(&output, None, || ());
    let dropped = 200_000 - 3 * MAX_JOURNAL_CHUNK_BYTES;
    let id = stream.state.stream_id;
    assert_eq!(stream.state.earliest_seq(), dropped as u64);
    assert_eq!(stream.state.chunks.len(), 4);
    assert!(stream.range(id, dropped as u64 - 1, 1).is_none());
    let range = stream.range(id, 65_000, 70_000).expect("three chunks");
    assert_eq!(range.data, &output[65_000..135_000]);
    let rest = stream.range(id, 135_000, 1_000_000).expect("the rest");
    assert_eq!(rest.data, &output[135_000..]);
}

#[test]
fn journal_without_room_keeps_positions() {
    let mut stream = with_capacity(0);
    stream.process_read(b"gone", None, || ());
    let id = stream.state.stream_id;
    assert_eq!(stream.state.end_seq, 4);
    assert_eq!(stream.state.earliest_seq(), 4);
    assert_eq!(stream.state.chunks.len(), 0);
    assert!(stream.range(id, 3, 1).is_none());
    assert_eq!(stream.range(id, 4, 1).expect("end").data, b"");
}

#[test]
fn empty_read_publishes_nothing_but_keeps_the_snapshot() {
    let mut stream = with_capacity(4);
    stream.process_read(b"ab", Some(b"one".to_vec()), || ());
    let parsed = stream.process_read(b"", Some(b"two".to_vec()), || 42);
    assert_eq!(parsed, 42);
    assert_eq!(stream.state.end_seq, 2);
    stream.process_read(b"c", None, || ());
    let plan = stream.attach(None, |primary: Option<&[u8]>| primary.unwrap_or_default().to_vec());
    assert_eq!(plan.snapshot.as_deref(), Some(b"two".as_slice()));
}

#[test]
fn attach_resumes_at_both_ends_of_the_journal() {
    let mut stream = with_capacity(4);
    stream.process_read(b"abcdef", None, || ());
    let id = stream.state.stream_id;
    let earliest = stream.attach(Some((id, 2)), |_: Option<&[u8]>| Vec::new());
    assert_eq!((earliest.start_seq, earliest.snapshot), (2, None));
    let latest = stream.attach(Some((id, 6)), |_: Option<&[u8]>| Vec::new());
    assert_eq!((latest.start_seq, latest.snapshot), (6, None));
    let dropped = stream.attach(Some((id, 1)), |_: Option<&[u8]>| Vec::new());
    assert_eq!((dropped.start_seq, dropped.snapshot), (6, Some(Vec::new())));
    let ahead = stream.attach(Some((id, 7)), |_: Option<&[u8]>| Vec::new());
    assert_eq!((ahead.start_seq, ahead.snapshot), (6, Some(Vec::new())));
}

#[test]
fn attach_without_a_primary_snapshot_shows_none() {
    let stream = with_capacity(4);
    let plan = stream.attach(None, |primary: Option<&[u8]>| {
        assert!(primary.is_none());
        b"fresh".to_vec()
    });
    assert_eq!(plan.stream_id, stream.state.stream_id);
    assert_eq!(plan.snapshot.as_deref(), Some(b"fresh".as_slice()));
}

#[test]
fn output_after_the_cutoff_is_read_back() {
    let mut stream = with_capacity(16);
    stream.process_read(b"before", None, || ());
    let plan = stream.attach(None, |_: Option<&[u8]>| Vec::new());
    stream.process_read(b"after", None, || ());
    stream.process_read(b"wards", None, || ());
    let range = stream.range(plan.stream_id, plan.start_seq, 100);
    assert_eq!(range.expect("live output").data, b"afterwards");
}

#[test]
fn publication_wakes_only_while_someone_follows() {
    let mut stream = with_capacity(16);
    stream.process_read(b"a", None, || ());
    assert!(!stream.take_notification());
    let subscription = stream.subscribe();
    assert_eq!(stream.subscribers, 1);
    assert!(!stream.take_notification());
    stream.process_read(b"b", None, || ());
    assert!(stream.take_notification());
    assert!(!stream.take_notification());
    stream.unsubscribe(subscription);
    assert_eq!(stream.subscribers, 0);
    assert!(stream.take_notification());
    stream.process_read(b"c", None, || ());
    assert!(!stream.take_notification());
    stream.notify_waiters();
    assert!(stream.take_notification());
}

#[test]
fn chunk_lengths_count_what_is_kept() {
    let chunk = JournalChunk {
        start_seq: 3,
        data: b"abcdef".to_vec(),
        head: 2,
    };
    assert_eq!(chunk.retained(), b"cdef");
    assert_eq!(chunk.retained_len(), 4);
    let used_up = JournalChunk {
        start_seq: 3,
        data: b"ab".to_vec(),
        head: 5,
    };
    assert_eq!(used_up.retained_len(), 0);
}

#[test]
fn positions_stop_at_the_last_one() {
    let mut stream = with_capacity(8);
    stream.state.end_seq = u64::MAX - 2;
    let id = stream.state.stream_id;
    stream.process_read(b"abcd", None, || ());
    assert_eq!(stream.state.earliest_seq(), u64::MAX - 2);
    assert_eq!(stream.state.end_seq, u64::MAX);
    assert_eq!(stream.range(id, u64::MAX - 2, 8).expect("all").data, b"abcd");
    assert_eq!(stream.range(id, u64::MAX - 1, 8).expect("tail").data, b"bcd");
    assert_eq!(stream.range(id, u64::MAX, 8).expect("end").data, b"");
}

#[test]
fn alternate_screen_parameters_are_matched_whole() {
    assert!(contains_alternate_screen_enter(b"\x1b[?47h"));
    assert!(contains_alternate_screen_enter(b"\x1b[?1047h"));
    assert!(contains_alternate_screen_enter(b"\x1b[?1049h"));
    assert!(contains_alternate_screen_enter(b"text\x1b[?25;1049h"));
    assert!(contains_alternate_screen_enter(b"\x1b[?1049;25h"));
    assert!(contains_alternate_screen_enter(b"\x1b[?;47;h"));
    assert!(contains_alternate_screen_enter(b"\x1b[?25h\x1b[?47h"));
    assert!(contains_alternate_screen_enter(b"\x1b[?\x1b[?47h"));
    assert!(!contains_alternate_screen_enter(b""));
    assert!(!contains_alternate_screen_enter(b"\x1b[?h"));
    assert!(!contains_alternate_screen_enter(b"\x1b[?47l"));
    assert!(!contains_alternate_screen_enter(b"\x1b[?47"));
    assert!(!contains_alternate_screen_enter(b"\x1b[47h"));
    assert!(!contains_alternate_screen_enter(b"\x1b[?147h"));
    assert!(!contains_alternate_screen_enter(b"\x1b[?1048h"));
    assert!(!contains_alternate_screen_enter(b"\x1b[?10;49h"));
    assert!(!contains_alternate_screen_enter(b"\x1b[?4 7h"));
}

#[test]
fn scan_remembers_a_limited_tail() {
    let mut stream = with_capacity(4);
    assert!(!stream.entering_alternate_screen(b"\x1b[?47"));
    let filler = vec![b';'; ALT_SCREEN_SCAN_TAIL_BYTES - 5];
    assert!(!stream.entering_alternate_screen(&filler));
    assert_eq!(stream.state.control_scan_tail.len(), 64);
    assert!(stream.entering_alternate_screen(b"h"));

    let mut late = with_capacity(4);
    assert!(!late.entering_alternate_screen(b"\x1b[?47"));
    assert!(!late.entering_alternate_screen(&vec![b';'; ALT_SCREEN_SCAN_TAIL_BYTES - 4]));
    assert!(!late.entering_alternate_screen(b"h"));
}

#[test]
fn remembered_sequence_is_seen_again() {
    let mut stream = with_capacity(4);
    assert!(stream.entering_alternate_screen(b"\x1b[?47h"));
    assert!(stream.entering_alternate_screen(b"x"));
    assert!(stream.entering_alternate_screen(&vec![b'x'; ALT_SCREEN_SCAN_TAIL_BYTES]));
    assert!(!stream.entering_alternate_screen(b"x"));
}

#[test]
fn retained_bytes_keep_their_positions() {
    let mut stream = with_capacity(10);
    let id = stream.state.stream_id;
    stream.process_read(b"0123456789", None, || ());
    assert_eq!(stream.range(id, 4, 3).expect("before").data, b"456");
    stream.process_read(b"abcd", None, || ());
    assert_eq!(stream.state.earliest_seq(), 4);
    assert_eq!(stream.state.end_seq, 14);
    assert_eq!(stream.range(id, 4, 3).expect("after").data, b"456");
    assert!(stream.range(id, 3, 3).is_none());
}

#[test]
fn trimmed_bytes_stay_in_their_chunk() {
    let mut state = with_capacity(5).state;
    state.append(b"abc", 5);
    state.append(b"defg", 5);
    assert_eq!(state.chunks.len(), 1);
    assert_eq!(state.chunks[0].start_seq, 2);
    assert_eq!(state.chunks[0].data, b"abcdefg");
    assert_eq!(state.chunks[0].head, 2);
    assert_eq!(state.retained_bytes, 5);
    assert_eq!(state.end_seq, 7);
    assert_eq!(state.earliest_seq(), 2);
    state.append(b"", 1);
    assert_eq!(state.retained_bytes, 5);
    assert_eq!(state.chunks[0].data, b"abcdefg");
    assert_eq!(state.chunks[0].head, 2);
}

#[test]
fn split_reads_leave_the_same_journal() {
    let mut split = with_capacity(0).state;
    split.append(b"abcd", 6);
    split.append(b"efgh", 6);
    let mut whole = with_capacity(0).state;
    whole.append(b"abcdefgh", 6);
    assert_eq!(split.end_seq, whole.end_seq);
    assert_eq!(split.retained_bytes, whole.retained_bytes);
    assert_eq!(split.earliest_seq(), whole.earliest_seq());
    assert_eq!(split.chunks[0].data, whole.chunks[0].data);
    assert_eq!(split.chunks[0].head, whole.chunks[0].head);
    assert_eq!(split.chunks[0].retained(), b"cdefgh");
}

#[test]
fn chunks_meet_and_add_up() {
    let mut stream = with_capacity(100_000);
    stream.process_read(&vec![b'x'; 150_000], None, || ());
    stream.process_read(&vec![b'y'; 7], None, || ());
    let state = &stream.state;
    let mut next = state.earliest_seq();
    let mut kept = 0usize;
    for chunk in &state.chunks {
        assert_eq!(chunk.start_seq, next);
        assert!(chunk.retained_len() > 0);
        next += chunk.retained_len() as u64;
        kept += chunk.retained_len();
    }
    assert_eq!(next, state.end_seq);
    assert_eq!(kept, state.retained_bytes);
    let stored: usize = state.chunks.iter().map(|chunk| chunk.data.len()).sum();
    assert!(stored < 100_000 + MAX_JOURNAL_CHUNK_BYTES);
    assert!(state.chunks.len() <= 100_000 / MAX_JOURNAL_CHUNK_BYTES + 2);
}

#[test]
fn trimming_does_not_drop_the_snapshot() {
    let mut stream = with_capacity(2);
    stream.process_read(b"ab", Some(b"old".to_vec()), || ());
    stream.process_read(b"cd", Some(b"new".to_vec()), || ());
    stream.process_read(b"efghij", None, || ());
    let plan = stream.attach(None, |primary: Option<&[u8]>| primary.unwrap_or_default().to_vec());
    assert_eq!(plan.snapshot.as_deref(), Some(b"new".as_slice()));
}
