use herdr_control::stream::line_buffer::{LineBuffer, MAX_CONTROL_LINE_BYTES};
use herdr_control::stream::reader::{
    next_action, reader_wait, retries, ReadFailure, ReaderAction, ReaderWait, TimeoutOutcome,
    READ_CHUNK_BYTES,
};

#[test]
fn line_buffer_reassembles_a_line_split_across_reads() {
    let mut lines = LineBuffer::default();
    lines.push(b"{\"id\":\"1\",");
    assert!(lines.next_line().is_none());
    lines.push(b"\"method\":\"ping\"}\n{\"id\":\"2\"");
    assert_eq!(
        lines.next_line().as_deref(),
        Some("{\"id\":\"1\",\"method\":\"ping\"}\n")
    );
    assert!(lines.next_line().is_none());
    lines.push(b"}\n");
    assert_eq!(lines.next_line().as_deref(), Some("{\"id\":\"2\"}\n"));
}

/// The cap counts every read of an unterminated line, so pausing between
/// chunks buys no extra room.
#[test]
fn line_buffer_room_shrinks_across_reads() {
    let mut lines = LineBuffer::default();
    assert_eq!(lines.room(), MAX_CONTROL_LINE_BYTES);
    lines.push(&vec![b'a'; MAX_CONTROL_LINE_BYTES - 1]);
    assert_eq!(lines.room(), 1);
    lines.push(b"a");
    assert_eq!(lines.room(), 0);
    assert!(lines.next_line().is_none());
}

fn lines_of(chunks: &[&[u8]]) -> Vec<String> {
    let mut buffer = LineBuffer::default();
    let mut lines = Vec::new();
    for chunk in chunks {
        buffer.push(chunk);
        while let Some(line) = buffer.next_line() {
            lines.push(line);
        }
    }
    lines
}

#[test]
fn splitting_reads_differently_gives_the_same_lines() {
    let whole = lines_of(&[b"one\ntwo\n\nthree"]);
    assert_eq!(whole, vec!["one\n", "two\n", "\n"]);
    assert_eq!(lines_of(&[b"o", b"ne", b"\ntw", b"o\n\nth", b"ree"]), whole);
}

#[test]
fn a_line_that_is_no_utf8_comes_out_with_replacements() {
    let mut lines = LineBuffer::default();
    lines.push(b"a\xff\n");
    assert_eq!(lines.take_line(), Some(b"a\xff\n".to_vec()));
    lines.push(b"a\xffb\n");
    assert_eq!(lines.next_line().as_deref(), Some("a\u{fffd}b\n"));
    lines.push("ä\n".as_bytes());
    assert_eq!(lines.next_line().as_deref(), Some("ä\n"));
}

#[test]
fn a_reader_handles_finished_lines_first_without_whitespace() {
    let mut lines = LineBuffer::default();
    lines.push(b" \t{\"id\":\"1\"} \r\nrest");
    match next_action(&mut lines, true, true) {
        ReaderAction::Handle { line } => assert_eq!(line, "{\"id\":\"1\"}"),
        other => panic!("expected a line, got {other:?}"),
    }
    match next_action(&mut lines, true, true) {
        ReaderAction::Read { limit } => assert_eq!(limit, READ_CHUNK_BYTES),
        other => panic!("expected a read, got {other:?}"),
    }
}

#[test]
fn a_reader_stops_when_the_server_or_the_stream_is_gone() {
    for (running, alive) in [(false, true), (true, false)] {
        let mut lines = LineBuffer::default();
        assert!(matches!(
            next_action(&mut lines, running, alive),
            ReaderAction::Stop
        ));
        lines.push(b"line\n");
        assert!(matches!(
            next_action(&mut lines, running, alive),
            ReaderAction::Stop
        ));
    }
}

#[test]
fn a_reader_reads_no_further_than_the_line_may_grow() {
    let mut lines = LineBuffer::default();
    lines.push(&vec![b'a'; MAX_CONTROL_LINE_BYTES - 3]);
    assert!(matches!(
        next_action(&mut lines, true, true),
        ReaderAction::Read { limit: 3 }
    ));
    lines.push(b"aaa");
    assert!(matches!(
        next_action(&mut lines, true, true),
        ReaderAction::TooLarge
    ));
}

#[test]
fn only_some_read_failures_are_retried() {
    assert!(retries(ReadFailure::Interrupted));
    assert!(retries(ReadFailure::WouldBlock));
    assert!(retries(ReadFailure::TimedOut));
    assert!(!retries(ReadFailure::Other));
}

#[test]
fn sockets_without_a_timeout_are_polled() {
    assert_eq!(
        reader_wait(TimeoutOutcome::Granted),
        ReaderWait::SocketTimeout
    );
    assert_eq!(reader_wait(TimeoutOutcome::Unsupported), ReaderWait::Poll);
    assert_eq!(reader_wait(TimeoutOutcome::Failed), ReaderWait::Fail);
}
