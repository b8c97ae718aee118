use herdr_control::control::{ControlConnectionHandle, ControlOutbound, AUTHORITY_GRACE};
use herdr_control::event_hub::{EventGap, EventHub};
use herdr_control::headless::dispatch::ControlMethod;
use herdr_control::schema::{
    ControlClientInfo, ControlOpenParams, ControlRecord, ErrorCode, Reply, ResponseResult,
    ServerCapabilities, TerminalCursorInfo, TerminalDetachReason, TerminalInputParams,
    TerminalScreenKind, TerminalSnapshot, TerminalStateInfo,
};
use herdr_control::stream::input::{
    decoded_input, input_sent, terminal_input, InputStep, SendOutcome,
};
use herdr_control::stream::line_buffer::LineBuffer;
use herdr_control::stream::reader::{
    next_action, reader_wait, retries, ReadFailure, ReaderAction, ReaderWait, TimeoutOutcome,
    READ_CHUNK_BYTES,
};
use herdr_control::stream::records::{encodable_line, encode_failure_line, writer_line, WriterLine};
use herdr_control::stream::request::{
    handle_request_line, line_outcome, open_failed, open_failed_by_member, request_id_from_line,
    request_id_from_member, LineOutcome, ParsedRequest, RequestStep, StreamMethod,
};
use herdr_control::stream::serve::{ServeAction, ServeEvent, ServedStream, SocketOutcome};
use herdr_control::stream::subscribe::{
    events_gap_record, subscribe, subscribe_prepared, Started,
};
use herdr_control::table::TextSet;

fn failure(reply: &Reply) -> (&str, ErrorCode, &str) {
    match reply {
        Reply::Failure { id, code, message } => (id, *code, message),
        other => panic!("expected a failure, got {other:?}"),
    }
}

fn is_done(reply: &Reply, expected: &str) -> bool {
    matches!(reply, Reply::Success { id, result: ResponseResult::Done } if id == expected)
}

fn live_handle(attach_id: &str) -> ControlConnectionHandle {
    let mut handle = ControlConnectionHandle::new();
    handle.register_input(attach_id.to_owned());
    handle
}

fn input(attach_id: &str, bytes: &str, auto: bool) -> TerminalInputParams {
    TerminalInputParams {
        attach_id: attach_id.to_owned(),
        bytes: bytes.to_owned(),
        auto,
    }
}

#[test]
fn output_is_written_as_base64_and_gives_its_budget_back() {
    let (line, released) = writer_line(ControlOutbound::Output {
        attach_id: "0-0".into(),
        seq: 7,
        bytes: bytes::Bytes::from_static(b"\x1b[?1;2c"),
    });
    match line {
        WriterLine::Record {
            record:
                ControlRecord::Output {
                    attach_id,
                    seq,
                    bytes,
                },
        } => {
            assert_eq!(attach_id, "0-0");
            assert_eq!(seq, 7);
            assert_eq!(bytes, "G1s/MTsyYw==");
        }
        other => panic!("expected an output record, got {other:?}"),
    }
    assert_eq!(released, Some(("0-0".to_owned(), 7)));
    let written = encodable_line(ControlOutbound::Output {
        attach_id: "0-0".into(),
        seq: 8,
        bytes: bytes::Bytes::from_static(b"x"),
    });
    match written {
        Some((
            WriterLine::Record {
                record: ControlRecord::Output { bytes, .. },
            },
            Some((attach_id, 1)),
        )) => {
            assert_eq!(bytes, "eA==");
            assert_eq!(attach_id, "0-0");
        }
        other => panic!("expected an output record, got {other:?}"),
    }
}

#[test]
fn clients_decode_what_was_written() {
    for content in [&b""[..], b"x", b"xy", b"xyz", b"\x00\xff\x80\n"] {
        let (line, _) = writer_line(ControlOutbound::Output {
            attach_id: "0-0".into(),
            seq: 1,
            bytes: bytes::Bytes::copy_from_slice(content),
        });
        let text = match line {
            WriterLine::Record {
                record: ControlRecord::Output { bytes, .. },
            } => bytes,
            other => panic!("expected an output record, got {other:?}"),
        };
        let mut handle = live_handle("0-0");
        match terminal_input(&mut handle, "i1".into(), &input("0-0", &text, false), 0) {
            InputStep::Send { bytes, .. } => assert_eq!(&bytes[..], content),
            other => panic!("expected input, got {other:?}"),
        }
    }
}

#[test]
fn other_items_are_written_as_they_are() {
    let (line, released) = writer_line(ControlOutbound::Line("{}".into()));
    assert!(matches!(line, WriterLine::Line { line } if line == "{}"));
    assert_eq!(released, None);

    let (line, released) = writer_line(ControlOutbound::Gap {
        attach_id: "0-0".into(),
        seq: 3,
        dropped_bytes: 9,
    });
    assert!(matches!(
        line,
        WriterLine::Record {
            record: ControlRecord::Gap { attach_id, seq: 3, dropped_bytes: 9 }
        } if attach_id == "0-0"
    ));
    assert_eq!(released, None);

    let (line, _) = writer_line(ControlOutbound::Detached {
        attach_id: "0-0".into(),
        reason: TerminalDetachReason::Takeover,
    });
    assert!(matches!(
        line,
        WriterLine::Record {
            record: ControlRecord::Detached { attach_id, reason: TerminalDetachReason::Takeover }
        } if attach_id == "0-0"
    ));

    let (line, _) = writer_line(ControlOutbound::Authority {
        attach_id: "0-0".into(),
        answers_queries: true,
    });
    assert!(matches!(
        line,
        WriterLine::Record {
            record: ControlRecord::Authority { attach_id, answers_queries: true }
        } if attach_id == "0-0"
    ));

    let (line, _) = writer_line(ControlOutbound::Snapshot {
        attach_id: "0-0".into(),
        snapshot: Box::new(TerminalSnapshot {
            seq: 4,
            active_screen: TerminalScreenKind::Alternate,
            primary: None,
            alternate: Some("vim".into()),
            state_ansi: String::new(),
            pen_ansi: String::new(),
            cursor: TerminalCursorInfo {
                x: 1,
                y: 2,
                visible: false,
                shape: 0,
                pending_wrap: false,
                pending_wrap_cell: None,
            },
            state: TerminalStateInfo::default(),
            truncated: true,
        }),
    });
    match line {
        WriterLine::Record {
            record:
                ControlRecord::Snapshot {
                    attach_id,
                    snapshot,
                },
        } => {
            assert_eq!(attach_id, "0-0");
            assert_eq!(snapshot.seq, 4);
            assert_eq!(snapshot.alternate.as_deref(), Some("vim"));
            assert!(snapshot.truncated);
        }
        other => panic!("expected a snapshot record, got {other:?}"),
    }
    assert_eq!(
        encode_failure_line(),
        r#"{"type":"control.error","message":"failed to encode record"}"#
    );
}

fn route(line: &str, parsed: Result<ParsedRequest, String>) -> RequestStep {
    handle_request_line(
        line,
        parsed,
        &"0.1.0".to_owned(),
        7,
        Some(ServerCapabilities {
            terminal_control_stream: 2,
            control_features: vec!["shared_attach"],
        }),
    )
}

fn parsed(method: StreamMethod) -> Result<ParsedRequest, String> {
    Ok(ParsedRequest {
        id: "r1".into(),
        method,
    })
}

#[test]
fn requests_are_routed() {
    assert!(matches!(
        route("", parsed(StreamMethod::Ping)),
        RequestStep::Skip
    ));
    for (method, name) in [
        (StreamMethod::ControlOpen, "control.open"),
        (StreamMethod::EventsWait, "events.wait"),
        (StreamMethod::AgentPrompt, "agent.prompt"),
        (StreamMethod::AgentWait, "agent.wait"),
        (StreamMethod::PaneWaitForOutput, "pane.wait_for_output"),
        (StreamMethod::PaneGraphicsStream, "pane.graphics.stream"),
    ] {
        match route("{}", parsed(method)) {
            RequestStep::Answer { reply } => {
                let (id, code, message) = failure(&reply);
                assert_eq!(id, "r1");
                assert_eq!(code.as_str(), "unsupported_in_control_stream");
                assert_eq!(
                    message,
                    format!(
                        "{name} is not available on a control stream; use a separate connection"
                    )
                );
            }
            other => panic!("expected a refusal, got {other:?}"),
        }
    }
    match route("{}", parsed(StreamMethod::ControlClose)) {
        RequestStep::AnswerAndClose { reply } => assert!(is_done(&reply, "r1")),
        other => panic!("expected the close, got {other:?}"),
    }
    match route("{}", parsed(StreamMethod::Ping)) {
        RequestStep::Answer {
            reply:
                Reply::Success {
                    id,
                    result:
                        ResponseResult::Pong {
                            version,
                            protocol,
                            capabilities,
                        },
                },
        } => {
            assert_eq!((id.as_str(), version.as_str(), protocol), ("r1", "0.1.0", 7));
            assert_eq!(capabilities.unwrap().terminal_control_stream, 2);
        }
        other => panic!("expected a pong, got {other:?}"),
    }
    assert!(matches!(
        route("{}", parsed(StreamMethod::EventsSubscribe)),
        RequestStep::Subscribe
    ));
    assert!(matches!(
        route("{}", parsed(StreamMethod::TerminalInput)),
        RequestStep::Input
    ));
    assert!(matches!(
        route("{}", parsed(StreamMethod::Other)),
        RequestStep::Dispatch
    ));
}

#[test]
fn bad_lines_are_answered_under_the_id_they_name() {
    for (line, expected) in [
        (r#"{"id":"r9","method":"nope"}"#, "r9"),
        (r#"{"id":9}"#, ""),
        (r#"{"method":"ping"}"#, ""),
        (r#"["id"]"#, ""),
        ("not json", ""),
    ] {
        assert_eq!(request_id_from_line(line), expected);
        match route(line, Err("unknown variant".into())) {
            RequestStep::Complain { reply } => {
                let (id, code, message) = failure(&reply);
                assert_eq!(id, expected);
                assert_eq!(code.as_str(), "invalid_request");
                assert_eq!(message, "invalid request: unknown variant");
            }
            other => panic!("expected a refusal, got {other:?}"),
        }
    }
    assert_eq!(request_id_from_member(Some(Some(Some("r1".into())))), "r1");
    assert_eq!(request_id_from_member(Some(Some(None))), "");
    assert_eq!(request_id_from_member(Some(None)), "");
    assert_eq!(request_id_from_member(None), "");
}

#[test]
fn answers_to_open_tell_whether_it_failed() {
    assert!(!open_failed(r#"{"id":"control","result":{}}"#));
    assert!(open_failed(r#"{"id":"control","error":{"code":"x"}}"#));
    assert!(open_failed(r#"{"error":"text"}"#));
    assert!(open_failed(r#"{"error":null}"#));
    assert!(open_failed("no json"));
    assert!(!open_failed("[1]"));
    assert!(open_failed_by_member(&None));
    assert!(!open_failed_by_member(&Some(None)));
    assert!(open_failed_by_member(&Some(Some(None))));
}

#[test]
fn an_answer_that_cannot_be_written_closes_the_stream() {
    let answered = route("{}", parsed(StreamMethod::Ping)).afterwards();
    assert_eq!(line_outcome(answered, None), LineOutcome::Continue);
    assert_eq!(line_outcome(answered, Some(true)), LineOutcome::Continue);
    assert_eq!(line_outcome(answered, Some(false)), LineOutcome::Close);
    let complained = route("nope", Err("no json".into())).afterwards();
    assert_eq!(line_outcome(complained, Some(false)), LineOutcome::Continue);
    let closed = route("{}", parsed(StreamMethod::ControlClose)).afterwards();
    assert_eq!(line_outcome(closed, Some(true)), LineOutcome::Close);
    let skipped = route("", parsed(StreamMethod::Ping)).afterwards();
    assert_eq!(line_outcome(skipped, None), LineOutcome::Continue);
}

#[test]
fn input_must_be_base64_for_a_live_attach() {
    let mut handle = live_handle("0-0");
    match terminal_input(&mut handle, "i1".into(), &input("0-0", "!", false), 0) {
        InputStep::Answer { reply } => {
            let (id, code, message) = failure(&reply);
            assert_eq!(id, "i1");
            assert_eq!(code, ErrorCode::InvalidRequest);
            assert!(message.starts_with("invalid terminal.input bytes: "));
            assert!(message.len() > "invalid terminal.input bytes: ".len());
        }
        other => panic!("expected a refusal, got {other:?}"),
    }
    match decoded_input(
        &mut handle,
        "i2".into(),
        Err("bad padding".into()),
        "0-0",
        false,
        0,
    ) {
        InputStep::Answer { reply } => {
            assert_eq!(
                failure(&reply).2,
                "invalid terminal.input bytes: bad padding"
            )
        }
        other => panic!("expected a refusal, got {other:?}"),
    }
    match terminal_input(&mut handle, "i3".into(), &input("9-9", "eA==", false), 0) {
        InputStep::Answer { reply } => {
            assert_eq!(
                failure(&reply),
                ("i3", ErrorCode::UnknownAttach, "attach 9-9 is not live")
            )
        }
        other => panic!("expected a refusal, got {other:?}"),
    }
    match terminal_input(&mut handle, "i4".into(), &input("0-0", "eA==", false), 0) {
        InputStep::Send { claim, bytes } => {
            assert!(claim.is_none());
            assert_eq!(&bytes[..], b"x");
        }
        other => panic!("expected input, got {other:?}"),
    }
}

#[test]
fn one_input_makes_one_claim() {
    let mut handle = live_handle("0-0");
    let mut flags = TextSet::new();
    flags.insert("0-0".into());
    handle.set_claim_on_input(flags);
    match terminal_input(&mut handle, "i1".into(), &input("0-0", "eA==", false), 0) {
        InputStep::Send {
            claim: Some(claim), ..
        } => {
            assert_eq!(claim.id, "i1:claim");
            assert_eq!(claim.params.tab_id, None);
            assert_eq!(claim.params.attach_id.as_deref(), Some("0-0"));
        }
        other => panic!("expected a claim, got {other:?}"),
    }
    match terminal_input(&mut handle, "i2".into(), &input("0-0", "eA==", false), 0) {
        InputStep::Send { claim, .. } => assert!(claim.is_none()),
        other => panic!("expected input, got {other:?}"),
    }
}

#[test]
fn stale_replies_are_dropped_at_the_end_of_the_grace_window() {
    let mut handle = live_handle("0-0");
    let reply = input("0-0", "eA==", true);
    match terminal_input(&mut handle, "i1".into(), &reply, 5) {
        InputStep::Answer { reply } => assert!(is_done(&reply, "i1")),
        other => panic!("an attach that never answered stays silent, got {other:?}"),
    }
    handle.set_input_authority("0-0", true, 10);
    assert!(matches!(
        terminal_input(&mut handle, "i2".into(), &reply, 11),
        InputStep::Send { claim: None, .. }
    ));
    handle.set_input_authority("0-0", false, 20);
    assert!(!handle.input_authority("0-0"));
    assert_eq!(
        handle.input_sink_with_authority("0-0", 20 + AUTHORITY_GRACE),
        Some(true)
    );
    assert!(matches!(
        terminal_input(&mut handle, "i3".into(), &reply, 20 + AUTHORITY_GRACE),
        InputStep::Send { claim: None, .. }
    ));
    match terminal_input(&mut handle, "i4".into(), &reply, 21 + AUTHORITY_GRACE) {
        InputStep::Answer { reply } => assert!(is_done(&reply, "i4")),
        other => panic!("past the window the attach is silent, got {other:?}"),
    }
}

#[test]
fn what_became_of_input_is_reported() {
    assert!(is_done(
        &input_sent("i1".into(), SendOutcome::Accepted),
        "i1"
    ));
    assert_eq!(
        failure(&input_sent("i1".into(), SendOutcome::Full)),
        (
            "i1",
            ErrorCode::InputFull,
            "terminal input queue is full; retry"
        )
    );
    assert_eq!(
        failure(&input_sent("i1".into(), SendOutcome::Closed)),
        (
            "i1",
            ErrorCode::TerminalClosed,
            "terminal no longer accepts input"
        )
    );
    assert_eq!(ErrorCode::InputFull.as_str(), "input_full");
    assert_eq!(ErrorCode::TerminalClosed.as_str(), "terminal_closed");
}

#[test]
fn handles_follow_their_connection() {
    let mut handle = ControlConnectionHandle::new();
    assert_eq!((handle.id(), handle.protocol()), (0, 1));
    assert!(handle.is_alive());
    handle.assign_id(12);
    handle.set_protocol(2);
    assert_eq!((handle.id(), handle.protocol()), (12, 2));
    handle.register_input("0-0".into());
    assert!(handle.input_sink("0-0"));
    handle.unregister_input("0-0");
    assert!(!handle.input_sink("0-0"));
    assert_eq!(handle.input_sink_with_authority("0-0", 0), None);
    handle.close();
    assert!(!handle.is_alive());
}

#[test]
fn readers_handle_lines_before_they_read_on() {
    let mut lines = LineBuffer::default();
    lines.push(b"  {\"id\":\"1\"}\r\n\xff\n");
    match next_action(&mut lines, true, true) {
        ReaderAction::Handle { line } => assert_eq!(line, "{\"id\":\"1\"}"),
        other => panic!("expected a line, got {other:?}"),
    }
    match next_action(&mut lines, true, true) {
        ReaderAction::Handle { line } => assert_eq!(line, "\u{fffd}"),
        other => panic!("expected a line, got {other:?}"),
    }
    assert!(matches!(
        next_action(&mut lines, true, true),
        ReaderAction::Read {
            limit: READ_CHUNK_BYTES
        }
    ));
    assert!(matches!(
        next_action(&mut lines, false, true),
        ReaderAction::Stop
    ));
    assert!(matches!(
        next_action(&mut lines, true, false),
        ReaderAction::Stop
    ));
    let chunk = vec![b'x'; 8 * 1024 * 1024 - 10];
    lines.push(&chunk);
    assert!(matches!(
        next_action(&mut lines, true, true),
        ReaderAction::Read { limit: 10 }
    ));
    lines.push(&chunk[..10]);
    assert!(matches!(
        next_action(&mut lines, true, true),
        ReaderAction::TooLarge
    ));
    lines.push(b"\n");
    assert!(matches!(
        next_action(&mut lines, true, false),
        ReaderAction::Stop
    ));
}

#[test]
fn readers_wait_as_their_socket_lets_them() {
    assert_eq!(
        reader_wait(TimeoutOutcome::Granted),
        ReaderWait::SocketTimeout
    );
    assert_eq!(reader_wait(TimeoutOutcome::Unsupported), ReaderWait::Poll);
    assert_eq!(reader_wait(TimeoutOutcome::Failed), ReaderWait::Fail);
    assert!(retries(ReadFailure::Interrupted));
    assert!(retries(ReadFailure::WouldBlock));
    assert!(retries(ReadFailure::TimedOut));
    assert!(!retries(ReadFailure::Other));
}

#[test]
fn every_exit_releases_the_stream() {
    let opened = || {
        ServedStream::open(ControlOpenParams {
            client: Some(ControlClientInfo {
                name: "a".into(),
                version: "1".into(),
                protocol: 2,
            }),
        })
    };
    let (mut stream, method) = opened();
    match method {
        ControlMethod::ControlOpen { params } => assert_eq!(params.client.unwrap().name, "a"),
        other => panic!("expected control.open, got {other:?}"),
    }
    assert_eq!(
        stream.step(ServeEvent::Opened { failed: false }),
        ServeAction::WriteAnswer
    );
    assert_eq!(
        stream.step(ServeEvent::Answered {
            outcome: SocketOutcome::Done
        }),
        ServeAction::StartWriter
    );
    assert_eq!(
        stream.step(ServeEvent::Started {
            outcome: SocketOutcome::Done
        }),
        ServeAction::ReadRequests
    );
    assert_eq!(
        stream.step(ServeEvent::ReaderEnded {
            outcome: SocketOutcome::Disconnected
        }),
        ServeAction::Release { ok: true }
    );
    assert_eq!(
        stream.step(ServeEvent::Opened { failed: false }),
        ServeAction::Ignore
    );

    let (mut refused, _) = opened();
    refused.step(ServeEvent::Opened { failed: true });
    assert_eq!(
        refused.step(ServeEvent::Answered {
            outcome: SocketOutcome::Done
        }),
        ServeAction::Release { ok: true }
    );

    for (outcome, ok) in [
        (SocketOutcome::Disconnected, true),
        (SocketOutcome::Failed, false),
    ] {
        let (mut gone, _) = opened();
        gone.step(ServeEvent::Opened { failed: false });
        assert_eq!(
            gone.step(ServeEvent::Answered { outcome }),
            ServeAction::Release { ok }
        );
        let (mut stuck, _) = opened();
        stuck.step(ServeEvent::Opened { failed: false });
        stuck.step(ServeEvent::Answered {
            outcome: SocketOutcome::Done,
        });
        assert_eq!(
            stuck.step(ServeEvent::Started { outcome }),
            ServeAction::Release { ok: false }
        );
    }
}

#[test]
fn subscriptions_start_together_or_not_at_all() {
    let mut hub = EventHub::default();
    hub.push("before");
    hub.push("before");
    let mut active = vec![Started {
        start_sequence: 0,
        subscription: (1, 0),
    }];
    let reply = subscribe(
        "s1".into(),
        &hub,
        vec![20, 30],
        |request: usize, index: usize, start: u64| {
            assert_eq!(start, 2);
            Ok((request, index))
        },
        &mut active,
    );
    assert!(matches!(
        reply,
        Reply::Success { id, result: ResponseResult::SubscriptionStarted } if id == "s1"
    ));
    let listed = |active: &Vec<Started<(usize, usize)>>| {
        active
            .iter()
            .map(|started| (started.start_sequence, started.subscription))
            .collect::<Vec<_>>()
    };
    assert_eq!(
        listed(&active),
        vec![(0, (1, 0)), (2, (20, 0)), (2, (30, 1))]
    );

    let problem = |message: &str| Reply::Failure {
        id: "s2".into(),
        code: ErrorCode::NotFound,
        message: message.to_owned(),
    };
    let reply = subscribe(
        "s2".into(),
        &hub,
        vec!["fine", "first", "second"],
        |request: &str, index: usize, _start: u64| {
            if request == "fine" {
                Ok((0, index))
            } else {
                assert_eq!(request, "first", "nothing is set up after a failure");
                Err(problem(request))
            }
        },
        &mut active,
    );
    assert_eq!(failure(&reply).2, "first");
    assert_eq!(active.len(), 3);

    let reply = subscribe_prepared(
        "s3".into(),
        7,
        vec![Ok((4, 0)), Err(problem("first")), Err(problem("second"))],
        &mut active,
    );
    assert_eq!(failure(&reply).2, "first");
    assert_eq!(active.len(), 3);
    let reply = subscribe_prepared("s4".into(), 7, vec![Ok((4, 0))], &mut active);
    assert!(matches!(reply, Reply::Success { .. }));
    assert_eq!(listed(&active)[3], (7, (4, 0)));
}

#[test]
fn lost_events_are_told_on_protocol_2() {
    let gap = EventGap {
        dropped: 5,
        resume_sequence: 9,
    };
    assert!(events_gap_record(1, Some(gap)).is_none());
    assert!(events_gap_record(2, None).is_none());
    assert!(matches!(
        events_gap_record(2, Some(gap)),
        Some(ControlRecord::EventsGap {
            dropped: 5,
            resume_sequence: 9
        })
    ));
}
