use herdr_control::control::ControlOutbound;
use herdr_control::raw_stream::{
    RawTapBudget, RawTapRegistry, Sent, DEFAULT_TAP_BUDGET_BYTES, MAX_PENDING_TAIL_BYTES,
};
use herdr_control::raw_tail::{incomplete_tail_start, incomplete_utf8_start};
use herdr_control::schema::{
    TerminalCursorInfo, TerminalDetachReason, TerminalScreenKind, TerminalSnapshot,
    TerminalStateInfo,
};

fn snapshot(seq: u64) -> TerminalSnapshot {
    TerminalSnapshot {
        seq,
        active_screen: TerminalScreenKind::Primary,
        primary: Some(String::new()),
        alternate: None,
        state_ansi: String::new(),
        pen_ansi: String::new(),
        cursor: TerminalCursorInfo {
            x: 0,
            y: 0,
            visible: true,
            shape: 0,
            pending_wrap: false,
            pending_wrap_cell: None,
        },
        state: TerminalStateInfo::default(),
        truncated: false,
    }
}

/// What was sent on one connection since the last look.
fn drain(sent: &mut Vec<Sent>, connection_id: u64) -> Vec<ControlOutbound> {
    let mut records = Vec::new();
    let mut others = Vec::new();
    for item in sent.drain(..) {
        if item.connection_id == connection_id {
            records.push(item.record);
        } else {
            others.push(item);
        }
    }
    *sent = others;
    records
}

/// Sends the first snapshot, which is what arms a tap for output.
fn arm(registry: &mut RawTapRegistry, attach_id: &str, connection_id: u64, sent: &mut Vec<Sent>) {
    assert!(registry.send_snapshot(attach_id, |seq| Some(snapshot(seq)), sent));
    let records = drain(sent, connection_id);
    assert!(matches!(records[0], ControlOutbound::Snapshot { .. }));
    for record in records.into_iter().skip(1) {
        sent.push(Sent {
            connection_id,
            record,
        });
    }
}

fn output_seqs(records: &[ControlOutbound]) -> Vec<u64> {
    records
        .iter()
        .filter_map(|record| match record {
            ControlOutbound::Output { seq, .. } => Some(*seq),
            _ => None,
        })
        .collect()
}

#[test]
fn taps_stay_silent_until_the_first_snapshot() {
    let mut registry = RawTapRegistry::default();
    let mut sent = Vec::new();
    registry.insert("a1".into(), 1, RawTapBudget::new(1024), false);
    registry.publish(b"before", &mut sent);
    assert!(sent.is_empty());
    arm(&mut registry, "a1", 1, &mut sent);
    registry.publish(b"after", &mut sent);
    assert_eq!(output_seqs(&drain(&mut sent, 1)), vec![1]);
}

/// A query emitted before the snapshot never reaches the client, so the
/// server must keep answering until the tap is armed.
#[test]
fn query_suppression_starts_with_the_first_snapshot_and_ends_on_detach() {
    let mut registry = RawTapRegistry::default();
    let mut sent = Vec::new();
    registry.insert("a1".into(), 1, RawTapBudget::new(1024), true);
    assert!(!registry.suppress_terminal_responses());
    arm(&mut registry, "a1", 1, &mut sent);
    assert!(registry.suppress_terminal_responses());

    registry.insert("a2".into(), 2, RawTapBudget::new(1024), false);
    arm(&mut registry, "a2", 2, &mut sent);
    assert!(registry.remove("a1", TerminalDetachReason::Takeover, &mut sent));
    assert!(
        !registry.suppress_terminal_responses(),
        "an observer never suppresses replies"
    );
}

#[test]
fn incomplete_tails_are_detected() {
    assert_eq!(incomplete_tail_start(b"plain text"), None);
    assert_eq!(incomplete_tail_start(b"abc\x1b"), Some(3));
    assert_eq!(incomplete_tail_start(b"abc\x1b["), Some(3));
    assert_eq!(incomplete_tail_start(b"abc\x1b[6"), Some(3));
    assert_eq!(incomplete_tail_start(b"abc\x1b[6n"), None);
    assert_eq!(incomplete_tail_start(b"\x1b]0;title"), Some(0));
    assert_eq!(incomplete_tail_start(b"\x1b]0;title\x1b"), Some(0));
    assert_eq!(incomplete_tail_start(b"\x1b]0;title\x1b\\x"), None);
    assert_eq!(incomplete_tail_start(b"\x1b]0;title\x07"), None);
    assert_eq!(incomplete_tail_start(b"\x1bPq..."), Some(0));
    assert_eq!(incomplete_tail_start(b"\x1b(B\x1b("), Some(3));
    assert_eq!(incomplete_tail_start(b"\x1b(B"), None);
    assert_eq!(incomplete_tail_start(b"caf\xc3"), Some(3));
    assert_eq!(incomplete_tail_start(b"caf\xc3\xa9"), None);
    assert_eq!(incomplete_tail_start(b"\xf0\x9f\x98"), Some(0));
}

#[test]
fn pending_tail_follows_reads_and_replays_after_the_snapshot() {
    let mut registry = RawTapRegistry::default();
    let mut sent = Vec::new();
    registry.note_read(b"hello\x1b[");
    assert_eq!(registry.pending_tail(), b"\x1b[");
    registry.note_read(b"3");
    assert_eq!(registry.pending_tail(), b"\x1b[3");

    registry.insert("a1".into(), 1, RawTapBudget::new(1024), true);
    arm(&mut registry, "a1", 1, &mut sent);
    registry.note_read(b"1m");
    registry.publish(b"1m", &mut sent);
    let records = drain(&mut sent, 1);
    match (&records[0], &records[1]) {
        (
            ControlOutbound::Output {
                seq: 1,
                bytes: tail,
                ..
            },
            ControlOutbound::Output {
                seq: 2,
                bytes: rest,
                ..
            },
        ) => {
            assert_eq!(&tail[..], b"\x1b[3");
            assert_eq!(&rest[..], b"1m");
        }
        other => panic!("expected the tail then the read, got {other:?}"),
    }
    assert!(registry.pending_tail().is_empty());
}

#[test]
fn taps_number_output_from_one() {
    let mut registry = RawTapRegistry::default();
    let mut sent = Vec::new();
    registry.insert("a1".into(), 1, RawTapBudget::new(1024), false);
    arm(&mut registry, "a1", 1, &mut sent);
    registry.publish(b"one", &mut sent);
    registry.publish(b"two", &mut sent);

    assert_eq!(output_seqs(&drain(&mut sent, 1)), vec![1, 2]);
}

#[test]
fn a_full_budget_drops_output_and_reports_one_gap_per_episode() {
    let mut registry = RawTapRegistry::default();
    let mut sent = Vec::new();
    registry.insert("a1".into(), 1, RawTapBudget::new(4), false);
    arm(&mut registry, "a1", 1, &mut sent);

    registry.publish(b"1234", &mut sent);
    registry.publish(b"5", &mut sent);
    registry.publish(b"6", &mut sent);
    let mut records = drain(&mut sent, 1);
    assert_eq!(records.len(), 2, "one output and one gap");
    assert!(matches!(
        records.remove(1),
        ControlOutbound::Gap {
            seq: 1,
            dropped_bytes: 1,
            ..
        }
    ));

    registry.release("a1", 4);
    registry.publish(b"7", &mut sent);
    let records = drain(&mut sent, 1);
    assert!(matches!(
        records[0],
        ControlOutbound::Gap {
            dropped_bytes: 2,
            ..
        }
    ));
    assert!(matches!(records[1], ControlOutbound::Output { seq: 2, .. }));
}

#[test]
fn removing_a_tap_sends_detached_and_stops_publishing() {
    let mut registry = RawTapRegistry::default();
    let mut sent = Vec::new();
    registry.insert("a1".into(), 1, RawTapBudget::new(1024), false);
    assert!(registry.has_taps());
    assert!(registry.remove("a1", TerminalDetachReason::Takeover, &mut sent));
    assert!(!registry.has_taps());
    registry.publish(b"ignored", &mut sent);
    let records = drain(&mut sent, 1);
    assert!(matches!(
        records.last(),
        Some(ControlOutbound::Detached {
            reason: TerminalDetachReason::Takeover,
            ..
        })
    ));
    assert!(output_seqs(&records).is_empty());
}

#[test]
fn a_budget_counts_what_is_queued() {
    let mut budget = RawTapBudget::new(10);
    assert!(budget.reserve(6));
    assert!(!budget.reserve(5));
    assert_eq!(budget.pending, 6);
    assert!(budget.reserve(4));
    budget.release(6);
    assert_eq!(budget.pending, 4);
    assert_eq!(DEFAULT_TAP_BUDGET_BYTES, 4 * 1024 * 1024);
}

#[test]
fn characters_cut_off_at_the_end_are_found() {
    assert_eq!(incomplete_utf8_start(b""), None);
    assert_eq!(incomplete_utf8_start(b"\xe2\x82"), Some(0));
    assert_eq!(incomplete_utf8_start(b"x\xe2\x82\xac"), None);
    assert_eq!(incomplete_utf8_start(b"\x80\x80\x80"), None);
    assert_eq!(incomplete_utf8_start(b"\xff"), None);
}

#[test]
fn the_pending_tail_is_the_streams() {
    let stream: &[u8] = b"a\x1b]0;t\x1b\\b\x1b[1;3mcaf\xc3\xa9\x1bP1$r";
    for cut in 0..stream.len() {
        for second in cut..stream.len() {
            let mut registry = RawTapRegistry::default();
            registry.note_read(&stream[..cut]);
            registry.note_read(&stream[cut..second]);
            let expected = match incomplete_tail_start(&stream[..second]) {
                Some(start) => &stream[start..second],
                None => &[],
            };
            assert_eq!(registry.pending_tail(), expected, "{cut} {second}");
        }
    }
}

#[test]
fn an_unfinished_sequence_beyond_the_limit_is_abandoned() {
    let mut registry = RawTapRegistry::default();
    let mut payload = b"\x1b_G".to_vec();
    payload.resize(MAX_PENDING_TAIL_BYTES, b'a');
    registry.note_read(&payload);
    assert_eq!(registry.pending_tail().len(), MAX_PENDING_TAIL_BYTES);
    registry.note_read(b"a");
    assert!(registry.pending_tail().is_empty());
}

#[test]
fn a_snapshot_that_could_not_be_taken_arms_nothing() {
    let mut registry = RawTapRegistry::default();
    let mut sent = Vec::new();
    registry.insert("a1".into(), 1, RawTapBudget::new(1024), true);
    assert!(!registry.send_snapshot("a1", |_| None, &mut sent));
    assert!(!registry.send_snapshot("a2", |seq| Some(snapshot(seq)), &mut sent));
    registry.publish(b"x", &mut sent);
    assert!(sent.is_empty());
    assert!(!registry.suppress_terminal_responses());
}

#[test]
fn a_snapshot_carries_the_number_of_the_last_output() {
    let mut registry = RawTapRegistry::default();
    let mut sent = Vec::new();
    registry.insert("a1".into(), 1, RawTapBudget::new(1024), false);
    arm(&mut registry, "a1", 1, &mut sent);
    registry.publish(b"x", &mut sent);
    drain(&mut sent, 1);
    assert!(registry.send_snapshot("a1", |seq| Some(snapshot(seq)), &mut sent));
    match &drain(&mut sent, 1)[0] {
        ControlOutbound::Snapshot { snapshot, .. } => assert_eq!(snapshot.seq, 1),
        other => panic!("expected a snapshot, got {other:?}"),
    }
}

#[test]
fn removing_every_tap_tells_every_stream() {
    let mut registry = RawTapRegistry::default();
    let mut sent = Vec::new();
    registry.insert("a1".into(), 1, RawTapBudget::new(1024), true);
    registry.insert("a2".into(), 2, RawTapBudget::new(1024), true);
    arm(&mut registry, "a1", 1, &mut sent);
    registry.remove_all(TerminalDetachReason::Closed, &mut sent);
    assert!(!registry.has_taps());
    assert!(!registry.suppress_terminal_responses());
    for connection_id in [1, 2] {
        assert!(matches!(
            drain(&mut sent, connection_id)[..],
            [ControlOutbound::Detached {
                reason: TerminalDetachReason::Closed,
                ..
            }]
        ));
    }
    assert!(!registry.remove("a1", TerminalDetachReason::Closed, &mut sent));
}

#[test]
fn unsent_output_gives_its_budget_back() {
    let mut registry = RawTapRegistry::default();
    let mut sent = Vec::new();
    registry.insert("a1".into(), 1, RawTapBudget::new(4), true);
    registry.insert("a2".into(), 2, RawTapBudget::new(4), true);
    arm(&mut registry, "a1", 1, &mut sent);
    arm(&mut registry, "a2", 2, &mut sent);
    registry.publish(b"abcd", &mut sent);
    assert_eq!(output_seqs(&drain(&mut sent, 2)), vec![1]);
    let unsent: Vec<Sent> = std::mem::take(&mut sent);
    assert_eq!(unsent.len(), 1);
    registry.settle(&unsent);
    // The tap whose output was lost has its four bytes again, the other none.
    registry.publish(b"efgh", &mut sent);
    assert_eq!(output_seqs(&drain(&mut sent, 1)), vec![2]);
    let gap = drain(&mut sent, 2);
    assert!(matches!(
        gap[..],
        [ControlOutbound::Gap {
            seq: 1,
            dropped_bytes: 4,
            ..
        }]
    ));
    // A lost gap gives nothing back.
    registry.settle(
        &gap.into_iter()
            .map(|record| Sent {
                connection_id: 2,
                record,
            })
            .collect(),
    );
    registry.publish(b"i", &mut sent);
    assert!(drain(&mut sent, 2).is_empty());
}

#[test]
fn a_snapshot_counts_as_sent_when_its_record_is() {
    let mut registry = RawTapRegistry::default();
    let mut sent = Vec::new();
    registry.insert("a1".into(), 1, RawTapBudget::new(4), true);
    registry.note_read(b"text\x1b[3");
    let taken = registry.send_snapshot("a1", |seq| Some(snapshot(seq)), &mut sent);
    assert!(taken);
    assert_eq!(sent.len(), 2, "the snapshot and the unfinished sequence");
    assert!(registry.settle_snapshot("a1", taken, &Vec::new()));

    // Only the replay was lost: the snapshot counts, the bytes come back.
    let replay = vec![sent.pop().unwrap()];
    assert!(matches!(
        replay[0].record,
        ControlOutbound::Output { seq: 1, .. }
    ));
    assert!(registry.settle_snapshot("a1", taken, &replay));
    registry.publish(b"abcd", &mut sent);
    assert!(matches!(
        sent[1].record,
        ControlOutbound::Output { seq: 2, .. }
    ));

    // The snapshot itself was lost, for this attach and no other.
    let lost = vec![sent.swap_remove(0)];
    assert!(matches!(
        lost[0].record,
        ControlOutbound::Snapshot { .. }
    ));
    assert!(!registry.settle_snapshot("a1", taken, &lost));
    assert!(registry.settle_snapshot("a2", true, &lost));

    // Nothing was captured.
    let mut none = Vec::new();
    let taken = registry.send_snapshot("a1", |_| None, &mut none);
    assert!(!taken && none.is_empty());
    assert!(!registry.settle_snapshot("a1", taken, &none));
}

#[test]
fn budgets_reserve_up_to_their_limit() {
    let mut budget = RawTapBudget::new(4);
    assert!(budget.reserve(3));
    assert!(!budget.reserve(2));
    assert!(budget.reserve(1));
    assert!(!budget.reserve(usize::MAX));
    budget.release(4);
    assert_eq!(budget, RawTapBudget::new(4));
    let mut unbounded = RawTapBudget::new(usize::MAX);
    assert!(unbounded.reserve(usize::MAX));
    assert!(!unbounded.reserve(1));
    assert_eq!(unbounded.pending, usize::MAX);
}

#[test]
fn an_empty_read_needs_no_room() {
    let mut registry = RawTapRegistry::default();
    let mut sent = Vec::new();
    registry.insert("a1".into(), 1, RawTapBudget::new(4), true);
    assert!(registry.has_room(usize::MAX), "a silent tap counts nothing");
    arm(&mut registry, "a1", 1, &mut sent);
    assert!(registry.has_room(0));
    assert!(registry.has_room(4));
    assert!(registry.has_room(5));
    registry.publish(b"", &mut sent);
    assert!(sent.is_empty());
}

#[test]
fn closing_a_registry_tells_every_stream() {
    let mut registry = RawTapRegistry::default();
    let mut sent = Vec::new();
    registry.insert("a1".into(), 1, RawTapBudget::new(1024), true);
    registry.insert("a2".into(), 2, RawTapBudget::new(1024), true);
    arm(&mut registry, "a1", 1, &mut sent);
    assert!(registry.snapshot_has_room("a1"));
    assert!(registry.snapshot_has_room("absent"));
    registry.close(&mut sent);
    assert_eq!(sent.len(), 2);
    for (connection_id, expected) in [(1, "a1"), (2, "a2")] {
        match &drain(&mut sent, connection_id)[..] {
            [ControlOutbound::Detached { attach_id, reason }] => {
                assert_eq!(attach_id, expected);
                assert_eq!(*reason, TerminalDetachReason::Closed);
            }
            other => panic!("expected one detachment, got {other:?}"),
        }
    }
}

#[test]
fn standings_are_told_once_and_only_from_protocol_2_on() {
    let mut registry = RawTapRegistry::default();
    let mut sent = Vec::new();
    registry.insert("old".into(), 1, RawTapBudget::new(1024), true);
    registry.attach_raw("new".into(), 2, RawTapBudget::new(1024), true, 2);
    registry.set_query_authority(Some("new".into()), &mut sent);
    assert_eq!(registry.query_authority().as_deref(), Some("new"));
    assert!(drain(&mut sent, 1).is_empty());
    assert!(matches!(
        drain(&mut sent, 2)[..],
        [ControlOutbound::Authority {
            answers_queries: true,
            ..
        }]
    ));
    registry.set_query_authority(Some("new".into()), &mut sent);
    assert!(sent.is_empty());
    registry.set_query_authority(Some("old".into()), &mut sent);
    assert!(matches!(
        drain(&mut sent, 2)[..],
        [ControlOutbound::Authority {
            answers_queries: false,
            ..
        }]
    ));
    registry.set_query_authority(None, &mut sent);
    assert!(sent.is_empty());
}

#[test]
fn an_empty_read_takes_no_number() {
    let mut registry = RawTapRegistry::default();
    let mut sent = Vec::new();
    registry.insert("a1".into(), 1, RawTapBudget::new(1024), false);
    arm(&mut registry, "a1", 1, &mut sent);
    registry.publish(b"", &mut sent);
    registry.publish(b"x", &mut sent);
    assert_eq!(output_seqs(&drain(&mut sent, 1)), vec![1]);
}
