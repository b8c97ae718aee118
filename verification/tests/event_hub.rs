use herdr_control::event_hub::{EventGap, EventHub, MAX_EVENTS};

#[derive(Debug, Clone, PartialEq)]
struct TabFocused {
    tab_id: String,
    workspace_id: String,
}

fn event(index: u64) -> TabFocused {
    TabFocused {
        tab_id: format!("w1:t{index}"),
        workspace_id: "w1".into(),
    }
}

#[test]
fn a_reader_within_the_ring_sees_no_gap() {
    let mut hub = EventHub::default();
    for index in 0..10 {
        hub.push(event(index));
    }
    let (events, gap) = hub.events_after_with_gap(4);
    assert_eq!(events.len(), 6);
    assert_eq!(gap, None);
    let (events, gap) = hub.events_after_with_gap(10);
    assert!(events.is_empty());
    assert_eq!(gap, None);
}

#[test]
fn a_reader_behind_the_ring_learns_how_much_it_missed() {
    let mut hub = EventHub::default();
    let total = MAX_EVENTS as u64 + 100;
    for index in 0..total {
        hub.push(event(index));
    }
    let oldest = total - MAX_EVENTS as u64 + 1;
    let (events, gap) = hub.events_after_with_gap(0);
    assert_eq!(events.len(), MAX_EVENTS);
    assert_eq!(
        gap,
        Some(EventGap {
            dropped: oldest - 1,
            resume_sequence: oldest,
        })
    );
    let (_, gap) = hub.events_after_with_gap(oldest - 1);
    assert_eq!(gap, None, "the next event is still retained");
}

#[test]
fn events_come_back_under_their_numbers() {
    let mut hub = EventHub::default();
    assert_eq!(hub.current_sequence(), 0);
    assert!(hub.events_after(0).is_empty());
    for index in 0..3 {
        hub.push(event(index));
    }
    assert_eq!(hub.current_sequence(), 3);
    assert_eq!(hub.events_after(1), vec![(2, event(1)), (3, event(2))]);
}

#[test]
fn what_a_reader_gets_and_misses_adds_up() {
    let mut hub = EventHub::default();
    let total = MAX_EVENTS as u64 + 7;
    for index in 0..total {
        hub.push(event(index));
    }
    for sequence in [0, 3, 7, 8, total - 1, total] {
        let (events, gap) = hub.events_after_with_gap(sequence);
        let missed = gap.map(|gap| gap.dropped).unwrap_or(0);
        assert_eq!(missed + events.len() as u64, total - sequence);
        for (index, (number, _)) in events.iter().enumerate() {
            assert_eq!(*number, sequence + missed + 1 + index as u64);
        }
    }
}

#[test]
fn an_empty_hub_has_no_gap_at_any_number() {
    let hub: EventHub<TabFocused> = EventHub::default();
    let (events, gap) = hub.events_after_with_gap(u64::MAX);
    assert!(events.is_empty());
    assert_eq!(gap, None);
}

#[test]
fn nothing_comes_after_the_last_sequence_number() {
    let mut hub = EventHub::default();
    hub.push(0);
    assert_eq!(hub.events_after_with_gap(u64::MAX), (vec![], None));
    assert_eq!(hub.events_after_with_gap(u64::MAX - 1), (vec![], None));
    assert_eq!(hub.events_after_with_gap(0), (vec![(1, 0)], None));
}
