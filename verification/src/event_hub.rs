//! A bounded log of events that readers poll by sequence number.

use vstd::prelude::*;

verus! {

/// Events kept at most.
pub const MAX_EVENTS: usize = 2048;

/// Events a reader missed because the ring dropped them before it polled.
#[derive(Debug, Clone, Copy, PartialEq, Eq, Structural)]
pub struct EventGap {
    pub dropped: u64,
    /// Sequence of the oldest event still available.
    pub resume_sequence: u64,
}

/// The newest events, each with its sequence number.
#[derive(Debug)]
pub struct EventHub<E> {
    next_sequence: u64,
    events: Vec<(u64, E)>,
}

/// A hub, as contracts see it.
#[verifier::ext_equal]
pub struct HubModel<E> {
    /// The sequence number of the newest event, zero before the first.
    pub sequence: u64,
    /// The retained events, oldest first.
    pub events: Seq<(u64, E)>,
}

impl<E> View for EventHub<E> {
    type V = HubModel<E>;

    closed spec fn view(&self) -> HubModel<E> {
        HubModel { sequence: self.next_sequence, events: self.events@ }
    }
}

impl<E> HubModel<E> {
    /// A hub that saw no event.
    pub open spec fn fresh() -> HubModel<E> {
        HubModel { sequence: 0, events: Seq::empty() }
    }

    /// The hub with one more event; the oldest ones go beyond the limit.
    pub open spec fn pushed(self, event: E) -> HubModel<E> {
        let sequence = (self.sequence + 1) as u64;
        let events = self.events.push((sequence, event));
        HubModel {
            sequence,
            events: if events.len() > MAX_EVENTS {
                events.skip(events.len() - MAX_EVENTS)
            } else {
                events
            },
        }
    }

    /// The retained events are numbered without a hole up to the newest, and
    /// no more than the limit; none is missing before the limit is reached.
    pub open spec fn wf(self) -> bool {
        &&& self.events.len() == if self.sequence < MAX_EVENTS {
            self.sequence as int
        } else {
            MAX_EVENTS as int
        }
        &&& forall|i: int|
            0 <= i < self.events.len() ==> (#[trigger] self.events[i]).0 == self.sequence
                - self.events.len() + 1 + i
    }

    /// The retained events after a sequence number.
    pub open spec fn after(self, sequence: u64) -> Seq<(u64, E)> {
        self.events.filter(|e: (u64, E)| e.0 > sequence)
    }

    /// How many of the retained events a reader at a sequence number has seen.
    pub open spec fn seen(self, sequence: u64) -> int {
        if sequence >= self.sequence {
            self.events.len() as int
        } else if sequence < self.sequence - self.events.len() {
            0
        } else {
            sequence - (self.sequence - self.events.len())
        }
    }

    /// The gap in front of what a reader at a sequence number gets.
    pub open spec fn gap_after(self, sequence: u64) -> Option<EventGap> {
        if self.events.len() > 0 && self.events[0].0 > sequence + 1 {
            Some(
                EventGap {
                    dropped: (self.events[0].0 - sequence - 1) as u64,
                    resume_sequence: self.events[0].0,
                },
            )
        } else {
            None
        }
    }
}

/// Whether `copies` are clones of `events` under the same numbers.
pub open spec fn cloned_events<E: Clone>(events: Seq<(u64, E)>, copies: Seq<(u64, E)>) -> bool {
    &&& copies.len() == events.len()
    &&& forall|i: int|
        0 <= i < events.len() ==> (#[trigger] copies[i]).0 == events[i].0 && cloned(
            events[i].1,
            copies[i].1,
        )
}

impl<E> Default for EventHub<E> {
    fn default() -> (hub: Self)
        ensures
            hub@ == HubModel::<E>::fresh(),
            hub@.wf(),
    {
        EventHub { next_sequence: 0, events: Vec::new() }
    }
}

impl<E> EventHub<E> {
    /// Appends an event; the oldest goes once there are too many.
    pub fn push(&mut self, event: E)
        requires
            old(self)@.sequence < u64::MAX,
        ensures
            final(self)@ == old(self)@.pushed(event),
            old(self)@.wf() ==> final(self)@.wf(),
    {
        proof {
            if self@.wf() {
                hubs_number_events_without_a_hole(self@, event);
            }
        }
        self.next_sequence = self.next_sequence + 1;
        let sequence: u64 = self.next_sequence;
        self.events.push((sequence, event));
        let overflow: usize = self.events.len().saturating_sub(MAX_EVENTS);
        if overflow > 0 {
            let kept = self.events.split_off(overflow);
            self.events = kept;
            assert(self@.events =~= old(self)@.pushed(event).events);
        }
    }

    /// The sequence number of the newest event, zero before the first.
    pub fn current_sequence(&self) -> (sequence: u64)
        ensures
            sequence == self@.sequence,
    {
        self.next_sequence
    }
}

impl<E: Clone> EventHub<E> {
    /// Events after `sequence`.
    pub fn events_after(&self, sequence: u64) -> (events: Vec<(u64, E)>)
        ensures
            cloned_events(self@.after(sequence), events@),
            self@.wf() ==> self@.after(sequence) == self@.events.skip(self@.seen(sequence)),
    {
        proof {
            if self@.wf() {
                lemma_after_is_tail(self@, sequence);
            }
        }
        let ghost newer = |e: (u64, E)| e.0 > sequence;
        let ghost all = self.events@;
        let mut events: Vec<(u64, E)> = Vec::new();
        let mut i: usize = 0;
        assert(all.take(0).filter(newer) =~= Seq::empty());
        while i < self.events.len()
            invariant
                0 <= i <= self.events.len(),
                all == self.events@,
                newer == (|e: (u64, E)| e.0 > sequence),
                cloned_events(all.take(i as int).filter(newer), events@),
            decreases self.events.len() - i,
        {
            let ghost taken = all.take(i as int);
            proof {
                assert(all.take(i + 1) =~= taken.push(all[i as int]));
                taken.lemma_filter_push(all[i as int], newer);
            }
            if self.events[i].0 > sequence {
                events.push((self.events[i].0, self.events[i].1.clone()));
            }
            i += 1;
        }
        assert(all.take(all.len() as int) =~= all);
        events
    }

    /// Events after `sequence`, plus the gap when the ring no longer holds
    /// the ones right after it.
    pub fn events_after_with_gap(&self, sequence: u64) -> (found: (
        Vec<(u64, E)>,
        Option<EventGap>,
    ))
        ensures
            cloned_events(self@.after(sequence), found.0@),
            self@.wf() ==> self@.after(sequence) == self@.events.skip(self@.seen(sequence)),
            found.1 == self@.gap_after(sequence),
    {
        let events = self.events_after(sequence);
        let gap = if self.events.len() > 0 && self.events[0].0 > sequence && self.events[0].0
            - sequence > 1 {
            let oldest: u64 = self.events[0].0;
            Some(EventGap { dropped: oldest - sequence - 1, resume_sequence: oldest })
        } else {
            None
        };
        (events, gap)
    }
}

/// A fresh hub is sound, and stays so with every event: numbering starts at
/// one and has no hole, and the newest events are the ones retained.
pub proof fn hubs_number_events_without_a_hole<E>(hub: HubModel<E>, event: E)
    requires
        hub.wf(),
        hub.sequence < u64::MAX,
    ensures
        HubModel::<E>::fresh().wf(),
        hub.pushed(event).wf(),
        hub.pushed(event).events.last() == ((hub.sequence + 1) as u64, event),
{
    let after = hub.pushed(event);
    assert forall|i: int| 0 <= i < after.events.len() implies (#[trigger] after.events[i]).0
        == after.sequence - after.events.len() + 1 + i by {
        let pushed = hub.events.push((after.sequence, event));
        let at = i + pushed.len() - after.events.len();
        assert(after.events[i] == pushed[at]);
        if at < hub.events.len() {
            assert(pushed[at] == hub.events[at]);
        }
    }
}

/// What a sound hub retains after a sequence number is the tail of what it
/// retains.
proof fn lemma_after_is_tail<E>(hub: HubModel<E>, sequence: u64)
    requires
        hub.wf(),
    ensures
        hub.after(sequence) == hub.events.skip(hub.seen(sequence)),
{
    crate::find::lemma_tail_filter(hub.events, |e: (u64, E)| e.0 > sequence, hub.seen(sequence));
}

/// A reader learns of every event since its sequence number: what it gets,
/// numbered without a hole up to the newest, and what the gap says it missed
/// add up to all of them.
pub proof fn readers_account_for_every_event<E>(hub: HubModel<E>, sequence: u64)
    requires
        hub.wf(),
        sequence <= hub.sequence,
    ensures
        ({
            let events = hub.after(sequence);
            let missed: int = match hub.gap_after(sequence) {
                Some(gap) => gap.dropped as int,
                None => 0,
            };
            &&& missed + events.len() == hub.sequence - sequence
            &&& forall|i: int|
                0 <= i < events.len() ==> (#[trigger] events[i]).0 == sequence + missed + 1 + i
            &&& hub.gap_after(sequence) matches Some(gap) ==> events.len() > 0
                && gap.resume_sequence == events[0].0
        }),
{
    lemma_after_is_tail(hub, sequence);
    if hub.events.len() > 0 {
        assert(hub.events[0].0 == hub.sequence - hub.events.len() + 1);
    }
}

/// A reader at or past the oldest retained event's predecessor sees no gap.
pub proof fn readers_within_the_ring_see_no_gap<E>(hub: HubModel<E>, sequence: u64)
    requires
        hub.wf(),
        hub.sequence <= sequence + MAX_EVENTS,
    ensures
        hub.gap_after(sequence) is None,
{
    if hub.events.len() > 0 {
        assert(hub.events[0].0 == hub.sequence - hub.events.len() + 1);
    }
}

} // verus!
