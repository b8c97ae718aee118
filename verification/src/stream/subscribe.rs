//! `events.subscribe` on a control stream.

use vstd::prelude::*;

use crate::event_hub::{EventGap, EventHub};
use crate::schema::{success, ControlRecord, Reply, ResponseResult};

verus! {

/// A subscription with the sequence number it starts after.
#[derive(Debug)]
pub struct Started<S> {
    pub start_sequence: u64,
    pub subscription: S,
}

/// The first of the subscriptions asked for that could not be set up.
pub open spec fn first_failure<S>(prepared: Seq<Result<S, Reply>>) -> Option<int> {
    crate::find::first_index(prepared, |p: Result<S, Reply>| p is Err)
}

/// The subscriptions that were set up, each to start after a sequence number.
pub open spec fn set_up<S>(prepared: Seq<Result<S, Reply>>, start_sequence: u64) -> Seq<
    Started<S>,
> {
    Seq::new(
        prepared.len(),
        |i: int| Started { start_sequence, subscription: prepared[i]->Ok_0 },
    )
}

/// What comes of a request to subscribe: everything asked for becomes active,
/// starting after the sequence number, or, when one part could not be set up,
/// nothing does and its failure is the answer.
pub open spec fn subscribed<S>(
    id: Seq<char>,
    start_sequence: u64,
    prepared: Seq<Result<S, Reply>>,
    before: Seq<Started<S>>,
    after: Seq<Started<S>>,
    reply: Reply,
) -> bool {
    match first_failure(prepared) {
        Some(i) => reply == prepared[i]->Err_0 && after == before,
        None => {
            &&& reply@ == (crate::schema::ReplyModel::Success {
                id,
                result: crate::schema::ResultModel::SubscriptionStarted,
            })
            &&& after == before + set_up(prepared, start_sequence)
        },
    }
}

/// Whether subscriptions were set up one after another, up to the first that
/// could not be, each under its place in the request and the sequence number
/// to start after.
pub open spec fn prepared_by<R, S, F: Fn(R, usize, u64) -> Result<S, Reply>>(
    prepare: F,
    requests: Seq<R>,
    start_sequence: u64,
    prepared: Seq<Result<S, Reply>>,
) -> bool {
    &&& prepared.len() <= requests.len()
    &&& forall|k: int|
        0 <= k < prepared.len() ==> prepare.ensures(
            (requests[k], k as usize, start_sequence),
            #[trigger] prepared[k],
        )
    &&& forall|k: int| 0 <= k < prepared.len() - 1 ==> (#[trigger] prepared[k]) is Ok
    &&& prepared.len() < requests.len() ==> prepared.len() > 0 && prepared.last() is Err
}

/// Starts subscriptions at the hub's current sequence number: sets them up one
/// after another, each to start there, and makes all of them active or, if one
/// cannot be set up, none.
pub fn subscribe<E, R, S, F: Fn(R, usize, u64) -> Result<S, Reply>>(
    request_id: String,
    hub: &EventHub<E>,
    requests: Vec<R>,
    prepare: F,
    active: &mut Vec<Started<S>>,
) -> (reply: Reply)
    requires
        forall|request: R, index: usize, start: u64| prepare.requires((request, index, start)),
    ensures
        exists|prepared: Seq<Result<S, Reply>>| #[trigger]
            prepared_by(prepare, requests@, hub@.sequence, prepared) && subscribed(
                request_id@,
                hub@.sequence,
                prepared,
                old(active)@,
                final(active)@,
                reply,
            ),
{
    let start_sequence: u64 = hub.current_sequence();
    let ghost all = requests@;
    let mut rest = requests;
    let mut prepared: Vec<Result<S, Reply>> = Vec::new();
    let mut failed = false;
    let ghost mut taken: int = 0;
    assert(all.skip(0) =~= all);
    while rest.len() > 0 && !failed
        invariant
            forall|request: R, index: usize, start: u64|
                prepare.requires((request, index, start)),
            0 <= taken <= all.len(),
            all == requests@,
            rest@ == all.skip(taken),
            prepared@.len() == taken,
            forall|k: int|
                0 <= k < taken ==> prepare.ensures(
                    (all[k], k as usize, start_sequence),
                    #[trigger] prepared@[k],
                ),
            forall|k: int| 0 <= k < taken - 1 ==> (#[trigger] prepared@[k]) is Ok,
            failed ==> taken > 0 && prepared@.last() is Err,
            !failed ==> forall|k: int| 0 <= k < taken ==> (#[trigger] prepared@[k]) is Ok,
        decreases rest.len(),
    {
        let index: usize = prepared.len();
        assert(rest@[0] == all[taken]);
        let request = rest.remove(0);
        let outcome = prepare(request, index, start_sequence);
        failed = outcome.is_err();
        prepared.push(outcome);
        proof {
            assert(all.skip(taken).remove(0) =~= all.skip(taken + 1));
            taken = taken + 1;
        }
    }
    assert(prepared_by(prepare, requests@, hub@.sequence, prepared@));
    subscribe_prepared(request_id, start_sequence, prepared, active)
}

/// Makes subscriptions active that were all set up, or hands the first failure
/// back and leaves the active ones alone.
pub fn subscribe_prepared<S>(
    request_id: String,
    start_sequence: u64,
    prepared: Vec<Result<S, Reply>>,
    active: &mut Vec<Started<S>>,
) -> (reply: Reply)
    ensures
        subscribed(
            request_id@,
            start_sequence,
            prepared@,
            old(active)@,
            final(active)@,
            reply,
        ),
{
    let ghost all = prepared@;
    let ghost failed = |p: Result<S, Reply>| p is Err;
    let mut rest = prepared;
    let mut added: Vec<Started<S>> = Vec::new();
    let ghost mut taken: int = 0;
    proof {
        crate::find::lemma_first_index(all, failed);
        assert(all.skip(0) =~= all);
    }
    while rest.len() > 0
        invariant
            0 <= taken <= all.len(),
            all == prepared@,
            rest@ == all.skip(taken),
            failed == (|p: Result<S, Reply>| p is Err),
            added@.len() == taken,
            forall|k: int| 0 <= k < taken ==> !failed(#[trigger] all[k]),
            forall|k: int| 0 <= k < taken ==> #[trigger] added@[k] == (Started {
                start_sequence,
                subscription: all[k]->Ok_0,
            }),
            match first_failure(all) {
                Some(i) => 0 <= i < all.len() && failed(all[i]) && forall|k: int|
                    0 <= k < i ==> !failed(#[trigger] all[k]),
                None => forall|k: int| 0 <= k < all.len() ==> !failed(#[trigger] all[k]),
            },
            *active == *old(active),
        decreases rest.len(),
    {
        let ghost current = all[taken];
        assert(rest@[0] == current);
        let next = rest.remove(0);
        match next {
            Ok(subscription) => {
                assert(!failed(current));
                added.push(Started { start_sequence, subscription });
                proof {
                    assert(all.skip(taken).remove(0) =~= all.skip(taken + 1));
                    taken = taken + 1;
                }
            },
            Err(reply) => {
                proof {
                    assert(failed(current));
                    let i = first_failure(all)->Some_0;
                    if i < taken {
                        assert(!failed(all[i]));
                    }
                    assert(i == taken);
                }
                return reply;
            },
        }
    }
    proof {
        assert(taken == all.len());
        if let Some(i) = first_failure(all) {
            assert(!failed(all[i]));
        }
        assert(added@ =~= set_up(all, start_sequence));
    }
    active.append(&mut added);
    success(request_id, ResponseResult::SubscriptionStarted)
}

/// The record that tells a stream of protocol 2 or later which subscription
/// events it lost.
pub fn events_gap_record(protocol: u32, gap: Option<EventGap>) -> (record: Option<ControlRecord>)
    ensures
        record == (match gap {
            Some(gap) => if protocol >= 2 {
                Some(
                    ControlRecord::EventsGap {
                        dropped: gap.dropped,
                        resume_sequence: gap.resume_sequence,
                    },
                )
            } else {
                None
            },
            None => None,
        }),
{
    match gap {
        Some(gap) => if protocol >= 2 {
            Some(
                ControlRecord::EventsGap {
                    dropped: gap.dropped,
                    resume_sequence: gap.resume_sequence,
                },
            )
        } else {
            None
        },
        None => None,
    }
}

/// Every subscription that a request adds starts after the sequence number the
/// request came at; those that were active stay, in front and as they were.
pub proof fn subscriptions_start_where_the_request_came<S>(
    id: Seq<char>,
    start_sequence: u64,
    prepared: Seq<Result<S, Reply>>,
    before: Seq<Started<S>>,
    after: Seq<Started<S>>,
    reply: Reply,
)
    requires
        subscribed(id, start_sequence, prepared, before, after, reply),
    ensures
        before.is_prefix_of(after),
        forall|i: int|
            before.len() <= i < after.len() ==> (#[trigger] after[i]).start_sequence
                == start_sequence,
{
}

} // verus!
