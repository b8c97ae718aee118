//! What streams get of a terminal's output, record by record.

use vstd::prelude::*;

use crate::schema::{TerminalDetachReason, TerminalSnapshot};

verus! {

/// Whether a tap is who it was, on the same terms.
pub open spec fn same_tap(
    before: crate::raw_stream::TapModel,
    after: crate::raw_stream::TapModel,
) -> bool {
    &&& after.attach_id == before.attach_id
    &&& after.connection_id == before.connection_id
    &&& after.suppress_responses == before.suppress_responses
    &&& after.protocol == before.protocol
    &&& after.budget.limit == before.budget.limit
}

/// A read that an armed tap has budget for, up to the last byte of it, goes to
/// the tap's stream under the next number, behind one record of what was dropped
/// since the last such record, if anything was.
pub proof fn a_read_within_the_budget_is_sent(
    tap: crate::raw_stream::TapModel,
    bytes: Seq<u8>,
)
    requires
        tap.armed,
        tap.seq < u64::MAX,
        tap.budget.pending + bytes.len() <= tap.budget.limit,
    ensures
        ({
            let (after, sent) = tap.published(bytes);
            let n = sent.len() as int;
            &&& n == (if tap.dropped > 0 {
                2int
            } else {
                1int
            })
            &&& sent[n - 1] == crate::raw_stream::SentModel {
                connection_id: tap.connection_id,
                record: crate::control::OutboundModel::Output {
                    attach_id: tap.attach_id,
                    seq: (tap.seq + 1) as u64,
                    bytes,
                },
            }
            &&& tap.dropped > 0 ==> sent[0] == crate::raw_stream::SentModel {
                connection_id: tap.connection_id,
                record: crate::control::OutboundModel::Gap {
                    attach_id: tap.attach_id,
                    seq: tap.seq,
                    dropped_bytes: tap.dropped,
                },
            }
            &&& same_tap(tap, after)
            &&& after.armed && after.told == tap.told
            &&& after.seq == tap.seq + 1
            &&& after.dropped == 0
            &&& after.budget.pending == tap.budget.pending + bytes.len()
        }),
{
}

/// A read that an armed tap has no budget for is dropped. The first of them is
/// told, with its length and the number of the last output that was sent; those
/// that follow are only counted.
pub proof fn a_read_beyond_the_budget_is_dropped(
    tap: crate::raw_stream::TapModel,
    bytes: Seq<u8>,
)
    requires
        tap.armed,
        tap.budget.pending + bytes.len() > tap.budget.limit,
        tap.dropped + bytes.len() <= u64::MAX,
    ensures
        ({
            let (after, sent) = tap.published(bytes);
            &&& tap.dropped > 0 ==> sent.len() == 0
            &&& tap.dropped == 0 ==> sent.len() == 1 && sent[0] == crate::raw_stream::SentModel {
                connection_id: tap.connection_id,
                record: crate::control::OutboundModel::Gap {
                    attach_id: tap.attach_id,
                    seq: tap.seq,
                    dropped_bytes: bytes.len() as u64,
                },
            }
            &&& same_tap(tap, after)
            &&& after.armed && after.told == tap.told
            &&& after.seq == tap.seq
            &&& after.dropped == tap.dropped + bytes.len()
            &&& after.budget == tap.budget
        }),
{
}

/// A tap starts silent and tells nobody anything: no number, no debt, no
/// standing. Its first output, sent after its first snapshot, has number one.
pub proof fn a_new_tap_counts_from_one(
    attach_id: Seq<char>,
    connection_id: u64,
    budget: crate::raw_stream::RawTapBudget,
    suppress_responses: bool,
    protocol: u32,
    snapshot: TerminalSnapshot,
    bytes: Seq<u8>,
)
    requires
        budget.pending + bytes.len() <= budget.limit,
    ensures
        ({
            let tap = crate::raw_stream::TapModel::fresh(
                attach_id,
                connection_id,
                budget,
                suppress_responses,
                protocol,
            );
            let armed = tap.snapshotted(Some(snapshot), Seq::empty()).0;
            let sent = armed.published(bytes).1;
            &&& tap.published(bytes).1.len() == 0
            &&& tap.published(bytes).0 == tap
            &&& sent.len() == 1
            &&& sent[0] == crate::raw_stream::SentModel {
                connection_id,
                record: crate::control::OutboundModel::Output { attach_id, seq: 1, bytes },
            }
            &&& armed.suppress_responses == suppress_responses
            &&& armed.protocol == protocol
        }),
{
}

/// A snapshot goes to the tap's stream ahead of everything else, whatever the
/// budget, and arms the tap; what was dropped before it is settled by it.
/// Without a capture nothing is sent and the tap is as silent as it was.
pub proof fn a_snapshot_arms_its_tap(
    tap: crate::raw_stream::TapModel,
    snapshot: TerminalSnapshot,
    pending: Seq<u8>,
)
    requires
        tap.replays(pending.len()),
    ensures
        ({
            let (after, sent) = tap.snapshotted(Some(snapshot), pending);
            let (without, nothing) = tap.snapshotted(None, pending);
            &&& sent.len() > 0
            &&& sent[0] == crate::raw_stream::SentModel {
                connection_id: tap.connection_id,
                record: crate::control::OutboundModel::Snapshot {
                    attach_id: tap.attach_id,
                    snapshot,
                },
            }
            &&& after.armed
            &&& same_tap(tap, after)
            &&& pending.len() == 0 ==> sent.len() == 1 && after.seq == tap.seq && after.budget
                == tap.budget && after.dropped == 0
            &&& pending.len() > 0 && tap.budget.pending + pending.len() <= tap.budget.limit ==> {
                &&& sent.len() == 2
                &&& sent[1] == crate::raw_stream::SentModel {
                    connection_id: tap.connection_id,
                    record: crate::control::OutboundModel::Output {
                        attach_id: tap.attach_id,
                        seq: (tap.seq + 1) as u64,
                        bytes: pending,
                    },
                }
                &&& after.seq == tap.seq + 1
                &&& after.dropped == 0
            }
            &&& pending.len() > 0 && tap.budget.pending + pending.len() > tap.budget.limit ==> {
                &&& sent.len() == 2
                &&& sent[1] == crate::raw_stream::SentModel {
                    connection_id: tap.connection_id,
                    record: crate::control::OutboundModel::Gap {
                        attach_id: tap.attach_id,
                        seq: tap.seq,
                        dropped_bytes: pending.len() as u64,
                    },
                }
                &&& after.dropped == pending.len()
            }
            &&& nothing.len() == 0
            &&& same_tap(tap, without)
            &&& without.armed == tap.armed
            &&& without.seq == tap.seq
            &&& without.dropped == 0
            &&& without.budget == tap.budget
        }),
{
}

/// A stream of protocol 2 or later is told of its standing when that is news:
/// that it answers queries if its attach was picked, else that it does not.
pub proof fn standings_are_told_when_they_change(
    tap: crate::raw_stream::TapModel,
    chosen: Option<Seq<char>>,
)
    ensures
        ({
            let (after, sent) = tap.informed(chosen);
            let answers_queries = chosen is Some && chosen->Some_0 == tap.attach_id;
            let news = tap.protocol >= 2 && !(tap.told is Some && tap.told->Some_0
                == answers_queries);
            &&& !news ==> sent.len() == 0 && after == tap
            &&& news ==> {
                &&& sent.len() == 1
                &&& sent[0] == crate::raw_stream::SentModel {
                    connection_id: tap.connection_id,
                    record: crate::control::OutboundModel::Authority {
                        attach_id: tap.attach_id,
                        answers_queries,
                    },
                }
                &&& after.told == Some(answers_queries)
                &&& same_tap(tap, after)
                &&& after.armed == tap.armed
                &&& after.seq == tap.seq
                &&& after.dropped == tap.dropped
                &&& after.budget == tap.budget
            }
        }),
{
}

/// Whether the terminal answers queries itself: not while a tap that has had
/// its snapshot is there for a client that answers them.
pub proof fn the_terminal_is_silent_for_answering_clients(
    registry: crate::raw_stream::RegistryModel,
)
    requires
        registry.wf(),
    ensures
        registry.suppress_terminal_responses <==> exists|i: int|
            0 <= i < registry.taps.len() && (#[trigger] registry.taps[i]).armed
                && registry.taps[i].suppress_responses,
{
    if registry.any_suppresses() {
        let i = choose|i: int|
            0 <= i < registry.taps.len() && (#[trigger] registry.taps[i]).suppresses();
        assert(registry.taps[i].armed && registry.taps[i].suppress_responses);
    }
    if exists|i: int|
        0 <= i < registry.taps.len() && (#[trigger] registry.taps[i]).armed
            && registry.taps[i].suppress_responses {
        let i = choose|i: int|
            0 <= i < registry.taps.len() && (#[trigger] registry.taps[i]).armed
                && registry.taps[i].suppress_responses;
        assert(registry.taps[i].suppresses());
    }
}

/// Every armed tap with budget for a read sends it to its stream, and stays who it
/// is.
pub proof fn every_stream_gets_the_read(
    registry: crate::raw_stream::RegistryModel,
    bytes: Seq<u8>,
    i: int,
)
    requires
        0 <= i < registry.taps.len(),
        bytes.len() > 0,
        registry.taps[i].armed,
        registry.taps[i].seq < u64::MAX,
        registry.taps[i].budget.pending + bytes.len() <= registry.taps[i].budget.limit,
    ensures
        ({
            let (after, sent) = registry.published(bytes);
            &&& after.taps.len() == registry.taps.len()
            &&& same_tap(registry.taps[i], after.taps[i])
            &&& after.query_authority == registry.query_authority
            &&& after.pending_tail == registry.pending_tail
            &&& sent.contains(
                crate::raw_stream::SentModel {
                    connection_id: registry.taps[i].connection_id,
                    record: crate::control::OutboundModel::Output {
                        attach_id: registry.taps[i].attach_id,
                        seq: (registry.taps[i].seq + 1) as u64,
                        bytes,
                    },
                },
            )
        }),
{
    let step = |t: crate::raw_stream::TapModel| t.published(bytes).1;
    let tap = registry.taps[i];
    let output = crate::raw_stream::SentModel {
        connection_id: tap.connection_id,
        record: crate::control::OutboundModel::Output {
            attach_id: tap.attach_id,
            seq: (tap.seq + 1) as u64,
            bytes,
        },
    };
    a_read_within_the_budget_is_sent(tap, bytes);
    let piece = step(tap);
    assert(piece[piece.len() - 1] == output);
    assert(piece.contains(output));
    crate::find::lemma_flat_map_contains(registry.taps, step, i, output);
    assert(registry.published(bytes).1 == registry.taps.flat_map(step));
}

/// A read tells a stream only of itself, whole, and only a stream with an armed
/// tap; or of what was dropped.
pub proof fn streams_get_nothing_but_the_read(
    registry: crate::raw_stream::RegistryModel,
    bytes: Seq<u8>,
    k: int,
)
    requires
        0 <= k < registry.published(bytes).1.len(),
    ensures
        ({
            let sent = registry.published(bytes).1[k];
            &&& bytes.len() > 0
            &&& exists|i: int|
                0 <= i < registry.taps.len() && (#[trigger] registry.taps[i]).armed
                    && registry.taps[i].connection_id == sent.connection_id
            &&& sent.record is Output ==> sent.record->Output_bytes == bytes
            &&& sent.record is Output || sent.record is Gap
        }),
{
    let step = |t: crate::raw_stream::TapModel| t.published(bytes).1;
    let all = registry.taps.flat_map(step);
    let sent = registry.published(bytes).1[k];
    assert(all.contains(sent));
    let i = crate::find::lemma_flat_map_origin(registry.taps, step, sent);
    let piece = registry.taps[i].published(bytes).1;
    assert(step(registry.taps[i]) == piece);
    assert(piece.contains(sent));
    assert(registry.taps[i].armed);
}

/// A pick is known from then on, and every tap's stream of protocol 2 or later
/// that it is news to is told.
pub proof fn every_stream_is_told_of_a_pick(
    registry: crate::raw_stream::RegistryModel,
    chosen: Option<Seq<char>>,
    i: int,
)
    requires
        0 <= i < registry.taps.len(),
    ensures
        ({
            let (after, sent) = registry.informed(chosen);
            let tap = registry.taps[i];
            let answers_queries = chosen is Some && chosen->Some_0 == tap.attach_id;
            &&& after.query_authority == chosen
            &&& after.taps.len() == registry.taps.len()
            &&& same_tap(tap, after.taps[i])
            &&& after.suppress_terminal_responses == registry.suppress_terminal_responses
            &&& after.pending_tail == registry.pending_tail
            &&& tap.protocol >= 2 ==> after.taps[i].told == Some(answers_queries)
            &&& tap.protocol >= 2 && tap.told != Some(answers_queries) ==> sent.contains(
                crate::raw_stream::SentModel {
                    connection_id: tap.connection_id,
                    record: crate::control::OutboundModel::Authority {
                        attach_id: tap.attach_id,
                        answers_queries,
                    },
                },
            )
        }),
{
    let step = |t: crate::raw_stream::TapModel| t.informed(chosen).1;
    let tap = registry.taps[i];
    standings_are_told_when_they_change(tap, chosen);
    let piece = step(tap);
    if piece.len() == 1 {
        assert(piece.contains(piece[0]));
        crate::find::lemma_flat_map_contains(registry.taps, step, i, piece[0]);
    }
    assert(registry.informed(chosen).1 == registry.taps.flat_map(step));
}

/// A snapshot is between a terminal and one tap: the others stay as they are.
pub proof fn a_snapshot_is_for_one_tap(
    registry: crate::raw_stream::RegistryModel,
    i: int,
    captured: Option<TerminalSnapshot>,
    k: int,
)
    requires
        0 <= i < registry.taps.len(),
        0 <= k < registry.taps.len(),
        registry.taps[i].replays(registry.pending_tail.len()),
    ensures
        ({
            let (after, sent) = registry.snapshotted(i, captured);
            &&& after.taps.len() == registry.taps.len()
            &&& k != i ==> after.taps[k] == registry.taps[k]
            &&& same_tap(registry.taps[i], after.taps[i])
            &&& captured is Some ==> after.taps[i].armed
            &&& captured is None ==> after.taps[i].armed == registry.taps[i].armed
            &&& after.pending_tail == registry.pending_tail
            &&& after.query_authority == registry.query_authority
            &&& forall|r: int|
                0 <= r < sent.len() ==> (#[trigger] sent[r]).connection_id
                    == registry.taps[i].connection_id
        }),
{
}

/// What is written of an attach's output is given back to its tap's budget, and
/// to no other.
pub proof fn written_output_is_given_back(
    registry: crate::raw_stream::RegistryModel,
    attach_id: Seq<char>,
    len: usize,
    i: int,
    k: int,
)
    requires
        0 <= i < registry.taps.len(),
        registry.taps[i].attach_id == attach_id,
        forall|j: int|
            0 <= j < registry.taps.len() && j != i ==> (#[trigger] registry.taps[j]).attach_id
                != attach_id,
        len <= registry.taps[i].budget.pending,
        0 <= k < registry.taps.len(),
    ensures
        ({
            let after = registry.released(attach_id, len);
            let tap = registry.taps[i];
            &&& after.taps.len() == registry.taps.len()
            &&& k != i ==> after.taps[k] == registry.taps[k]
            &&& same_tap(tap, after.taps[i])
            &&& after.taps[i].budget.pending == tap.budget.pending - len
            &&& after.taps[i].armed == tap.armed
            &&& after.taps[i].seq == tap.seq
            &&& after.taps[i].dropped == tap.dropped
            &&& after.suppress_terminal_responses == registry.suppress_terminal_responses
        }),
{
    crate::find::lemma_first_index(
        registry.taps,
        |t: crate::raw_stream::TapModel| t.attach_id == attach_id,
    );
    let wanted = |t: crate::raw_stream::TapModel| t.attach_id == attach_id;
    assert(wanted(registry.taps[i]));
}

/// The unfinished sequence is carried on as it is, up to a quarter of a
/// mebibyte; a longer one is given up.
pub proof fn long_tails_are_given_up(pending: Seq<u8>, bytes: Seq<u8>)
    ensures
        crate::raw_tail::tail(pending + bytes).len() <= 256 * 1024 ==> crate::raw_stream::noted(
            pending,
            bytes,
        ) == crate::raw_tail::tail(pending + bytes),
        crate::raw_tail::tail(pending + bytes).len() > 256 * 1024 ==> crate::raw_stream::noted(
            pending,
            bytes,
        ).len() == 0,
{
}

/// Ending a tap tells its stream why, under the attach's name; who answers queries
/// and what is unfinished stay as they were.
pub proof fn an_ended_tap_is_told_why(
    registry: crate::raw_stream::RegistryModel,
    i: int,
    reason: TerminalDetachReason,
)
    requires
        0 <= i < registry.taps.len(),
    ensures
        registry.taps[i].detached(reason) == (crate::raw_stream::SentModel {
            connection_id: registry.taps[i].connection_id,
            record: crate::control::OutboundModel::Detached {
                attach_id: registry.taps[i].attach_id,
                reason,
            },
        }),
        registry.removed(i).taps.len() == registry.taps.len() - 1,
        registry.removed(i).query_authority == registry.query_authority,
        registry.removed(i).pending_tail == registry.pending_tail,
        registry.cleared(reason).1[i] == registry.taps[i].detached(reason),
        registry.cleared(reason).0.query_authority == registry.query_authority,
        registry.cleared(reason).0.pending_tail == registry.pending_tail,
{
}

/// A new tap comes last and changes nothing for the others.
pub proof fn a_new_tap_comes_last(
    registry: crate::raw_stream::RegistryModel,
    tap: crate::raw_stream::TapModel,
    i: int,
)
    requires
        0 <= i < registry.taps.len(),
    ensures
        ({
            let after = registry.inserted(tap);
            &&& after.taps.len() == registry.taps.len() + 1
            &&& after.taps.last() == tap
            &&& after.taps[i] == registry.taps[i]
            &&& after.suppress_terminal_responses == registry.suppress_terminal_responses
            &&& after.query_authority == registry.query_authority
            &&& after.pending_tail == registry.pending_tail
        }),
{
}

} // verus!
