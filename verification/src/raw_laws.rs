//! What holds of taps on a terminal's output.

use vstd::prelude::*;

use crate::raw_stream::{RawTapBudget, MAX_PENDING_TAIL_BYTES};
use crate::schema::{TerminalDetachReason, TerminalSnapshot};

verus! {

/// A tap sends nothing before its first snapshot.
pub proof fn taps_are_silent_until_the_first_snapshot(
    tap: crate::raw_stream::TapModel,
    bytes: Seq<u8>,
)
    requires
        !tap.armed,
    ensures
        tap.published(bytes) == (tap, Seq::<crate::raw_stream::SentModel>::empty()),
{
}

/// What an armed tap does with a read. Within the budget the read is sent under
/// the next number, behind a report of what was dropped if anything was, and
/// nothing is dropped any more. Beyond the budget it is counted as dropped, and
/// reported if it is the first.
pub proof fn a_read_is_sent_or_counted(tap: crate::raw_stream::TapModel, bytes: Seq<u8>)
    requires
        tap.armed,
        tap.has_room(bytes.len()),
    ensures
        ({
            let (after, sent) = tap.published(bytes);
            let output = tap.sends(
                crate::control::OutboundModel::Output {
                    attach_id: tap.attach_id,
                    seq: (tap.seq + 1) as u64,
                    bytes,
                },
            );
            let gap = |dropped_bytes: u64|
                tap.sends(
                    crate::control::OutboundModel::Gap {
                        attach_id: tap.attach_id,
                        seq: tap.seq,
                        dropped_bytes,
                    },
                );
            if tap.budget.takes(bytes.len()) {
                &&& after.seq == tap.seq + 1
                &&& after.dropped == 0
                &&& after.budget.pending == tap.budget.pending + bytes.len()
                &&& tap.dropped > 0 ==> sent == seq![gap(tap.dropped), output]
                &&& tap.dropped == 0 ==> sent == seq![output]
            } else {
                &&& after.seq == tap.seq
                &&& after.dropped == tap.dropped + bytes.len()
                &&& after.budget == tap.budget
                &&& tap.dropped > 0 ==> sent == Seq::<crate::raw_stream::SentModel>::empty()
                &&& tap.dropped == 0 ==> sent == seq![gap(bytes.len() as u64)]
            }
        }),
{
}

/// The tap and what it sent once reads came in, one after another.
pub open spec fn run(tap: crate::raw_stream::TapModel, reads: Seq<Seq<u8>>) -> (
    crate::raw_stream::TapModel,
    Seq<crate::raw_stream::SentModel>,
)
    decreases reads.len(),
{
    if reads.len() == 0 {
        (tap, Seq::empty())
    } else {
        let (before, sent) = run(tap, reads.drop_last());
        let (after, more) = before.published(reads.last());
        (after, sent + more)
    }
}

/// The counters have room for all reads.
pub open spec fn run_has_room(tap: crate::raw_stream::TapModel, reads: Seq<Seq<u8>>) -> bool
    decreases reads.len(),
{
    reads.len() == 0 || (run_has_room(tap, reads.drop_last()) && run(
        tap,
        reads.drop_last(),
    ).0.has_room(reads.last().len()))
}

/// The numbers of the output among some records.
pub open spec fn output_numbers(sent: Seq<crate::raw_stream::SentModel>) -> Seq<u64>
    decreases sent.len(),
{
    if sent.len() == 0 {
        Seq::empty()
    } else {
        let earlier = output_numbers(sent.drop_last());
        match sent.last().record {
            crate::control::OutboundModel::Output { attach_id, seq, bytes } => earlier.push(seq),
            _ => earlier,
        }
    }
}

proof fn lemma_output_numbers_add(
    a: Seq<crate::raw_stream::SentModel>,
    b: Seq<crate::raw_stream::SentModel>,
)
    ensures
        output_numbers(a + b) == output_numbers(a) + output_numbers(b),
    decreases b.len(),
{
    if b.len() == 0 {
        assert(a + b =~= a);
        assert(output_numbers(a) + output_numbers(b) =~= output_numbers(a));
    } else {
        lemma_output_numbers_add(a, b.drop_last());
        assert((a + b).drop_last() =~= a + b.drop_last());
        assert((a + b).last() == b.last());
        assert(output_numbers(a + b) =~= output_numbers(a) + output_numbers(b));
    }
}

/// The output numbers that one read adds.
proof fn lemma_published_numbers(tap: crate::raw_stream::TapModel, bytes: Seq<u8>)
    requires
        tap.has_room(bytes.len()),
    ensures
        ({
            let (after, sent) = tap.published(bytes);
            output_numbers(sent) == if after.seq == tap.seq {
                Seq::empty()
            } else {
                seq![after.seq]
            } && (after.seq == tap.seq || after.seq == tap.seq + 1)
        }),
{
    reveal_with_fuel(output_numbers, 3);
    let (after, sent) = tap.published(bytes);
    if sent.len() > 0 {
        assert(sent.drop_last().len() == sent.len() - 1);
    }
    assert(output_numbers(sent) =~= if after.seq == tap.seq {
        Seq::empty()
    } else {
        seq![after.seq]
    });
}

/// A tap numbers what it outputs without a hole, from the number after its
/// last: from one, for a tap that never sent any. Reads that are dropped take
/// no number.
pub proof fn taps_number_output_without_a_hole(
    tap: crate::raw_stream::TapModel,
    reads: Seq<Seq<u8>>,
)
    requires
        run_has_room(tap, reads),
    ensures
        ({
            let (after, sent) = run(tap, reads);
            let numbers = output_numbers(sent);
            &&& tap.seq <= after.seq
            &&& numbers.len() == after.seq - tap.seq
            &&& forall|i: int| 0 <= i < numbers.len() ==> #[trigger] numbers[i] == tap.seq + 1 + i
        }),
    decreases reads.len(),
{
    if reads.len() > 0 {
        taps_number_output_without_a_hole(tap, reads.drop_last());
        let (before, sent) = run(tap, reads.drop_last());
        let (after, more) = before.published(reads.last());
        lemma_published_numbers(before, reads.last());
        lemma_output_numbers_add(sent, more);
        let numbers = output_numbers(sent + more);
        assert forall|i: int| 0 <= i < numbers.len() implies #[trigger] numbers[i] == tap.seq + 1
            + i by {
            if i < output_numbers(sent).len() {
                assert(numbers[i] == output_numbers(sent)[i]);
            }
        }
    }
}

/// Output numbered after a snapshot was produced after it: what a tap sent
/// before has a number up to the one the snapshot is stamped with, and what it
/// sends from the snapshot on has a greater one.
pub proof fn numbers_tell_output_before_a_snapshot_from_output_after(
    tap: crate::raw_stream::TapModel,
    earlier: Seq<Seq<u8>>,
    snapshot: TerminalSnapshot,
    pending: Seq<u8>,
    later: Seq<Seq<u8>>,
)
    requires
        run_has_room(tap, earlier),
        pending.len() > 0 ==> run(tap, earlier).0.replays(pending.len()),
        run_has_room(run(tap, earlier).0.snapshotted(Some(snapshot), pending).0, later),
    ensures
        ({
            let (before, sent) = run(tap, earlier);
            let (resumed, replayed) = before.snapshotted(Some(snapshot), pending);
            let numbers = output_numbers(sent);
            let more = output_numbers(replayed + run(resumed, later).1);
            &&& forall|i: int| 0 <= i < numbers.len() ==> #[trigger] numbers[i] <= before.seq
            &&& forall|i: int| 0 <= i < more.len() ==> #[trigger] more[i] > before.seq
        }),
{
    reveal_with_fuel(output_numbers, 2);
    taps_number_output_without_a_hole(tap, earlier);
    let (before, sent) = run(tap, earlier);
    let (resumed, replayed) = before.snapshotted(Some(snapshot), pending);
    let armed = crate::raw_stream::TapModel { armed: true, dropped: 0, ..before };
    let first = seq![
        before.sends(
            crate::control::OutboundModel::Snapshot { attach_id: before.attach_id, snapshot },
        ),
    ];
    assert(first.drop_last() =~= Seq::empty());
    assert(output_numbers(first) =~= Seq::empty());
    if pending.len() > 0 {
        lemma_published_numbers(armed, pending);
        lemma_output_numbers_add(first, armed.published(pending).1);
    }
    taps_number_output_without_a_hole(resumed, later);
    let after = run(resumed, later).1;
    lemma_output_numbers_add(replayed, after);
    let more = output_numbers(replayed + after);
    assert forall|i: int| 0 <= i < more.len() implies #[trigger] more[i] > before.seq by {
        if i < output_numbers(replayed).len() {
            assert(more[i] == output_numbers(replayed)[i]);
        } else {
            assert(more[i] == output_numbers(after)[i - output_numbers(replayed).len()]);
        }
    }
}

/// The lengths of reads, added up.
pub open spec fn total_len(reads: Seq<Seq<u8>>) -> nat
    decreases reads.len(),
{
    if reads.len() == 0 {
        0
    } else {
        total_len(reads.drop_last()) + reads.last().len()
    }
}

/// While an armed tap's stream takes nothing more, the first read dropped is
/// reported in one gap record and the rest are not: they are counted.
pub proof fn one_gap_opens_an_episode(tap: crate::raw_stream::TapModel, reads: Seq<Seq<u8>>)
    requires
        tap.armed,
        tap.dropped == 0,
        reads.len() > 0,
        forall|i: int|
            0 <= i < reads.len() ==> (#[trigger] reads[i]).len() > 0 && !tap.budget.takes(
                reads[i].len(),
            ),
        total_len(reads) <= u64::MAX,
    ensures
        run(tap, reads) == (
            crate::raw_stream::TapModel { dropped: total_len(reads) as u64, ..tap },
            seq![
                crate::raw_stream::TapModel { dropped: reads[0].len() as u64, ..tap }.gap(),
            ],
        ),
    decreases reads.len(),
{
    let earlier = reads.drop_last();
    let (before, sent) = run(tap, earlier);
    assert(reads.last() == reads[reads.len() - 1]);
    if earlier.len() == 0 {
        assert(total_len(earlier) == 0);
        assert(before == tap);
        assert(run(tap, reads).1 =~= seq![
            crate::raw_stream::TapModel { dropped: reads[0].len() as u64, ..tap }.gap(),
        ]);
    } else {
        assert forall|i: int| 0 <= i < earlier.len() implies (#[trigger] earlier[i]).len() > 0
            && !tap.budget.takes(earlier[i].len()) by {
            assert(earlier[i] == reads[i]);
        }
        one_gap_opens_an_episode(tap, earlier);
        assert(earlier[0] == reads[0]);
        lemma_total_positive(earlier);
        assert(before.published(reads.last()).1 =~= Seq::empty());
        assert(run(tap, reads).1 =~= sent);
    }
}

proof fn lemma_total_positive(reads: Seq<Seq<u8>>)
    requires
        reads.len() > 0,
        forall|i: int| 0 <= i < reads.len() ==> (#[trigger] reads[i]).len() > 0,
    ensures
        total_len(reads) > 0,
{
    assert(reads.last() == reads[reads.len() - 1]);
}

/// When an armed tap's stream takes output again, everything dropped since the
/// last report is told first, and the episode is over.
pub proof fn a_gap_closes_an_episode(tap: crate::raw_stream::TapModel, bytes: Seq<u8>)
    requires
        tap.armed,
        tap.dropped > 0,
        tap.budget.takes(bytes.len()),
        tap.seq < u64::MAX,
    ensures
        ({
            let (after, sent) = tap.published(bytes);
            &&& after.dropped == 0
            &&& sent.len() == 2
            &&& sent[0].record == crate::control::OutboundModel::Gap {
                attach_id: tap.attach_id,
                seq: tap.seq,
                dropped_bytes: tap.dropped,
            }
            &&& sent[1].record == crate::control::OutboundModel::Output {
                attach_id: tap.attach_id,
                seq: (tap.seq + 1) as u64,
                bytes,
            }
        }),
{
}

/// A tap never queues more than its budget.
pub proof fn budgets_are_kept(tap: crate::raw_stream::TapModel, bytes: Seq<u8>)
    requires
        tap.budget.pending <= tap.budget.limit,
    ensures
        tap.published(bytes).0.budget.pending <= tap.budget.limit,
        tap.published(bytes).0.budget.limit == tap.budget.limit,
{
}

/// What is written gives its budget back: reserving and releasing the same
/// length leaves the budget as it was.
pub proof fn budgets_are_given_back(budget: RawTapBudget, len: usize)
    requires
        budget.takes(len as nat),
    ensures
        ((budget.pending + len) as usize).wrapping_sub(len) == budget.pending,
{
}

/// Whether records are some of those that were to be sent, none of them twice.
pub open spec fn drawn_from(
    unsent: Seq<crate::raw_stream::SentModel>,
    records: Seq<crate::raw_stream::SentModel>,
) -> bool {
    &&& unsent.no_duplicates()
    &&& forall|k: int| 0 <= k < unsent.len() ==> records.contains(#[trigger] unsent[k])
}

/// Among records that hold no output of an attach but one, its output bytes are
/// those of that one.
proof fn lemma_output_bytes(
    records: Seq<crate::raw_stream::SentModel>,
    attach_id: Seq<char>,
    output: crate::raw_stream::SentModel,
)
    requires
        records.no_duplicates(),
        output.record matches crate::control::OutboundModel::Output { attach_id: id, .. } && id
            == attach_id,
        forall|k: int| 0 <= k < records.len() ==> ((#[trigger] records[k]).record matches
            crate::control::OutboundModel::Output { attach_id: id, .. } ==> id != attach_id
            || records[k] == output),
    ensures
        crate::raw_stream::output_bytes(records, attach_id) == if records.contains(output) {
            output.record->Output_bytes.len()
        } else {
            0
        },
    decreases records.len(),
{
    if records.len() > 0 {
        let earlier = records.drop_last();
        assert forall|k: int| 0 <= k < earlier.len() implies ((
        #[trigger] earlier[k]).record matches crate::control::OutboundModel::Output {
            attach_id: id,
            ..
        } ==> id != attach_id || earlier[k] == output) by {
            assert(earlier[k] == records[k]);
        }
        lemma_output_bytes(earlier, attach_id, output);
        assert(records.last() == records[records.len() - 1]);
        if records.last() == output {
            if earlier.contains(output) {
                let k = choose|k: int| 0 <= k < earlier.len() && earlier[k] == output;
                assert(records[k] == records[records.len() - 1]);
            }
            assert(records.contains(output));
        } else {
            if records.contains(output) {
                let k = choose|k: int| 0 <= k < records.len() && records[k] == output;
                assert(earlier[k] == output);
            }
            if earlier.contains(output) {
                let k = choose|k: int| 0 <= k < earlier.len() && earlier[k] == output;
                assert(records[k] == output);
            }
        }
    }
}

/// What a read sends comes from one of the taps.
proof fn lemma_published_by(
    taps: Seq<crate::raw_stream::TapModel>,
    bytes: Seq<u8>,
    record: crate::raw_stream::SentModel,
) -> (i: int)
    requires
        taps.flat_map(|t: crate::raw_stream::TapModel| t.published(bytes).1).contains(record),
    ensures
        0 <= i < taps.len(),
        taps[i].published(bytes).1.contains(record),
    decreases taps.len(),
{
    let step = |t: crate::raw_stream::TapModel| t.published(bytes).1;
    if taps.len() == 0 {
        assert(taps.flat_map(step) =~= Seq::empty());
        0
    } else {
        let earlier = taps.drop_last();
        assert(taps =~= earlier.push(taps.last()));
        earlier.lemma_flat_map_push(step, taps.last());
        let k = choose|k: int|
            0 <= k < taps.flat_map(step).len() && taps.flat_map(step)[k] == record;
        let first = earlier.flat_map(step);
        if k < first.len() {
            assert(first[k] == record);
            lemma_published_by(earlier, bytes, record)
        } else {
            assert(step(taps.last())[k - first.len()] == record);
            taps.len() - 1
        }
    }
}

/// A read that could not be sent costs nothing: of the taps on a terminal, one
/// that sent the read has it counted in its budget, one whose output is among
/// the unsent records, or that sent none, has its budget as it was. Nothing but
/// budgets depends on what could be sent.
pub proof fn unsent_output_costs_nothing(
    registry: crate::raw_stream::RegistryModel,
    bytes: Seq<u8>,
    unsent: Seq<crate::raw_stream::SentModel>,
    i: int,
)
    requires
        bytes.len() > 0,
        registry.has_room(bytes.len()),
        forall|j: int, k: int|
            0 <= j < k < registry.taps.len() ==> (#[trigger] registry.taps[j]).attach_id != (
            #[trigger] registry.taps[k]).attach_id,
        drawn_from(unsent, registry.published(bytes).1),
        0 <= i < registry.taps.len(),
    ensures
        ({
            let tap = registry.taps[i];
            let after = registry.published(bytes).0;
            let output = tap.sends(
                crate::control::OutboundModel::Output {
                    attach_id: tap.attach_id,
                    seq: (tap.seq + 1) as u64,
                    bytes,
                },
            );
            let counted = tap.armed && tap.budget.takes(bytes.len()) && !unsent.contains(output);
            &&& after.settled(unsent).taps[i] == crate::raw_stream::TapModel {
                budget: RawTapBudget {
                    pending: (tap.budget.pending + if counted {
                        bytes.len()
                    } else {
                        0
                    }) as usize,
                    ..tap.budget
                },
                ..after.taps[i]
            }
            &&& after.settled(unsent) == crate::raw_stream::RegistryModel {
                taps: after.settled(unsent).taps,
                ..after
            }
        }),
{
    let tap = registry.taps[i];
    let (after, records) = registry.published(bytes);
    let output = tap.sends(
        crate::control::OutboundModel::Output {
            attach_id: tap.attach_id,
            seq: (tap.seq + 1) as u64,
            bytes,
        },
    );
    assert forall|k: int| 0 <= k < unsent.len() implies ((
    #[trigger] unsent[k]).record matches crate::control::OutboundModel::Output {
        attach_id: id,
        ..
    } ==> id != tap.attach_id || (unsent[k] == output && tap.armed && tap.budget.takes(
        bytes.len(),
    ))) by {
        assert(records.contains(unsent[k]));
        let j = lemma_published_by(registry.taps, bytes, unsent[k]);
        let from = registry.taps[j];
        let n = choose|n: int|
            0 <= n < from.published(bytes).1.len() && from.published(bytes).1[n] == unsent[k];
        assert(from.published(bytes).1[n] == unsent[k]);
        if j != i {
            assert(from.attach_id != tap.attach_id);
        }
    }
    lemma_output_bytes(unsent, tap.attach_id, output);
    if unsent.contains(output) {
        let k = choose|k: int| 0 <= k < unsent.len() && unsent[k] == output;
        assert(unsent[k].record is Output);
    }
    let wanted = |t: crate::raw_stream::TapModel| t.attach_id == tap.attach_id;
    crate::find::lemma_first_index(after.taps, wanted);
    assert(wanted(after.taps[i]));
    assert(after.tap_index(tap.attach_id) == Some(i));
    let left = after.taps[i].budget.pending - crate::raw_stream::output_bytes(
        unsent,
        tap.attach_id,
    );
    vstd::arithmetic::div_mod::lemma_small_mod(left as nat, (usize::MAX + 1) as nat);
}

/// A snapshot counts as sent exactly when its own record could be sent. Whether
/// the unfinished sequence behind it could be decides over that sequence's
/// budget alone.
pub proof fn a_snapshot_is_sent_when_its_record_is(
    registry: crate::raw_stream::RegistryModel,
    attach_id: Seq<char>,
    snapshot: TerminalSnapshot,
    unsent: Seq<crate::raw_stream::SentModel>,
)
    requires
        registry.tap_index(attach_id) is Some,
        registry.snapshot_has_room(attach_id),
        drawn_from(
            unsent,
            registry.snapshotted(registry.tap_index(attach_id)->0, Some(snapshot)).1,
        ),
    ensures
        ({
            let i = registry.tap_index(attach_id)->0;
            let tap = registry.taps[i];
            let (after, records) = registry.snapshotted(i, Some(snapshot));
            let pending = registry.pending_tail;
            let replay = tap.sends(
                crate::control::OutboundModel::Output {
                    attach_id,
                    seq: (tap.seq + 1) as u64,
                    bytes: pending,
                },
            );
            let counted = tap.budget.takes(pending.len()) && !unsent.contains(replay);
            &&& records[0] == tap.sends(
                crate::control::OutboundModel::Snapshot { attach_id, snapshot },
            )
            &&& crate::raw_stream::has_snapshot(unsent, attach_id) == unsent.contains(records[0])
            &&& after.settled(unsent).taps[i] == crate::raw_stream::TapModel {
                budget: RawTapBudget {
                    pending: (tap.budget.pending + if counted {
                        pending.len()
                    } else {
                        0
                    }) as usize,
                    ..tap.budget
                },
                ..after.taps[i]
            }
        }),
{
    let wanted = |t: crate::raw_stream::TapModel| t.attach_id == attach_id;
    crate::find::lemma_first_index(registry.taps, wanted);
    let i = registry.tap_index(attach_id)->0;
    let tap = registry.taps[i];
    assert(tap.attach_id == attach_id);
    let (after, records) = registry.snapshotted(i, Some(snapshot));
    let pending = registry.pending_tail;
    let replay = tap.sends(
        crate::control::OutboundModel::Output {
            attach_id,
            seq: (tap.seq + 1) as u64,
            bytes: pending,
        },
    );
    assert forall|n: int| 0 <= n < records.len() implies (((
    #[trigger] records[n]).record is Snapshot ==> n == 0) && (records[n].record is Output
        ==> records[n] == replay && pending.len() > 0 && tap.budget.takes(pending.len()))) by {}
    if crate::raw_stream::has_snapshot(unsent, attach_id) {
        let k = choose|k: int|
            0 <= k < unsent.len() && ((#[trigger] unsent[k]).record matches
                crate::control::OutboundModel::Snapshot { attach_id: id, snapshot } && id
                == attach_id);
        assert(records.contains(unsent[k]));
        let n = choose|n: int| 0 <= n < records.len() && records[n] == unsent[k];
        assert(records[n].record is Snapshot);
        assert(unsent.contains(records[0]));
    }
    if unsent.contains(records[0]) {
        let k = choose|k: int| 0 <= k < unsent.len() && unsent[k] == records[0];
        assert(unsent[k].record is Snapshot);
    }
    assert forall|k: int|
        0 <= k < unsent.len() && (#[trigger] unsent[k]).record is Output implies unsent[k]
        == replay && pending.len() > 0 && tap.budget.takes(pending.len()) by {
        assert(records.contains(unsent[k]));
        let n = choose|n: int| 0 <= n < records.len() && records[n] == unsent[k];
        assert(records[n] == unsent[k]);
    }
    lemma_output_bytes(unsent, attach_id, replay);
    if unsent.contains(replay) {
        let k = choose|k: int| 0 <= k < unsent.len() && unsent[k] == replay;
        assert(unsent[k].record is Output);
    }
    crate::find::lemma_first_index(after.taps, wanted);
    assert(wanted(after.taps[i]));
    assert forall|k: int| 0 <= k < i implies !wanted(#[trigger] after.taps[k]) by {
        assert(!wanted(registry.taps[k]));
    }
    assert(after.tap_index(attach_id) == Some(i));
    let left = after.taps[i].budget.pending - crate::raw_stream::output_bytes(unsent, attach_id);
    vstd::arithmetic::div_mod::lemma_small_mod(left as nat, (usize::MAX + 1) as nat);
}

/// The unfinished sequence carried across reads is that of the whole stream,
/// as long as it is no longer than the limit.
pub proof fn the_pending_tail_follows_the_stream(
    stream: Seq<u8>,
    pending: Seq<u8>,
    bytes: Seq<u8>,
)
    requires
        pending == crate::raw_tail::tail(stream),
        crate::raw_tail::tail(stream + bytes).len() <= MAX_PENDING_TAIL_BYTES,
    ensures
        crate::raw_stream::noted(pending, bytes) == crate::raw_tail::tail(stream + bytes),
{
    crate::raw_tail::the_tail_is_all_that_matters(stream, bytes);
}

/// A snapshot is followed by the unfinished sequence that the screen does not
/// show, numbered as output, and the tap is armed from there on.
pub proof fn a_snapshot_replays_the_pending_tail(
    tap: crate::raw_stream::TapModel,
    snapshot: TerminalSnapshot,
    pending: Seq<u8>,
)
    requires
        pending.len() > 0,
        tap.budget.takes(pending.len()),
        tap.seq < u64::MAX,
    ensures
        ({
            let (after, sent) = tap.snapshotted(Some(snapshot), pending);
            &&& after.armed
            &&& after.dropped == 0
            &&& sent.len() == 2
            &&& sent[0].record == crate::control::OutboundModel::Snapshot {
                attach_id: tap.attach_id,
                snapshot,
            }
            &&& sent[1].record == crate::control::OutboundModel::Output {
                attach_id: tap.attach_id,
                seq: (tap.seq + 1) as u64,
                bytes: pending,
            }
        }),
{
}

/// A stream of protocol 1 gets no authority record; a later one knows its
/// standing once an answering attach was picked, and is not told twice.
pub proof fn standings_are_told_once(
    tap: crate::raw_stream::TapModel,
    chosen: Option<Seq<char>>,
)
    ensures
        tap.protocol <= 1 ==> tap.informed(chosen) == (
            tap,
            Seq::<crate::raw_stream::SentModel>::empty(),
        ),
        tap.protocol >= 2 ==> tap.informed(chosen).0.told == Some(chosen == Some(tap.attach_id)),
        tap.informed(chosen).0.informed(chosen) == (
            tap.informed(chosen).0,
            Seq::<crate::raw_stream::SentModel>::empty(),
        ),
{
}

/// Suppression holds exactly while an armed tap's client answers queries: it
/// starts with the first snapshot and ends with the tap.
pub proof fn suppression_follows_the_armed_taps(
    registry: crate::raw_stream::RegistryModel,
    tap: crate::raw_stream::TapModel,
    bytes: Seq<u8>,
    i: int,
    captured: Option<TerminalSnapshot>,
    chosen: Option<Seq<char>>,
    attach_id: Seq<char>,
    len: usize,
    unsent: Seq<crate::raw_stream::SentModel>,
)
    requires
        registry.wf(),
        !tap.armed,
        0 <= i < registry.taps.len(),
    ensures
        crate::raw_stream::RegistryModel::fresh().wf(),
        registry.inserted(tap).wf(),
        registry.published(bytes).0.wf(),
        registry.snapshotted(i, captured).0.wf(),
        registry.removed(i).wf(),
        registry.informed(chosen).0.wf(),
        registry.released(attach_id, len).wf(),
        registry.settled(unsent).wf(),
{
    let inserted = registry.inserted(tap);
    lemma_same_suppression(registry, inserted);
    lemma_same_suppression(registry, registry.published(bytes).0);
    lemma_same_suppression(registry, registry.informed(chosen).0);
    crate::find::lemma_first_index(
        registry.taps,
        |t: crate::raw_stream::TapModel| t.attach_id == attach_id,
    );
    lemma_same_suppression(registry, registry.released(attach_id, len));
    lemma_same_suppression(registry, registry.settled(unsent));
    if captured is None {
        lemma_same_suppression(registry, registry.snapshotted(i, captured).0);
    } else {
        let after = registry.snapshotted(i, captured).0;
        lemma_same_any(
            crate::raw_stream::RegistryModel {
                taps: after.taps,
                ..registry
            },
            after,
        );
    }
    lemma_same_any(
        crate::raw_stream::RegistryModel { taps: registry.taps.remove(i), ..registry },
        registry.removed(i),
    );
}

/// Whether a tap suppresses depends on the taps alone.
proof fn lemma_same_any(
    left: crate::raw_stream::RegistryModel,
    right: crate::raw_stream::RegistryModel,
)
    requires
        left.taps == right.taps,
    ensures
        left.any_suppresses() == right.any_suppresses(),
{
    if left.any_suppresses() {
        let k = choose|k: int|
            0 <= k < left.taps.len() && (#[trigger] left.taps[k]).suppresses();
        assert(right.taps[k].suppresses());
    }
    if right.any_suppresses() {
        let k = choose|k: int|
            0 <= k < right.taps.len() && (#[trigger] right.taps[k]).suppresses();
        assert(left.taps[k].suppresses());
    }
}

/// A registry keeps its suppression when its taps suppress as they did and
/// taps that come later do not.
proof fn lemma_same_suppression(
    before: crate::raw_stream::RegistryModel,
    after: crate::raw_stream::RegistryModel,
)
    requires
        before.wf(),
        after.suppress_terminal_responses == before.suppress_terminal_responses,
        before.taps.len() <= after.taps.len(),
        forall|k: int|
            0 <= k < before.taps.len() ==> (#[trigger] after.taps[k]).suppresses()
                == before.taps[k].suppresses(),
        forall|k: int|
            before.taps.len() <= k < after.taps.len() ==> !(
            #[trigger] after.taps[k]).suppresses(),
    ensures
        after.wf(),
{
    if before.any_suppresses() {
        let k = choose|k: int|
            0 <= k < before.taps.len() && (#[trigger] before.taps[k]).suppresses();
        assert(after.taps[k].suppresses());
    }
    if after.any_suppresses() {
        let k = choose|k: int|
            0 <= k < after.taps.len() && (#[trigger] after.taps[k]).suppresses();
        assert(before.taps[k].suppresses());
    }
}

/// A registry that is cleared tells the stream of every tap once, armed or
/// not, and has no taps and no suppression left; clearing it again tells nobody
/// anything.
pub proof fn clearing_tells_every_stream_once(
    registry: crate::raw_stream::RegistryModel,
    reason: TerminalDetachReason,
    again: TerminalDetachReason,
)
    ensures
        ({
            let (after, sent) = registry.cleared(reason);
            &&& sent.len() == registry.taps.len()
            &&& forall|i: int|
                0 <= i < sent.len() ==> (#[trigger] sent[i]) == registry.taps[i].sends(
                    crate::control::OutboundModel::Detached {
                        attach_id: registry.taps[i].attach_id,
                        reason,
                    },
                )
            &&& after.taps.len() == 0
            &&& !after.suppress_terminal_responses
            &&& after.cleared(again) == (after, Seq::<crate::raw_stream::SentModel>::empty())
        }),
{
    let (after, _) = registry.cleared(reason);
    assert(after.cleared(again).1 =~= Seq::empty());
}

/// Removing a tap leaves the others as they are, in their order.
pub proof fn removing_a_tap_leaves_the_others(
    registry: crate::raw_stream::RegistryModel,
    i: int,
    k: int,
)
    requires
        0 <= i < registry.taps.len(),
        0 <= k < registry.removed(i).taps.len(),
    ensures
        registry.removed(i).taps[k] == registry.taps[if k < i {
            k
        } else {
            k + 1
        }],
{
}

} // verus!
