//! Raw PTY output taps for control-stream attaches.
//!
//! A tap forwards every PTY read to one control connection. Taps are
//! published under the pane's content write lock, so a snapshot taken under
//! the same lock is exactly ordered against the output that follows it.

use vstd::prelude::*;

use crate::control::ControlOutbound;
use crate::outside::{bytes_slice, copied_bytes};
use crate::raw_tail::short_tail;
use crate::schema::{TerminalDetachReason, TerminalSnapshot};
use crate::text::same_text;

verus! {

/// Bytes a single tap may have queued but not yet written to its socket.
pub const DEFAULT_TAP_BUDGET_BYTES: usize = 0x40_0000;

/// Longest unfinished sequence carried across reads for snapshots; a
/// larger one (a graphics payload mid-flight) is abandoned instead.
pub const MAX_PENDING_TAIL_BYTES: usize = 0x4_0000;

/// Byte accounting between a tap, which queues, and its stream's writer.
#[derive(Debug, Clone, Copy, PartialEq, Eq, Structural)]
pub struct RawTapBudget {
    /// Bytes queued and not yet written.
    pub pending: usize,
    /// Bytes that may be queued at most.
    pub limit: usize,
}

impl RawTapBudget {
    /// A budget of which nothing is used.
    pub fn new(limit: usize) -> (budget: Self)
        ensures
            budget == (RawTapBudget { pending: 0, limit }),
    {
        RawTapBudget { pending: 0, limit }
    }

    /// Whether `len` more bytes stay within the limit.
    pub open spec fn takes(self, len: nat) -> bool {
        self.pending + len <= self.limit
    }

    /// Takes `len` bytes of the budget, if they are left.
    pub fn reserve(&mut self, len: usize) -> (reserved: bool)
        ensures
            reserved == old(self).takes(len as nat),
            *final(self) == (if reserved {
                RawTapBudget { pending: (old(self).pending + len) as usize, ..*old(self) }
            } else {
                *old(self)
            }),
    {
        if len > self.limit || self.pending > self.limit - len {
            return false;
        }
        self.pending = self.pending + len;
        true
    }

    /// Gives `len` bytes back that were written.
    pub fn release(&mut self, len: usize)
        ensures
            *final(self) == (RawTapBudget {
                pending: old(self).pending.wrapping_sub(len),
                ..*old(self)
            }),
    {
        self.pending = self.pending.wrapping_sub(len);
    }
}

/// A record on its way to the writer of one connection.
#[derive(Debug)]
pub struct Sent {
    pub connection_id: u64,
    pub record: ControlOutbound,
}

/// A record on its way, as contracts see it.
#[verifier::ext_equal]
pub struct SentModel {
    pub connection_id: u64,
    pub record: crate::control::OutboundModel,
}

impl View for Sent {
    type V = SentModel;

    open spec fn view(&self) -> SentModel {
        SentModel { connection_id: self.connection_id, record: self.record@ }
    }
}

/// The records of a list.
pub open spec fn sent_views(sent: Seq<Sent>) -> Seq<SentModel> {
    Seq::new(sent.len(), |i: int| sent[i]@)
}

/// One attach's tap on a terminal's output.
#[derive(Debug)]
struct RawTap {
    attach_id: String,
    connection_id: u64,
    budget: RawTapBudget,
    seq: u64,
    /// Bytes dropped since the last gap record; zero when not in a gap.
    dropped: u64,
    /// False until the first snapshot went out: output before it would name
    /// an attach the client has not been told about, and the snapshot taken
    /// under the same lock covers those bytes anyway.
    armed: bool,
    /// The client answers terminal queries once this tap is armed.
    suppress_responses: bool,
    protocol: u32,
    /// What the stream was last told about answering queries.
    told: Option<bool>,
}

/// A tap, as contracts see it.
#[verifier::ext_equal]
pub struct TapModel {
    pub attach_id: Seq<char>,
    pub connection_id: u64,
    pub budget: RawTapBudget,
    pub seq: u64,
    pub dropped: u64,
    pub armed: bool,
    pub suppress_responses: bool,
    pub protocol: u32,
    pub told: Option<bool>,
}

impl View for RawTap {
    type V = TapModel;

    closed spec fn view(&self) -> TapModel {
        TapModel {
            attach_id: self.attach_id@,
            connection_id: self.connection_id,
            budget: self.budget,
            seq: self.seq,
            dropped: self.dropped,
            armed: self.armed,
            suppress_responses: self.suppress_responses,
            protocol: self.protocol,
            told: self.told,
        }
    }
}

impl TapModel {
    /// A tap as it starts: silent until its first snapshot, its output
    /// numbered from one.
    pub open spec fn fresh(
        attach_id: Seq<char>,
        connection_id: u64,
        budget: RawTapBudget,
        suppress_responses: bool,
        protocol: u32,
    ) -> TapModel {
        TapModel {
            attach_id,
            connection_id,
            budget,
            seq: 0,
            dropped: 0,
            armed: false,
            suppress_responses,
            protocol,
            told: None,
        }
    }

    /// The counter that one more read of that length moves has room: the next
    /// number for a read within the budget, the bytes dropped for one beyond.
    pub open spec fn has_room(self, len: nat) -> bool {
        self.armed ==> if self.budget.takes(len) {
            self.seq < u64::MAX
        } else {
            self.dropped + len <= u64::MAX
        }
    }

    /// The counters have room for a read of that length right after a
    /// snapshot, which arms the tap and catches up on what was dropped.
    pub open spec fn replays(self, len: nat) -> bool {
        TapModel { armed: true, dropped: 0, ..self }.has_room(len)
    }

    /// A record on its way to the tap's connection.
    pub open spec fn sends(self, record: crate::control::OutboundModel) -> SentModel {
        SentModel { connection_id: self.connection_id, record }
    }

    /// The record that tells how much was dropped.
    pub open spec fn gap(self) -> SentModel {
        self.sends(
            crate::control::OutboundModel::Gap {
                attach_id: self.attach_id,
                seq: self.seq,
                dropped_bytes: self.dropped,
            },
        )
    }

    /// The tap and what it sends once a read came in: nothing before it is
    /// armed; within the budget the read, numbered, and ahead of it what was
    /// dropped since the last report; beyond the budget one report for the
    /// first read dropped.
    pub open spec fn published(self, bytes: Seq<u8>) -> (TapModel, Seq<SentModel>) {
        if !self.armed {
            (self, Seq::empty())
        } else if self.budget.takes(bytes.len()) {
            let after = TapModel {
                budget: RawTapBudget {
                    pending: (self.budget.pending + bytes.len()) as usize,
                    ..self.budget
                },
                seq: (self.seq + 1) as u64,
                dropped: 0,
                ..self
            };
            let output = self.sends(
                crate::control::OutboundModel::Output {
                    attach_id: self.attach_id,
                    seq: after.seq,
                    bytes,
                },
            );
            (
                after,
                if self.dropped > 0 {
                    seq![self.gap(), output]
                } else {
                    seq![output]
                },
            )
        } else {
            let after = TapModel { dropped: (self.dropped + bytes.len()) as u64, ..self };
            (
                after,
                if self.dropped == 0 {
                    seq![after.gap()]
                } else {
                    Seq::empty()
                },
            )
        }
    }

    /// The tap and what it sends once its stream asked for a snapshot, given
    /// what could be captured and the unfinished sequence the screen does not
    /// show: the snapshot, then that sequence, so the read that completes it
    /// parses whole.
    pub open spec fn snapshotted(
        self,
        captured: Option<TerminalSnapshot>,
        pending: Seq<u8>,
    ) -> (TapModel, Seq<SentModel>) {
        let caught_up = TapModel { dropped: 0, ..self };
        match captured {
            Some(snapshot) => {
                let armed = TapModel { armed: true, ..caught_up };
                let first = seq![
                    self.sends(
                        crate::control::OutboundModel::Snapshot {
                            attach_id: self.attach_id,
                            snapshot,
                        },
                    ),
                ];
                if pending.len() > 0 {
                    let (after, replay) = armed.published(pending);
                    (after, first + replay)
                } else {
                    (armed, first)
                }
            },
            None => (caught_up, Seq::empty()),
        }
    }

    /// The record that tells an attach why it ended.
    pub open spec fn detached(self, reason: TerminalDetachReason) -> SentModel {
        self.sends(
            crate::control::OutboundModel::Detached { attach_id: self.attach_id, reason },
        )
    }

    /// The tap and what it sends once the answering attach was picked: a
    /// stream of protocol 2 or later learns its standing when it changed.
    pub open spec fn informed(self, chosen: Option<Seq<char>>) -> (TapModel, Seq<SentModel>) {
        let answers_queries = chosen == Some(self.attach_id);
        if self.protocol >= 2 && self.told != Some(answers_queries) {
            (
                TapModel { told: Some(answers_queries), ..self },
                seq![
                    self.sends(
                        crate::control::OutboundModel::Authority {
                            attach_id: self.attach_id,
                            answers_queries,
                        },
                    ),
                ],
            )
        } else {
            (self, Seq::empty())
        }
    }

    /// Whether the tap keeps the terminal from answering queries itself.
    pub open spec fn suppresses(self) -> bool {
        self.armed && self.suppress_responses
    }
}

impl RawTap {
    fn publish(&mut self, bytes: &[u8], out: &mut Vec<Sent>)
        requires
            old(self)@.has_room(bytes@.len()),
        ensures
            final(self)@ == old(self)@.published(bytes@).0,
            sent_views(final(out)@) == sent_views(old(out)@) + old(self)@.published(bytes@).1,
    {
        let ghost before = sent_views(out@);
        if !self.armed {
            assert(before + Seq::empty() =~= before);
            return ;
        }
        let ghost sends = self@.published(bytes@).1;
        if !self.budget.reserve(bytes.len()) {
            let first_drop = self.dropped == 0;
            self.dropped = self.dropped + bytes.len() as u64;
            if first_drop {
                self.send_gap(out);
            }
            assert(sent_views(out@) =~= before + sends);
            return ;
        }
        if self.dropped > 0 {
            self.send_gap(out);
            self.dropped = 0;
        }
        self.seq = self.seq + 1;
        self.send(
            ControlOutbound::Output {
                attach_id: self.attach_id.clone(),
                seq: self.seq,
                bytes: copied_bytes(bytes),
            },
            out,
        );
        assert(sent_views(out@) =~= before + sends);
    }

    fn send(&self, record: ControlOutbound, out: &mut Vec<Sent>)
        ensures
            sent_views(final(out)@) == sent_views(old(out)@).push(self@.sends(record@)),
    {
        out.push(Sent { connection_id: self.connection_id, record });
        assert(sent_views(out@) =~= sent_views(old(out)@).push(self@.sends(record@)));
    }

    fn send_gap(&self, out: &mut Vec<Sent>)
        ensures
            sent_views(final(out)@) == sent_views(old(out)@).push(self@.gap()),
    {
        self.send(
            ControlOutbound::Gap {
                attach_id: self.attach_id.clone(),
                seq: self.seq,
                dropped_bytes: self.dropped,
            },
            out,
        );
    }

    fn send_snapshot(&self, snapshot: TerminalSnapshot, out: &mut Vec<Sent>)
        ensures
            sent_views(final(out)@) == sent_views(old(out)@).push(
                self@.sends(
                    crate::control::OutboundModel::Snapshot {
                        attach_id: self@.attach_id,
                        snapshot,
                    },
                ),
            ),
    {
        self.send(
            ControlOutbound::Snapshot {
                attach_id: self.attach_id.clone(),
                snapshot: Box::new(snapshot),
            },
            out,
        );
    }

    fn send_detached(&self, reason: TerminalDetachReason, out: &mut Vec<Sent>)
        ensures
            sent_views(final(out)@) == sent_views(old(out)@).push(self@.detached(reason)),
    {
        self.send(
            ControlOutbound::Detached { attach_id: self.attach_id.clone(), reason },
            out,
        );
    }

    /// Tells the stream whether this attach answers queries, if it has to know
    /// and does not.
    fn inform(&mut self, chosen: &Option<String>, out: &mut Vec<Sent>)
        ensures
            final(self)@ == old(self)@.informed(crate::text::optional_text(*chosen)).0,
            sent_views(final(out)@) == sent_views(old(out)@) + old(self)@.informed(
                crate::text::optional_text(*chosen),
            ).1,
    {
        let ghost before = sent_views(out@);
        let ghost sends = self@.informed(crate::text::optional_text(*chosen)).1;
        let answers_queries = match chosen {
            Some(chosen) => same_text(chosen.as_str(), self.attach_id.as_str()),
            None => false,
        };
        let known = match self.told {
            Some(told) => told == answers_queries,
            None => false,
        };
        if self.protocol >= 2 && !known {
            self.told = Some(answers_queries);
            self.send(
                ControlOutbound::Authority { attach_id: self.attach_id.clone(), answers_queries },
                out,
            );
        }
        assert(sent_views(out@) =~= before + sends);
    }
}

/// Whether the counters of an armed tap have room for a read of that length.
fn counters_have_room(budget: &RawTapBudget, seq: u64, dropped: u64, len: usize) -> (room: bool)
    ensures
        room == (if budget.takes(len as nat) {
            seq < u64::MAX
        } else {
            dropped + len <= u64::MAX
        }),
{
    if len <= budget.limit && budget.pending <= budget.limit - len {
        seq < u64::MAX
    } else {
        dropped <= u64::MAX - len as u64
    }
}

/// The taps on one terminal.
#[derive(Debug)]
pub struct RawTapRegistry {
    taps: Vec<RawTap>,
    /// Set while an attach with client query authority owns the terminal.
    suppress_terminal_responses: bool,
    /// Bytes of an escape or UTF-8 sequence the last read ended inside.
    /// The parser holds them; screen state cannot, so a snapshot replays
    /// them ahead of the read that completes the sequence.
    pending_tail: Vec<u8>,
    /// The attach that answers the terminal's queries.
    query_authority: Option<String>,
}

/// The taps on one terminal, as contracts see them.
#[verifier::ext_equal]
pub struct RegistryModel {
    pub taps: Seq<TapModel>,
    pub suppress_terminal_responses: bool,
    pub pending_tail: Seq<u8>,
    pub query_authority: Option<Seq<char>>,
}

spec fn tap_views(taps: Seq<RawTap>) -> Seq<TapModel> {
    Seq::new(taps.len(), |i: int| taps[i]@)
}

impl View for RawTapRegistry {
    type V = RegistryModel;

    closed spec fn view(&self) -> RegistryModel {
        RegistryModel {
            taps: tap_views(self.taps@),
            suppress_terminal_responses: self.suppress_terminal_responses,
            pending_tail: self.pending_tail@,
            query_authority: crate::text::optional_text(self.query_authority),
        }
    }
}

/// The bytes of an attach's output among records.
pub open spec fn output_bytes(records: Seq<SentModel>, attach_id: Seq<char>) -> nat
    decreases records.len(),
{
    if records.len() == 0 {
        0
    } else {
        output_bytes(records.drop_last(), attach_id) + match records.last().record {
            crate::control::OutboundModel::Output { attach_id: id, seq, bytes } => if id
                == attach_id {
                bytes.len()
            } else {
                0
            },
            _ => 0,
        }
    }
}

/// Whether an attach's snapshot is among records.
pub open spec fn has_snapshot(records: Seq<SentModel>, attach_id: Seq<char>) -> bool {
    exists|k: int|
        0 <= k < records.len() && ((#[trigger] records[k]).record matches
            crate::control::OutboundModel::Snapshot { attach_id: id, snapshot } && id
            == attach_id)
}

/// The unfinished sequence carried on once a read came in.
pub open spec fn noted(pending: Seq<u8>, bytes: Seq<u8>) -> Seq<u8> {
    let tail = crate::raw_tail::tail(pending + bytes);
    if tail.len() <= MAX_PENDING_TAIL_BYTES {
        tail
    } else {
        Seq::empty()
    }
}

impl RegistryModel {
    /// A terminal without taps.
    pub open spec fn fresh() -> RegistryModel {
        RegistryModel {
            taps: Seq::empty(),
            suppress_terminal_responses: false,
            pending_tail: Seq::empty(),
            query_authority: None,
        }
    }

    /// The first tap of an attach.
    pub open spec fn tap_index(self, attach_id: Seq<char>) -> Option<int> {
        crate::find::first_index(self.taps, |t: TapModel| t.attach_id == attach_id)
    }

    /// Whether a tap keeps the terminal from answering queries itself.
    pub open spec fn any_suppresses(self) -> bool {
        exists|i: int| 0 <= i < self.taps.len() && (#[trigger] self.taps[i]).suppresses()
    }

    /// The registry with suppression as the taps have it.
    pub open spec fn synced(self) -> RegistryModel {
        RegistryModel { suppress_terminal_responses: self.any_suppresses(), ..self }
    }

    /// Whether the terminal leaves queries alone exactly while an armed tap's
    /// client answers them.
    pub open spec fn wf(self) -> bool {
        self.suppress_terminal_responses == self.any_suppresses()
    }

    /// The counters have room for one more read of that length.
    pub open spec fn has_room(self, len: nat) -> bool {
        len > 0 ==> forall|i: int|
            0 <= i < self.taps.len() ==> (#[trigger] self.taps[i]).has_room(len)
    }

    /// The counters of an attach's tap have room for the unfinished sequence
    /// that a snapshot replays.
    pub open spec fn snapshot_has_room(self, attach_id: Seq<char>) -> bool {
        self.pending_tail.len() > 0 ==> (self.tap_index(attach_id) matches Some(i)
            ==> self.taps[i].replays(self.pending_tail.len()))
    }

    /// The registry with one more tap.
    pub open spec fn inserted(self, tap: TapModel) -> RegistryModel {
        RegistryModel { taps: self.taps.push(tap), ..self }
    }

    /// The registry and what is sent once a read came in.
    pub open spec fn published(self, bytes: Seq<u8>) -> (RegistryModel, Seq<SentModel>) {
        if bytes.len() == 0 {
            (self, Seq::empty())
        } else {
            (
                RegistryModel {
                    taps: self.taps.map_values(|t: TapModel| t.published(bytes).0),
                    ..self
                },
                self.taps.flat_map(|t: TapModel| t.published(bytes).1),
            )
        }
    }

    /// The registry and what is sent once the answering attach was picked.
    pub open spec fn informed(
        self,
        chosen: Option<Seq<char>>,
    ) -> (RegistryModel, Seq<SentModel>) {
        (
            RegistryModel {
                taps: self.taps.map_values(|t: TapModel| t.informed(chosen).0),
                query_authority: chosen,
                ..self
            },
            self.taps.flat_map(|t: TapModel| t.informed(chosen).1),
        )
    }

    /// The registry once the tap at `i` was asked for a snapshot.
    pub open spec fn snapshotted(
        self,
        i: int,
        captured: Option<TerminalSnapshot>,
    ) -> (RegistryModel, Seq<SentModel>) {
        let (tap, sends) = self.taps[i].snapshotted(captured, self.pending_tail);
        let with = RegistryModel { taps: self.taps.update(i, tap), ..self };
        (
            if captured is Some {
                with.synced()
            } else {
                with
            },
            sends,
        )
    }

    /// The registry without the tap at `i`.
    pub open spec fn removed(self, i: int) -> RegistryModel {
        RegistryModel { taps: self.taps.remove(i), ..self }.synced()
    }

    /// The registry without taps, and what their streams are told.
    pub open spec fn cleared(self, reason: TerminalDetachReason) -> (
        RegistryModel,
        Seq<SentModel>,
    ) {
        (
            RegistryModel {
                taps: Seq::empty(),
                suppress_terminal_responses: false,
                ..self
            },
            self.taps.map_values(|t: TapModel| t.detached(reason)),
        )
    }

    /// The registry once records could not be sent: the tap of an attach gets
    /// the bytes of its output among them back (modulo the size of the
    /// counter), and everything else stays.
    pub open spec fn settled(self, unsent: Seq<SentModel>) -> RegistryModel {
        RegistryModel {
            taps: Seq::new(
                self.taps.len(),
                |i: int|
                    {
                        let tap = self.taps[i];
                        if self.tap_index(tap.attach_id) == Some(i) {
                            let left = tap.budget.pending - output_bytes(unsent, tap.attach_id);
                            let budget = RawTapBudget {
                                pending: (left % (usize::MAX + 1)) as usize,
                                ..tap.budget
                            };
                            TapModel { budget, ..tap }
                        } else {
                            tap
                        }
                    },
            ),
            ..self
        }
    }

    /// The registry once `len` bytes of an attach's output were written.
    pub open spec fn released(self, attach_id: Seq<char>, len: usize) -> RegistryModel {
        match self.tap_index(attach_id) {
            Some(i) => {
                let tap = self.taps[i];
                let budget = RawTapBudget {
                    pending: tap.budget.pending.wrapping_sub(len),
                    ..tap.budget
                };
                RegistryModel { taps: self.taps.update(i, TapModel { budget, ..tap }), ..self }
            },
            None => self,
        }
    }
}

/// Settling leaves every attach's tap where it was.
proof fn lemma_settled_index(
    registry: RegistryModel,
    unsent: Seq<SentModel>,
    attach_id: Seq<char>,
)
    ensures
        registry.settled(unsent).tap_index(attach_id) == registry.tap_index(attach_id),
{
    let wanted = |t: TapModel| t.attach_id == attach_id;
    let after = registry.settled(unsent);
    crate::find::lemma_first_index(registry.taps, wanted);
    crate::find::lemma_first_index(after.taps, wanted);
    assert(forall|k: int|
        0 <= k < registry.taps.len() ==> wanted(#[trigger] after.taps[k]) == wanted(
            registry.taps[k],
        ));
    match (registry.tap_index(attach_id), after.tap_index(attach_id)) {
        (Some(i), Some(j)) => {
            assert(wanted(after.taps[i]));
            assert(wanted(registry.taps[j]));
        },
        (Some(i), None) => {
            assert(wanted(after.taps[i]));
        },
        (None, Some(j)) => {
            assert(wanted(registry.taps[j]));
        },
        (None, None) => {},
    }
}

/// With nothing unsent, nothing changes.
proof fn lemma_settled_nothing(registry: RegistryModel)
    ensures
        registry.settled(Seq::empty()) == registry,
{
    assert forall|i: int| 0 <= i < registry.taps.len() implies registry.settled(
        Seq::empty(),
    ).taps[i] == #[trigger] registry.taps[i] by {
        let pending = registry.taps[i].budget.pending as int;
        vstd::arithmetic::div_mod::lemma_small_mod(pending as nat, (usize::MAX + 1) as nat);
    }
    assert(registry.settled(Seq::empty()).taps =~= registry.taps);
}

/// A record that is no output changes nothing.
proof fn lemma_settled_other(registry: RegistryModel, earlier: Seq<SentModel>, record: SentModel)
    requires
        !(record.record is Output),
    ensures
        registry.settled(earlier.push(record)) == registry.settled(earlier),
{
    assert(earlier.push(record).drop_last() =~= earlier);
    assert forall|i: int| 0 <= i < registry.taps.len() implies registry.settled(
        earlier.push(record),
    ).taps[i] == #[trigger] registry.settled(earlier).taps[i] by {
        let attach_id = registry.taps[i].attach_id;
        assert(output_bytes(earlier.push(record), attach_id) == output_bytes(earlier, attach_id));
    }
    assert(registry.settled(earlier.push(record)).taps =~= registry.settled(earlier).taps);
}

/// Taking from a wrapped counter twice takes the sum.
proof fn lemma_wrapped_twice(pending: usize, taken: nat, len: usize)
    ensures
        (((pending - taken) % (usize::MAX + 1)) as usize).wrapping_sub(len) == (pending - (taken
            + len)) % (usize::MAX + 1),
{
    let size = usize::MAX + 1;
    let once = (pending - taken) % size;
    let rest = if once >= len {
        once - len
    } else {
        once - len + size
    };
    vstd::arithmetic::div_mod::lemma_fundamental_div_mod(pending - taken, size);
    let q = (pending - taken) / size;
    let r = if once >= len {
        q
    } else {
        q - 1
    };
    assert(size * q == q * size) by (nonlinear_arith);
    assert((q - 1) * size == q * size - size) by (nonlinear_arith);
    assert(pending - (taken + len) == r * size + rest);
    vstd::arithmetic::div_mod::lemma_fundamental_div_mod_converse(
        pending - (taken + len),
        size,
        r,
        rest,
    );
}

/// One more output unsent gives its bytes back to the tap of its attach.
proof fn lemma_settled_output(
    registry: RegistryModel,
    earlier: Seq<SentModel>,
    record: SentModel,
    attach_id: Seq<char>,
    len: usize,
)
    requires
        record.record matches crate::control::OutboundModel::Output { attach_id: id, seq, bytes }
            && id == attach_id && bytes.len() == len,
    ensures
        registry.settled(earlier.push(record)) == registry.settled(earlier).released(
            attach_id,
            len,
        ),
{
    let all = earlier.push(record);
    let before = registry.settled(earlier);
    let after = registry.settled(all);
    let released = before.released(attach_id, len);
    assert(all.drop_last() =~= earlier);
    lemma_settled_index(registry, earlier, attach_id);
    crate::find::lemma_first_index(registry.taps, |t: TapModel| t.attach_id == attach_id);
    assert forall|i: int| 0 <= i < registry.taps.len() implies after.taps[i]
        == #[trigger] released.taps[i] by {
        let tap = registry.taps[i];
        if registry.tap_index(attach_id) == Some(i) {
            assert(tap.attach_id == attach_id);
            lemma_wrapped_twice(tap.budget.pending, output_bytes(earlier, attach_id), len);
        } else if registry.tap_index(tap.attach_id) == Some(i) {
            assert(tap.attach_id != attach_id);
        }
    }
    assert(after.taps =~= released.taps);
}

impl Default for RawTapRegistry {
    fn default() -> (registry: Self)
        ensures
            registry@ == RegistryModel::fresh(),
    {
        let registry = RawTapRegistry {
            taps: Vec::new(),
            suppress_terminal_responses: false,
            pending_tail: Vec::new(),
            query_authority: None,
        };
        assert(registry@.taps =~= Seq::empty());
        registry
    }
}

impl RawTapRegistry {
    /// Whether the terminal has taps.
    pub fn has_taps(&self) -> (has: bool)
        ensures
            has == (self@.taps.len() > 0),
    {
        self.taps.len() > 0
    }

    /// Whether the counters have room for one more read of that length.
    pub fn has_room(&self, len: usize) -> (room: bool)
        ensures
            room == self@.has_room(len as nat),
    {
        if len == 0 {
            return true;
        }
        let mut i: usize = 0;
        while i < self.taps.len()
            invariant
                0 <= i <= self.taps.len(),
                len > 0,
                forall|k: int| 0 <= k < i ==> (#[trigger] self@.taps[k]).has_room(len as nat),
            decreases self.taps.len() - i,
        {
            assert(self@.taps[i as int] == self.taps@[i as int]@);
            let tap = &self.taps[i];
            if tap.armed && !counters_have_room(&tap.budget, tap.seq, tap.dropped, len) {
                assert(!self@.taps[i as int].has_room(len as nat));
                return false;
            }
            i += 1;
        }
        true
    }

    /// Whether the counters of an attach's tap have room for the unfinished
    /// sequence that a snapshot replays.
    pub fn snapshot_has_room(&self, attach_id: &str) -> (room: bool)
        ensures
            room == self@.snapshot_has_room(attach_id@),
    {
        if self.pending_tail.len() == 0 {
            return true;
        }
        match self.tap_index(attach_id) {
            Some(i) => {
                let tap = &self.taps[i];
                assert(self@.taps[i as int] == tap@);
                counters_have_room(&tap.budget, tap.seq, 0, self.pending_tail.len())
            },
            None => true,
        }
    }

    /// Tracks where the parser stands after a PTY read. Called with the
    /// content write lock held, for every read, taps or not.
    pub fn note_read(&mut self, bytes: &[u8])
        ensures
            final(self)@ == (RegistryModel {
                pending_tail: noted(old(self)@.pending_tail, bytes@),
                ..old(self)@
            }),
    {
        if self.pending_tail.len() == 0 {
            assert(self.pending_tail@ + bytes@ =~= bytes@);
            self.pending_tail = short_tail(bytes, MAX_PENDING_TAIL_BYTES);
            return ;
        }
        self.pending_tail.extend_from_slice(bytes);
        assert(self.pending_tail@ =~= old(self).pending_tail@ + bytes@);
        let carried = short_tail(self.pending_tail.as_slice(), MAX_PENDING_TAIL_BYTES);
        self.pending_tail = carried;
    }

    /// The unfinished sequence that the last read ended inside.
    pub fn pending_tail(&self) -> (pending: &Vec<u8>)
        ensures
            pending@ == self@.pending_tail,
    {
        &self.pending_tail
    }

    /// Whether the terminal leaves its queries to a client.
    pub fn suppress_terminal_responses(&self) -> (suppress: bool)
        ensures
            suppress == self@.suppress_terminal_responses,
    {
        self.suppress_terminal_responses
    }

    /// The attach that answers the terminal's queries.
    pub fn query_authority(&self) -> (attach_id: &Option<String>)
        ensures
            crate::text::optional_text(*attach_id) == self@.query_authority,
    {
        &self.query_authority
    }

    /// Forwards one PTY read to every tap. Called with the content write lock
    /// held; `settle` follows once the records were sent.
    pub fn publish(&mut self, bytes: &[u8], out: &mut Vec<Sent>)
        requires
            old(self)@.has_room(bytes@.len()),
        ensures
            final(self)@ == old(self)@.published(bytes@).0,
            sent_views(final(out)@) == sent_views(old(out)@) + old(self)@.published(bytes@).1,
    {
        let ghost before = sent_views(out@);
        if bytes.len() == 0 {
            assert(before + Seq::empty() =~= before);
            return ;
        }
        let ghost taps = self@.taps;
        let ghost step = |t: TapModel| t.published(bytes@).1;
        let mut i: usize = 0;
        assert(before + taps.take(0).flat_map(step) =~= before);
        while i < self.taps.len()
            invariant
                0 <= i <= self.taps.len(),
                self.taps@.len() == taps.len(),
                taps == old(self)@.taps,
                bytes@.len() > 0,
                old(self)@.has_room(bytes@.len()),
                step == (|t: TapModel| t.published(bytes@).1),
                self@ == (RegistryModel { taps: self@.taps, ..old(self)@ }),
                forall|k: int| 0 <= k < i ==> #[trigger] self@.taps[k] == taps[k].published(bytes@).0,
                forall|k: int| i <= k < taps.len() ==> #[trigger] self@.taps[k] == taps[k],
                sent_views(out@) == before + taps.take(i as int).flat_map(step),
            decreases self.taps.len() - i,
        {
            let ghost sofar = self@.taps;
            let ghost sent = sent_views(out@);
            proof {
                assert(self@.taps[i as int] == taps[i as int]);
                assert(taps[i as int].has_room(bytes@.len()));
                taps.lemma_flat_map_take_append(step, i as int);
            }
            self.taps[i].publish(bytes, out);
            proof {
                assert(self@.taps =~= sofar.update(i as int, taps[i as int].published(bytes@).0));
                assert(sent + step(taps[i as int]) =~= before + (taps.take(i as int).flat_map(step)
                    + step(taps[i as int])));
            }
            i += 1;
        }
        proof {
            assert(taps.take(taps.len() as int) =~= taps);
            assert(self@.taps =~= taps.map_values(|t: TapModel| t.published(bytes@).0));
        }
    }

    /// Registers a tap of a stream that predates authority records. Output
    /// numbering starts at one; the first snapshot is requested separately so
    /// the attach response can precede it. Called with the content write lock
    /// held.
    pub fn insert(
        &mut self,
        attach_id: String,
        connection_id: u64,
        budget: RawTapBudget,
        suppress_responses: bool,
    )
        ensures
            final(self)@ == old(self)@.inserted(
                TapModel::fresh(attach_id@, connection_id, budget, suppress_responses, 1),
            ),
    {
        self.attach_raw(attach_id, connection_id, budget, suppress_responses, 1);
    }

    /// Registers a tap.
    pub fn attach_raw(
        &mut self,
        attach_id: String,
        connection_id: u64,
        budget: RawTapBudget,
        suppress_responses: bool,
        protocol: u32,
    )
        ensures
            final(self)@ == old(self)@.inserted(
                TapModel::fresh(attach_id@, connection_id, budget, suppress_responses, protocol),
            ),
    {
        let tap = RawTap {
            attach_id,
            connection_id,
            budget,
            seq: 0,
            dropped: 0,
            armed: false,
            suppress_responses,
            protocol,
            told: None,
        };
        self.taps.push(tap);
        assert(self@.taps =~= old(self)@.taps.push(tap@));
    }

    /// The position of the first tap of an attach.
    fn tap_index(&self, attach_id: &str) -> (index: Option<usize>)
        ensures
            match index {
                Some(i) => self@.tap_index(attach_id@) == Some(i as int) && i < self.taps@.len(),
                None => self@.tap_index(attach_id@) is None,
            },
    {
        let ghost wanted = |t: TapModel| t.attach_id == attach_id@;
        let mut i: usize = 0;
        while i < self.taps.len()
            invariant
                0 <= i <= self.taps.len(),
                wanted == (|t: TapModel| t.attach_id == attach_id@),
                forall|k: int| 0 <= k < i ==> !wanted(#[trigger] self@.taps[k]),
            decreases self.taps.len() - i,
        {
            assert(self@.taps[i as int] == self.taps@[i as int]@);
            if same_text(self.taps[i].attach_id.as_str(), attach_id) {
                proof {
                    crate::find::lemma_first_index(self@.taps, wanted);
                    assert(wanted(self@.taps[i as int]));
                }
                return Some(i);
            }
            i += 1;
        }
        proof {
            crate::find::lemma_first_index(self@.taps, wanted);
        }
        None
    }

    /// Emits a fresh snapshot on one tap, stamped with its current sequence
    /// by `snapshot`, and tells whether one was captured. The first snapshot
    /// arms the tap and, with it, query suppression: a query the client never
    /// sees must still be answered here. Called with the content write lock
    /// held; `settle_snapshot` follows once the records were sent.
    pub fn send_snapshot<F: FnOnce(u64) -> Option<TerminalSnapshot>>(
        &mut self,
        attach_id: &str,
        snapshot: F,
        out: &mut Vec<Sent>,
    ) -> (taken: bool)
        requires
            forall|seq: u64| snapshot.requires((seq,)),
            old(self)@.snapshot_has_room(attach_id@),
        ensures
            match old(self)@.tap_index(attach_id@) {
                Some(i) => exists|captured: Option<TerminalSnapshot>| #[trigger]
                    snapshot.ensures((old(self)@.taps[i].seq,), captured) && {
                        &&& taken == captured is Some
                        &&& final(self)@ == old(self)@.snapshotted(i, captured).0
                        &&& sent_views(final(out)@) == sent_views(old(out)@) + old(
                            self,
                        )@.snapshotted(i, captured).1
                    },
                None => {
                    &&& !taken
                    &&& final(self)@ == old(self)@
                    &&& sent_views(final(out)@) == sent_views(old(out)@)
                },
            },
    {
        let index: usize = match self.tap_index(attach_id) {
            Some(index) => index,
            None => {
                return false;
            },
        };
        let ghost start = self@;
        let ghost before = sent_views(out@);
        let ghost tap = start.taps[index as int];
        assert(tap == self.taps@[index as int]@);
        self.taps[index].dropped = 0;
        let captured = snapshot(self.taps[index].seq);
        let ghost model = captured;
        match captured {
            Some(captured) => {
                self.taps[index].armed = true;
                self.taps[index].send_snapshot(captured, out);
                // The snapshot shows state before the unfinished sequence;
                // replay its bytes so the read that completes it parses whole.
                if self.pending_tail.len() > 0 {
                    let pending = self.pending_tail.clone();
                    self.taps[index].publish(pending.as_slice(), out);
                }
                proof {
                    let (after, sends) = tap.snapshotted(model, start.pending_tail);
                    assert(sent_views(out@) =~= before + sends);
                    assert(self@.taps =~= start.taps.update(index as int, after));
                }
                self.sync_suppression();
                true
            },
            None => {
                proof {
                    let (after, sends) = tap.snapshotted(model, start.pending_tail);
                    assert(before + sends =~= before);
                    assert(self@.taps =~= start.taps.update(index as int, after));
                }
                false
            },
        }
    }

    /// Ends the tap of an attach; its stream is told why.
    pub fn remove(
        &mut self,
        attach_id: &str,
        reason: TerminalDetachReason,
        out: &mut Vec<Sent>,
    ) -> (removed: bool)
        ensures
            match old(self)@.tap_index(attach_id@) {
                Some(i) => {
                    &&& removed
                    &&& final(self)@ == old(self)@.removed(i)
                    &&& sent_views(final(out)@) == sent_views(old(out)@).push(
                        old(self)@.taps[i].detached(reason),
                    )
                },
                None => {
                    &&& !removed
                    &&& final(self)@ == old(self)@
                    &&& sent_views(final(out)@) == sent_views(old(out)@)
                },
            },
    {
        let index: usize = match self.tap_index(attach_id) {
            Some(index) => index,
            None => {
                return false;
            },
        };
        let ghost start = self@;
        assert(start.taps[index as int] == self.taps@[index as int]@);
        let tap = self.taps.remove(index);
        assert(self@.taps =~= start.taps.remove(index as int));
        self.sync_suppression();
        tap.send_detached(reason, out);
        true
    }

    /// Ends every tap of a terminal that goes away, and the registry with them;
    /// the streams are told that their attaches closed.
    pub fn close(self, out: &mut Vec<Sent>)
        ensures
            sent_views(final(out)@) == sent_views(old(out)@) + self@.cleared(
                TerminalDetachReason::Closed,
            ).1,
    {
        let mut registry = self;
        registry.remove_all(TerminalDetachReason::Closed, out);
    }

    /// Ends every tap; the streams are told why.
    pub fn remove_all(&mut self, reason: TerminalDetachReason, out: &mut Vec<Sent>)
        ensures
            final(self)@ == old(self)@.cleared(reason).0,
            sent_views(final(out)@) == sent_views(old(out)@) + old(self)@.cleared(reason).1,
    {
        let ghost before = sent_views(out@);
        let ghost taps = self@.taps;
        let ghost told = |t: TapModel| t.detached(reason);
        let mut i: usize = 0;
        assert(before + taps.take(0).map_values(told) =~= before);
        while i < self.taps.len()
            invariant
                0 <= i <= self.taps.len(),
                *self == *old(self),
                taps == self@.taps,
                told == (|t: TapModel| t.detached(reason)),
                sent_views(out@) == before + taps.take(i as int).map_values(told),
            decreases self.taps.len() - i,
        {
            assert(taps[i as int] == self.taps@[i as int]@);
            self.taps[i].send_detached(reason, out);
            proof {
                assert(before + taps.take(i + 1).map_values(told) =~= (before + taps.take(
                    i as int,
                ).map_values(told)).push(told(taps[i as int])));
            }
            i += 1;
        }
        assert(taps.take(taps.len() as int) =~= taps);
        self.taps = Vec::new();
        assert(self@.taps =~= Seq::empty());
        self.sync_suppression();
    }

    /// Gives back the budget of output that an attach's stream wrote.
    pub fn release(&mut self, attach_id: &str, len: usize)
        ensures
            final(self)@ == old(self)@.released(attach_id@, len),
    {
        if let Some(index) = self.tap_index(attach_id) {
            let ghost tap = self@.taps[index as int];
            assert(tap == self.taps@[index as int]@);
            self.taps[index].budget.release(len);
            assert(self@.taps =~= old(self)@.released(attach_id@, len).taps);
        }
    }

    /// Takes note of records that could not be sent: output among them gives
    /// its budget back.
    pub fn settle(&mut self, unsent: &Vec<Sent>)
        ensures
            final(self)@ == old(self)@.settled(sent_views(unsent@)),
    {
        let ghost start = self@;
        let ghost records = sent_views(unsent@);
        let mut i: usize = 0;
        proof {
            assert(records.take(0) =~= Seq::empty());
            lemma_settled_nothing(start);
        }
        while i < unsent.len()
            invariant
                0 <= i <= unsent.len(),
                records == sent_views(unsent@),
                self@ == start.settled(records.take(i as int)),
            decreases unsent.len() - i,
        {
            let ghost earlier = records.take(i as int);
            let ghost record = records[i as int];
            proof {
                assert(records.take(i + 1) =~= earlier.push(record));
                assert(record == unsent@[i as int]@);
            }
            match &unsent[i].record {
                ControlOutbound::Output { attach_id, seq: _, bytes } => {
                    let len: usize = bytes_slice(bytes).len();
                    self.release(attach_id.as_str(), len);
                    proof {
                        lemma_settled_output(start, earlier, record, attach_id@, len);
                    }
                },
                _ => {
                    proof {
                        lemma_settled_other(start, earlier, record);
                    }
                },
            }
            i += 1;
        }
        assert(records.take(records.len() as int) =~= records);
    }

    /// Takes note of records that could not be sent after an attach asked for
    /// a snapshot, and tells whether the snapshot was sent: it was if it was
    /// captured and its record is not among them.
    pub fn settle_snapshot(
        &mut self,
        attach_id: &str,
        captured: bool,
        unsent: &Vec<Sent>,
    ) -> (sent: bool)
        ensures
            sent == (captured && !has_snapshot(sent_views(unsent@), attach_id@)),
            final(self)@ == old(self)@.settled(sent_views(unsent@)),
    {
        self.settle(unsent);
        if !captured {
            return false;
        }
        let ghost records = sent_views(unsent@);
        let mut i: usize = 0;
        while i < unsent.len()
            invariant
                0 <= i <= unsent.len(),
                records == sent_views(unsent@),
                captured,
                self@ == old(self)@.settled(records),
                !has_snapshot(records.take(i as int), attach_id@),
            decreases unsent.len() - i,
        {
            assert(records[i as int] == unsent@[i as int]@);
            if let ControlOutbound::Snapshot { attach_id: id, snapshot: _ } = &unsent[i].record {
                if same_text(id.as_str(), attach_id) {
                    return false;
                }
            }
            proof {
                if has_snapshot(records.take(i + 1), attach_id@) {
                    let k = choose|k: int|
                        0 <= k < i + 1 && ((#[trigger] records.take(i + 1)[k]).record matches
                            crate::control::OutboundModel::Snapshot { attach_id: id, snapshot }
                            && id == attach_id@);
                    if k < i {
                        assert(records.take(i as int)[k] == records.take(i + 1)[k]);
                    }
                }
            }
            i += 1;
        }
        assert(records.take(records.len() as int) =~= records);
        true
    }

    /// Remembers which attach answers the terminal's queries and tells the
    /// streams whose standing changed, as far as they have to know.
    pub fn set_query_authority(&mut self, chosen: Option<String>, out: &mut Vec<Sent>)
        ensures
            final(self)@ == old(self)@.informed(crate::text::optional_text(chosen)).0,
            sent_views(final(out)@) == sent_views(old(out)@) + old(self)@.informed(
                crate::text::optional_text(chosen),
            ).1,
    {
        let ghost model = crate::text::optional_text(chosen);
        let ghost before = sent_views(out@);
        let ghost taps = self@.taps;
        let ghost step = |t: TapModel| t.informed(model).1;
        let mut i: usize = 0;
        assert(before + taps.take(0).flat_map(step) =~= before);
        while i < self.taps.len()
            invariant
                0 <= i <= self.taps.len(),
                self.taps@.len() == taps.len(),
                taps == old(self)@.taps,
                model == crate::text::optional_text(chosen),
                step == (|t: TapModel| t.informed(model).1),
                self@ == (RegistryModel { taps: self@.taps, ..old(self)@ }),
                forall|k: int| 0 <= k < i ==> #[trigger] self@.taps[k] == taps[k].informed(model).0,
                forall|k: int| i <= k < taps.len() ==> #[trigger] self@.taps[k] == taps[k],
                sent_views(out@) == before + taps.take(i as int).flat_map(step),
            decreases self.taps.len() - i,
        {
            let ghost sofar = self@.taps;
            let ghost sent = sent_views(out@);
            proof {
                assert(self@.taps[i as int] == taps[i as int]);
                taps.lemma_flat_map_take_append(step, i as int);
            }
            self.taps[i].inform(&chosen, out);
            proof {
                assert(self@.taps =~= sofar.update(i as int, taps[i as int].informed(model).0));
                assert(sent + step(taps[i as int]) =~= before + (taps.take(i as int).flat_map(step)
                    + step(taps[i as int])));
            }
            i += 1;
        }
        proof {
            assert(taps.take(taps.len() as int) =~= taps);
            assert(self@.taps =~= taps.map_values(|t: TapModel| t.informed(model).0));
        }
        self.query_authority = chosen;
    }

    fn sync_suppression(&mut self)
        ensures
            final(self)@ == old(self)@.synced(),
    {
        let mut suppress = false;
        let mut i: usize = 0;
        while i < self.taps.len()
            invariant
                0 <= i <= self.taps.len(),
                *self == *old(self),
                suppress == (exists|k: int|
                    0 <= k < i && (#[trigger] self@.taps[k]).suppresses()),
            decreases self.taps.len() - i,
        {
            assert(self@.taps[i as int] == self.taps@[i as int]@);
            if self.taps[i].armed && self.taps[i].suppress_responses {
                assert(self@.taps[i as int].suppresses());
                suppress = true;
            }
            i += 1;
        }
        self.suppress_terminal_responses = suppress;
        assert(self@.taps =~= old(self)@.taps);
    }
}

} // verus!
