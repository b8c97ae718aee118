//! The state a control stream's socket side and the server share.
//!
//! The socket side reads and writes the stream; the server side owns terminal
//! attaches and geometry claims. They meet through this handle.

use vstd::prelude::*;

use crate::schema::{TerminalDetachReason, TerminalSnapshot};
use crate::table::{TextSet, TextTable};

verus! {

/// Version of the control stream contract advertised in `ping` capabilities.
pub const CONTROL_STREAM_PROTOCOL: u32 = 2;

/// How long, in nanoseconds, an attach that just lost query authority may
/// still deliver an automatic reply: a query answered across a hand-off must
/// not vanish.
pub const AUTHORITY_GRACE: u64 = 2_000_000_000;

/// Feature names advertised as `control_features`; clients gate on these.
pub open spec fn control_feature_names() -> Seq<Seq<char>> {
    seq![
        "shared_attach"@,
        "geometry_ownership"@,
        "geometry_controller"@,
        "control_list"@,
        "client_identity"@,
        "query_authority"@,
        "event_drain"@,
        "event_gap"@,
        "auto_input"@,
    ]
}

/// Feature names advertised as `control_features`; clients gate on these.
pub fn control_features() -> (features: Vec<&'static str>)
    ensures
        crate::schema::feature_views(features@) == control_feature_names(),
{
    let features: Vec<&'static str> =
        vec![
        "shared_attach",
        "geometry_ownership",
        "geometry_controller",
        "control_list",
        "client_identity",
        "query_authority",
        "event_drain",
        "event_gap",
        "auto_input",
    ];
    assert(crate::schema::feature_views(features@) =~= control_feature_names());
    features
}

/// One line or record queued for a control stream's writer.
#[derive(Debug)]
pub enum ControlOutbound {
    /// A finished JSON line (response or subscription event).
    Line(String),
    Snapshot { attach_id: String, snapshot: Box<TerminalSnapshot> },
    Output { attach_id: String, seq: u64, bytes: bytes::Bytes },
    Gap { attach_id: String, seq: u64, dropped_bytes: u64 },
    Detached { attach_id: String, reason: TerminalDetachReason },
    Authority { attach_id: String, answers_queries: bool },
}

/// A queued line or record, as contracts see it.
#[verifier::ext_equal]
pub enum OutboundModel {
    Line(Seq<char>),
    Snapshot { attach_id: Seq<char>, snapshot: TerminalSnapshot },
    Output { attach_id: Seq<char>, seq: u64, bytes: Seq<u8> },
    Gap { attach_id: Seq<char>, seq: u64, dropped_bytes: u64 },
    Detached { attach_id: Seq<char>, reason: TerminalDetachReason },
    Authority { attach_id: Seq<char>, answers_queries: bool },
}

impl View for ControlOutbound {
    type V = OutboundModel;

    open spec fn view(&self) -> OutboundModel {
        match *self {
            ControlOutbound::Line(line) => OutboundModel::Line(line@),
            ControlOutbound::Snapshot { attach_id, snapshot } => OutboundModel::Snapshot {
                attach_id: attach_id@,
                snapshot: *snapshot,
            },
            ControlOutbound::Output { attach_id, seq, bytes } => OutboundModel::Output {
                attach_id: attach_id@,
                seq,
                bytes: crate::outside::bytes_content(bytes),
            },
            ControlOutbound::Gap { attach_id, seq, dropped_bytes } => OutboundModel::Gap {
                attach_id: attach_id@,
                seq,
                dropped_bytes,
            },
            ControlOutbound::Detached { attach_id, reason } => OutboundModel::Detached {
                attach_id: attach_id@,
                reason,
            },
            ControlOutbound::Authority { attach_id, answers_queries } => OutboundModel::Authority {
                attach_id: attach_id@,
                answers_queries,
            },
        }
    }
}

/// One attach's standing for automatic replies, beside its direct input path.
#[derive(Debug, Clone, Copy, PartialEq, Eq, Structural)]
pub struct InputEntry {
    pub authority: bool,
    /// When authority was last taken away, in nanoseconds on the server's
    /// clock; `None` while held or never held.
    pub lost_at: Option<u64>,
}

impl InputEntry {
    /// Whether the attach may deliver an automatic reply at `now`: it holds
    /// authority, or lost it within the grace window.
    pub open spec fn may_answer(self, now: u64) -> bool {
        self.authority || (self.lost_at matches Some(lost) && now - lost <= AUTHORITY_GRACE)
    }

    /// Whether the attach may deliver an automatic reply at `now`: it holds
    /// authority, or lost it within the grace window.
    pub fn answers_queries(&self, now: u64) -> (answers: bool)
        ensures
            answers == self.may_answer(now),
    {
        if self.authority {
            return true;
        }
        match self.lost_at {
            Some(lost) => now.saturating_sub(lost) <= AUTHORITY_GRACE,
            None => false,
        }
    }

    /// The entry after authority was granted or taken away at `now`.
    pub open spec fn with_authority(self, is_authority: bool, now: u64) -> InputEntry {
        InputEntry {
            authority: is_authority,
            lost_at: if self.authority && !is_authority {
                Some(now)
            } else if is_authority {
                None
            } else {
                self.lost_at
            },
        }
    }
}

/// The state of one control stream that its socket side reads on every input.
pub struct ControlConnectionHandle {
    /// Server-assigned id; zero until `control.open` is handled.
    id: u64,
    alive: bool,
    /// Attaches that take input directly, each with its standing for
    /// automatic replies (replies from any other attach are dropped once its
    /// grace window passes).
    inputs: TextTable<InputEntry>,
    /// Negotiated control protocol; 1 until `control.open` says otherwise.
    protocol: u32,
    /// Attaches whose next input should claim the tab's geometry.
    claim_on_input: TextSet,
}

/// A handle, as contracts see it.
#[verifier::ext_equal]
pub struct HandleModel {
    pub id: u64,
    pub alive: bool,
    pub inputs: Map<Seq<char>, InputEntry>,
    pub protocol: u32,
    pub claim_on_input: Set<Seq<char>>,
}

impl HandleModel {
    /// A fresh handle.
    pub open spec fn fresh() -> HandleModel {
        HandleModel {
            id: 0,
            alive: true,
            inputs: Map::empty(),
            protocol: 1,
            claim_on_input: Set::empty(),
        }
    }

    /// The handle once `attach_id` takes input.
    pub open spec fn registered(self, attach_id: Seq<char>) -> HandleModel {
        HandleModel {
            inputs: self.inputs.insert(attach_id, InputEntry { authority: false, lost_at: None }),
            ..self
        }
    }

    /// The handle once `attach_id` takes no more input.
    pub open spec fn unregistered(self, attach_id: Seq<char>) -> HandleModel {
        HandleModel { inputs: self.inputs.remove(attach_id), ..self }
    }

    /// The handle once `attach_id` was told whether it answers queries.
    pub open spec fn with_input_authority(
        self,
        attach_id: Seq<char>,
        is_authority: bool,
        now: u64,
    ) -> HandleModel {
        if self.inputs.contains_key(attach_id) {
            HandleModel {
                inputs: self.inputs.insert(
                    attach_id,
                    self.inputs[attach_id].with_authority(is_authority, now),
                ),
                ..self
            }
        } else {
            self
        }
    }
}

impl View for ControlConnectionHandle {
    type V = HandleModel;

    closed spec fn view(&self) -> HandleModel {
        HandleModel {
            id: self.id,
            alive: self.alive,
            inputs: self.inputs@,
            protocol: self.protocol,
            claim_on_input: self.claim_on_input@,
        }
    }
}

impl ControlConnectionHandle {
    /// A stream that is not open yet.
    pub fn new() -> (handle: Self)
        ensures
            handle@ == HandleModel::fresh(),
    {
        ControlConnectionHandle {
            id: 0,
            alive: true,
            inputs: TextTable::new(),
            protocol: 1,
            claim_on_input: TextSet::new(),
        }
    }

    pub fn protocol(&self) -> (protocol: u32)
        ensures
            protocol == self@.protocol,
    {
        self.protocol
    }

    pub fn set_protocol(&mut self, protocol: u32)
        ensures
            final(self)@ == (HandleModel { protocol, ..old(self)@ }),
    {
        self.protocol = protocol;
    }

    /// Replaces the attaches whose next input claims their tab.
    pub fn set_claim_on_input(&mut self, attach_ids: TextSet)
        ensures
            final(self)@ == (HandleModel { claim_on_input: attach_ids@, ..old(self)@ }),
    {
        self.claim_on_input = attach_ids;
    }

    /// Clears and returns the flag so one input triggers one claim.
    pub fn take_claim_on_input(&mut self, attach_id: &str) -> (armed: bool)
        ensures
            armed == old(self)@.claim_on_input.contains(attach_id@),
            final(self)@ == (HandleModel {
                claim_on_input: old(self)@.claim_on_input.remove(attach_id@),
                ..old(self)@
            }),
    {
        let armed = self.claim_on_input.contains(attach_id);
        self.claim_on_input.remove(attach_id);
        armed
    }

    pub fn id(&self) -> (id: u64)
        ensures
            id == self@.id,
    {
        self.id
    }

    pub fn assign_id(&mut self, id: u64)
        ensures
            final(self)@ == (HandleModel { id, ..old(self)@ }),
    {
        self.id = id;
    }

    pub fn is_alive(&self) -> (alive: bool)
        ensures
            alive == self@.alive,
    {
        self.alive
    }

    pub fn close(&mut self)
        ensures
            final(self)@ == (HandleModel { alive: false, ..old(self)@ }),
    {
        self.alive = false;
    }

    /// Lets `attach_id` take input, without query authority.
    pub fn register_input(&mut self, attach_id: String)
        ensures
            final(self)@ == old(self)@.registered(attach_id@),
    {
        self.inputs.insert(attach_id, InputEntry { authority: false, lost_at: None });
    }

    /// Stops `attach_id` from taking input.
    pub fn unregister_input(&mut self, attach_id: &str)
        ensures
            final(self)@ == old(self)@.unregistered(attach_id@),
    {
        self.inputs.remove(attach_id);
    }

    /// Grants or takes away query authority. The server keeps this current
    /// whenever it picks a terminal's answering attach.
    pub fn set_input_authority(&mut self, attach_id: &str, is_authority: bool, now: u64)
        ensures
            final(self)@ == old(self)@.with_input_authority(attach_id@, is_authority, now),
    {
        let entry: InputEntry = match self.inputs.get(attach_id) {
            Some(entry) => *entry,
            None => {
                return ;
            },
        };
        let lost_at: Option<u64> = if entry.authority && !is_authority {
            Some(now)
        } else if is_authority {
            None
        } else {
            entry.lost_at
        };
        self.inputs.insert(attach_id.to_owned(), InputEntry { authority: is_authority, lost_at });
    }

    /// Whether `attach_id` takes input and, if so, whether it may deliver an
    /// automatic reply right now (it holds authority, or lost it within the
    /// grace window).
    pub fn input_sink_with_authority(&self, attach_id: &str, now: u64) -> (standing: Option<bool>)
        ensures
            standing is Some <==> self@.inputs.contains_key(attach_id@),
            standing matches Some(answers) ==> answers == self@.inputs[attach_id@].may_answer(now),
    {
        match self.inputs.get(attach_id) {
            Some(entry) => Some(entry.answers_queries(now)),
            None => None,
        }
    }

    /// Whether `attach_id` takes input.
    pub fn input_sink(&self, attach_id: &str) -> (live: bool)
        ensures
            live == self@.inputs.contains_key(attach_id@),
    {
        self.inputs.contains_key(attach_id)
    }

    /// The strict flag, without the grace window.
    pub fn input_authority(&self, attach_id: &str) -> (authority: bool)
        ensures
            authority == (self@.inputs.contains_key(attach_id@)
                && self@.inputs[attach_id@].authority),
    {
        match self.inputs.get(attach_id) {
            Some(entry) => entry.authority,
            None => false,
        }
    }
}

} // verus!
