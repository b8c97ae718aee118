//! Attaching a control connection to a terminal.

use vstd::prelude::*;

use super::state::{
    ControlAttach, ControlEffect, EvictScope, HeadlessServer, CONTROL_CONNECTION_ID_BASE,
    DEFAULT_HISTORY_LIMIT_BYTES, MAX_HISTORY_LIMIT_BYTES,
};
use crate::schema::{
    error, success, ErrorCode, Reply, ResponseResult, TerminalAttachGeometry, TerminalAttachParams,
    TerminalDetachReason, TerminalQueryAuthority,
};
use crate::text::{dashed_text, joined, same_text};

verus! {

/// What a terminal target (a pane id, a terminal id or an agent name) stands
/// for.
#[derive(Debug, Clone)]
pub enum TargetResolution {
    Found { terminal_id: String, pane_id: Option<String> },
    /// More than one terminal.
    Ambiguous { target: String },
    NotFound,
}

/// A resolution, as contracts see it.
#[verifier::ext_equal]
pub enum TargetModel {
    Found { terminal_id: Seq<char>, pane_id: Option<Seq<char>> },
    Ambiguous { target: Seq<char> },
    NotFound,
}

impl View for TargetResolution {
    type V = TargetModel;

    open spec fn view(&self) -> TargetModel {
        match *self {
            TargetResolution::Found { terminal_id, pane_id } => TargetModel::Found {
                terminal_id: terminal_id@,
                pane_id: crate::text::optional_text(pane_id),
            },
            TargetResolution::Ambiguous { target } => TargetModel::Ambiguous { target: target@ },
            TargetResolution::NotFound => TargetModel::NotFound,
        }
    }
}

/// One control attach on a terminal.
#[derive(Debug, Clone)]
pub struct AttachedControl {
    pub connection_id: u64,
    pub attach_id: String,
    pub geometry: TerminalAttachGeometry,
    pub protocol: u32,
}

/// A control attach on a terminal, as contracts see it.
#[verifier::ext_equal]
pub struct AttachedModel {
    pub connection_id: u64,
    pub attach_id: Seq<char>,
    pub geometry: TerminalAttachGeometry,
    pub protocol: u32,
}

impl View for AttachedControl {
    type V = AttachedModel;

    open spec fn view(&self) -> AttachedModel {
        AttachedModel {
            connection_id: self.connection_id,
            attach_id: self.attach_id@,
            geometry: self.geometry,
            protocol: self.protocol,
        }
    }
}

/// The control attaches of a list.
pub open spec fn attached_views(attached: Seq<AttachedControl>) -> Seq<AttachedModel> {
    Seq::new(attached.len(), |i: int| attached[i]@)
}

/// Whether a connection is among the attached.
pub open spec fn is_attached(existing: Seq<AttachedModel>, connection_id: u64) -> bool {
    exists|k: int| 0 <= k < existing.len() && (#[trigger] existing[k]).connection_id == connection_id
}

/// Whether another connection is among the attached.
pub open spec fn others_attached(existing: Seq<AttachedModel>, connection_id: u64) -> bool {
    exists|k: int| 0 <= k < existing.len() && (#[trigger] existing[k]).connection_id != connection_id
}

/// Whether another connection's attach sizes the terminal.
pub open spec fn other_size_owner(existing: Seq<AttachedModel>, connection_id: u64) -> bool {
    exists|k: int|
        0 <= k < existing.len() && (#[trigger] existing[k]).connection_id != connection_id
            && existing[k].geometry == TerminalAttachGeometry::Terminal
}

/// Whether a request needs a takeover, given who holds the terminal.
///
/// Protocol 2 tab followers share a terminal; a size owner (a direct client
/// or a terminal-geometry attach) shares with nobody, and a protocol 1
/// follower keeps its one-owner contract. A protocol 1 stream
/// attaching again replaces its own earlier attach, and then only a size owner
/// refuses it.
pub open spec fn attach_conflict(
    existing: Seq<AttachedModel>,
    direct_owner: bool,
    connection_id: u64,
    protocol: u32,
    geometry: TerminalAttachGeometry,
) -> bool {
    let own = is_attached(existing, connection_id);
    let others = others_attached(existing, connection_id);
    if geometry == TerminalAttachGeometry::Terminal {
        direct_owner || others || (own && protocol > 1)
    } else if protocol <= 1 && !own {
        direct_owner || others
    } else {
        direct_owner || other_size_owner(existing, connection_id)
    }
}

/// How much history a snapshot carries for a requested limit.
pub open spec fn history_limit(requested: Option<u64>) -> usize {
    match requested {
        Some(limit) => if limit > MAX_HISTORY_LIMIT_BYTES {
            MAX_HISTORY_LIMIT_BYTES
        } else {
            limit as usize
        },
        None => DEFAULT_HISTORY_LIMIT_BYTES,
    }
}

/// Attaches on a terminal.
pub open spec fn on_terminal(terminal_id: Seq<char>) -> spec_fn(super::state::AttachModel) -> bool {
    |a: super::state::AttachModel| a.terminal_id == terminal_id
}

impl super::state::ConnectionModel {
    /// The connection's attaches on a terminal.
    pub open spec fn attached(self, terminal_id: Seq<char>) -> Seq<AttachedModel> {
        self.attaches.filter(on_terminal(terminal_id)).map_values(
            |a: super::state::AttachModel|
                AttachedModel {
                    connection_id: self.connection_id,
                    attach_id: a.attach_id,
                    geometry: a.geometry,
                    protocol: self.protocol,
                },
        )
    }

    /// The attach that a request makes on a terminal, with its place among the
    /// attaches of all connections.
    pub open spec fn next(
        self,
        order: u64,
        terminal_id: Seq<char>,
        params: TerminalAttachParams,
    ) -> super::state::AttachModel {
        super::state::AttachModel {
            attach_id: self.attach_name(self.next_attach),
            terminal_id,
            geometry: params.geometry,
            history_limit_bytes: history_limit(params.history_limit_bytes),
            answer_queries: params.answer_queries,
            answers_queries: false,
            seq: self.next_attach,
            order,
        }
    }
}

impl super::state::ServerModel {
    /// Control attaches on a terminal.
    pub open spec fn attached(self, terminal_id: Seq<char>) -> Seq<AttachedModel> {
        self.control_connections.flat_map(
            |c: super::state::ConnectionModel| c.attached(terminal_id),
        )
    }

    /// Why a request that belongs on an open stream is refused; a stream is
    /// given by its connection id, zero before it is open.
    pub open spec fn stream_refusal(self, stream: Option<u64>) -> Option<Seq<char>> {
        match stream {
            Some(connection_id) => if connection_id == 0 || self.connection_index(
                connection_id,
            ) is None {
                Some("control stream is not open"@)
            } else {
                None
            },
            None => Some("this method is only available on a control stream"@),
        }
    }

    /// The terminal and pane an attach names, or why there is none.
    pub open spec fn attach_target(self, target: Seq<char>, resolved: TargetModel) -> Result<
        (Seq<char>, Option<Seq<char>>),
        (ErrorCode, Seq<char>),
    > {
        match resolved {
            TargetModel::Found { terminal_id, pane_id } => Ok((terminal_id, pane_id)),
            TargetModel::Ambiguous { target: ambiguous } => Err(
                (
                    ErrorCode::AmbiguousTarget,
                    "terminal target "@ + ambiguous + " matches more than one terminal"@,
                ),
            ),
            TargetModel::NotFound => if self.app.running(target) {
                Ok((target, None))
            } else {
                Err((ErrorCode::NotFound, "terminal target "@ + target + " not found"@))
            },
        }
    }

    /// The protocol of a connection.
    pub open spec fn protocol_of(self, connection_id: u64) -> u32 {
        match self.connection_index(connection_id) {
            Some(i) => self.control_connections[i].protocol,
            None => 1,
        }
    }

    /// The server once a protocol 1 stream's own attach on a terminal made way
    /// for its successor.
    pub open spec fn retired(
        self,
        connection_id: u64,
        terminal_id: Seq<char>,
    ) -> super::state::ServerModel {
        match self.connection_index(connection_id) {
            Some(i) => {
                let c = self.control_connections[i];
                let own = c.attaches.filter(on_terminal(terminal_id));
                if c.protocol <= 1 && own.len() > 0 {
                    self.with_connection(i, c.without(on_terminal(terminal_id))).released_attaches(
                        own,
                        TerminalDetachReason::Takeover,
                    ).synced_query_authority(terminal_id).synced_control_geometry_tabs()
                } else {
                    self
                }
            },
            None => self,
        }
    }

    /// The server without the direct client of a terminal.
    pub open spec fn without_direct_owner(self, terminal_id: Seq<char>) -> super::state::ServerModel {
        if self.terminal_attach_owners.contains_key(terminal_id) {
            let owner = self.terminal_attach_owners[terminal_id];
            super::state::ServerModel {
                clients: self.clients.remove(owner),
                terminal_attach_owners: self.terminal_attach_owners.remove(terminal_id),
                ..self
            }.with_effect(super::state::EffectModel::ShutDownClient { client_id: owner })
        } else {
            self
        }
    }

    /// The server once a terminal was taken over for an attach of that
    /// geometry.
    pub open spec fn taken_over(
        self,
        terminal_id: Seq<char>,
        geometry: TerminalAttachGeometry,
    ) -> super::state::ServerModel {
        self.without_direct_owner(terminal_id).evicted(
            terminal_id,
            TerminalDetachReason::Takeover,
            if geometry == TerminalAttachGeometry::Terminal {
                EvictScope::All
            } else {
                EvictScope::TabFollowerTakeover
            },
        )
    }

    /// What attaching takes outside, in order: the tap, a size for a size
    /// owner that gave one, the answer, then the first snapshot.
    pub open spec fn attach_effects(
        self,
        id: Seq<char>,
        c: super::state::ConnectionModel,
        terminal_id: Seq<char>,
        pane_id: Option<Seq<char>>,
        params: TerminalAttachParams,
    ) -> Seq<super::state::EffectModel> {
        let attach = c.next(self.next_attach_order, terminal_id, params);
        let tap = seq![
            super::state::EffectModel::AttachRaw {
                connection_id: c.connection_id,
                terminal_id,
                attach_id: attach.attach_id,
                suppress_responses: params.answer_queries == TerminalQueryAuthority::Client,
                protocol: c.protocol,
            },
        ];
        let resize = match (params.geometry, params.cols, params.rows) {
            (TerminalAttachGeometry::Terminal, Some(cols), Some(rows)) => seq![
                super::state::EffectModel::ResizeTerminal {
                    terminal_id,
                    rows,
                    cols,
                    cell_width_px: params.cell_width_px,
                    cell_height_px: params.cell_height_px,
                },
            ],
            _ => Seq::empty(),
        };
        let answer = seq![
            super::state::EffectModel::SendReply {
                connection_id: c.connection_id,
                reply: crate::schema::ReplyModel::Success {
                    id,
                    result: crate::schema::ResultModel::TerminalAttached {
                        attach_id: attach.attach_id,
                        terminal_id,
                        pane_id,
                    },
                },
            },
            super::state::EffectModel::SnapshotRaw {
                connection_id: c.connection_id,
                terminal_id,
                attach_id: attach.attach_id,
                history_limit_bytes: attach.history_limit_bytes,
            },
        ];
        tap + resize + answer
    }

    /// The terminals that layouts leave alone once an attach of that geometry
    /// is on a terminal.
    pub open spec fn locks_with(
        self,
        terminal_id: Seq<char>,
        geometry: TerminalAttachGeometry,
    ) -> Set<Seq<char>> {
        if geometry == TerminalAttachGeometry::Terminal && self.app.registered(terminal_id) {
            self.direct_attach_resize_locks.insert(terminal_id)
        } else {
            self.direct_attach_resize_locks
        }
    }

    /// The server once an attach of that geometry on a terminal drew its place
    /// among all attaches, the terminal locked if the attach sizes it.
    pub open spec fn drawn(
        self,
        terminal_id: Seq<char>,
        geometry: TerminalAttachGeometry,
    ) -> super::state::ServerModel {
        super::state::ServerModel {
            direct_attach_resize_locks: self.locks_with(terminal_id, geometry),
            next_attach_order: (self.next_attach_order + 1) as u64,
            ..self
        }
    }

    /// The counters have room for one more attach of a connection.
    pub open spec fn attach_has_room(self, connection_id: u64) -> bool {
        self.connection_index(connection_id) matches Some(i)
            ==> self.control_connections[i].next_attach < u64::MAX && self.next_attach_order
            < u64::MAX
    }

    /// The server and the answer once a connection got its attach on a
    /// terminal that nothing keeps it from.
    pub open spec fn joined(
        self,
        id: Seq<char>,
        connection_id: u64,
        terminal_id: Seq<char>,
        pane_id: Option<Seq<char>>,
        params: TerminalAttachParams,
    ) -> (super::state::ServerModel, crate::schema::ReplyModel) {
        match self.connection_index(connection_id) {
            Some(i) => {
                let c = self.control_connections[i];
                let attach = c.next(self.next_attach_order, terminal_id, params);
                let numbered = super::state::ConnectionModel {
                    next_attach: (c.next_attach + 1) as u64,
                    ..c
                };
                let drawn = self.drawn(terminal_id, params.geometry);
                if self.app.running(terminal_id) {
                    (
                        drawn.with_connection(
                            i,
                            super::state::ConnectionModel {
                                attaches: c.attaches.push(attach),
                                handle: c.handle.registered(attach.attach_id),
                                ..numbered
                            },
                        ).with_effects(
                            self.attach_effects(id, c, terminal_id, pane_id, params),
                        ).synced_query_authority(terminal_id).synced_control_geometry_tabs(),
                        crate::schema::ReplyModel::AlreadyWritten,
                    )
                } else {
                    (
                        drawn.with_connection(i, numbered),
                        crate::schema::failure(
                            id,
                            ErrorCode::NotFound,
                            "terminal "@ + terminal_id + " not found"@,
                        ),
                    )
                }
            },
            None => (
                self,
                crate::schema::failure(
                    id,
                    ErrorCode::ControlStreamRequired,
                    "control stream is not open"@,
                ),
            ),
        }
    }

    /// The server and the answer once a stream asked for an attach.
    pub open spec fn terminal_attached(
        self,
        id: Seq<char>,
        stream: Option<u64>,
        params: TerminalAttachParams,
        resolved: TargetModel,
    ) -> (super::state::ServerModel, crate::schema::ReplyModel) {
        match self.stream_refusal(stream) {
            Some(message) => (
                self,
                crate::schema::failure(id, ErrorCode::ControlStreamRequired, message),
            ),
            None => self.pruned(stream->Some_0).attached_by(
                id,
                stream->Some_0,
                params,
                resolved,
            ),
        }
    }

    /// The server and the answer once an open connection asked for an attach.
    pub open spec fn attached_by(
        self,
        id: Seq<char>,
        connection_id: u64,
        params: TerminalAttachParams,
        resolved: TargetModel,
    ) -> (super::state::ServerModel, crate::schema::ReplyModel) {
        match self.attach_target(params.target@, resolved) {
            Err((code, message)) => (self, crate::schema::failure(id, code, message)),
            Ok((terminal_id, pane_id)) => if self.app.pending_alt_screen_reads.contains(
                terminal_id,
            ) {
                (
                    self,
                    crate::schema::failure(
                        id,
                        ErrorCode::TerminalBusy,
                        "terminal "@ + terminal_id + " has a read in progress; retry"@,
                    ),
                )
            } else if !params.takeover && attach_conflict(
                self.attached(terminal_id),
                self.terminal_attach_owners.contains_key(terminal_id),
                connection_id,
                self.protocol_of(connection_id),
                params.geometry,
            ) {
                (
                    self,
                    crate::schema::failure(
                        id,
                        ErrorCode::TerminalAttached,
                        "terminal "@ + terminal_id
                            + " already has an attached client; retry with takeover"@,
                    ),
                )
            } else {
                let retired = self.retired(connection_id, terminal_id);
                let cleared = if params.takeover {
                    retired.taken_over(terminal_id, params.geometry)
                } else {
                    retired
                };
                cleared.joined(id, connection_id, terminal_id, pane_id, params)
            },
        }
    }
}

/// Making way for a successor keeps the frames.
pub proof fn lemma_retired_frames(
    server: super::state::ServerModel,
    connection_id: u64,
    terminal_id: Seq<char>,
)
    ensures
        server.retired(connection_id, terminal_id).frames() == server.frames(),
        server.retired(connection_id, terminal_id).next_attach_order == server.next_attach_order,
{
    super::soundness::lemma_open_connection(server, connection_id);
    if let Some(i) = server.connection_index(connection_id) {
        let c = server.control_connections[i];
        let own = c.attaches.filter(on_terminal(terminal_id));
        if c.protocol <= 1 && own.len() > 0 {
            let without = server.with_connection(i, c.without(on_terminal(terminal_id)));
            super::soundness::lemma_without_frames(server, i, on_terminal(terminal_id));
            let released = without.released_attaches(own, TerminalDetachReason::Takeover);
            super::release::lemma_released_attaches_frame(
                without,
                own,
                TerminalDetachReason::Takeover,
            );
            let synced = released.synced_query_authority(terminal_id);
            super::soundness::lemma_query_sync_bare(released, terminal_id);
            super::soundness::lemma_bare_frames(synced, released);
            super::soundness::lemma_geometry_sync_bare(synced);
            super::soundness::lemma_bare_frames(synced.synced_control_geometry_tabs(), synced);
        }
    }
}

/// A takeover keeps the frames.
pub proof fn lemma_taken_over_frames(
    server: super::state::ServerModel,
    terminal_id: Seq<char>,
    geometry: TerminalAttachGeometry,
)
    ensures
        server.taken_over(terminal_id, geometry).frames() == server.frames(),
        server.taken_over(terminal_id, geometry).next_attach_order == server.next_attach_order,
{
    let scope = if geometry == TerminalAttachGeometry::Terminal {
        EvictScope::All
    } else {
        EvictScope::TabFollowerTakeover
    };
    super::soundness::lemma_evicted_frames(
        server.without_direct_owner(terminal_id),
        terminal_id,
        TerminalDetachReason::Takeover,
        scope,
    );
}

/// Whether a request needs a takeover, given who holds the terminal.
fn conflicts(
    existing: &Vec<AttachedControl>,
    direct_owner: bool,
    connection_id: u64,
    protocol: u32,
    geometry: TerminalAttachGeometry,
) -> (conflict: bool)
    ensures
        conflict == attach_conflict(
            attached_views(existing@),
            direct_owner,
            connection_id,
            protocol,
            geometry,
        ),
{
    let ghost models = attached_views(existing@);
    let mut own = false;
    let mut others = false;
    let mut size_owner = false;
    let mut i: usize = 0;
    while i < existing.len()
        invariant
            0 <= i <= existing.len(),
            models == attached_views(existing@),
            own == (exists|k: int|
                0 <= k < i && (#[trigger] models[k]).connection_id == connection_id),
            others == (exists|k: int|
                0 <= k < i && (#[trigger] models[k]).connection_id != connection_id),
            size_owner == (exists|k: int|
                0 <= k < i && (#[trigger] models[k]).connection_id != connection_id
                    && models[k].geometry == TerminalAttachGeometry::Terminal),
        decreases existing.len() - i,
    {
        let attached = &existing[i];
        assert(models[i as int] == attached@);
        if attached.connection_id == connection_id {
            own = true;
        } else {
            others = true;
            if attached.geometry == TerminalAttachGeometry::Terminal {
                size_owner = true;
            }
        }
        i += 1;
    }
    if geometry == TerminalAttachGeometry::Terminal {
        direct_owner || others || (own && protocol > 1)
    } else if protocol <= 1 && !own {
        direct_owner || others
    } else {
        direct_owner || size_owner
    }
}

/// How much history a snapshot carries for a requested limit.
fn limited_history(requested: Option<u64>) -> (limit: usize)
    ensures
        limit == history_limit(requested),
{
    match requested {
        Some(limit) => {
            if limit > MAX_HISTORY_LIMIT_BYTES as u64 {
                MAX_HISTORY_LIMIT_BYTES
            } else {
                limit as usize
            }
        },
        None => DEFAULT_HISTORY_LIMIT_BYTES,
    }
}

/// The answer when a terminal gave no snapshot.
pub fn snapshot_failed(id: String, terminal_id: &str) -> (reply: Reply)
    ensures
        reply@ == crate::schema::failure(
            id@,
            ErrorCode::SnapshotFailed,
            "terminal "@ + terminal_id@ + " could not be snapshotted"@,
        ),
{
    error(
        id,
        ErrorCode::SnapshotFailed,
        joined("terminal ", terminal_id, " could not be snapshotted"),
    )
}

impl HeadlessServer {
    /// The connection that an open stream's request is for; attaches whose
    /// terminal went away are forgotten on the way.
    pub fn control_connection_id(&mut self, stream: Option<u64>) -> (connection: Result<u64, String>)
        ensures
            match connection {
                Ok(connection_id) => {
                    &&& old(self)@.stream_refusal(stream) is None
                    &&& stream == Some(connection_id)
                    &&& final(self)@ == old(self)@.pruned(connection_id)
                },
                Err(message) => {
                    &&& old(self)@.stream_refusal(stream) == Some(message@)
                    &&& *final(self) == *old(self)
                },
            },
    {
        let connection_id: u64 = match stream {
            Some(connection_id) => connection_id,
            None => {
                return Err("this method is only available on a control stream".to_owned());
            },
        };
        if connection_id == 0 || self.connection_index(connection_id).is_none() {
            return Err("control stream is not open".to_owned());
        }
        self.prune_closed_control_attaches(connection_id);
        Ok(connection_id)
    }

    /// Control attaches on a terminal: connection, attach id, geometry,
    /// protocol.
    pub fn control_attaches_for_terminal(&self, terminal_id: &str) -> (attached: Vec<
        AttachedControl,
    >)
        ensures
            attached_views(attached@) == self@.attached(terminal_id@),
    {
        let ghost connections = self@.control_connections;
        let ghost per_connection = |c: super::state::ConnectionModel| c.attached(terminal_id@);
        let mut attached: Vec<AttachedControl> = Vec::new();
        let mut i: usize = 0;
        proof {
            assert(connections.take(0).flat_map(per_connection) =~= Seq::empty());
            assert(attached_views(attached@) =~= Seq::empty());
        }
        while i < self.control_connections.len()
            invariant
                0 <= i <= self.control_connections.len(),
                connections == self@.control_connections,
                per_connection == (|c: super::state::ConnectionModel| c.attached(terminal_id@)),
                attached_views(attached@) == connections.take(i as int).flat_map(per_connection),
            decreases self.control_connections.len() - i,
        {
            self.push_attached(i, terminal_id, &mut attached);
            proof {
                connections.lemma_flat_map_take_append(per_connection, i as int);
            }
            i += 1;
        }
        assert(connections.take(connections.len() as int) =~= connections);
        attached
    }

    /// Appends the attaches on a terminal of the connection at `index`.
    fn push_attached(&self, index: usize, terminal_id: &str, attached: &mut Vec<AttachedControl>)
        requires
            index < self.control_connections@.len(),
        ensures
            attached_views(final(attached)@) == attached_views(old(attached)@)
                + self@.control_connections[index as int].attached(terminal_id@),
    {
        let state = &self.control_connections[index];
        let ghost attaches = state@.attaches;
        let ghost wanted = on_terminal(terminal_id@);
        let ghost model = |a: super::state::AttachModel|
            AttachedModel {
                connection_id: state@.connection_id,
                attach_id: a.attach_id,
                geometry: a.geometry,
                protocol: state@.protocol,
            };
        let ghost before = attached_views(attached@);
        let mut i: usize = 0;
        proof {
            assert(attaches.take(0).filter(wanted) =~= Seq::empty());
            assert(before + attaches.take(0).filter(wanted).map_values(model) =~= before);
        }
        while i < state.attaches.len()
            invariant
                0 <= i <= state.attaches.len(),
                attaches == state@.attaches,
                wanted == on_terminal(terminal_id@),
                model == (|a: super::state::AttachModel|
                    AttachedModel {
                        connection_id: state@.connection_id,
                        attach_id: a.attach_id,
                        geometry: a.geometry,
                        protocol: state@.protocol,
                    }),
                attached_views(attached@) == before + attaches.take(i as int).filter(
                    wanted,
                ).map_values(model),
            decreases state.attaches.len() - i,
        {
            let attach = &state.attaches[i];
            let ghost taken = attaches.take(i as int);
            proof {
                assert(attaches[i as int] == attach@);
                assert(attaches.take(i + 1) =~= taken.push(attach@));
                taken.lemma_filter_push(attach@, wanted);
            }
            if same_text(attach.terminal_id.as_str(), terminal_id) {
                let ghost listed = attached_views(attached@);
                attached.push(
                    AttachedControl {
                        connection_id: state.connection_id,
                        attach_id: attach.attach_id.clone(),
                        geometry: attach.geometry,
                        protocol: state.protocol,
                    },
                );
                proof {
                    assert(attached_views(attached@) =~= listed.push(model(attach@)));
                    assert(taken.filter(wanted).push(attach@).map_values(model)
                        =~= taken.filter(wanted).map_values(model).push(model(attach@)));
                    assert(before + taken.filter(wanted).map_values(model).push(model(attach@))
                        =~= (before + taken.filter(wanted).map_values(model)).push(
                        model(attach@),
                    ));
                }
            }
            i += 1;
        }
        assert(attaches.take(attaches.len() as int) =~= attaches);
    }

    /// Whether a control attach holds the terminal.
    pub fn terminal_has_control_attaches(&self, terminal_id: &str) -> (has: bool)
        ensures
            has == (self@.attached(terminal_id@).len() > 0),
    {
        let attached = self.control_attaches_for_terminal(terminal_id);
        assert(attached_views(attached@).len() == attached@.len());
        attached.len() > 0
    }

    /// A direct client or any control attach holds the terminal.
    pub fn terminal_is_attached(&self, terminal_id: &str) -> (attached: bool)
        ensures
            attached == (self@.terminal_attach_owners.contains_key(terminal_id@)
                || self@.attached(terminal_id@).len() > 0),
    {
        self.terminal_attach_owners.contains_key(terminal_id) || self.terminal_has_control_attaches(
            terminal_id,
        )
    }

    /// Flags the attaches on a terminal of the connection at `index`.
    fn flag_attaches(&self, index: usize, terminal_id: &str) -> (flagged: (Vec<bool>, bool))
        requires
            index < self.control_connections@.len(),
        ensures
            flagged.0@.len() == self@.control_connections[index as int].attaches.len(),
            forall|k: int|
                0 <= k < flagged.0@.len() ==> #[trigger] flagged.0@[k] == on_terminal(terminal_id@)(
                    self@.control_connections[index as int].attaches[k],
                ),
            flagged.1 == (self@.control_connections[index as int].attaches.filter(
                on_terminal(terminal_id@),
            ).len() > 0),
    {
        let state = &self.control_connections[index];
        let ghost attaches = state@.attaches;
        let ghost wanted = on_terminal(terminal_id@);
        let mut flags: Vec<bool> = Vec::new();
        let mut any = false;
        let mut i: usize = 0;
        assert(attaches.take(0).filter(wanted) =~= Seq::empty());
        while i < state.attaches.len()
            invariant
                0 <= i <= state.attaches.len(),
                attaches == state@.attaches,
                wanted == on_terminal(terminal_id@),
                flags@.len() == i,
                forall|k: int| 0 <= k < i ==> #[trigger] flags@[k] == wanted(attaches[k]),
                any == (attaches.take(i as int).filter(wanted).len() > 0),
            decreases state.attaches.len() - i,
        {
            let attach = &state.attaches[i];
            let ghost taken = attaches.take(i as int);
            proof {
                assert(attaches[i as int] == attach@);
                assert(attaches.take(i + 1) =~= taken.push(attach@));
                taken.lemma_filter_push(attach@, wanted);
            }
            let here = same_text(attach.terminal_id.as_str(), terminal_id);
            flags.push(here);
            if here {
                any = true;
            }
            i += 1;
        }
        assert(attaches.take(attaches.len() as int) =~= attaches);
        (flags, any)
    }

    /// Ends a protocol 1 stream's own attach on a terminal: it cannot be told
    /// to stop answering queries, so its next attach replaces it.
    fn retire_own_attaches(&mut self, connection_id: u64, terminal_id: &str)
        ensures
            final(self)@ == old(self)@.retired(connection_id, terminal_id@),
    {
        let index: usize = match self.connection_index(connection_id) {
            Some(index) => index,
            None => {
                return ;
            },
        };
        let ghost start = self@;
        let ghost c = start.control_connections[index as int];
        assert(c == self.control_connections@[index as int]@);
        if self.control_connections[index].protocol > 1 {
            return ;
        }
        let (flags, any) = self.flag_attaches(index, terminal_id);
        if !any {
            return ;
        }
        let own = self.control_connections[index].remove_attaches(
            &flags,
            Ghost(on_terminal(terminal_id@)),
        );
        assert(self@.control_connections =~= start.control_connections.update(
            index as int,
            c.without(on_terminal(terminal_id@)),
        ));
        self.release_control_attaches(&own, TerminalDetachReason::Takeover);
        self.sync_query_authority(terminal_id);
        self.sync_control_geometry_tabs();
    }

    /// Takes a terminal over for an attach of that geometry.
    fn take_over(&mut self, terminal_id: &str, geometry: TerminalAttachGeometry)
        ensures
            final(self)@ == old(self)@.taken_over(terminal_id@, geometry),
    {
        broadcast use vstd::std_specs::hash::group_hash_axioms;

        let direct_owner: Option<u64> = match self.terminal_attach_owners.get(terminal_id) {
            Some(owner) => Some(*owner),
            None => None,
        };
        if let Some(owner) = direct_owner {
            self.clients.remove(&owner);
            self.terminal_attach_owners.remove(terminal_id);
            self.push_effect(ControlEffect::ShutDownClient { client_id: owner });
        }
        let scope = if geometry == TerminalAttachGeometry::Terminal {
            EvictScope::All
        } else {
            EvictScope::TabFollowerTakeover
        };
        self.detach_control_attaches_for_terminal(
            terminal_id,
            TerminalDetachReason::Takeover,
            scope,
        );
    }

    /// Gives a connection its attach on a terminal that nothing keeps it from.
    fn join(
        &mut self,
        id: String,
        connection_id: u64,
        terminal_id: String,
        pane_id: Option<String>,
        params: &TerminalAttachParams,
    ) -> (reply: Reply)
        requires
            old(self)@.attach_has_room(connection_id),
            old(self)@.connection_index(connection_id) is Some ==> super::state::is_control(
                connection_id,
            ),
        ensures
            (final(self)@, reply@) == old(self)@.joined(
                id@,
                connection_id,
                terminal_id@,
                crate::text::optional_text(pane_id),
                *params,
            ),
    {
        let index: usize = match self.connection_index(connection_id) {
            Some(index) => index,
            None => {
                return error(
                    id,
                    ErrorCode::ControlStreamRequired,
                    "control stream is not open".to_owned(),
                );
            },
        };
        let ghost start = self@;
        let ghost c = start.control_connections[index as int];
        proof {
            assert(c == self.control_connections@[index as int]@);
            super::soundness::lemma_open_connection(start, connection_id);
        }
        let protocol: u32 = self.control_connections[index].protocol;
        let seq: u64 = self.control_connections[index].next_attach;
        let attach_id = dashed_text(connection_id - CONTROL_CONNECTION_ID_BASE, seq);
        let order: u64 = self.next_attach_order;
        self.control_connections[index].next_attach = seq + 1;
        self.next_attach_order = order + 1;
        let ghost numbered = super::state::ConnectionModel {
            next_attach: (c.next_attach + 1) as u64,
            ..c
        };
        assert(self@.control_connections =~= start.control_connections.update(
            index as int,
            numbered,
        ));
        let history_limit_bytes: usize = limited_history(params.history_limit_bytes);
        if params.geometry == TerminalAttachGeometry::Terminal {
            if self.app.registered(terminal_id.as_str()) {
                self.direct_attach_resize_locks.insert(terminal_id.clone());
            }
        }
        if self.app.control_runtime(terminal_id.as_str()).is_none() {
            return error(
                id,
                ErrorCode::NotFound,
                joined("terminal ", terminal_id.as_str(), " not found"),
            );
        }
        let attach = ControlAttach {
            attach_id: attach_id.clone(),
            terminal_id: terminal_id.clone(),
            geometry: params.geometry,
            history_limit_bytes,
            answer_queries: params.answer_queries,
            answers_queries: false,
            seq,
            order,
        };
        let ghost model = c.next(start.next_attach_order, terminal_id@, *params);
        assert(attach@ == model);
        let ghost attaches = self.control_connections@[index as int].attaches@;
        self.control_connections[index].attaches.push(attach);
        self.control_connections[index].handle.register_input(attach_id.clone());
        proof {
            assert(super::state::attach_views(attaches.push(attach))
                =~= super::state::attach_views(attaches).push(model));
            assert(self@.control_connections =~= start.control_connections.update(
                index as int,
                super::state::ConnectionModel {
                    attaches: c.attaches.push(model),
                    handle: c.handle.registered(model.attach_id),
                    ..numbered
                },
            ));
        }
        let ghost listed = self@;
        self.push_effect(
            ControlEffect::AttachRaw {
                connection_id,
                terminal_id: terminal_id.clone(),
                attach_id: attach_id.clone(),
                suppress_responses: params.answer_queries == TerminalQueryAuthority::Client,
                protocol,
            },
        );
        if params.geometry == TerminalAttachGeometry::Terminal {
            if let (Some(cols), Some(rows)) = (params.cols, params.rows) {
                self.push_effect(
                    ControlEffect::ResizeTerminal {
                        terminal_id: terminal_id.clone(),
                        rows,
                        cols,
                        cell_width_px: params.cell_width_px,
                        cell_height_px: params.cell_height_px,
                    },
                );
            }
        }
        // The answer goes through the stream so the client learns the attach
        // id before the snapshot record that follows it.
        let reply = success(
            id,
            ResponseResult::TerminalAttached {
                attach_id: attach_id.clone(),
                terminal_id: terminal_id.clone(),
                pane_id,
            },
        );
        self.push_effect(ControlEffect::SendReply { connection_id, reply });
        self.push_effect(
            ControlEffect::SnapshotRaw {
                connection_id,
                terminal_id: terminal_id.clone(),
                attach_id,
                history_limit_bytes,
            },
        );
        assert(self@.effects =~= start.effects + start.attach_effects(
            id@,
            c,
            terminal_id@,
            crate::text::optional_text(pane_id),
            *params,
        ));
        assert(self@ =~= listed.with_effects(
            start.attach_effects(
                id@,
                c,
                terminal_id@,
                crate::text::optional_text(pane_id),
                *params,
            ),
        ));
        // After the snapshot: a protocol 2 client reads its authority record
        // once it knows the attach.
        self.sync_query_authority(terminal_id.as_str());
        self.sync_control_geometry_tabs();
        Reply::AlreadyWritten
    }

    /// Attaches a stream to a terminal. `resolved` is what the target stands
    /// for.
    pub fn control_terminal_attach(
        &mut self,
        id: String,
        stream: Option<u64>,
        params: &TerminalAttachParams,
        resolved: TargetResolution,
    ) -> (reply: Reply)
        requires
            old(self)@.wf(),
            stream matches Some(connection_id) ==> old(self)@.attach_has_room(connection_id),
        ensures
            (final(self)@, reply@) == old(self)@.terminal_attached(
                id@,
                stream,
                *params,
                resolved@,
            ),
            final(self)@.wf(),
    {
        let ghost start = self@;
        proof {
            super::preservation::lemma_terminal_attached_wf(
                start,
                id@,
                stream,
                *params,
                resolved@,
            );
        }
        let connection_id: u64 = match self.control_connection_id(stream) {
            Ok(connection_id) => connection_id,
            Err(message) => {
                return error(id, ErrorCode::ControlStreamRequired, message);
            },
        };
        let ghost pruned = self@;
        proof {
            super::soundness::lemma_pruned_frames(start, connection_id);
            super::soundness::lemma_frames(start, pruned);
            super::soundness::lemma_open_connection(start, connection_id);
        }
        let (terminal_id, pane_id): (String, Option<String>) = match resolved {
            TargetResolution::Found { terminal_id, pane_id } => (terminal_id, pane_id),
            TargetResolution::Ambiguous { target } => {
                return error(
                    id,
                    ErrorCode::AmbiguousTarget,
                    joined("terminal target ", target.as_str(), " matches more than one terminal"),
                );
            },
            TargetResolution::NotFound => {
                if self.app.control_runtime(params.target.as_str()).is_none() {
                    return error(
                        id,
                        ErrorCode::NotFound,
                        joined("terminal target ", params.target.as_str(), " not found"),
                    );
                }
                (params.target.clone(), None)
            },
        };
        if self.app.read_in_progress(terminal_id.as_str()) {
            return error(
                id,
                ErrorCode::TerminalBusy,
                joined("terminal ", terminal_id.as_str(), " has a read in progress; retry"),
            );
        }
        let requester_protocol: u32 = match self.connection_index(connection_id) {
            Some(index) => self.control_connections[index].protocol,
            None => 1,
        };
        let existing = self.control_attaches_for_terminal(terminal_id.as_str());
        let conflict = conflicts(
            &existing,
            self.terminal_attach_owners.contains_key(terminal_id.as_str()),
            connection_id,
            requester_protocol,
            params.geometry,
        );
        if conflict && !params.takeover {
            return error(
                id,
                ErrorCode::TerminalAttached,
                joined(
                    "terminal ",
                    terminal_id.as_str(),
                    " already has an attached client; retry with takeover",
                ),
            );
        }
        self.retire_own_attaches(connection_id, terminal_id.as_str());
        proof {
            lemma_retired_frames(pruned, connection_id, terminal_id@);
            super::soundness::lemma_frames(start, self@);
        }
        if params.takeover {
            let ghost retired = self@;
            self.take_over(terminal_id.as_str(), params.geometry);
            proof {
                lemma_taken_over_frames(retired, terminal_id@, params.geometry);
                super::soundness::lemma_frames(start, self@);
            }
        }
        proof {
            let i = start.connection_index(connection_id)->Some_0;
            assert(start.control_connections[i].frame() == self@.control_connections[i].frame());
            assert(start.control_connections[i].wf());
        }
        self.join(id, connection_id, terminal_id, pane_id, params)
    }
}

} // verus!
