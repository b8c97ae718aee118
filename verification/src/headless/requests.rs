//! The requests of a control stream, beside attaching.

use vstd::prelude::*;

use super::attach::snapshot_failed;
use super::state::{
    ControlConnectionState, ControlEffect, ControlTabGeometry, HeadlessServer, HostCellSize,
    CONTROL_CONNECTION_ID_BASE,
};
use crate::control::{control_features, ControlConnectionHandle, CONTROL_STREAM_PROTOCOL};
use crate::schema::{
    error, success, ControlClientInfo, ErrorCode, Reply, ResponseResult, ServerCapabilities,
    TabClaimGeometryParams, TabSetGeometryParams, TerminalAttachGeometry, TerminalAttachTarget,
    TerminalDetachReason, TerminalResizeParams,
};
use crate::table::TextTable;
use crate::text::{joined, same_text};

verus! {

/// The protocol that a connection speaks: what the client declared, clamped
/// to what the server knows. No declared protocol means protocol 1:
/// one owner per terminal, no authority records.
pub open spec fn negotiated(client: Option<crate::schema::ClientModel>) -> u32 {
    match client {
        Some(client) => if client.protocol < 1 {
            1
        } else if client.protocol > CONTROL_STREAM_PROTOCOL {
            CONTROL_STREAM_PROTOCOL
        } else {
            client.protocol
        },
        None => 1,
    }
}

/// The protocol that a connection speaks.
fn negotiate(client: &Option<ControlClientInfo>) -> (protocol: u32)
    ensures
        protocol == negotiated(crate::schema::client_view(*client)),
{
    match client {
        Some(client) => if client.protocol < 1 {
            1
        } else if client.protocol > CONTROL_STREAM_PROTOCOL {
            CONTROL_STREAM_PROTOCOL
        } else {
            client.protocol
        },
        None => 1,
    }
}

/// What the server advertises about control streams.
pub fn default_server_capabilities() -> (capabilities: ServerCapabilities)
    ensures
        capabilities.terminal_control_stream == CONTROL_STREAM_PROTOCOL,
        crate::schema::feature_views(capabilities.control_features@)
            == crate::control::control_feature_names(),
{
    ServerCapabilities {
        terminal_control_stream: CONTROL_STREAM_PROTOCOL,
        control_features: control_features(),
    }
}

/// The answer of a request with nothing to report.
pub open spec fn done(id: Seq<char>) -> crate::schema::ReplyModel {
    crate::schema::ReplyModel::Success { id, result: crate::schema::ResultModel::Done }
}

/// The failure of a request that names no live attach.
pub open spec fn unknown_attach(id: Seq<char>, attach_id: Seq<char>) -> crate::schema::ReplyModel {
    crate::schema::failure(
        id,
        ErrorCode::UnknownAttach,
        "attach "@ + attach_id + " is not live"@,
    )
}

/// The failure of a request on a terminal that is not running.
pub open spec fn terminal_not_found(
    id: Seq<char>,
    terminal_id: Seq<char>,
) -> crate::schema::ReplyModel {
    crate::schema::failure(id, ErrorCode::NotFound, "terminal "@ + terminal_id + " not found"@)
}

/// The failure of a request on a tab that does not exist.
pub open spec fn tab_not_found(id: Seq<char>, tab_id: Seq<char>) -> crate::schema::ReplyModel {
    crate::schema::failure(id, ErrorCode::NotFound, "tab "@ + tab_id + " not found"@)
}

/// The failure of a request that belongs on an open stream.
pub open spec fn stream_required(id: Seq<char>, message: Seq<char>) -> crate::schema::ReplyModel {
    crate::schema::failure(id, ErrorCode::ControlStreamRequired, message)
}

/// Attaches of that id.
pub open spec fn named(attach_id: Seq<char>) -> spec_fn(super::state::AttachModel) -> bool {
    |a: super::state::AttachModel| a.attach_id == attach_id
}

/// A size as `tab.set_geometry` leaves it: the time of the last interaction
/// moves only when the request claims, or stores a first size.
pub open spec fn stored_geometry(
    c: super::state::ConnectionModel,
    params: TabSetGeometryParams,
    stamp: u64,
) -> ControlTabGeometry {
    ControlTabGeometry {
        cols: params.cols,
        rows: params.rows,
        cell_size: HostCellSize {
            width_px: params.cell_width_px,
            height_px: params.cell_height_px,
        },
        chrome: params.chrome,
        last_interaction: if params.claim || !c.holds_tab(params.tab_id@) {
            stamp
        } else {
            c.tab_geometry[params.tab_id@].last_interaction
        },
    }
}

impl super::state::ConnectionModel {
    /// The connection with a size stored for a tab.
    pub open spec fn with_tab(
        self,
        tab_id: Seq<char>,
        geometry: ControlTabGeometry,
    ) -> super::state::ConnectionModel {
        super::state::ConnectionModel {
            tab_geometry: self.tab_geometry.insert(tab_id, geometry),
            ..self
        }
    }
}

/// What a request for a snapshot comes to.
#[verifier::ext_equal]
pub enum SnapshotModel {
    Answer { reply: crate::schema::ReplyModel },
    Take { terminal_id: Seq<char>, attach_id: Seq<char>, history_limit_bytes: usize },
}

/// What a request for a snapshot comes to.
#[derive(Debug)]
pub enum SnapshotStep {
    /// There is nothing to capture.
    Answer { reply: Reply },
    /// A capture of the terminal goes out on the attach's tap;
    /// `control_terminal_snapshot_taken` answers.
    Take { terminal_id: String, attach_id: String, history_limit_bytes: usize },
}

impl View for SnapshotStep {
    type V = SnapshotModel;

    open spec fn view(&self) -> SnapshotModel {
        match *self {
            SnapshotStep::Answer { reply } => SnapshotModel::Answer { reply: reply@ },
            SnapshotStep::Take { terminal_id, attach_id, history_limit_bytes } =>
                SnapshotModel::Take {
                terminal_id: terminal_id@,
                attach_id: attach_id@,
                history_limit_bytes,
            },
        }
    }
}

impl super::state::ServerModel {
    /// A connection as it stands right after `control.open`.
    pub open spec fn opened_connection(
        self,
        client: Option<crate::schema::ClientModel>,
    ) -> super::state::ConnectionModel {
        let connection_id = (CONTROL_CONNECTION_ID_BASE + self.next_control_connection_id) as u64;
        super::state::ConnectionModel {
            connection_id,
            handle: crate::control::HandleModel {
                id: connection_id,
                protocol: negotiated(client),
                ..crate::control::HandleModel::fresh()
            },
            attaches: Seq::empty(),
            tab_geometry: Map::empty(),
            next_attach: 0,
            client,
            protocol: negotiated(client),
        }
    }

    /// The server and the answer once a stream was opened.
    pub open spec fn opened(
        self,
        id: Seq<char>,
        stream: Option<u64>,
        client: Option<crate::schema::ClientModel>,
    ) -> (super::state::ServerModel, crate::schema::ReplyModel) {
        match stream {
            None => (
                self,
                stream_required(
                    id,
                    "control.open must be the first request on its own connection"@,
                ),
            ),
            Some(connection_id) => if connection_id != 0 {
                (
                    self,
                    crate::schema::failure(
                        id,
                        ErrorCode::UnsupportedInControlStream,
                        "control stream is already open"@,
                    ),
                )
            } else {
                let c = self.opened_connection(client);
                (
                    super::state::ServerModel {
                        control_connections: self.control_connections.push(c),
                        next_control_connection_id: (self.next_control_connection_id + 1) as u64,
                        ..self
                    },
                    crate::schema::ReplyModel::Success {
                        id,
                        result: crate::schema::ResultModel::ControlOpened {
                            connection_id: c.connection_id,
                            boot_id: self.client_shell_boot_id,
                            version: self.version,
                            protocol: self.protocol_version,
                            terminal_control_stream: CONTROL_STREAM_PROTOCOL,
                            control_features: crate::control::control_feature_names(),
                            control_protocol: c.protocol,
                        },
                    },
                )
            },
        }
    }

    /// The server and the answer once a stream asked to be closed.
    pub open spec fn closed_by(
        self,
        id: Seq<char>,
        stream: Option<u64>,
    ) -> (super::state::ServerModel, crate::schema::ReplyModel) {
        match stream {
            None => (
                self,
                stream_required(id, "control.close is only available on a control stream"@),
            ),
            Some(connection_id) => (self.released_connection(connection_id), done(id)),
        }
    }

    /// The server and the answer once an open connection asked for an attach
    /// to end.
    pub open spec fn detached_by(
        self,
        id: Seq<char>,
        connection_id: u64,
        attach_id: Seq<char>,
    ) -> (super::state::ServerModel, crate::schema::ReplyModel) {
        match self.connection_index(connection_id) {
            None => (self, stream_required(id, "control stream is not open"@)),
            Some(i) => {
                let c = self.control_connections[i];
                match c.attach(attach_id) {
                    None => (self, unknown_attach(id, attach_id)),
                    Some(attach) => (
                        self.with_connection(i, c.without(named(attach_id))).released_attaches(
                            c.attaches.filter(named(attach_id)),
                            TerminalDetachReason::Closed,
                        ).synced_query_authority(
                            attach.terminal_id,
                        ).synced_control_geometry_tabs(),
                        done(id),
                    ),
                }
            },
        }
    }

    /// The server and the answer once a stream asked for an attach to end.
    pub open spec fn terminal_detached(
        self,
        id: Seq<char>,
        stream: Option<u64>,
        attach_id: Seq<char>,
    ) -> (super::state::ServerModel, crate::schema::ReplyModel) {
        match self.stream_refusal(stream) {
            Some(message) => (self, stream_required(id, message)),
            None => self.pruned(stream->Some_0).detached_by(id, stream->Some_0, attach_id),
        }
    }

    /// An attach of a connection.
    pub open spec fn attach_of(
        self,
        connection_id: u64,
        attach_id: Seq<char>,
    ) -> Option<super::state::AttachModel> {
        match self.connection_index(connection_id) {
            Some(i) => self.control_connections[i].attach(attach_id),
            None => None,
        }
    }

    /// What a stream's request for a snapshot comes to.
    pub open spec fn snapshot_step(
        self,
        id: Seq<char>,
        stream: Option<u64>,
        attach_id: Seq<char>,
    ) -> SnapshotModel {
        match self.stream_refusal(stream) {
            Some(message) => SnapshotModel::Answer { reply: stream_required(id, message) },
            None => match self.pruned(stream->Some_0).attach_of(stream->Some_0, attach_id) {
                None => SnapshotModel::Answer { reply: unknown_attach(id, attach_id) },
                Some(attach) => if self.app.running(attach.terminal_id) {
                    SnapshotModel::Take {
                        terminal_id: attach.terminal_id,
                        attach_id,
                        history_limit_bytes: attach.history_limit_bytes,
                    }
                } else {
                    SnapshotModel::Answer { reply: terminal_not_found(id, attach.terminal_id) }
                },
            },
        }
    }

    /// The server once a stream's request was looked at: attaches whose
    /// terminal went away are forgotten.
    pub open spec fn looked_at(self, stream: Option<u64>) -> super::state::ServerModel {
        match self.stream_refusal(stream) {
            Some(_) => self,
            None => self.pruned(stream->Some_0),
        }
    }

    /// The server and the answer once an open connection asked for a size of
    /// one terminal.
    pub open spec fn resized_by(
        self,
        id: Seq<char>,
        connection_id: u64,
        params: TerminalResizeParams,
    ) -> (super::state::ServerModel, crate::schema::ReplyModel) {
        match self.attach_of(connection_id, params.attach_id@) {
            None => (self, unknown_attach(id, params.attach_id@)),
            Some(attach) => if attach.geometry != TerminalAttachGeometry::Terminal {
                (
                    self,
                    crate::schema::failure(
                        id,
                        ErrorCode::GeometryFollowsTab,
                        "this attach follows its tab layout; use tab.set_geometry"@,
                    ),
                )
            } else if params.cols == 0 || params.rows == 0 {
                (
                    self,
                    crate::schema::failure(
                        id,
                        ErrorCode::InvalidRequest,
                        "terminal.resize cols and rows must be greater than 0"@,
                    ),
                )
            } else if !self.app.running(attach.terminal_id) {
                (self, terminal_not_found(id, attach.terminal_id))
            } else {
                (
                    self.with_effect(
                        super::state::EffectModel::ResizeTerminal {
                            terminal_id: attach.terminal_id,
                            rows: params.rows,
                            cols: params.cols,
                            cell_width_px: params.cell_width_px,
                            cell_height_px: params.cell_height_px,
                        },
                    ),
                    done(id),
                )
            },
        }
    }

    /// The server and the answer once a stream asked for a size of one
    /// terminal.
    pub open spec fn terminal_resized(
        self,
        id: Seq<char>,
        stream: Option<u64>,
        params: TerminalResizeParams,
    ) -> (super::state::ServerModel, crate::schema::ReplyModel) {
        match self.stream_refusal(stream) {
            Some(message) => (self, stream_required(id, message)),
            None => self.pruned(stream->Some_0).resized_by(id, stream->Some_0, params),
        }
    }

    /// The server with the next activity stamp handed out.
    pub open spec fn stamped(self) -> super::state::ServerModel {
        super::state::ServerModel {
            next_activity_stamp: (self.next_activity_stamp + 1) as u64,
            ..self
        }
    }

    /// The server and the answer once an open connection stored a size for a
    /// tab. The size takes effect when the request claims the tab or the
    /// connection owns it already; else it waits for a later claim.
    pub open spec fn tab_set_by(
        self,
        id: Seq<char>,
        connection_id: u64,
        params: TabSetGeometryParams,
    ) -> (super::state::ServerModel, crate::schema::ReplyModel) {
        if params.cols == 0 || params.rows == 0 {
            (
                self,
                crate::schema::failure(
                    id,
                    ErrorCode::InvalidRequest,
                    "tab.set_geometry cols and rows must be greater than 0"@,
                ),
            )
        } else if self.app.parse_tab_id(params.tab_id@) is None {
            (self, tab_not_found(id, params.tab_id@))
        } else {
            match self.connection_index(connection_id) {
                None => (self.stamped(), stream_required(id, "control stream is not open"@)),
                Some(i) => {
                    let c = self.control_connections[i];
                    let geometry = stored_geometry(c, params, self.next_activity_stamp);
                    let stored = self.stamped().with_connection(
                        i,
                        c.with_tab(params.tab_id@, geometry),
                    );
                    (
                        if params.claim || self.controller(params.tab_id@) == Some(connection_id) {
                            stored.claimed(connection_id, params.tab_id@, geometry)
                        } else {
                            stored.synced_control_geometry_tabs()
                        },
                        done(id),
                    )
                },
            }
        }
    }

    /// The server and the answer once a stream stored a size for a tab.
    pub open spec fn tab_set(
        self,
        id: Seq<char>,
        stream: Option<u64>,
        params: TabSetGeometryParams,
    ) -> (super::state::ServerModel, crate::schema::ReplyModel) {
        match self.stream_refusal(stream) {
            Some(message) => (self, stream_required(id, message)),
            None => self.pruned(stream->Some_0).tab_set_by(id, stream->Some_0, params),
        }
    }

    /// The tab that a claim names, itself or through an attach, or why there
    /// is none.
    pub open spec fn claimed_tab(
        self,
        connection_id: u64,
        params: TabClaimGeometryParams,
    ) -> Result<Seq<char>, (ErrorCode, Seq<char>)> {
        match (params.tab_id, params.attach_id) {
            (Some(tab_id), _) => Ok(tab_id@),
            (None, Some(attach_id)) => match self.attach_of(connection_id, attach_id@) {
                None => Err((ErrorCode::UnknownAttach, "attach "@ + attach_id@ + " is not live"@)),
                Some(attach) => match self.app.tab_of_terminal(attach.terminal_id) {
                    None => Err(
                        (
                            ErrorCode::NotFound,
                            "terminal "@ + attach.terminal_id + " is not in a tab"@,
                        ),
                    ),
                    Some(tab_id) => Ok(tab_id),
                },
            },
            (None, None) => Err(
                (ErrorCode::InvalidRequest, "tab.claim_geometry needs tab_id or attach_id"@),
            ),
        }
    }

    /// The server and the answer once an open connection claimed a tab with
    /// the size it stored.
    pub open spec fn tab_claimed_by(
        self,
        id: Seq<char>,
        connection_id: u64,
        params: TabClaimGeometryParams,
    ) -> (super::state::ServerModel, crate::schema::ReplyModel) {
        match self.claimed_tab(connection_id, params) {
            Err((code, message)) => (self, crate::schema::failure(id, code, message)),
            Ok(tab_id) => if self.app.parse_tab_id(tab_id) is None {
                (self, tab_not_found(id, tab_id))
            } else {
                let i = self.connection_index(connection_id)->Some_0;
                let c = self.control_connections[i];
                if self.connection_index(connection_id) is None || !c.holds_tab(tab_id) {
                    (
                        self.stamped(),
                        crate::schema::failure(
                            id,
                            ErrorCode::NoGeometry,
                            "no size stored for tab "@ + tab_id
                                + "; send tab.set_geometry first"@,
                        ),
                    )
                } else {
                    let geometry = ControlTabGeometry {
                        last_interaction: self.next_activity_stamp,
                        ..c.tab_geometry[tab_id]
                    };
                    (
                        self.stamped().with_connection(i, c.with_tab(tab_id, geometry)).claimed(
                            connection_id,
                            tab_id,
                            geometry,
                        ),
                        done(id),
                    )
                }
            },
        }
    }

    /// The server and the answer once a stream claimed a tab with the size it
    /// stored.
    pub open spec fn tab_claimed(
        self,
        id: Seq<char>,
        stream: Option<u64>,
        params: TabClaimGeometryParams,
    ) -> (super::state::ServerModel, crate::schema::ReplyModel) {
        match self.stream_refusal(stream) {
            Some(message) => (self, stream_required(id, message)),
            None => self.pruned(stream->Some_0).tab_claimed_by(id, stream->Some_0, params),
        }
    }
}

/// Forgetting attaches whose terminal went away leaves everything but the
/// connection's attaches and derived state alone.
pub proof fn lemma_pruned_rest(server: super::state::ServerModel, connection_id: u64)
    ensures
        server.pruned(connection_id).next_activity_stamp == server.next_activity_stamp,
        server.pruned(connection_id).next_control_connection_id
            == server.next_control_connection_id,
        server.pruned(connection_id).app == server.app,
        server.pruned(connection_id).tab_geometry_controllers == server.tab_geometry_controllers,
        server.pruned(connection_id).terminal_attach_owners == server.terminal_attach_owners,
        server.pruned(connection_id).clients == server.clients,
        server.pruned(connection_id).direct_attach_resize_locks
            == server.direct_attach_resize_locks,
        server.pruned(connection_id).now == server.now,
{
    if let Some(i) = server.connection_index(connection_id) {
        let without = server.with_connection(
            i,
            server.control_connections[i].without(server.gone()),
        );
        super::soundness::lemma_geometry_sync_bare(without);
        let synced = without.synced_control_geometry_tabs();
        assert(synced.next_activity_stamp == synced.bare().next_activity_stamp);
        assert(without.next_activity_stamp == without.bare().next_activity_stamp);
    }
}

/// The answer when a request names no live attach.
fn not_live(id: String, attach_id: &str) -> (reply: Reply)
    ensures
        reply@ == unknown_attach(id@, attach_id@),
{
    error(id, ErrorCode::UnknownAttach, joined("attach ", attach_id, " is not live"))
}

impl HeadlessServer {
    /// Hands out activity stamps, each later than the one before.
    pub fn allocate_activity_stamp(&mut self) -> (stamp: u64)
        requires
            old(self)@.next_activity_stamp < u64::MAX,
        ensures
            stamp == old(self)@.next_activity_stamp,
            final(self)@ == old(self)@.stamped(),
            final(self).control_connections == old(self).control_connections,
    {
        let stamp: u64 = self.next_activity_stamp;
        self.next_activity_stamp = stamp + 1;
        stamp
    }

    /// Opens a control stream.
    pub fn control_open(
        &mut self,
        id: String,
        stream: Option<u64>,
        client: Option<ControlClientInfo>,
    ) -> (reply: Reply)
        requires
            CONTROL_CONNECTION_ID_BASE + old(self)@.next_control_connection_id < u64::MAX,
        ensures
            (final(self)@, reply@) == old(self)@.opened(
                id@,
                stream,
                crate::schema::client_view(client),
            ),
    {
        let current: u64 = match stream {
            Some(current) => current,
            None => {
                return error(
                    id,
                    ErrorCode::ControlStreamRequired,
                    "control.open must be the first request on its own connection".to_owned(),
                );
            },
        };
        if current != 0 {
            return error(
                id,
                ErrorCode::UnsupportedInControlStream,
                "control stream is already open".to_owned(),
            );
        }
        let ghost start = self@;
        let connection_id: u64 = CONTROL_CONNECTION_ID_BASE + self.next_control_connection_id;
        self.next_control_connection_id = self.next_control_connection_id + 1;
        let protocol: u32 = negotiate(&client);
        let mut handle = ControlConnectionHandle::new();
        handle.assign_id(connection_id);
        handle.set_protocol(protocol);
        let state = ControlConnectionState {
            connection_id,
            handle,
            attaches: Vec::new(),
            tab_geometry: TextTable::new(),
            next_attach: 0,
            client,
            protocol,
        };
        proof {
            assert(state@.attaches =~= Seq::empty());
            assert(state@ == start.opened_connection(crate::schema::client_view(client)));
        }
        self.control_connections.push(state);
        assert(self@.control_connections =~= start.control_connections.push(state@));
        success(
            id,
            ResponseResult::ControlOpened {
                connection_id,
                boot_id: self.client_shell_boot_id.clone(),
                version: self.version.clone(),
                protocol: self.protocol_version,
                capabilities: default_server_capabilities(),
                control_protocol: protocol,
            },
        )
    }

    /// Closes a control stream. Safe before `control.open` registered
    /// anything: unknown ids are ignored.
    pub fn control_close(&mut self, id: String, stream: Option<u64>) -> (reply: Reply)
        ensures
            (final(self)@, reply@) == old(self)@.closed_by(id@, stream),
    {
        match stream {
            Some(connection_id) => {
                self.release_control_connection(connection_id);
                success(id, ResponseResult::Done)
            },
            None => error(
                id,
                ErrorCode::ControlStreamRequired,
                "control.close is only available on a control stream".to_owned(),
            ),
        }
    }

    /// Flags the attaches of that id of the connection at `index`.
    fn flag_named(&self, index: usize, attach_id: &str) -> (flags: Vec<bool>)
        requires
            index < self.control_connections@.len(),
        ensures
            flags@.len() == self@.control_connections[index as int].attaches.len(),
            forall|k: int|
                0 <= k < flags@.len() ==> #[trigger] flags@[k] == named(attach_id@)(
                    self@.control_connections[index as int].attaches[k],
                ),
    {
        let state = &self.control_connections[index];
        let mut flags: Vec<bool> = Vec::new();
        let mut i: usize = 0;
        while i < state.attaches.len()
            invariant
                0 <= i <= state.attaches.len(),
                flags@.len() == i,
                forall|k: int|
                    0 <= k < i ==> #[trigger] flags@[k] == named(attach_id@)(state@.attaches[k]),
            decreases state.attaches.len() - i,
        {
            assert(state@.attaches[i as int] == state.attaches@[i as int]@);
            flags.push(same_text(state.attaches[i].attach_id.as_str(), attach_id));
            i += 1;
        }
        flags
    }

    /// Ends one attach of a stream.
    pub fn control_terminal_detach(
        &mut self,
        id: String,
        stream: Option<u64>,
        params: &TerminalAttachTarget,
    ) -> (reply: Reply)
        ensures
            (final(self)@, reply@) == old(self)@.terminal_detached(
                id@,
                stream,
                params.attach_id@,
            ),
    {
        let connection_id: u64 = match self.control_connection_id(stream) {
            Ok(connection_id) => connection_id,
            Err(message) => {
                return error(id, ErrorCode::ControlStreamRequired, message);
            },
        };
        let ghost start = self@;
        let index: usize = match self.connection_index(connection_id) {
            Some(index) => index,
            None => {
                return error(
                    id,
                    ErrorCode::ControlStreamRequired,
                    "control stream is not open".to_owned(),
                );
            },
        };
        let ghost c = start.control_connections[index as int];
        assert(c == self.control_connections@[index as int]@);
        let attach_id = params.attach_id.as_str();
        let terminal_id = match self.control_connections[index].attach_index(attach_id) {
            Some(at) => self.control_connections[index].attaches[at].terminal_id.clone(),
            None => {
                return not_live(id, attach_id);
            },
        };
        let flags = self.flag_named(index, attach_id);
        let removed = self.control_connections[index].remove_attaches(
            &flags,
            Ghost(named(attach_id@)),
        );
        assert(self@.control_connections =~= start.control_connections.update(
            index as int,
            c.without(named(attach_id@)),
        ));
        self.release_control_attaches(&removed, TerminalDetachReason::Closed);
        self.sync_query_authority(terminal_id.as_str());
        self.sync_control_geometry_tabs();
        success(id, ResponseResult::Done)
    }

    /// Where an attach of a connection stands.
    fn find_attach(&self, connection_id: u64, attach_id: &str) -> (place: Option<(usize, usize)>)
        ensures
            match place {
                Some((i, k)) => {
                    &&& i < self.control_connections@.len()
                    &&& k < self.control_connections@[i as int].attaches@.len()
                    &&& self@.attach_of(connection_id, attach_id@) == Some(
                        self.control_connections@[i as int].attaches@[k as int]@,
                    )
                },
                None => self@.attach_of(connection_id, attach_id@) is None,
            },
    {
        match self.connection_index(connection_id) {
            Some(index) => {
                assert(self@.control_connections[index as int]
                    == self.control_connections@[index as int]@);
                match self.control_connections[index].attach_index(attach_id) {
                    Some(at) => Some((index, at)),
                    None => None,
                }
            },
            None => None,
        }
    }

    /// Decides what a stream's request for a snapshot comes to.
    pub fn control_terminal_snapshot(
        &mut self,
        id: String,
        stream: Option<u64>,
        params: &TerminalAttachTarget,
    ) -> (step: SnapshotStep)
        ensures
            final(self)@ == old(self)@.looked_at(stream),
            step@ == old(self)@.snapshot_step(id@, stream, params.attach_id@),
    {
        let ghost start = self@;
        let connection_id: u64 = match self.control_connection_id(stream) {
            Ok(connection_id) => connection_id,
            Err(message) => {
                return SnapshotStep::Answer {
                    reply: error(id, ErrorCode::ControlStreamRequired, message),
                };
            },
        };
        proof {
            lemma_pruned_rest(start, connection_id);
        }
        let (index, at): (usize, usize) = match self.find_attach(
            connection_id,
            params.attach_id.as_str(),
        ) {
            Some(place) => place,
            None => {
                return SnapshotStep::Answer { reply: not_live(id, params.attach_id.as_str()) };
            },
        };
        let attach = &self.control_connections[index].attaches[at];
        let terminal_id = attach.terminal_id.clone();
        if self.app.control_runtime(terminal_id.as_str()).is_none() {
            return SnapshotStep::Answer {
                reply: error(
                    id,
                    ErrorCode::NotFound,
                    joined("terminal ", terminal_id.as_str(), " not found"),
                ),
            };
        }
        SnapshotStep::Take {
            terminal_id,
            attach_id: params.attach_id.clone(),
            history_limit_bytes: attach.history_limit_bytes,
        }
    }

    /// Resizes the terminal of an attach that sizes it.
    pub fn control_terminal_resize(
        &mut self,
        id: String,
        stream: Option<u64>,
        params: &TerminalResizeParams,
    ) -> (reply: Reply)
        ensures
            (final(self)@, reply@) == old(self)@.terminal_resized(id@, stream, *params),
    {
        let connection_id: u64 = match self.control_connection_id(stream) {
            Ok(connection_id) => connection_id,
            Err(message) => {
                return error(id, ErrorCode::ControlStreamRequired, message);
            },
        };
        let (index, at): (usize, usize) = match self.find_attach(
            connection_id,
            params.attach_id.as_str(),
        ) {
            Some(place) => place,
            None => {
                return not_live(id, params.attach_id.as_str());
            },
        };
        let attach = &self.control_connections[index].attaches[at];
        let terminal_id = attach.terminal_id.clone();
        if attach.geometry != TerminalAttachGeometry::Terminal {
            return error(
                id,
                ErrorCode::GeometryFollowsTab,
                "this attach follows its tab layout; use tab.set_geometry".to_owned(),
            );
        }
        if params.cols == 0 || params.rows == 0 {
            return error(
                id,
                ErrorCode::InvalidRequest,
                "terminal.resize cols and rows must be greater than 0".to_owned(),
            );
        }
        if self.app.control_runtime(terminal_id.as_str()).is_none() {
            return error(
                id,
                ErrorCode::NotFound,
                joined("terminal ", terminal_id.as_str(), " not found"),
            );
        }
        self.push_effect(
            ControlEffect::ResizeTerminal {
                terminal_id,
                rows: params.rows,
                cols: params.cols,
                cell_width_px: params.cell_width_px,
                cell_height_px: params.cell_height_px,
            },
        );
        success(id, ResponseResult::Done)
    }

    /// Stores a stream's size for a tab and, unless it is only to be stored,
    /// lays the tab out at it.
    pub fn control_tab_set_geometry(
        &mut self,
        id: String,
        stream: Option<u64>,
        params: &TabSetGeometryParams,
    ) -> (reply: Reply)
        requires
            old(self)@.next_activity_stamp < u64::MAX,
        ensures
            (final(self)@, reply@) == old(self)@.tab_set(id@, stream, *params),
    {
        let ghost start = self@;
        let connection_id: u64 = match self.control_connection_id(stream) {
            Ok(connection_id) => connection_id,
            Err(message) => {
                return error(id, ErrorCode::ControlStreamRequired, message);
            },
        };
        proof {
            lemma_pruned_rest(start, connection_id);
        }
        let ghost pruned = self@;
        if params.cols == 0 || params.rows == 0 {
            return error(
                id,
                ErrorCode::InvalidRequest,
                "tab.set_geometry cols and rows must be greater than 0".to_owned(),
            );
        }
        let tab_id = params.tab_id.as_str();
        if self.app.parse_tab_id(tab_id).is_none() {
            return error(id, ErrorCode::NotFound, joined("tab ", tab_id, " not found"));
        }
        let owns = match self.controller(tab_id) {
            Some(controller) => controller == connection_id,
            None => false,
        };
        let stamp: u64 = self.allocate_activity_stamp();
        let ghost stamped = self@;
        let index: usize = match self.connection_index(connection_id) {
            Some(index) => index,
            None => {
                return error(
                    id,
                    ErrorCode::ControlStreamRequired,
                    "control stream is not open".to_owned(),
                );
            },
        };
        let ghost c = pruned.control_connections[index as int];
        assert(c == self.control_connections@[index as int]@);
        let last_interaction: u64 = match self.control_connections[index].tab_geometry.get(
            tab_id,
        ) {
            Some(geometry) => if params.claim {
                stamp
            } else {
                geometry.last_interaction
            },
            None => stamp,
        };
        let geometry = ControlTabGeometry {
            cols: params.cols,
            rows: params.rows,
            cell_size: HostCellSize {
                width_px: params.cell_width_px,
                height_px: params.cell_height_px,
            },
            chrome: params.chrome,
            last_interaction,
        };
        self.control_connections[index].tab_geometry.insert(params.tab_id.clone(), geometry);
        assert(self@.control_connections =~= stamped.control_connections.update(
            index as int,
            c.with_tab(tab_id@, geometry),
        ));
        if params.claim || owns {
            self.claim_control_tab_geometry(connection_id, tab_id, geometry);
        } else {
            // Stored only: the size applies when this stream claims later.
            self.sync_control_geometry_tabs();
        }
        success(id, ResponseResult::Done)
    }

    /// Takes a tab with the size the stream stored for it.
    pub fn control_tab_claim_geometry(
        &mut self,
        id: String,
        stream: Option<u64>,
        params: &TabClaimGeometryParams,
    ) -> (reply: Reply)
        requires
            old(self)@.next_activity_stamp < u64::MAX,
        ensures
            (final(self)@, reply@) == old(self)@.tab_claimed(id@, stream, *params),
    {
        let ghost start = self@;
        let connection_id: u64 = match self.control_connection_id(stream) {
            Ok(connection_id) => connection_id,
            Err(message) => {
                return error(id, ErrorCode::ControlStreamRequired, message);
            },
        };
        proof {
            lemma_pruned_rest(start, connection_id);
        }
        let ghost pruned = self@;
        let tab_id: String = match (&params.tab_id, &params.attach_id) {
            (Some(tab_id), _) => tab_id.clone(),
            (None, Some(attach_id)) => {
                let (index, at): (usize, usize) = match self.find_attach(
                    connection_id,
                    attach_id.as_str(),
                ) {
                    Some(place) => place,
                    None => {
                        return not_live(id, attach_id.as_str());
                    },
                };
                let terminal_id = self.control_connections[index].attaches[at].terminal_id.clone();
                match self.app.tab_of_terminal(terminal_id.as_str()) {
                    Some(tab_id) => tab_id,
                    None => {
                        return error(
                            id,
                            ErrorCode::NotFound,
                            joined("terminal ", terminal_id.as_str(), " is not in a tab"),
                        );
                    },
                }
            },
            (None, None) => {
                return error(
                    id,
                    ErrorCode::InvalidRequest,
                    "tab.claim_geometry needs tab_id or attach_id".to_owned(),
                );
            },
        };
        if self.app.parse_tab_id(tab_id.as_str()).is_none() {
            return error(id, ErrorCode::NotFound, joined("tab ", tab_id.as_str(), " not found"));
        }
        let stamp: u64 = self.allocate_activity_stamp();
        let ghost stamped = self@;
        let stored: Option<(usize, ControlTabGeometry)> = match self.connection_index(
            connection_id,
        ) {
            Some(index) => match self.control_connections[index].tab_geometry.get(
                tab_id.as_str(),
            ) {
                Some(geometry) => Some((index, *geometry)),
                None => None,
            },
            None => None,
        };
        let (index, held): (usize, ControlTabGeometry) = match stored {
            Some(stored) => stored,
            None => {
                return error(
                    id,
                    ErrorCode::NoGeometry,
                    joined(
                        "no size stored for tab ",
                        tab_id.as_str(),
                        "; send tab.set_geometry first",
                    ),
                );
            },
        };
        let ghost c = pruned.control_connections[index as int];
        assert(c == self.control_connections@[index as int]@);
        let geometry = ControlTabGeometry {
            cols: held.cols,
            rows: held.rows,
            cell_size: held.cell_size,
            chrome: held.chrome,
            last_interaction: stamp,
        };
        self.control_connections[index].tab_geometry.insert(tab_id.clone(), geometry);
        assert(self@.control_connections =~= stamped.control_connections.update(
            index as int,
            c.with_tab(tab_id@, geometry),
        ));
        self.claim_control_tab_geometry(connection_id, tab_id.as_str(), geometry);
        success(id, ResponseResult::Done)
    }
}

/// The answer once a requested snapshot was captured, or was not.
pub fn control_terminal_snapshot_taken(id: String, terminal_id: &str, captured: bool) -> (reply:
    Reply)
    ensures
        captured ==> reply@ == done(id@),
        !captured ==> reply@ == crate::schema::failure(
            id@,
            ErrorCode::SnapshotFailed,
            "terminal "@ + terminal_id@ + " could not be snapshotted"@,
        ),
{
    if captured {
        success(id, ResponseResult::Done)
    } else {
        snapshot_failed(id, terminal_id)
    }
}

} // verus!
