//! The server's state and what contracts see of it.

use std::collections::HashMap;

use vstd::prelude::*;

use super::app::{AppView, TabSurfaceTarget};
use crate::control::ControlConnectionHandle;
use crate::schema::{
    ControlClientInfo, GeometryController, PaneLayoutSnapshot, Reply, TabChrome,
    TerminalAttachGeometry, TerminalDetachReason, TerminalQueryAuthority,
};
use crate::table::{TextSet, TextTable};

verus! {

/// Control connection ids live above every client id so ownership maps can
/// hold both.
pub const CONTROL_CONNECTION_ID_BASE: u64 = 0x100_0000_0000;

pub const DEFAULT_HISTORY_LIMIT_BYTES: usize = 0x10_0000;

pub const MAX_HISTORY_LIMIT_BYTES: usize = 0x80_0000;

/// Whether an id names a control connection rather than a client.
pub open spec fn is_control(id: u64) -> bool {
    id >= CONTROL_CONNECTION_ID_BASE
}

/// Whether an id names a control connection rather than a client.
pub fn is_control_connection_id(id: u64) -> (control: bool)
    ensures
        control == is_control(id),
{
    id >= CONTROL_CONNECTION_ID_BASE
}

/// Which control attaches a takeover evicts from a terminal.
#[derive(Debug, Clone, Copy, PartialEq, Eq, Structural)]
pub enum EvictScope {
    /// Every attach: a size owner is arriving.
    All,
    /// A tab follower is arriving: size owners go, and so do followers on
    /// protocol 1 connections, which expect exclusive ownership.
    TabFollowerTakeover,
}

impl EvictScope {
    /// Whether an attach with that geometry on a connection of that protocol
    /// has to go.
    pub open spec fn covers(self, geometry: TerminalAttachGeometry, protocol: u32) -> bool {
        self == EvictScope::All || geometry == TerminalAttachGeometry::Terminal || protocol <= 1
    }

    /// Whether an attach with that geometry on a connection of that protocol
    /// has to go.
    pub fn evicts(self, geometry: TerminalAttachGeometry, protocol: u32) -> (evicted: bool)
        ensures
            evicted == self.covers(geometry, protocol),
    {
        match self {
            EvictScope::All => true,
            EvictScope::TabFollowerTakeover => {
                geometry == TerminalAttachGeometry::Terminal || protocol <= 1
            },
        }
    }
}

/// The size of a cell on the client's screen.
#[derive(Debug, Clone, Copy, PartialEq, Eq, Structural)]
pub struct HostCellSize {
    pub width_px: u32,
    pub height_px: u32,
}

/// Size and chrome a control connection asked for on one tab, whether or
/// not it currently owns the tab.
#[derive(Debug, Clone, Copy, PartialEq, Eq, Structural)]
pub struct ControlTabGeometry {
    pub cols: u16,
    pub rows: u16,
    pub cell_size: HostCellSize,
    pub chrome: TabChrome,
    /// Activity stamp of the last claim or input from this connection on
    /// the tab; the successor on owner disconnect is the highest.
    pub last_interaction: u64,
}

/// One raw attach of a control connection.
#[derive(Debug)]
pub struct ControlAttach {
    pub attach_id: String,
    pub terminal_id: String,
    pub geometry: TerminalAttachGeometry,
    pub history_limit_bytes: usize,
    pub answer_queries: TerminalQueryAuthority,
    pub answers_queries: bool,
    /// Creation order within the connection.
    pub seq: u64,
    /// Creation order among the attaches of all connections; the oldest
    /// attach on a terminal answers queries when nothing else decides.
    pub order: u64,
}

/// An attach, as contracts see it.
#[verifier::ext_equal]
pub struct AttachModel {
    pub attach_id: Seq<char>,
    pub terminal_id: Seq<char>,
    pub geometry: TerminalAttachGeometry,
    pub history_limit_bytes: usize,
    pub answer_queries: TerminalQueryAuthority,
    pub answers_queries: bool,
    pub seq: u64,
    pub order: u64,
}

impl View for ControlAttach {
    type V = AttachModel;

    open spec fn view(&self) -> AttachModel {
        AttachModel {
            attach_id: self.attach_id@,
            terminal_id: self.terminal_id@,
            geometry: self.geometry,
            history_limit_bytes: self.history_limit_bytes,
            answer_queries: self.answer_queries,
            answers_queries: self.answers_queries,
            seq: self.seq,
            order: self.order,
        }
    }
}

/// What the server keeps of one control connection.
pub struct ControlConnectionState {
    pub connection_id: u64,
    pub handle: ControlConnectionHandle,
    /// Attaches, oldest first.
    pub attaches: Vec<ControlAttach>,
    pub tab_geometry: TextTable<ControlTabGeometry>,
    pub next_attach: u64,
    pub client: Option<ControlClientInfo>,
    /// Negotiated control stream protocol, 1 for clients that sent none.
    pub protocol: u32,
}

/// A connection, as contracts see it.
#[verifier::ext_equal]
pub struct ConnectionModel {
    pub connection_id: u64,
    pub handle: crate::control::HandleModel,
    pub attaches: Seq<AttachModel>,
    pub tab_geometry: Map<Seq<char>, ControlTabGeometry>,
    pub next_attach: u64,
    pub client: Option<crate::schema::ClientModel>,
    pub protocol: u32,
}

/// The attaches of a list.
pub open spec fn attach_views(attaches: Seq<ControlAttach>) -> Seq<AttachModel> {
    Seq::new(attaches.len(), |i: int| attaches[i]@)
}

impl View for ControlConnectionState {
    type V = ConnectionModel;

    open spec fn view(&self) -> ConnectionModel {
        ConnectionModel {
            connection_id: self.connection_id,
            handle: self.handle@,
            attaches: attach_views(self.attaches@),
            tab_geometry: self.tab_geometry@,
            next_attach: self.next_attach,
            client: crate::schema::client_view(self.client),
            protocol: self.protocol,
        }
    }
}

/// Something to be done outside, in the order of the list.
#[derive(Debug)]
pub enum ControlEffect {
    /// Write an answer on a stream.
    SendReply { connection_id: u64, reply: Reply },
    /// Tap a terminal's raw output for an attach.
    AttachRaw {
        connection_id: u64,
        terminal_id: String,
        attach_id: String,
        suppress_responses: bool,
        protocol: u32,
    },
    /// End a raw tap; the stream is told why.
    DetachRaw { terminal_id: String, attach_id: String, reason: TerminalDetachReason },
    /// Put a snapshot on the attach's stream, or the failure to take one.
    SnapshotRaw {
        connection_id: u64,
        terminal_id: String,
        attach_id: String,
        history_limit_bytes: usize,
    },
    /// Tell a terminal which attach answers its queries.
    SetRawQueryAuthority { terminal_id: String, attach_id: Option<String> },
    /// Resize one terminal.
    ResizeTerminal {
        terminal_id: String,
        rows: u16,
        cols: u16,
        cell_width_px: u32,
        cell_height_px: u32,
    },
    /// Lay a tab out at a size, behind a layout boundary.
    LayOutTab { target: TabSurfaceTarget, cols: u16, rows: u16, cell_size: HostCellSize },
    /// Announce that a tab's geometry changed hands.
    GeometryChanged {
        tab_id: String,
        controller: GeometryController,
        previous: Option<GeometryController>,
    },
    /// Hand a tab back to the client or stream that sizes it.
    RestoreShellTab { controller_id: u64, target: TabSurfaceTarget },
    /// Resize every tab for the only shell client, if there is just one.
    ResizeForOnlyShellClient,
    /// Resize every tab for the only shell client, else re-apply the sizes of
    /// controlled tabs.
    RederiveShellGeometry,
    /// Shut a direct client down whose terminal was taken over.
    ShutDownClient { client_id: u64 },
    /// Send a tab's layout to every stream in the list.
    PushLayout { connections: Vec<u64>, layout: PaneLayoutSnapshot },
    /// A stream's connection is gone.
    StreamClosed { connection_id: u64 },
}

/// An effect, as contracts see it.
#[verifier::ext_equal]
pub enum EffectModel {
    SendReply { connection_id: u64, reply: crate::schema::ReplyModel },
    AttachRaw {
        connection_id: u64,
        terminal_id: Seq<char>,
        attach_id: Seq<char>,
        suppress_responses: bool,
        protocol: u32,
    },
    DetachRaw { terminal_id: Seq<char>, attach_id: Seq<char>, reason: TerminalDetachReason },
    SnapshotRaw {
        connection_id: u64,
        terminal_id: Seq<char>,
        attach_id: Seq<char>,
        history_limit_bytes: usize,
    },
    SetRawQueryAuthority { terminal_id: Seq<char>, attach_id: Option<Seq<char>> },
    ResizeTerminal {
        terminal_id: Seq<char>,
        rows: u16,
        cols: u16,
        cell_width_px: u32,
        cell_height_px: u32,
    },
    LayOutTab { target: TabSurfaceTarget, cols: u16, rows: u16, cell_size: HostCellSize },
    GeometryChanged {
        tab_id: Seq<char>,
        controller: GeometryController,
        previous: Option<GeometryController>,
    },
    RestoreShellTab { controller_id: u64, target: TabSurfaceTarget },
    ResizeForOnlyShellClient,
    RederiveShellGeometry,
    ShutDownClient { client_id: u64 },
    PushLayout { connections: Seq<u64>, layout: PaneLayoutSnapshot },
    StreamClosed { connection_id: u64 },
}

impl View for ControlEffect {
    type V = EffectModel;

    open spec fn view(&self) -> EffectModel {
        match *self {
            ControlEffect::SendReply { connection_id, reply } => EffectModel::SendReply {
                connection_id,
                reply: reply@,
            },
            ControlEffect::AttachRaw {
                connection_id,
                terminal_id,
                attach_id,
                suppress_responses,
                protocol,
            } => EffectModel::AttachRaw {
                connection_id,
                terminal_id: terminal_id@,
                attach_id: attach_id@,
                suppress_responses,
                protocol,
            },
            ControlEffect::DetachRaw { terminal_id, attach_id, reason } => EffectModel::DetachRaw {
                terminal_id: terminal_id@,
                attach_id: attach_id@,
                reason,
            },
            ControlEffect::SnapshotRaw {
                connection_id,
                terminal_id,
                attach_id,
                history_limit_bytes,
            } => EffectModel::SnapshotRaw {
                connection_id,
                terminal_id: terminal_id@,
                attach_id: attach_id@,
                history_limit_bytes,
            },
            ControlEffect::SetRawQueryAuthority { terminal_id, attach_id } =>
                EffectModel::SetRawQueryAuthority {
                terminal_id: terminal_id@,
                attach_id: crate::text::optional_text(attach_id),
            },
            ControlEffect::ResizeTerminal {
                terminal_id,
                rows,
                cols,
                cell_width_px,
                cell_height_px,
            } => EffectModel::ResizeTerminal {
                terminal_id: terminal_id@,
                rows,
                cols,
                cell_width_px,
                cell_height_px,
            },
            ControlEffect::LayOutTab { target, cols, rows, cell_size } => EffectModel::LayOutTab {
                target,
                cols,
                rows,
                cell_size,
            },
            ControlEffect::GeometryChanged { tab_id, controller, previous } =>
                EffectModel::GeometryChanged { tab_id: tab_id@, controller, previous },
            ControlEffect::RestoreShellTab { controller_id, target } =>
                EffectModel::RestoreShellTab { controller_id, target },
            ControlEffect::ResizeForOnlyShellClient => EffectModel::ResizeForOnlyShellClient,
            ControlEffect::RederiveShellGeometry => EffectModel::RederiveShellGeometry,
            ControlEffect::ShutDownClient { client_id } => EffectModel::ShutDownClient {
                client_id,
            },
            ControlEffect::PushLayout { connections, layout } => EffectModel::PushLayout {
                connections: connections@,
                layout,
            },
            ControlEffect::StreamClosed { connection_id } => EffectModel::StreamClosed {
                connection_id,
            },
        }
    }
}

/// The server as far as control streams go.
pub struct HeadlessServer {
    /// The application's facts, brought up to date before each request.
    pub app: AppView,
    /// Open control connections, oldest first.
    pub control_connections: Vec<ControlConnectionState>,
    pub next_control_connection_id: u64,
    /// Terminals that a client attached to directly, and that client.
    pub terminal_attach_owners: TextTable<u64>,
    /// Tabs that a client or a control connection sizes, and its id.
    pub tab_geometry_controllers: TextTable<u64>,
    /// Shell clients and the size (columns, rows) of their terminals.
    pub clients: HashMap<u64, (u16, u16)>,
    /// The size (columns, rows) every other tab gets.
    pub effective_size: (u16, u16),
    pub next_activity_stamp: u64,
    /// The creation order of the next attach.
    pub next_attach_order: u64,
    /// Nanoseconds on the server's clock when the request came in.
    pub now: u64,
    /// Tabs that a control connection sizes.
    pub control_geometry_tabs: TextSet,
    /// Tabs laid out without chrome.
    pub control_chromeless_tabs: TextSet,
    /// The controller each layout reports.
    pub control_tab_geometry_controllers: TextTable<GeometryController>,
    /// Terminals that tab layouts must not resize.
    pub direct_attach_resize_locks: TextSet,
    pub client_shell_boot_id: String,
    pub version: String,
    pub protocol_version: u32,
    /// What is to be done outside, in order.
    pub effects: Vec<ControlEffect>,
}

/// The server, as contracts see it.
#[verifier::ext_equal]
pub struct ServerModel {
    pub app: super::app::AppModel,
    pub control_connections: Seq<ConnectionModel>,
    pub next_control_connection_id: u64,
    pub terminal_attach_owners: Map<Seq<char>, u64>,
    pub tab_geometry_controllers: Map<Seq<char>, u64>,
    pub clients: Map<u64, (u16, u16)>,
    pub effective_size: (u16, u16),
    pub next_activity_stamp: u64,
    pub next_attach_order: u64,
    pub now: u64,
    pub control_geometry_tabs: Set<Seq<char>>,
    pub control_chromeless_tabs: Set<Seq<char>>,
    pub control_tab_geometry_controllers: Map<Seq<char>, GeometryController>,
    pub direct_attach_resize_locks: Set<Seq<char>>,
    pub client_shell_boot_id: Seq<char>,
    pub version: Seq<char>,
    pub protocol_version: u32,
    pub effects: Seq<EffectModel>,
}

/// The connections of a list.
pub open spec fn connection_views(connections: Seq<ControlConnectionState>) -> Seq<
    ConnectionModel,
> {
    Seq::new(connections.len(), |i: int| connections[i]@)
}

/// The effects of a list.
pub open spec fn effect_views(effects: Seq<ControlEffect>) -> Seq<EffectModel> {
    Seq::new(effects.len(), |i: int| effects[i]@)
}

impl View for HeadlessServer {
    type V = ServerModel;

    open spec fn view(&self) -> ServerModel {
        ServerModel {
            app: self.app@,
            control_connections: connection_views(self.control_connections@),
            next_control_connection_id: self.next_control_connection_id,
            terminal_attach_owners: self.terminal_attach_owners@,
            tab_geometry_controllers: self.tab_geometry_controllers@,
            clients: self.clients@,
            effective_size: self.effective_size,
            next_activity_stamp: self.next_activity_stamp,
            next_attach_order: self.next_attach_order,
            now: self.now,
            control_geometry_tabs: self.control_geometry_tabs@,
            control_chromeless_tabs: self.control_chromeless_tabs@,
            control_tab_geometry_controllers: self.control_tab_geometry_controllers@,
            direct_attach_resize_locks: self.direct_attach_resize_locks@,
            client_shell_boot_id: self.client_shell_boot_id@,
            version: self.version@,
            protocol_version: self.protocol_version,
            effects: effect_views(self.effects@),
        }
    }
}

impl ConnectionModel {
    /// The connection's attach of that id, by position.
    pub open spec fn attach_index(self, attach_id: Seq<char>) -> Option<int> {
        crate::find::first_index(self.attaches, |a: AttachModel| a.attach_id == attach_id)
    }

    /// The connection's attach of that id.
    pub open spec fn attach(self, attach_id: Seq<char>) -> Option<AttachModel> {
        crate::find::first_where(self.attaches, |a: AttachModel| a.attach_id == attach_id)
    }

    /// Whether this connection stored a size for the tab, owner or not.
    pub open spec fn holds_tab(self, tab_id: Seq<char>) -> bool {
        self.tab_geometry.contains_key(tab_id)
    }
}

impl ServerModel {
    /// The connection of that id, by position.
    pub open spec fn connection_index(self, connection_id: u64) -> Option<int> {
        crate::find::first_index(
            self.control_connections,
            |c: ConnectionModel| c.connection_id == connection_id,
        )
    }

    /// The connection of that id.
    pub open spec fn connection(self, connection_id: u64) -> Option<ConnectionModel> {
        crate::find::first_where(
            self.control_connections,
            |c: ConnectionModel| c.connection_id == connection_id,
        )
    }

    /// Who sizes a tab.
    pub open spec fn controller(self, tab_id: Seq<char>) -> Option<u64> {
        if self.tab_geometry_controllers.contains_key(tab_id) {
            Some(self.tab_geometry_controllers[tab_id])
        } else {
            None
        }
    }

    /// Who sizes the tab that shows a terminal, and that tab.
    pub open spec fn shell_geometry_controller_for_terminal(
        self,
        terminal_id: Seq<char>,
    ) -> Option<(u64, TabSurfaceTarget)> {
        match (
            self.app.tab_target_for_terminal(terminal_id),
            self.app.tab_of_terminal(terminal_id),
        ) {
            (Some(target), Some(tab_id)) => match self.controller(tab_id) {
                Some(controller) => Some((controller, target)),
                None => None,
            },
            _ => None,
        }
    }

    /// The server with one more effect.
    pub open spec fn with_effect(self, effect: EffectModel) -> ServerModel {
        ServerModel { effects: self.effects.push(effect), ..self }
    }

    /// The server with more effects.
    pub open spec fn with_effects(self, effects: Seq<EffectModel>) -> ServerModel {
        ServerModel { effects: self.effects + effects, ..self }
    }

    /// The server with another list of connections.
    pub open spec fn with_connections(self, connections: Seq<ConnectionModel>) -> ServerModel {
        ServerModel { control_connections: connections, ..self }
    }

    /// The server with one connection replaced.
    pub open spec fn with_connection(self, i: int, connection: ConnectionModel) -> ServerModel {
        self.with_connections(self.control_connections.update(i, connection))
    }
}

impl ControlConnectionState {
    /// Whether this connection stored a size for the tab, owner or not.
    pub fn holds_tab(&self, tab_id: &str) -> (holds: bool)
        ensures
            holds == self@.holds_tab(tab_id@),
    {
        self.tab_geometry.contains_key(tab_id)
    }

    /// The size this connection stored for the tab.
    pub fn tab_geometry(&self, tab_id: &str) -> (size: Option<(u16, u16, HostCellSize)>)
        ensures
            size is Some <==> self@.holds_tab(tab_id@),
            size matches Some(size) ==> {
                let geometry = self@.tab_geometry[tab_id@];
                size == (geometry.cols, geometry.rows, geometry.cell_size)
            },
    {
        match self.tab_geometry.get(tab_id) {
            Some(geometry) => Some((geometry.cols, geometry.rows, geometry.cell_size)),
            None => None,
        }
    }

    /// The position of the attach of that id.
    pub fn attach_index(&self, attach_id: &str) -> (index: Option<usize>)
        ensures
            match index {
                Some(i) => self@.attach_index(attach_id@) == Some(i as int) && i
                    < self.attaches@.len(),
                None => self@.attach_index(attach_id@) is None,
            },
    {
        let ghost wanted = |a: AttachModel| a.attach_id == attach_id@;
        let mut i: usize = 0;
        while i < self.attaches.len()
            invariant
                0 <= i <= self.attaches.len(),
                wanted == (|a: AttachModel| a.attach_id == attach_id@),
                forall|k: int| 0 <= k < i ==> !wanted(#[trigger] self@.attaches[k]),
            decreases self.attaches.len() - i,
        {
            if crate::text::same_text(self.attaches[i].attach_id.as_str(), attach_id) {
                proof {
                    crate::find::lemma_first_index(self@.attaches, wanted);
                    assert(wanted(self@.attaches[i as int]));
                }
                return Some(i);
            }
            i += 1;
        }
        proof {
            crate::find::lemma_first_index(self@.attaches, wanted);
        }
        None
    }
}

impl HeadlessServer {
    /// A server without connections.
    pub fn new(
        client_shell_boot_id: String,
        version: String,
        protocol_version: u32,
        effective_size: (u16, u16),
    ) -> (server: Self)
        ensures
            server@ == ServerModel::fresh(
                client_shell_boot_id@,
                version@,
                protocol_version,
                effective_size,
            ),
            server@.wf(),
    {
        let server = HeadlessServer {
            app: AppView::new(),
            control_connections: Vec::new(),
            next_control_connection_id: 0,
            terminal_attach_owners: TextTable::new(),
            tab_geometry_controllers: TextTable::new(),
            clients: HashMap::new(),
            effective_size,
            next_activity_stamp: 0,
            next_attach_order: 0,
            now: 0,
            control_geometry_tabs: TextSet::new(),
            control_chromeless_tabs: TextSet::new(),
            control_tab_geometry_controllers: TextTable::new(),
            direct_attach_resize_locks: TextSet::new(),
            client_shell_boot_id,
            version,
            protocol_version,
            effects: Vec::new(),
        };
        assert(server@.control_connections =~= Seq::empty());
        assert(server@.effects =~= Seq::empty());
        server
    }

    /// The position of the connection of that id.
    pub fn connection_index(&self, connection_id: u64) -> (index: Option<usize>)
        ensures
            match index {
                Some(i) => self@.connection_index(connection_id) == Some(i as int) && i
                    < self.control_connections@.len(),
                None => self@.connection_index(connection_id) is None,
            },
    {
        let ghost wanted = |c: ConnectionModel| c.connection_id == connection_id;
        let mut i: usize = 0;
        while i < self.control_connections.len()
            invariant
                0 <= i <= self.control_connections.len(),
                wanted == (|c: ConnectionModel| c.connection_id == connection_id),
                forall|k: int| 0 <= k < i ==> !wanted(#[trigger] self@.control_connections[k]),
            decreases self.control_connections.len() - i,
        {
            if self.control_connections[i].connection_id == connection_id {
                proof {
                    crate::find::lemma_first_index(self@.control_connections, wanted);
                    assert(wanted(self@.control_connections[i as int]));
                }
                return Some(i);
            }
            i += 1;
        }
        proof {
            crate::find::lemma_first_index(self@.control_connections, wanted);
        }
        None
    }

    /// Who sizes a tab.
    pub fn controller(&self, tab_id: &str) -> (controller: Option<u64>)
        ensures
            controller == self@.controller(tab_id@),
    {
        match self.tab_geometry_controllers.get(tab_id) {
            Some(controller) => Some(*controller),
            None => None,
        }
    }

    /// Who sizes the tab that shows a terminal, and that tab.
    pub fn shell_geometry_controller_for_terminal(&self, terminal_id: &str) -> (controller: Option<
        (u64, TabSurfaceTarget),
    >)
        ensures
            controller == self@.shell_geometry_controller_for_terminal(terminal_id@),
    {
        match (
            self.app.tab_target_for_terminal(terminal_id),
            self.app.tab_of_terminal(terminal_id),
        ) {
            (Some(target), Some(tab_id)) => match self.controller(tab_id.as_str()) {
                Some(controller) => Some((controller, target)),
                None => None,
            },
            _ => None,
        }
    }

    /// Appends an effect.
    pub fn push_effect(&mut self, effect: ControlEffect)
        ensures
            final(self)@ == old(self)@.with_effect(effect@),
            final(self).control_connections == old(self).control_connections,
            final(self).app == old(self).app,
    {
        self.effects.push(effect);
        assert(self@.effects =~= old(self)@.effects.push(effect@));
    }

    /// Hands the effects out and starts a new list.
    pub fn take_effects(&mut self) -> (effects: Vec<ControlEffect>)
        ensures
            effect_views(effects@) == old(self)@.effects,
            final(self)@ == (ServerModel { effects: Seq::empty(), ..old(self)@ }),
    {
        let mut effects: Vec<ControlEffect> = Vec::new();
        effects.append(&mut self.effects);
        assert(effect_views(effects@) =~= old(self)@.effects);
        assert(self@.effects =~= Seq::empty());
        effects
    }
}

impl ServerModel {
    /// A server without connections.
    pub open spec fn fresh(
        client_shell_boot_id: Seq<char>,
        version: Seq<char>,
        protocol_version: u32,
        effective_size: (u16, u16),
    ) -> ServerModel {
        ServerModel {
            app: super::app::AppModel {
                terminals: Seq::empty(),
                tabs: Seq::empty(),
                panes: Seq::empty(),
                pending_alt_screen_reads: Seq::empty(),
                workspaces: Seq::empty(),
            },
            control_connections: Seq::empty(),
            next_control_connection_id: 0,
            terminal_attach_owners: Map::empty(),
            tab_geometry_controllers: Map::empty(),
            clients: Map::empty(),
            effective_size,
            next_activity_stamp: 0,
            next_attach_order: 0,
            now: 0,
            control_geometry_tabs: Set::empty(),
            control_chromeless_tabs: Set::empty(),
            control_tab_geometry_controllers: Map::empty(),
            direct_attach_resize_locks: Set::empty(),
            client_shell_boot_id,
            version,
            protocol_version,
            effects: Seq::empty(),
        }
    }
}

} // verus!
