//! Control stream and raw terminal attach types.

use vstd::prelude::*;

verus! {

/// What `control.open` carries.
#[derive(Debug, Clone)]
pub struct ControlOpenParams {
    /// Who is opening the stream. Absent for protocol 1 clients.
    pub client: Option<ControlClientInfo>,
}

impl Default for ControlOpenParams {
    fn default() -> (params: Self)
        ensures
            params.client is None,
    {
        ControlOpenParams { client: None }
    }
}

/// Identity a control client declares on `control.open`.
#[derive(Debug)]
pub struct ControlClientInfo {
    pub name: String,
    pub version: String,
    /// Highest control stream protocol the client speaks; the server
    /// negotiates down to what it supports.
    pub protocol: u32,
}

impl Default for ControlClientInfo {
    fn default() -> (info: Self)
        ensures
            info@ == (ClientModel {
                name: Seq::<char>::empty(),
                version: Seq::<char>::empty(),
                protocol: 0,
            }),
    {
        ControlClientInfo { name: String::new(), version: String::new(), protocol: 0 }
    }
}

impl Clone for ControlClientInfo {
    fn clone(&self) -> (copy: Self)
        ensures
            copy == *self,
    {
        ControlClientInfo {
            name: self.name.clone(),
            version: self.version.clone(),
            protocol: self.protocol,
        }
    }
}

/// A client identity, as contracts see it.
#[verifier::ext_equal]
pub struct ClientModel {
    pub name: Seq<char>,
    pub version: Seq<char>,
    pub protocol: u32,
}

impl View for ControlClientInfo {
    type V = ClientModel;

    open spec fn view(&self) -> ClientModel {
        ClientModel { name: self.name@, version: self.version@, protocol: self.protocol }
    }
}

/// An optional client identity, as contracts see it.
pub open spec fn client_view(client: Option<ControlClientInfo>) -> Option<ClientModel> {
    match client {
        Some(client) => Some(client@),
        None => None,
    }
}

/// `tab.claim_geometry`: take a tab's geometry with the size this stream
/// stored for it. `attach_id` names the tab through an attach instead.
#[derive(Debug, Clone)]
pub struct TabClaimGeometryParams {
    pub tab_id: Option<String>,
    pub attach_id: Option<String>,
}

impl Default for TabClaimGeometryParams {
    fn default() -> (params: Self)
        ensures
            params.tab_id is None,
            params.attach_id is None,
    {
        TabClaimGeometryParams { tab_id: None, attach_id: None }
    }
}

/// One open control stream, as `control.list` reports it.
#[derive(Debug, Clone)]
pub struct ControlConnectionInfo {
    pub connection_id: u64,
    pub control_protocol: u32,
    pub client: Option<ControlClientInfo>,
    pub attaches: Vec<ControlAttachInfo>,
    pub tabs: Vec<ControlTabInfo>,
}

/// One attach, as `control.list` reports it.
#[derive(Debug, Clone)]
pub struct ControlAttachInfo {
    pub attach_id: String,
    pub terminal_id: String,
    pub pane_id: Option<String>,
    pub geometry: TerminalAttachGeometry,
    pub answer_queries: TerminalQueryAuthority,
    /// Whether this attach is the one emulator answering the pane's queries.
    pub answers_queries: bool,
}

/// A tab a control stream stored a size for. `controller` is true while the
/// stream owns the tab's geometry.
#[derive(Debug, Clone)]
pub struct ControlTabInfo {
    pub tab_id: String,
    pub cols: u16,
    pub rows: u16,
    pub cell_width_px: u32,
    pub cell_height_px: u32,
    pub chrome: TabChrome,
    pub controller: bool,
}

/// A listed stream, as contracts see it.
#[verifier::ext_equal]
pub struct ConnectionInfoModel {
    pub connection_id: u64,
    pub control_protocol: u32,
    pub client: Option<ClientModel>,
    pub attaches: Seq<AttachInfoModel>,
    pub tabs: Seq<TabInfoModel>,
}

/// A listed attach, as contracts see it.
#[verifier::ext_equal]
pub struct AttachInfoModel {
    pub attach_id: Seq<char>,
    pub terminal_id: Seq<char>,
    pub pane_id: Option<Seq<char>>,
    pub geometry: TerminalAttachGeometry,
    pub answer_queries: TerminalQueryAuthority,
    pub answers_queries: bool,
}

/// A listed tab, as contracts see it.
#[verifier::ext_equal]
pub struct TabInfoModel {
    pub tab_id: Seq<char>,
    pub cols: u16,
    pub rows: u16,
    pub cell_width_px: u32,
    pub cell_height_px: u32,
    pub chrome: TabChrome,
    pub controller: bool,
}

impl View for ControlAttachInfo {
    type V = AttachInfoModel;

    open spec fn view(&self) -> AttachInfoModel {
        AttachInfoModel {
            attach_id: self.attach_id@,
            terminal_id: self.terminal_id@,
            pane_id: crate::text::optional_text(self.pane_id),
            geometry: self.geometry,
            answer_queries: self.answer_queries,
            answers_queries: self.answers_queries,
        }
    }
}

impl View for ControlTabInfo {
    type V = TabInfoModel;

    open spec fn view(&self) -> TabInfoModel {
        TabInfoModel {
            tab_id: self.tab_id@,
            cols: self.cols,
            rows: self.rows,
            cell_width_px: self.cell_width_px,
            cell_height_px: self.cell_height_px,
            chrome: self.chrome,
            controller: self.controller,
        }
    }
}

impl View for ControlConnectionInfo {
    type V = ConnectionInfoModel;

    open spec fn view(&self) -> ConnectionInfoModel {
        ConnectionInfoModel {
            connection_id: self.connection_id,
            control_protocol: self.control_protocol,
            client: client_view(self.client),
            attaches: Seq::new(self.attaches@.len(), |i: int| self.attaches@[i]@),
            tabs: Seq::new(self.tabs@.len(), |i: int| self.tabs@[i]@),
        }
    }
}

/// How an attach streams its pane.
#[derive(Debug, Clone, Copy, PartialEq, Eq, Structural)]
pub enum TerminalAttachMode {
    /// Stream the pane's raw PTY output bytes.
    Raw,
}

impl Default for TerminalAttachMode {
    fn default() -> (mode: Self)
        ensures
            mode == TerminalAttachMode::Raw,
    {
        TerminalAttachMode::Raw
    }
}

/// Which terminal emulator answers queries the pane application sends
/// (device attributes, XTGETTCAP, OSC color queries).
#[derive(Debug, Clone, Copy, PartialEq, Eq, Structural)]
pub enum TerminalQueryAuthority {
    /// The attaching client answers; the server suppresses its own replies
    /// while the attach owns the terminal.
    Client,
    /// The server keeps answering as it does for every other client.
    Server,
}

impl Default for TerminalQueryAuthority {
    fn default() -> (authority: Self)
        ensures
            authority == TerminalQueryAuthority::Client,
    {
        TerminalQueryAuthority::Client
    }
}

/// Who decides the pane's size while the attach owns the terminal.
#[derive(Debug, Clone, Copy, PartialEq, Eq, Structural)]
pub enum TerminalAttachGeometry {
    /// Sizes follow the tab layout; the client drives it with `tab.set_geometry`.
    Tab,
    /// The client sizes this one terminal with `terminal.resize` and the server
    /// locks the tab layout out of it, like a direct terminal attach.
    Terminal,
}

impl Default for TerminalAttachGeometry {
    fn default() -> (geometry: Self)
        ensures
            geometry == TerminalAttachGeometry::Tab,
    {
        TerminalAttachGeometry::Tab
    }
}

/// What `terminal.attach` carries.
#[derive(Debug, Clone)]
pub struct TerminalAttachParams {
    /// Pane id, terminal id, or agent name.
    pub target: String,
    pub mode: TerminalAttachMode,
    /// Upper bound on primary-screen history bytes in the snapshot.
    pub history_limit_bytes: Option<u64>,
    pub answer_queries: TerminalQueryAuthority,
    pub takeover: bool,
    pub geometry: TerminalAttachGeometry,
    pub cols: Option<u16>,
    pub rows: Option<u16>,
    pub cell_width_px: u32,
    pub cell_height_px: u32,
}

/// Names one attach.
#[derive(Debug, Clone)]
pub struct TerminalAttachTarget {
    pub attach_id: String,
}

/// What `terminal.input` carries.
#[derive(Debug, Clone)]
pub struct TerminalInputParams {
    pub attach_id: String,
    /// Base64 bytes written to the PTY verbatim.
    pub bytes: String,
    /// The client's emulator answered a query (DA, CPR, colours) rather
    /// than the user typing: forwarded only from the query authority and
    /// never counted as interaction.
    pub auto: bool,
}

/// What `terminal.resize` carries.
#[derive(Debug, Clone)]
pub struct TerminalResizeParams {
    pub attach_id: String,
    pub cols: u16,
    pub rows: u16,
    pub cell_width_px: u32,
    pub cell_height_px: u32,
}

/// What `tab.set_geometry` carries.
#[derive(Debug, Clone)]
pub struct TabSetGeometryParams {
    pub tab_id: String,
    pub cols: u16,
    pub rows: u16,
    pub cell_width_px: u32,
    pub cell_height_px: u32,
    /// Whether the server lays the tab out with its own borders, gaps, and
    /// scrollbar gutters, or hands the client bare pane rectangles.
    pub chrome: TabChrome,
    /// Take the tab's geometry now (the default). With `false` the size is
    /// only stored, for a later `tab.claim_geometry` or input-driven claim.
    pub claim: bool,
}

/// What `claim` is when a request leaves it out.
pub fn default_true() -> (claim: bool)
    ensures
        claim,
{
    true
}

/// Layout chrome for a tab a control stream sizes.
#[derive(Debug, Clone, Copy, PartialEq, Eq, Structural)]
pub enum TabChrome {
    /// Borders, gaps, and scrollbar gutters follow the server's config.
    Server,
    /// No chrome: panes tile the area exactly and the client draws its own
    /// dividers.
    Bare,
}

impl Default for TabChrome {
    fn default() -> (chrome: Self)
        ensures
            chrome == TabChrome::Server,
    {
        TabChrome::Server
    }
}

/// Which screen a terminal shows.
#[derive(Debug, Clone, Copy, PartialEq, Eq, Structural)]
pub enum TerminalScreenKind {
    Primary,
    Alternate,
}

/// The cursor of a captured terminal.
#[derive(Debug, Clone)]
pub struct TerminalCursorInfo {
    pub x: u16,
    pub y: u16,
    pub visible: bool,
    /// DECSCUSR parameter (0 to 6).
    pub shape: u8,
    /// The next printable wraps to the next row: the cursor sits on the
    /// last column after a print. A client's cursor-position command
    /// clears that, so it has to be re-established.
    pub pending_wrap: bool,
    /// The cell under the cursor as styled VT, present with `pending_wrap`,
    /// so reprinting it sets the flag again without changing the screen.
    pub pending_wrap_cell: Option<String>,
}

/// Where a pane is scrolled to, in rows above the live screen.
#[derive(Debug, Clone, Copy, PartialEq, Eq, Structural)]
pub struct PaneScrollInfo {
    pub offset_from_bottom: u64,
    pub max_offset_from_bottom: u64,
}

/// Terminal facts captured with the snapshot. Everything here is also
/// encoded in `state_ansi`; the fields exist so a client can read them
/// without parsing.
#[derive(Debug, Clone)]
pub struct TerminalStateInfo {
    pub cols: u16,
    pub rows: u16,
    pub application_cursor: bool,
    pub bracketed_paste: bool,
    pub focus_reporting: bool,
    pub mouse_reporting: bool,
    pub sgr_pixel_mouse: bool,
    pub mouse_alternate_scroll: bool,
    pub synchronized_output: bool,
    pub color_scheme_reporting: bool,
    pub kitty_keyboard_flags: u16,
    pub modify_other_keys_level: u8,
    pub title: Option<String>,
    pub cwd: Option<String>,
    pub scroll: Option<PaneScrollInfo>,
}

impl Default for TerminalStateInfo {
    fn default() -> (state: Self)
        ensures
            state == (TerminalStateInfo {
                cols: 0,
                rows: 0,
                application_cursor: false,
                bracketed_paste: false,
                focus_reporting: false,
                mouse_reporting: false,
                sgr_pixel_mouse: false,
                mouse_alternate_scroll: false,
                synchronized_output: false,
                color_scheme_reporting: false,
                kitty_keyboard_flags: 0,
                modify_other_keys_level: 0,
                title: None,
                cwd: None,
                scroll: None,
            }),
    {
        TerminalStateInfo {
            cols: 0,
            rows: 0,
            application_cursor: false,
            bracketed_paste: false,
            focus_reporting: false,
            mouse_reporting: false,
            sgr_pixel_mouse: false,
            mouse_alternate_scroll: false,
            synchronized_output: false,
            color_scheme_reporting: false,
            kitty_keyboard_flags: 0,
            modify_other_keys_level: 0,
            title: None,
            cwd: None,
            scroll: None,
        }
    }
}

/// Atomic capture of a terminal taken at attach or on request. Output
/// records with `seq` greater than this snapshot's `seq` were produced
/// after it.
#[derive(Debug, Clone)]
pub struct TerminalSnapshot {
    pub seq: u64,
    pub active_screen: TerminalScreenKind,
    /// Primary screen scrollback plus screen as unwrapped ANSI. Absent when
    /// the alternate screen is active, because only the active screen can
    /// be read.
    pub primary: Option<String>,
    /// Alternate screen contents as ANSI when it is active.
    pub alternate: Option<String>,
    /// Mode and keyboard-protocol sequences that restore terminal state.
    pub state_ansi: String,
    /// The active pen alone (SGR, hyperlink, protection), for restoring
    /// it after the client prints anything of its own.
    pub pen_ansi: String,
    pub cursor: TerminalCursorInfo,
    pub state: TerminalStateInfo,
    /// True when `history_limit_bytes` cut older history.
    pub truncated: bool,
}

/// An area in cells.
#[derive(Debug, Clone, Copy, PartialEq, Eq, Structural)]
pub struct Rect {
    pub x: u16,
    pub y: u16,
    pub width: u16,
    pub height: u16,
}

impl Rect {
    /// The area of that size at the origin.
    pub fn sized(width: u16, height: u16) -> (area: Self)
        ensures
            area == (Rect { x: 0, y: 0, width, height }),
    {
        Rect { x: 0, y: 0, width, height }
    }
}

/// Where one pane lies in its tab.
#[derive(Debug, Clone)]
pub struct PaneRect {
    pub pane_id: String,
    pub rect: Rect,
}

/// A tab's pane rectangles and who sizes the tab.
#[derive(Debug, Clone)]
pub struct PaneLayoutSnapshot {
    pub tab_id: String,
    pub area: Rect,
    pub panes: Vec<PaneRect>,
    pub geometry_controller: Option<GeometryController>,
}

/// What kind of peer sizes a tab.
#[derive(Debug, Clone, Copy, PartialEq, Eq, Structural)]
pub enum GeometryControllerKind {
    /// Nobody in particular: the server's own rules size the tab.
    Server,
    /// A shell client.
    Client,
    /// A control stream.
    Control,
}

/// Who sizes a tab, and with which chrome.
#[derive(Debug, Clone, Copy, PartialEq, Eq, Structural)]
pub struct GeometryController {
    pub kind: GeometryControllerKind,
    pub connection_id: Option<u64>,
    pub chrome: TabChrome,
}

impl GeometryController {
    /// The controller of a tab that nobody sizes.
    pub open spec fn none() -> GeometryController {
        GeometryController {
            kind: GeometryControllerKind::Server,
            connection_id: None,
            chrome: TabChrome::Server,
        }
    }
}

impl Default for GeometryController {
    fn default() -> (controller: Self)
        ensures
            controller == GeometryController::none(),
    {
        GeometryController {
            kind: GeometryControllerKind::Server,
            connection_id: None,
            chrome: TabChrome::Server,
        }
    }
}

/// Records pushed on a control stream outside request/response pairs.
#[derive(Debug, Clone)]
pub enum ControlRecord {
    Snapshot { attach_id: String, snapshot: TerminalSnapshot },
    Output {
        attach_id: String,
        seq: u64,
        /// Base64 raw PTY bytes.
        bytes: String,
    },
    /// Output was dropped because the client fell behind; request
    /// `terminal.snapshot` to resynchronize.
    Gap { attach_id: String, seq: u64, dropped_bytes: u64 },
    Detached { attach_id: String, reason: TerminalDetachReason },
    /// A tab's pane rectangles as the terminals were (or are about to be)
    /// sized, ordered on the stream ahead of any output drawn at the new
    /// size. Sent for every tab geometry change while a control stream is
    /// open, whichever client caused it.
    TabLayout { layout: PaneLayoutSnapshot },
    /// Whether this attach now answers the pane's terminal queries. Sent
    /// only on control protocol 2 and later.
    Authority { attach_id: String, answers_queries: bool },
    /// Subscription events were lost because the stream fell behind; the
    /// next event delivered has sequence `resume_sequence`. Protocol 2+.
    EventsGap { dropped: u64, resume_sequence: u64 },
}

/// Why an attach ended.
#[derive(Debug, Clone, Copy, PartialEq, Eq, Structural)]
pub enum TerminalDetachReason {
    Takeover,
    Closed,
}

/// Machine-readable error codes.
#[derive(Debug, Clone, Copy, PartialEq, Eq, Structural)]
pub enum ErrorCode {
    ControlStreamRequired,
    UnsupportedInControlStream,
    AmbiguousTarget,
    NotFound,
    TerminalBusy,
    TerminalAttached,
    UnknownAttach,
    SnapshotFailed,
    GeometryFollowsTab,
    InvalidRequest,
    NoGeometry,
    InputFull,
    TerminalClosed,
}

impl ErrorCode {
    /// The code as it stands in a response.
    pub open spec fn text(self) -> Seq<char> {
        match self {
            ErrorCode::ControlStreamRequired => "control_stream_required"@,
            ErrorCode::UnsupportedInControlStream => "unsupported_in_control_stream"@,
            ErrorCode::AmbiguousTarget => "ambiguous_target"@,
            ErrorCode::NotFound => "not_found"@,
            ErrorCode::TerminalBusy => "terminal_busy"@,
            ErrorCode::TerminalAttached => "terminal_attached"@,
            ErrorCode::UnknownAttach => "unknown_attach"@,
            ErrorCode::SnapshotFailed => "snapshot_failed"@,
            ErrorCode::GeometryFollowsTab => "geometry_follows_tab"@,
            ErrorCode::InvalidRequest => "invalid_request"@,
            ErrorCode::NoGeometry => "no_geometry"@,
            ErrorCode::InputFull => "input_full"@,
            ErrorCode::TerminalClosed => "terminal_closed"@,
        }
    }

    /// The code as it stands in a response.
    pub fn as_str(self) -> (code: &'static str)
        ensures
            code@ == self.text(),
    {
        match self {
            ErrorCode::ControlStreamRequired => "control_stream_required",
            ErrorCode::UnsupportedInControlStream => "unsupported_in_control_stream",
            ErrorCode::AmbiguousTarget => "ambiguous_target",
            ErrorCode::NotFound => "not_found",
            ErrorCode::TerminalBusy => "terminal_busy",
            ErrorCode::TerminalAttached => "terminal_attached",
            ErrorCode::UnknownAttach => "unknown_attach",
            ErrorCode::SnapshotFailed => "snapshot_failed",
            ErrorCode::GeometryFollowsTab => "geometry_follows_tab",
            ErrorCode::InvalidRequest => "invalid_request",
            ErrorCode::NoGeometry => "no_geometry",
            ErrorCode::InputFull => "input_full",
            ErrorCode::TerminalClosed => "terminal_closed",
        }
    }
}

/// What the server advertises about control streams.
#[derive(Debug, Clone)]
pub struct ServerCapabilities {
    /// Version of the control stream contract.
    pub terminal_control_stream: u32,
    /// Feature names clients gate on.
    pub control_features: Vec<&'static str>,
}

/// The result of a request that succeeded.
#[derive(Debug, Clone)]
pub enum ResponseResult {
    /// Nothing to report.
    Done,
    ControlOpened {
        connection_id: u64,
        boot_id: String,
        version: String,
        protocol: u32,
        capabilities: ServerCapabilities,
        control_protocol: u32,
    },
    ControlList { self_connection_id: Option<u64>, connections: Vec<ControlConnectionInfo> },
    TerminalAttached { attach_id: String, terminal_id: String, pane_id: Option<String> },
    Pong { version: String, protocol: u32, capabilities: Option<ServerCapabilities> },
    SubscriptionStarted,
}

/// The answer to a request.
#[derive(Debug, Clone)]
pub enum Reply {
    Success { id: String, result: ResponseResult },
    Failure { id: String, code: ErrorCode, message: String },
    /// The answer already stands on the stream, ordered ahead of the records
    /// that follow it; nothing more is to be written.
    AlreadyWritten,
}

/// A result, as contracts see it.
#[verifier::ext_equal]
pub enum ResultModel {
    Done,
    ControlOpened {
        connection_id: u64,
        boot_id: Seq<char>,
        version: Seq<char>,
        protocol: u32,
        terminal_control_stream: u32,
        control_features: Seq<Seq<char>>,
        control_protocol: u32,
    },
    ControlList { self_connection_id: Option<u64>, connections: Seq<ConnectionInfoModel> },
    TerminalAttached {
        attach_id: Seq<char>,
        terminal_id: Seq<char>,
        pane_id: Option<Seq<char>>,
    },
    Pong { version: Seq<char>, protocol: u32, capabilities: Option<ServerCapabilities> },
    SubscriptionStarted,
}

/// An answer, as contracts see it.
#[verifier::ext_equal]
pub enum ReplyModel {
    Success { id: Seq<char>, result: ResultModel },
    Failure { id: Seq<char>, code: ErrorCode, message: Seq<char> },
    AlreadyWritten,
}

/// Names out of a list of feature names.
pub open spec fn feature_views(features: Seq<&'static str>) -> Seq<Seq<char>> {
    Seq::new(features.len(), |i: int| features[i]@)
}

impl View for ResponseResult {
    type V = ResultModel;

    open spec fn view(&self) -> ResultModel {
        match *self {
            ResponseResult::Done => ResultModel::Done,
            ResponseResult::ControlOpened {
                connection_id,
                boot_id,
                version,
                protocol,
                capabilities,
                control_protocol,
            } => ResultModel::ControlOpened {
                connection_id,
                boot_id: boot_id@,
                version: version@,
                protocol,
                terminal_control_stream: capabilities.terminal_control_stream,
                control_features: feature_views(capabilities.control_features@),
                control_protocol,
            },
            ResponseResult::ControlList { self_connection_id, connections } =>
                ResultModel::ControlList {
                self_connection_id,
                connections: Seq::new(connections@.len(), |i: int| connections@[i]@),
            },
            ResponseResult::TerminalAttached { attach_id, terminal_id, pane_id } =>
                ResultModel::TerminalAttached {
                attach_id: attach_id@,
                terminal_id: terminal_id@,
                pane_id: crate::text::optional_text(pane_id),
            },
            ResponseResult::Pong { version, protocol, capabilities } => ResultModel::Pong {
                version: version@,
                protocol,
                capabilities,
            },
            ResponseResult::SubscriptionStarted => ResultModel::SubscriptionStarted,
        }
    }
}

impl View for Reply {
    type V = ReplyModel;

    open spec fn view(&self) -> ReplyModel {
        match *self {
            Reply::Success { id, result } => ReplyModel::Success { id: id@, result: result@ },
            Reply::Failure { id, code, message } => ReplyModel::Failure {
                id: id@,
                code,
                message: message@,
            },
            Reply::AlreadyWritten => ReplyModel::AlreadyWritten,
        }
    }
}

/// A failure's view.
pub open spec fn failure(id: Seq<char>, code: ErrorCode, message: Seq<char>) -> ReplyModel {
    ReplyModel::Failure { id, code, message }
}

/// The answer to a request that failed.
pub fn error(id: String, code: ErrorCode, message: String) -> (reply: Reply)
    ensures
        reply@ == failure(id@, code, message@),
{
    Reply::Failure { id, code, message }
}

/// The answer to a request that succeeded.
pub fn success(id: String, result: ResponseResult) -> (reply: Reply)
    ensures
        reply@ == (ReplyModel::Success { id: id@, result: result@ }),
{
    Reply::Success { id, result }
}

} // verus!
