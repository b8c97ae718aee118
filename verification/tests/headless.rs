use std::collections::{BTreeMap, HashMap};

use herdr_control::control::{ControlConnectionHandle, ControlOutbound, AUTHORITY_GRACE};
use herdr_control::event_hub::EventHub;
use herdr_control::headless::app::{
    AppView, PaneFacts, TabFacts, TabSurfaceTarget, TerminalFacts,
};
use herdr_control::headless::attach::{snapshot_failed, TargetResolution};
use herdr_control::headless::dispatch::{ControlAnswer, ControlMethod};
use herdr_control::headless::layout::BoundaryStep;
use herdr_control::headless::requests::control_terminal_snapshot_taken;
use herdr_control::headless::state::{ControlEffect, HeadlessServer, CONTROL_CONNECTION_ID_BASE};
use herdr_control::raw_stream::{RawTapBudget, RawTapRegistry, Sent, DEFAULT_TAP_BUDGET_BYTES};
use herdr_control::schema::{
    ControlClientInfo, ControlConnectionInfo, ControlOpenParams, ErrorCode, GeometryController,
    GeometryControllerKind, PaneLayoutSnapshot, PaneRect, Rect, Reply, ResponseResult, TabChrome,
    TabClaimGeometryParams, TabSetGeometryParams, TerminalAttachGeometry, TerminalAttachMode,
    TerminalAttachParams, TerminalAttachTarget, TerminalCursorInfo, TerminalDetachReason,
    TerminalInputParams, TerminalQueryAuthority, TerminalResizeParams, TerminalScreenKind,
    TerminalSnapshot, TerminalStateInfo,
};
use herdr_control::stream::input::{input_sent, terminal_input, InputStep, SendOutcome};
use herdr_control::stream::subscribe::subscribe;
use herdr_control::table::TextSet;

/// What a stream gets, in order.
#[derive(Debug)]
enum Item {
    Reply(Reply),
    Layout(PaneLayoutSnapshot),
    Record(ControlOutbound),
}

#[derive(Debug, Clone)]
struct Changed {
    tab_id: String,
    controller: GeometryController,
    previous: Option<GeometryController>,
}

/// A server with the terminals, streams and clock around it.
struct World {
    server: HeadlessServer,
    registries: HashMap<String, RawTapRegistry>,
    lanes: BTreeMap<u64, Vec<Item>>,
    closed: Vec<u64>,
    /// Rows and columns of each terminal.
    sizes: HashMap<String, (u16, u16)>,
    screens: HashMap<String, String>,
    hub: EventHub<Changed>,
    input: Vec<Vec<u8>>,
    broken_snapshots: bool,
    shut_down: Vec<u64>,
}

fn target() -> TabSurfaceTarget {
    TabSurfaceTarget {
        workspace_index: 0,
        tab_index: 0,
    }
}

fn app_view() -> AppView {
    AppView {
        terminals: vec![TerminalFacts {
            terminal_id: "term-1".into(),
            pane_id: Some("w1:p1".into()),
            pane_runtime: true,
            registry_runtime: false,
            registered: true,
            tab: Some(target()),
        }],
        tabs: vec![TabFacts {
            tab_id: "w1:t1".into(),
            target: target(),
        }],
        panes: vec![PaneFacts {
            target: target(),
            pane: 1,
            runtime: true,
        }],
        pending_alt_screen_reads: Vec::new(),
        workspaces: vec![1],
    }
}

fn snapshot(seq: u64, primary: String, size: (u16, u16)) -> TerminalSnapshot {
    TerminalSnapshot {
        seq,
        active_screen: TerminalScreenKind::Primary,
        primary: Some(primary),
        alternate: None,
        state_ansi: String::new(),
        pen_ansi: String::new(),
        cursor: TerminalCursorInfo {
            x: 0,
            y: 0,
            visible: true,
            shape: 0,
            pending_wrap: false,
            pending_wrap_cell: None,
        },
        state: TerminalStateInfo {
            cols: size.1,
            rows: size.0,
            ..TerminalStateInfo::default()
        },
        truncated: false,
    }
}

impl World {
    fn new(screen: &str) -> World {
        let mut server = HeadlessServer::new("boot-1".into(), "0.1.0".into(), 7, (80, 24));
        server.app = app_view();
        let mut world = World {
            server,
            registries: HashMap::new(),
            lanes: BTreeMap::new(),
            closed: Vec::new(),
            sizes: HashMap::new(),
            screens: HashMap::new(),
            hub: EventHub::default(),
            input: Vec::new(),
            broken_snapshots: false,
            shut_down: Vec::new(),
        };
        world.sizes.insert("term-1".into(), (24, 80));
        world.screens.insert("term-1".into(), screen.to_owned());
        world
            .registries
            .insert("term-1".into(), RawTapRegistry::default());
        world
    }

    fn resolve(&self, wanted: &str) -> TargetResolution {
        for terminal in &self.server.app.terminals {
            if terminal.terminal_id == wanted || terminal.pane_id.as_deref() == Some(wanted) {
                return TargetResolution::Found {
                    terminal_id: terminal.terminal_id.clone(),
                    pane_id: terminal.pane_id.clone(),
                };
            }
        }
        TargetResolution::NotFound
    }

    fn route(&mut self, sent: Vec<Sent>) {
        for item in sent {
            self.lanes
                .entry(item.connection_id)
                .or_default()
                .push(Item::Record(item.record));
        }
    }

    fn take_snapshot(&mut self, terminal_id: &str, attach_id: &str) -> bool {
        let mut sent = Vec::new();
        let broken = self.broken_snapshots;
        let screen = self.screens[terminal_id].clone();
        let size = self.sizes[terminal_id];
        let taken = self.registries.get_mut(terminal_id).unwrap().send_snapshot(
            attach_id,
            |seq| {
                if broken {
                    None
                } else {
                    Some(snapshot(seq, screen, size))
                }
            },
            &mut sent,
        );
        self.route(sent);
        taken
    }

    fn layout_of(&self, target: TabSurfaceTarget, area: Rect) -> Option<PaneLayoutSnapshot> {
        let tab_id = self.server.app.tab_id_for_target(target)?;
        let controller = self
            .server
            .control_tab_geometry_controllers
            .get(&tab_id)
            .copied();
        Some(PaneLayoutSnapshot {
            tab_id,
            area,
            panes: vec![PaneRect {
                pane_id: "w1:p1".into(),
                rect: area,
            }],
            geometry_controller: controller,
        })
    }

    fn perform(&mut self) {
        loop {
            let effects = self.server.take_effects();
            if effects.is_empty() {
                return;
            }
            for effect in effects {
                self.perform_one(effect);
            }
        }
    }

    fn perform_one(&mut self, effect: ControlEffect) {
        match effect {
            ControlEffect::SendReply {
                connection_id,
                reply,
            } => self
                .lanes
                .entry(connection_id)
                .or_default()
                .push(Item::Reply(reply)),
            ControlEffect::AttachRaw {
                connection_id,
                terminal_id,
                attach_id,
                suppress_responses,
                protocol,
            } => self
                .registries
                .get_mut(&terminal_id)
                .unwrap()
                .attach_raw(
                    attach_id,
                    connection_id,
                    RawTapBudget::new(DEFAULT_TAP_BUDGET_BYTES),
                    suppress_responses,
                    protocol,
                ),
            ControlEffect::DetachRaw {
                terminal_id,
                attach_id,
                reason,
            } => {
                let mut sent = Vec::new();
                self.registries
                    .get_mut(&terminal_id)
                    .unwrap()
                    .remove(&attach_id, reason, &mut sent);
                self.route(sent);
            }
            ControlEffect::SnapshotRaw {
                connection_id,
                terminal_id,
                attach_id,
                ..
            } => {
                if !self.take_snapshot(&terminal_id, &attach_id) {
                    self.lanes
                        .entry(connection_id)
                        .or_default()
                        .push(Item::Reply(snapshot_failed(String::new(), &terminal_id)));
                }
            }
            ControlEffect::SetRawQueryAuthority {
                terminal_id,
                attach_id,
            } => {
                let mut sent = Vec::new();
                self.registries
                    .get_mut(&terminal_id)
                    .unwrap()
                    .set_query_authority(attach_id, &mut sent);
                self.route(sent);
            }
            ControlEffect::ResizeTerminal {
                terminal_id,
                rows,
                cols,
                ..
            } => {
                self.sizes.insert(terminal_id, (rows, cols));
            }
            ControlEffect::LayOutTab {
                target, cols, rows, ..
            } => {
                let area = Rect::sized(cols, rows);
                let steps = self.server.with_tab_layout_boundary(&vec![target]);
                for step in steps {
                    match step {
                        BoundaryStep::PushLayout { target } => {
                            let layout = self.layout_of(target, area);
                            self.server.push_control_tab_layout(layout);
                            for effect in self.server.take_effects() {
                                self.perform_one(effect);
                            }
                        }
                        BoundaryStep::Resize => {
                            self.sizes.insert("term-1".into(), (rows, cols));
                        }
                        BoundaryStep::Hold { .. } | BoundaryStep::Release => {}
                    }
                }
            }
            ControlEffect::GeometryChanged {
                tab_id,
                controller,
                previous,
            } => self.hub.push(Changed {
                tab_id,
                controller,
                previous,
            }),
            ControlEffect::PushLayout {
                connections,
                layout,
            } => {
                for connection_id in connections {
                    self.lanes
                        .entry(connection_id)
                        .or_default()
                        .push(Item::Layout(layout.clone()));
                }
            }
            ControlEffect::ShutDownClient { client_id } => self.shut_down.push(client_id),
            ControlEffect::StreamClosed { connection_id } => self.closed.push(connection_id),
            ControlEffect::RestoreShellTab { .. }
            | ControlEffect::ResizeForOnlyShellClient
            | ControlEffect::RederiveShellGeometry => {}
        }
    }

    fn send(&mut self, stream: Option<u64>, method: ControlMethod) -> Option<Reply> {
        let answer = self
            .server
            .handle_control_api_request("control-test".into(), stream, method);
        self.perform();
        match answer {
            ControlAnswer::Answer { reply } => match reply {
                Reply::AlreadyWritten => None,
                reply => Some(reply),
            },
            ControlAnswer::TakeSnapshot {
                id,
                terminal_id,
                attach_id,
                ..
            } => {
                let captured = self.take_snapshot(&terminal_id, &attach_id);
                Some(control_terminal_snapshot_taken(id, &terminal_id, captured))
            }
            other => panic!("expected a reply, got {other:?}"),
        }
    }

    fn open_with(&mut self, params: ControlOpenParams) -> u64 {
        match self.send(Some(0), ControlMethod::ControlOpen { params }) {
            Some(Reply::Success {
                result: ResponseResult::ControlOpened { connection_id, .. },
                ..
            }) => connection_id,
            other => panic!("open failed: {other:?}"),
        }
    }

    /// A protocol 1 stream: no client identity, one owner per terminal.
    fn open(&mut self) -> u64 {
        self.open_with(ControlOpenParams::default())
    }

    fn open_v2(&mut self, name: &str) -> u64 {
        self.open_with(ControlOpenParams {
            client: Some(ControlClientInfo {
                name: name.into(),
                version: "test".into(),
                protocol: 2,
            }),
        })
    }

    fn request_attach(&mut self, stream: u64, params: TerminalAttachParams) -> Option<Reply> {
        let resolved = self.resolve(&params.target);
        self.send(
            Some(stream),
            ControlMethod::TerminalAttach { params, resolved },
        )
    }

    /// Attaches and returns the attach id; the answer must come through the
    /// stream, first of what it gets.
    fn attach(&mut self, stream: u64, params: TerminalAttachParams) -> String {
        let response = self.request_attach(stream, params);
        assert!(
            response.is_none(),
            "a successful attach answers through the stream, got {response:?}"
        );
        match self.lanes.get_mut(&stream).unwrap().remove(0) {
            Item::Reply(reply) => attach_id_of(&reply),
            other => panic!("expected the attach response, got {other:?}"),
        }
    }

    fn drain(&mut self, stream: u64) -> Vec<Item> {
        self.lanes.remove(&stream).unwrap_or_default()
    }

    fn handle(&mut self, stream: u64) -> &mut ControlConnectionHandle {
        let index = self.server.connection_index(stream).expect("open stream");
        &mut self.server.control_connections[index].handle
    }

    fn live(&mut self, stream: u64, attach_id: &str) -> bool {
        self.handle(stream).input_sink(attach_id)
    }

    fn size(&self) -> (u16, u16) {
        self.sizes["term-1"]
    }

    fn controller(&self) -> Option<u64> {
        self.server.controller("w1:t1")
    }

    fn authority(&self) -> Option<String> {
        self.registries["term-1"].query_authority().clone()
    }

    fn process_pty_bytes(&mut self, bytes: &[u8]) {
        let mut sent = Vec::new();
        let registry = self.registries.get_mut("term-1").unwrap();
        registry.note_read(bytes);
        registry.publish(bytes, &mut sent);
        self.route(sent);
    }

    fn set_geometry(&mut self, stream: u64, cols: u16, rows: u16, claim: bool) {
        let reply = self.send(
            Some(stream),
            ControlMethod::TabSetGeometry {
                params: geometry_params(cols, rows, claim),
            },
        );
        assert!(done(&reply), "geometry failed: {reply:?}");
    }

    fn claim(&mut self, stream: u64, params: TabClaimGeometryParams) -> Option<Reply> {
        self.send(Some(stream), ControlMethod::TabClaimGeometry { params })
    }

    fn close(&mut self, stream: u64) {
        let reply = self.send(Some(stream), ControlMethod::ControlClose);
        assert!(done(&reply));
    }

    fn list(&mut self, stream: Option<u64>) -> (Option<u64>, Vec<ControlConnectionInfo>) {
        match self.send(stream, ControlMethod::ControlList) {
            Some(Reply::Success {
                result:
                    ResponseResult::ControlList {
                        self_connection_id,
                        connections,
                    },
                ..
            }) => (self_connection_id, connections),
            other => panic!("expected a list, got {other:?}"),
        }
    }

    /// Sends input as the socket side does, claims and all; tells whether a
    /// claim went ahead.
    fn input(&mut self, stream: u64, id: &str, params: &TerminalInputParams) -> (Reply, bool) {
        let now = self.server.now;
        match terminal_input(self.handle(stream), id.into(), params, now) {
            InputStep::Answer { reply } => (reply, false),
            InputStep::Send { claim, bytes } => {
                let claimed = claim.is_some();
                if let Some(claim) = claim {
                    assert_eq!(claim.id, format!("{id}:claim"));
                    let reply = self.claim(stream, claim.params);
                    assert!(done(&reply), "{reply:?}");
                }
                self.input.push(bytes.to_vec());
                (input_sent(id.into(), SendOutcome::Accepted), claimed)
            }
        }
    }
}

fn attach_id_of(reply: &Reply) -> String {
    match reply {
        Reply::Success {
            result: ResponseResult::TerminalAttached { attach_id, .. },
            ..
        } => attach_id.clone(),
        other => panic!("attach failed: {other:?}"),
    }
}

fn done(reply: &Option<Reply>) -> bool {
    matches!(
        reply,
        Some(Reply::Success {
            result: ResponseResult::Done,
            ..
        })
    )
}

fn code(reply: &Option<Reply>) -> &'static str {
    match reply {
        Some(Reply::Failure { code, .. }) => code.as_str(),
        other => panic!("expected a failure, got {other:?}"),
    }
}

fn message(reply: &Option<Reply>) -> &str {
    match reply {
        Some(Reply::Failure { message, .. }) => message,
        other => panic!("expected a failure, got {other:?}"),
    }
}

fn attach_params(target: &str) -> TerminalAttachParams {
    TerminalAttachParams {
        target: target.to_owned(),
        mode: TerminalAttachMode::Raw,
        history_limit_bytes: None,
        answer_queries: TerminalQueryAuthority::Client,
        takeover: false,
        geometry: TerminalAttachGeometry::Tab,
        cols: None,
        rows: None,
        cell_width_px: 0,
        cell_height_px: 0,
    }
}

fn geometry_params(cols: u16, rows: u16, claim: bool) -> TabSetGeometryParams {
    TabSetGeometryParams {
        tab_id: "w1:t1".into(),
        cols,
        rows,
        cell_width_px: 8,
        cell_height_px: 16,
        chrome: TabChrome::Bare,
        claim,
    }
}

fn detached(items: &[Item]) -> Vec<(String, TerminalDetachReason)> {
    items
        .iter()
        .filter_map(|item| match item {
            Item::Record(ControlOutbound::Detached { attach_id, reason }) => {
                Some((attach_id.clone(), *reason))
            }
            _ => None,
        })
        .collect()
}

fn authorities(items: &[Item]) -> Vec<(String, bool)> {
    items
        .iter()
        .filter_map(|item| match item {
            Item::Record(ControlOutbound::Authority {
                attach_id,
                answers_queries,
            }) => Some((attach_id.clone(), *answers_queries)),
            _ => None,
        })
        .collect()
}

fn snapshots(items: &[Item]) -> usize {
    items
        .iter()
        .filter(|item| matches!(item, Item::Record(ControlOutbound::Snapshot { .. })))
        .count()
}

fn layouts(items: &[Item]) -> Vec<PaneLayoutSnapshot> {
    items
        .iter()
        .filter_map(|item| match item {
            Item::Layout(layout) => Some(layout.clone()),
            _ => None,
        })
        .collect()
}

#[test]
fn control_stream_attaches_streams_and_releases_on_close() {
    let mut world = World::new("hello\r\n");
    let reply = world.send(
        Some(0),
        ControlMethod::ControlOpen {
            params: ControlOpenParams::default(),
        },
    );
    let connection_id = match reply {
        Some(Reply::Success {
            result:
                ResponseResult::ControlOpened {
                    connection_id,
                    control_protocol,
                    ..
                },
            ..
        }) => {
            assert_eq!(control_protocol, 1);
            connection_id
        }
        other => panic!("open failed: {other:?}"),
    };
    assert_eq!(world.handle(connection_id).id(), connection_id);
    assert!(world.server.connection_index(connection_id).is_some());

    let response = world.request_attach(connection_id, attach_params("w1:p1"));
    assert!(response.is_none());
    let (attach_id, terminal_id) = match world.lanes.get_mut(&connection_id).unwrap().remove(0) {
        Item::Reply(Reply::Success {
            result:
                ResponseResult::TerminalAttached {
                    attach_id,
                    terminal_id,
                    pane_id,
                },
            ..
        }) => {
            assert_eq!(pane_id.as_deref(), Some("w1:p1"));
            (attach_id, terminal_id)
        }
        other => panic!("expected the attach response, got {other:?}"),
    };
    assert!(
        world.server.terminal_attach_owners.keys().is_empty(),
        "control attaches are not direct owners"
    );
    assert!(world.server.terminal_has_control_attaches(&terminal_id));

    let items = world.drain(connection_id);
    match &items[0] {
        Item::Record(ControlOutbound::Snapshot {
            attach_id: snapshot_attach,
            snapshot,
        }) => {
            assert_eq!(*snapshot_attach, attach_id);
            assert_eq!(snapshot.seq, 0);
            assert!(snapshot
                .primary
                .as_deref()
                .is_some_and(|primary| primary.contains("hello")));
            assert_eq!(snapshot.state.cols, 80);
            assert_eq!(snapshot.state.rows, 24);
        }
        other => panic!("expected the attach snapshot after the response, got {other:?}"),
    }
    assert_eq!(
        items.len(),
        1,
        "a protocol 1 stream gets no authority record"
    );
    assert!(world.registries["term-1"].suppress_terminal_responses());

    world.process_pty_bytes(b"world");
    match &world.drain(connection_id)[0] {
        Item::Record(ControlOutbound::Output { seq, bytes, .. }) => {
            assert_eq!(*seq, 1);
            assert_eq!(&bytes[..], b"world");
        }
        other => panic!("expected raw output after the snapshot, got {other:?}"),
    }

    assert!(world.live(connection_id, &attach_id));
    let (_, _) = world.input(
        connection_id,
        "i1",
        &TerminalInputParams {
            attach_id: attach_id.clone(),
            bytes: "eA==".into(),
            auto: false,
        },
    );
    assert_eq!(world.input, vec![b"x".to_vec()]);

    world.set_geometry(connection_id, 120, 40, true);
    assert!(
        world.server.control_chromeless_tabs.contains("w1:t1"),
        "chrome: none marks the tab chromeless"
    );
    assert_eq!(world.controller(), Some(connection_id));
    assert_ne!(world.size(), (24, 80), "tab geometry resized the pane");
    let items = world.drain(connection_id);
    let layout = match &items[0] {
        Item::Layout(layout) => layout,
        other => panic!("expected a tab.layout record before any resize output, got {other:?}"),
    };
    assert_eq!(layout.area.width, 120);
    assert_eq!(layout.area.height, 40);
    let controller = layout.geometry_controller.expect("controller");
    assert_eq!(controller.kind, GeometryControllerKind::Control);
    assert_eq!(controller.connection_id, Some(connection_id));
    assert_eq!(controller.chrome, TabChrome::Bare);
    let (rows, cols) = world.size();
    assert_eq!(layout.panes[0].rect.width, cols);
    assert_eq!(layout.panes[0].rect.height, rows);
    assert_eq!((rows, cols), (40, 120));

    let again = world.send(
        Some(connection_id),
        ControlMethod::TerminalSnapshot {
            params: TerminalAttachTarget {
                attach_id: attach_id.clone(),
            },
        },
    );
    assert!(done(&again));
    let items = world.drain(connection_id);
    assert!(
        items.iter().any(|item| matches!(
            item,
            Item::Record(ControlOutbound::Snapshot { snapshot, .. }) if snapshot.seq == 1
        )),
        "re-snapshot carries the current sequence"
    );

    world.close(connection_id);
    assert!(world.server.control_connections.is_empty());
    assert!(world.server.terminal_attach_owners.keys().is_empty());
    assert!(world.server.tab_geometry_controllers.keys().is_empty());
    assert!(world.server.control_chromeless_tabs.sorted().is_empty());
    assert_eq!(world.closed, vec![connection_id]);
    let items = world.drain(connection_id);
    assert_eq!(
        detached(&items),
        vec![(attach_id, TerminalDetachReason::Closed)],
        "closing the stream detaches every attach"
    );
}

#[test]
fn control_open_negotiates_protocol_and_advertises_features() {
    let mut world = World::new("");
    let v1 = world.open();
    assert_eq!(world.handle(v1).protocol(), 1);

    let reply = world.send(
        Some(0),
        ControlMethod::ControlOpen {
            params: ControlOpenParams {
                client: Some(ControlClientInfo {
                    name: "future".into(),
                    version: "9".into(),
                    protocol: 9,
                }),
            },
        },
    );
    match reply {
        Some(Reply::Success {
            result:
                ResponseResult::ControlOpened {
                    connection_id,
                    boot_id,
                    version,
                    protocol,
                    capabilities,
                    control_protocol,
                },
            ..
        }) => {
            assert_eq!(
                control_protocol, 2,
                "negotiates down to what the server supports"
            );
            assert_eq!(world.handle(connection_id).protocol(), 2);
            assert_eq!(capabilities.terminal_control_stream, 2);
            for feature in ["shared_attach", "geometry_ownership", "control_list"] {
                assert!(
                    capabilities.control_features.contains(&feature),
                    "missing {feature} in {:?}",
                    capabilities.control_features
                );
            }
            assert_eq!((boot_id.as_str(), version.as_str()), ("boot-1", "0.1.0"));
            assert_eq!(protocol, 7);
        }
        other => panic!("open failed: {other:?}"),
    }

    let zero = world.open_with(ControlOpenParams {
        client: Some(ControlClientInfo::default()),
    });
    assert_eq!(
        world.handle(zero).protocol(),
        1,
        "a client that names no protocol gets the protocol 1 contract"
    );
}

#[test]
fn second_control_attach_shares_the_terminal() {
    let mut world = World::new("");
    let first = world.open_v2("a");
    let second = world.open_v2("b");
    let first_attach = world.attach(first, attach_params("w1:p1"));
    let second_attach = world.attach(second, attach_params("w1:p1"));
    assert!(world.server.terminal_attach_owners.keys().is_empty());
    assert!(world.live(first, &first_attach), "sharing evicts nobody");
    let first_items = world.drain(first);
    let second_items = world.drain(second);
    assert_eq!(snapshots(&first_items), 1);
    assert_eq!(snapshots(&second_items), 1);
    assert!(detached(&first_items).is_empty(), "{first_items:?}");

    world.process_pty_bytes(b"shared");
    for (stream, attach) in [(first, &first_attach), (second, &second_attach)] {
        let items = world.drain(stream);
        match &items[0] {
            Item::Record(ControlOutbound::Output { attach_id, seq, .. }) => {
                assert_eq!(attach_id, attach);
                assert_eq!(*seq, 1, "each tap numbers its own output");
            }
            other => panic!("output fans out to every tap, got {other:?}"),
        }
    }

    for (stream, attach, text, byte) in [
        (first, &first_attach, "MQ==", b"1"),
        (second, &second_attach, "Mg==", b"2"),
    ] {
        world.input(
            stream,
            "i1",
            &TerminalInputParams {
                attach_id: attach.clone(),
                bytes: text.into(),
                auto: false,
            },
        );
        assert_eq!(world.input.pop().expect("pty input"), byte.to_vec());
    }

    world.close(first);
    assert!(
        world.live(second, &second_attach),
        "one stream closing leaves the other attached"
    );
    let items = world.drain(second);
    assert!(detached(&items).is_empty());
}

#[test]
fn takeover_evicts_v1_attaches_but_not_v2() {
    let mut world = World::new("");
    let v1_a = world.open();
    let v2 = world.open_v2("b");
    let v1_c = world.open();

    let mut takeover = attach_params("w1:p1");
    takeover.takeover = true;
    let a_attach = world.attach(v1_a, takeover.clone());
    let b_attach = world.attach(v2, attach_params("w1:p1"));
    assert!(world.live(v1_a, &a_attach), "a v2 join evicts nobody");

    let c_attach = world.attach(v1_c, takeover.clone());
    assert!(
        !world.live(v1_a, &a_attach),
        "a v1 takeover evicts the other v1 attach"
    );
    let items = world.drain(v1_a);
    assert_eq!(
        detached(&items),
        vec![(a_attach, TerminalDetachReason::Takeover)]
    );
    assert!(
        world.live(v2, &b_attach),
        "a v1 takeover leaves the v2 attach alone"
    );
    let items = world.drain(v2);
    assert!(detached(&items).is_empty());

    // A size owner cannot share with anyone.
    let owner = world.open_v2("d");
    let mut sized = attach_params("w1:p1");
    sized.geometry = TerminalAttachGeometry::Terminal;
    sized.cols = Some(50);
    sized.rows = Some(10);
    let refused = world.request_attach(owner, sized.clone());
    assert_eq!(code(&refused), "terminal_attached");
    sized.takeover = true;
    let d_attach = world.attach(owner, sized);
    assert!(!world.live(v2, &b_attach));
    assert!(!world.live(v1_c, &c_attach));
    for stream in [v2, v1_c] {
        let items = world.drain(stream);
        assert!(detached(&items)
            .iter()
            .any(|(_, reason)| *reason == TerminalDetachReason::Takeover));
    }
    assert!(world.live(owner, &d_attach));
}

#[test]
fn tab_following_attach_refused_while_terminal_geometry_attach_exists() {
    let mut world = World::new("");
    let owner = world.open_v2("owner");
    let follower = world.open_v2("follower");

    let mut sized = attach_params("w1:p1");
    sized.geometry = TerminalAttachGeometry::Terminal;
    sized.cols = Some(50);
    sized.rows = Some(10);
    let owner_attach = world.attach(owner, sized);
    assert_eq!(world.size(), (10, 50));

    let refused = world.request_attach(follower, attach_params("w1:p1"));
    assert_eq!(code(&refused), "terminal_attached");

    let mut takeover = attach_params("w1:p1");
    takeover.takeover = true;
    world.attach(follower, takeover);
    assert!(
        !world.live(owner, &owner_attach),
        "a follower's takeover evicts the size owner"
    );
    let items = world.drain(owner);
    assert_eq!(
        detached(&items),
        vec![(owner_attach, TerminalDetachReason::Takeover)]
    );
}

#[test]
fn terminal_geometry_attach_refused_while_followers_exist() {
    let mut world = World::new("");
    let follower = world.open_v2("follower");
    let owner = world.open_v2("owner");
    world.attach(follower, attach_params("w1:p1"));
    let mut sized = attach_params("w1:p1");
    sized.geometry = TerminalAttachGeometry::Terminal;
    let refused = world.request_attach(owner, sized);
    assert_eq!(code(&refused), "terminal_attached");
}

#[test]
fn control_methods_need_an_open_stream() {
    let mut world = World::new("");
    let params = attach_params("w1:p1");
    let resolved = world.resolve("w1:p1");
    let response = world.send(None, ControlMethod::TerminalAttach { params, resolved });
    assert_eq!(code(&response), "control_stream_required");
    let response = world.send(
        None,
        ControlMethod::TabClaimGeometry {
            params: TabClaimGeometryParams::default(),
        },
    );
    assert_eq!(code(&response), "control_stream_required");
}

#[test]
fn geometry_follows_latest_control_interaction() {
    let mut world = World::new("");
    let a = world.open_v2("a");
    let b = world.open_v2("b");
    world.attach(a, attach_params("w1:p1"));
    world.attach(b, attach_params("w1:p1"));
    world.drain(a);
    world.drain(b);

    world.set_geometry(a, 120, 40, true);
    assert_eq!(world.controller(), Some(a));
    assert_eq!(world.size(), (40, 120));

    world.set_geometry(b, 100, 30, true);
    assert_eq!(world.controller(), Some(b));
    assert_eq!(world.size(), (30, 100));
    for stream in [a, b] {
        let items = world.drain(stream);
        let layout = layouts(&items)
            .pop()
            .expect("every stream sees the layout");
        assert_eq!(
            layout.geometry_controller.and_then(|c| c.connection_id),
            Some(b)
        );
        assert_eq!(layout.area.width, 100);
    }
    let attach_id = format!("{}-0", a - (1 << 40));
    assert!(
        world.handle(a).take_claim_on_input(&attach_id),
        "the stream that lost the tab claims it back on input"
    );

    let claimed = world.claim(
        a,
        TabClaimGeometryParams {
            tab_id: Some("w1:t1".into()),
            attach_id: None,
        },
    );
    assert!(done(&claimed), "{claimed:?}");
    assert_eq!(world.controller(), Some(a));
    assert_eq!(world.size(), (40, 120));

    let changes = world
        .hub
        .events_after(0)
        .into_iter()
        .map(|(_, event)| event)
        .collect::<Vec<_>>();
    assert_eq!(changes.len(), 3, "{changes:?}");
    assert_eq!(changes[0].controller.connection_id, Some(a));
    assert_eq!(changes[0].previous, None);
    assert_eq!(changes[1].controller.connection_id, Some(b));
    assert_eq!(changes[1].previous.unwrap().connection_id, Some(a));
    assert_eq!(changes[2].controller.connection_id, Some(a));
    assert_eq!(changes[2].previous.unwrap().connection_id, Some(b));
    assert_eq!(changes[2].tab_id, "w1:t1");

    let layout = world
        .layout_of(target(), world.server.current_tab_area(target()))
        .expect("tab layout in the session snapshot");
    assert_eq!(
        layout
            .geometry_controller
            .as_ref()
            .and_then(|controller| controller.connection_id),
        Some(a),
        "session.snapshot layouts carry the controller too"
    );
}

#[test]
fn set_geometry_without_claim_does_not_relayout() {
    let mut world = World::new("");
    let a = world.open_v2("a");
    let b = world.open_v2("b");
    world.attach(a, attach_params("w1:p1"));
    world.attach(b, attach_params("w1:p1"));
    world.set_geometry(a, 120, 40, true);
    world.drain(a);
    world.drain(b);

    world.set_geometry(b, 100, 30, false);
    assert_eq!(world.controller(), Some(a));
    assert_eq!(world.size(), (40, 120));
    let items = world.drain(b);
    assert!(
        layouts(&items).is_empty(),
        "storing a size lays nothing out: {items:?}"
    );

    // The owner updating its own size still applies it.
    world.set_geometry(a, 110, 35, false);
    assert_eq!(world.controller(), Some(a));
    assert_eq!(world.size(), (35, 110));
}

#[test]
fn input_claims_geometry_only_with_stored_geometry() {
    let mut world = World::new("");
    let a = world.open_v2("a");
    let b = world.open_v2("b");
    let a_attach = world.attach(a, attach_params("w1:p1"));
    let b_attach = world.attach(b, attach_params("w1:p1"));
    world.set_geometry(a, 120, 40, true);
    assert!(
        !world.handle(b).take_claim_on_input(&b_attach),
        "no stored size: typing cannot steal the tab"
    );

    world.set_geometry(b, 100, 30, false);
    assert!(
        world.handle(b).take_claim_on_input(&b_attach),
        "a stored size arms the input claim"
    );
    assert!(
        !world.handle(b).take_claim_on_input(&b_attach),
        "one input, one claim"
    );
    // The socket side dispatches this on the flagged input.
    let claimed = world.claim(
        b,
        TabClaimGeometryParams {
            tab_id: None,
            attach_id: Some(b_attach.clone()),
        },
    );
    assert!(done(&claimed), "{claimed:?}");
    assert_eq!(world.controller(), Some(b));
    assert_eq!(world.size(), (30, 100));
    assert!(
        world.handle(a).take_claim_on_input(&a_attach),
        "the previous owner now claims back on input"
    );
    assert!(
        !world.handle(b).take_claim_on_input(&b_attach),
        "the owner has nothing to claim"
    );

    let c = world.open_v2("c");
    let c_attach = world.attach(c, attach_params("w1:p1"));
    let missing = world.claim(
        c,
        TabClaimGeometryParams {
            tab_id: None,
            attach_id: Some(c_attach),
        },
    );
    assert_eq!(code(&missing), "no_geometry");
    assert_eq!(world.controller(), Some(b));
}

#[test]
fn pane_focus_never_claims() {
    let mut world = World::new("");
    let a = world.open_v2("a");
    let b = world.open_v2("b");
    world.attach(a, attach_params("w1:p1"));
    world.attach(b, attach_params("w1:p1"));
    world.set_geometry(a, 120, 40, true);
    world.set_geometry(b, 100, 30, false);

    let answer =
        world
            .server
            .handle_control_api_request("focus".into(), Some(b), ControlMethod::Other);
    world.perform();
    assert!(matches!(answer, ControlAnswer::NotControl));
    assert_eq!(
        world.controller(),
        Some(a),
        "focus from a control stream leaves geometry alone"
    );
    assert_eq!(world.size(), (40, 120));
}

#[test]
fn owner_disconnect_hands_tab_to_latest_remaining_geometry() {
    let mut world = World::new("");
    let a = world.open_v2("a");
    let b = world.open_v2("b");
    let c = world.open_v2("c");
    for stream in [a, b, c] {
        world.attach(stream, attach_params("w1:p1"));
    }
    world.set_geometry(a, 90, 20, false);
    world.set_geometry(c, 100, 30, false);
    world.set_geometry(b, 120, 40, true);
    assert_eq!(world.controller(), Some(b));

    world.close(b);
    assert_eq!(
        world.controller(),
        Some(c),
        "the most recent remaining size wins"
    );
    assert_eq!(world.size(), (30, 100));
    let items = world.drain(a);
    let layout = layouts(&items).pop().expect("survivors see the hand-off");
    assert_eq!(
        layout.geometry_controller.and_then(|c| c.connection_id),
        Some(c)
    );

    world.close(c);
    assert_eq!(world.controller(), Some(a));
    assert_eq!(world.size(), (20, 90));

    world.close(a);
    assert!(world.server.tab_geometry_controllers.keys().is_empty());
    assert!(world.server.control_connections.is_empty());
}

#[test]
fn query_authority_prefers_v1_then_geometry_controller() {
    let mut world = World::new("");
    let a = world.open_v2("a");
    let b = world.open_v2("b");

    let a_attach = world.attach(a, attach_params("w1:p1"));
    let items = world.drain(a);
    assert_eq!(
        authorities(&items),
        vec![(a_attach.clone(), true)],
        "a protocol 2 attach learns its standing after the snapshot"
    );
    assert_eq!(world.authority(), Some(a_attach.clone()));
    assert!(world.registries["term-1"].suppress_terminal_responses());

    let b_attach = world.attach(b, attach_params("w1:p1"));
    let items = world.drain(b);
    assert!(
        authorities(&items).iter().any(|(_, answers)| !answers),
        "the oldest attach keeps answering: {items:?}"
    );

    world.set_geometry(b, 100, 30, true);
    assert_eq!(
        world.authority(),
        Some(b_attach.clone()),
        "the geometry controller answers"
    );
    let items = world.drain(a);
    assert!(authorities(&items).iter().any(|(_, answers)| !answers));
    let items = world.drain(b);
    assert!(authorities(&items).iter().any(|(_, answers)| *answers));

    // A protocol 1 stream is exclusive, so it joins with takeover; that
    // evicts protocol 1 followers only, leaving a and b in place.
    let v1 = world.open();
    let v1_params = TerminalAttachParams {
        takeover: true,
        ..attach_params("w1:p1")
    };
    let v1_attach = world.attach(v1, v1_params);
    assert_eq!(
        world.authority(),
        Some(v1_attach),
        "a protocol 1 client cannot be told to stop, so it answers"
    );
    let items = world.drain(v1);
    assert!(authorities(&items).is_empty(), "{items:?}");
    let items = world.drain(b);
    assert!(authorities(&items).iter().any(|(_, answers)| !answers));
    assert!(world.registries["term-1"].suppress_terminal_responses());

    world.close(v1);
    assert_eq!(world.authority(), Some(b_attach));

    let (_, connections) = world.list(Some(b));
    let answering = connections
        .iter()
        .flat_map(|connection| connection.attaches.iter())
        .filter(|attach| attach.answers_queries)
        .count();
    assert_eq!(answering, 1);
}

#[test]
fn control_list_reports_clients_attaches_and_tabs() {
    let mut world = World::new("");
    let a = world.open_v2("rootshell");
    let b = world.open();
    let a_attach = world.attach(a, attach_params("w1:p1"));
    world.set_geometry(a, 120, 40, true);
    world.set_geometry(b, 80, 24, false);

    let (own, connections) = world.list(Some(a));
    assert_eq!(own, Some(a));
    assert_eq!(connections.len(), 2);
    let first = &connections[0];
    assert_eq!(first.connection_id, a);
    assert_eq!(first.control_protocol, 2);
    assert_eq!(first.client.as_ref().unwrap().name, "rootshell");
    assert_eq!(first.attaches[0].attach_id, a_attach);
    assert_eq!(first.attaches[0].pane_id.as_deref(), Some("w1:p1"));
    assert_eq!(first.attaches[0].geometry, TerminalAttachGeometry::Tab);
    assert!(first.attaches[0].answers_queries);
    assert_eq!(first.tabs[0].tab_id, "w1:t1");
    assert_eq!(first.tabs[0].cols, 120);
    assert!(first.tabs[0].controller);
    let second = &connections[1];
    assert_eq!(second.control_protocol, 1);
    assert!(second.client.is_none());
    assert!(!second.tabs[0].controller);

    let (own, connections) = world.list(None);
    assert_eq!(own, None);
    assert_eq!(connections.len(), 2);
}

/// A tab a control connection sized keeps that size, and is marked so that no
/// view resizes it.
#[test]
fn sized_tabs_are_marked_as_control_owned() {
    let mut world = World::new("hello\r\n");
    let stream = world.open();
    world.set_geometry(stream, 120, 40, true);
    assert_eq!(world.size(), (40, 120));
    assert!(world.server.control_geometry_tabs.contains("w1:t1"));
    assert_eq!(
        world.server.current_tab_area(target()),
        Rect::sized(120, 40)
    );
    world.close(stream);
    assert!(world.server.control_geometry_tabs.sorted().is_empty());
    assert_eq!(world.server.current_tab_area(target()), Rect::sized(80, 24));
}

/// A joining stream bootstraps from `session.snapshot`; its layouts must be
/// the ones `tab.layout` records carry, not the view's area.
#[test]
fn control_snapshot_layouts_match_tab_layout_records() {
    let mut world = World::new("");
    let a = world.open_v2("a");
    world.attach(a, attach_params("w1:p1"));
    world.drain(a);
    world.set_geometry(a, 120, 40, true);
    let items = world.drain(a);
    let record = layouts(&items)
        .into_iter()
        .filter(|layout| layout.tab_id == "w1:t1")
        .last()
        .expect("tab.layout for the sized tab");
    assert_eq!(record.area.width, 120);
    assert_eq!(record.area.height, 40);

    let b = world.open_v2("b");
    let answer = world.server.handle_control_api_request(
        "snapshot".into(),
        Some(b),
        ControlMethod::SessionSnapshot,
    );
    match answer {
        ControlAnswer::SessionSnapshot { id, layouts } => {
            assert_eq!(id, "snapshot");
            assert_eq!(layouts, vec![(target(), record.area)]);
        }
        other => panic!("expected a session snapshot, got {other:?}"),
    }
    assert_eq!(
        record.geometry_controller.and_then(|c| c.connection_id),
        Some(a)
    );

    // Plain API callers keep the shared view area.
    for stream in [None, Some(0)] {
        let plain = world.server.handle_control_api_request(
            "plain".into(),
            stream,
            ControlMethod::SessionSnapshot,
        );
        assert!(matches!(plain, ControlAnswer::NotControl));
    }
}

/// Protocol 1 keeps its one-owner contract even on a sharing server.
#[test]
fn protocol_one_attaches_stay_exclusive() {
    let mut world = World::new("");
    let v1_a = world.open();
    let v1_b = world.open();
    let a_attach = world.attach(v1_a, attach_params("w1:p1"));

    let refused = world.request_attach(v1_b, attach_params("w1:p1"));
    assert_eq!(
        code(&refused),
        "terminal_attached",
        "a second protocol 1 attach needs takeover: {refused:?}"
    );
    assert!(world.live(v1_a, &a_attach));

    // A protocol 2 follower joins the v1 attach; the v1 attach keeps answering.
    let v2 = world.open_v2("b");
    let b_attach = world.attach(v2, attach_params("w1:p1"));
    assert!(world.live(v1_a, &a_attach), "a v2 join evicts nobody");
    assert_eq!(world.authority(), Some(a_attach.clone()));
    let items = world.drain(v2);
    assert!(authorities(&items).contains(&(b_attach.clone(), false)));

    // Another protocol 1 client is still refused while any attach exists.
    let refused = world.request_attach(v1_b, attach_params("w1:p1"));
    assert_eq!(code(&refused), "terminal_attached");

    // With takeover it evicts the v1 attach only.
    let mut takeover = attach_params("w1:p1");
    takeover.takeover = true;
    world.attach(v1_b, takeover);
    assert!(!world.live(v1_a, &a_attach));
    assert!(world.live(v2, &b_attach));
}

/// A reply from the attach that just lost authority still reaches the PTY
/// inside the grace window, and not after it.
#[test]
fn authority_grace_keeps_the_previous_answerers_reply() {
    let mut world = World::new("");
    world.server.now = 1_000_000_000;
    let a = world.open_v2("a");
    let b = world.open_v2("b");
    let a_attach = world.attach(a, attach_params("w1:p1"));
    let _b_attach = world.attach(b, attach_params("w1:p1"));
    world.set_geometry(a, 120, 40, true);
    world.set_geometry(b, 100, 30, false);
    assert!(world.handle(a).input_authority(&a_attach));

    let claimed = world.claim(
        b,
        TabClaimGeometryParams {
            tab_id: Some("w1:t1".into()),
            attach_id: None,
        },
    );
    assert!(done(&claimed), "{claimed:?}");
    assert!(!world.handle(a).input_authority(&a_attach), "b answers now");

    let reply = TerminalInputParams {
        attach_id: a_attach.clone(),
        bytes: "G1s/MTsyYw==".into(),
        auto: true,
    };
    let (response, claimed) = world.input(a, "i1", &reply);
    assert!(done(&Some(response)));
    assert_eq!(
        world.input.pop().expect("the outstanding reply lands"),
        b"\x1b[?1;2c".to_vec()
    );
    assert!(!claimed, "a reply never claims");

    world.server.now += AUTHORITY_GRACE + 1_000_000_000;
    let (response, _) = world.input(a, "i2", &reply);
    assert!(done(&Some(response)));
    assert!(
        world.input.is_empty(),
        "past the window the stale answerer is silent"
    );
}

/// A protocol 1 stream cannot be told to stop answering, so attaching again
/// to the same terminal replaces its earlier attach.
#[test]
fn protocol_one_reattach_replaces_the_earlier_attach() {
    let mut world = World::new("");
    let v1 = world.open();
    let first = world.attach(v1, attach_params("w1:p1"));
    world.drain(v1);

    // The eviction record precedes the new attach's response on the lane.
    let response = world.request_attach(v1, attach_params("w1:p1"));
    assert!(response.is_none(), "{response:?}");
    let items = world.drain(v1);
    assert!(
        matches!(&items[0], Item::Record(ControlOutbound::Detached { attach_id, reason: TerminalDetachReason::Takeover }) if *attach_id == first),
        "{items:?}"
    );
    let second = items
        .iter()
        .find_map(|item| match item {
            Item::Reply(reply) => Some(attach_id_of(reply)),
            _ => None,
        })
        .expect("attach response");
    assert_ne!(first, second);
    assert!(!world.live(v1, &first));
    assert!(world.live(v1, &second));

    let (_, connections) = world.list(Some(v1));
    assert_eq!(connections[0].attaches.len(), 1, "{connections:?}");
    assert_eq!(connections[0].attaches[0].attach_id, second);
    assert_eq!(world.authority(), Some(second));
}

/// Replacing its own attach is not a new exclusivity claim: shared protocol
/// 2 viewers stay, and the protocol 1 stream keeps answering.
#[test]
fn protocol_one_reattach_keeps_shared_viewers() {
    let mut world = World::new("");
    let v1 = world.open();
    let first = world.attach(v1, attach_params("w1:p1"));
    let v2 = world.open_v2("viewer");
    let viewer = world.attach(v2, attach_params("w1:p1"));
    world.drain(v1);
    world.drain(v2);

    let response = world.request_attach(v1, attach_params("w1:p1"));
    assert!(response.is_none(), "{response:?}");
    let items = world.drain(v1);
    assert!(
        detached(&items).contains(&(first, TerminalDetachReason::Takeover)),
        "{items:?}"
    );
    let second = items
        .iter()
        .find_map(|item| match item {
            Item::Reply(reply) => Some(attach_id_of(reply)),
            _ => None,
        })
        .expect("attach response");
    let viewer_items = world.drain(v2);
    assert!(
        detached(&viewer_items).is_empty(),
        "the shared viewer stays: {viewer_items:?}"
    );

    let (_, connections) = world.list(Some(v1));
    let attaches_of = |connection: &ControlConnectionInfo| {
        connection
            .attaches
            .iter()
            .map(|attach| attach.attach_id.clone())
            .collect::<Vec<_>>()
    };
    let by_id = |id: &str| {
        connections
            .iter()
            .find(|connection| attaches_of(connection).iter().any(|attach| attach == id))
            .expect("connection")
    };
    assert_eq!(attaches_of(by_id(&second)), vec![second.clone()]);
    assert_eq!(attaches_of(by_id(&viewer)), vec![viewer.clone()]);
    assert_eq!(world.authority(), Some(second));
}

/// A refused replacement must leave the old attach alone: the conflict is
/// checked before anything is retired.
#[test]
fn refused_protocol_one_reattach_keeps_the_existing_attach() {
    let mut world = World::new("");
    let v1 = world.open();
    let first = world.attach(v1, attach_params("w1:p1"));
    world.drain(v1);
    // A direct client sizes the terminal now.
    world
        .server
        .terminal_attach_owners
        .insert("term-1".into(), 42);

    let response = world.request_attach(v1, attach_params("w1:p1"));
    assert_eq!(code(&response), "terminal_attached", "{response:?}");
    let items = world.drain(v1);
    assert!(detached(&items).is_empty(), "{items:?}");
    assert!(world.live(v1, &first));
    let (_, connections) = world.list(Some(v1));
    assert_eq!(connections[0].attaches.len(), 1, "{connections:?}");
    assert_eq!(connections[0].attaches[0].attach_id, first);
}

/// An emulator's own reply is forwarded only by the query authority and is
/// never interaction, so it cannot claim the tab.
#[test]
fn auto_input_only_from_the_authority() {
    let mut world = World::new("");
    let a = world.open_v2("a");
    let b = world.open_v2("b");
    let a_attach = world.attach(a, attach_params("w1:p1"));
    let b_attach = world.attach(b, attach_params("w1:p1"));
    world.set_geometry(a, 120, 40, true);
    world.set_geometry(b, 100, 30, false);
    assert!(
        world.handle(a).input_authority(&a_attach),
        "the owner's attach answers"
    );
    assert!(!world.handle(b).input_authority(&b_attach));

    let reply = |attach_id: &str, auto: bool| TerminalInputParams {
        attach_id: attach_id.to_owned(),
        bytes: "G1s/MTsyYw==".into(),
        auto,
    };

    // The non-authority's reply is dropped, and its armed claim stays armed.
    let (response, claimed) = world.input(b, "i1", &reply(&b_attach, true));
    assert!(done(&Some(response)));
    assert!(
        world.input.is_empty(),
        "a duplicate reply never reaches the PTY"
    );
    assert!(!claimed, "an automatic reply never claims");
    assert!(
        world.handle(b).take_claim_on_input(&b_attach),
        "the claim waits for real typing"
    );
    let mut flags = TextSet::new();
    flags.insert(b_attach.clone());
    world.handle(b).set_claim_on_input(flags);

    // The authority's reply reaches the PTY, still without claiming.
    let (response, claimed) = world.input(a, "i2", &reply(&a_attach, true));
    assert!(done(&Some(response)));
    assert_eq!(
        world.input.pop().expect("pty input"),
        b"\x1b[?1;2c".to_vec()
    );
    assert!(!claimed);

    // Real typing from the non-owner claims and reaches the PTY.
    let (response, claimed) = world.input(b, "i3", &reply(&b_attach, false));
    assert!(done(&Some(response)));
    assert_eq!(
        world.input.pop().expect("pty input"),
        b"\x1b[?1;2c".to_vec()
    );
    assert!(claimed, "typing dispatches the claim");
    assert_eq!(world.controller(), Some(b));
}

/// Two clients on one pane, and a third that speaks protocol 1.
#[test]
fn control_streams_share_a_pane_and_geometry_follows_the_last_interaction() {
    let mut world = World::new("");
    let a = world.open_v2("a");
    let b = world.open_v2("b");
    assert_eq!(world.handle(a).protocol(), 2);

    let mut active = Vec::new();
    let subscribed = subscribe(
        "sub".into(),
        &world.hub,
        vec!["tab.geometry_changed"],
        |_request: &str, _index: usize, start: u64| Ok(start),
        &mut active,
    );
    assert!(matches!(
        subscribed,
        Reply::Success {
            result: ResponseResult::SubscriptionStarted,
            ..
        }
    ));

    let a_attach = world.attach(a, attach_params("w1:p1"));
    let items = world.drain(a);
    assert_eq!(snapshots(&items), 1);
    assert_eq!(authorities(&items), vec![(a_attach.clone(), true)]);

    let b_attach = world.attach(b, attach_params("w1:p1"));
    let items = world.drain(b);
    assert_eq!(snapshots(&items), 1);
    assert_eq!(authorities(&items), vec![(b_attach.clone(), false)]);
    assert!(
        detached(&world.drain(a)).is_empty(),
        "sharing evicts nobody"
    );

    world.set_geometry(a, 120, 40, true);
    assert_eq!(world.size(), (40, 120));
    let layout = layouts(&world.drain(b))
        .into_iter()
        .find(|layout| layout.area.width == 120)
        .expect("every stream sees the layout");
    assert_eq!(
        layout.geometry_controller.and_then(|c| c.connection_id),
        Some(a)
    );

    world.set_geometry(b, 100, 30, true);
    assert_eq!(world.size(), (30, 100));
    let (sequence, changed) = world.hub.events_after(active[0].subscription).pop().unwrap();
    active[0].subscription = sequence;
    assert_eq!(changed.controller.connection_id, Some(b));
    assert_eq!(changed.previous.unwrap().connection_id, Some(a));
    assert_eq!(changed.tab_id, "w1:t1");

    // Typing on the stream that lost the tab takes it back at its size.
    let (ok, claimed) = world.input(
        a,
        "type",
        &TerminalInputParams {
            attach_id: a_attach.clone(),
            bytes: "Cg==".into(),
            auto: false,
        },
    );
    assert!(done(&Some(ok)));
    assert!(claimed);
    assert_eq!(world.input.pop(), Some(b"\n".to_vec()));
    assert_eq!(world.size(), (40, 120));
    let events = world.hub.events_after(active[0].subscription);
    assert_eq!(events.len(), 1);
    assert_eq!(events[0].1.controller.connection_id, Some(a));

    let (own, connections) = world.list(Some(a));
    assert_eq!(own, Some(a));
    assert_eq!(connections.len(), 2);
    let mine = connections
        .iter()
        .find(|connection| connection.connection_id == a)
        .unwrap();
    assert_eq!(mine.client.as_ref().unwrap().name, "a");
    assert_eq!(mine.attaches[0].attach_id, a_attach);
    assert!(mine.tabs[0].controller);
    let theirs = connections
        .iter()
        .find(|connection| connection.connection_id == b)
        .unwrap();
    assert!(!theirs.tabs[0].controller);

    // The owner leaving hands the tab to the other stream's stored size.
    world.drain(b);
    world.close(a);
    assert_eq!(world.size(), (30, 100));
    let layout = layouts(&world.drain(b))
        .into_iter()
        .find(|layout| layout.geometry_controller.and_then(|c| c.connection_id) == Some(b))
        .expect("survivors see the hand-off");
    assert_eq!(layout.area.height, 30);
    let (_, connections) = world.list(Some(b));
    assert_eq!(connections.len(), 1);

    // A protocol 1 stream taking over evicts nothing on protocol 2.
    let legacy = world.open();
    assert_eq!(world.handle(legacy).protocol(), 1);
    world.attach(
        legacy,
        TerminalAttachParams {
            takeover: true,
            ..attach_params("w1:p1")
        },
    );
    assert_eq!(snapshots(&world.drain(legacy)), 1);
    assert!(
        detached(&world.drain(b)).is_empty(),
        "a v1 takeover leaves protocol 2 attaches alone"
    );
    assert!(world.live(b, &b_attach));
}

/// Whichever stream opened first, the attach that was there first answers.
#[test]
fn the_oldest_attach_answers_whichever_stream_opened_first() {
    let mut world = World::new("");
    let a = world.open_v2("a");
    let b = world.open_v2("b");
    let b_attach = world.attach(b, attach_params("w1:p1"));
    assert_eq!(world.authority(), Some(b_attach.clone()));
    world.drain(b);
    let a_attach = world.attach(a, attach_params("w1:p1"));
    assert_eq!(
        world.authority(),
        Some(b_attach.clone()),
        "a later join leaves the answers where they are"
    );
    assert_eq!(
        authorities(&world.drain(a)),
        vec![(a_attach.clone(), false)]
    );
    assert!(authorities(&world.drain(b)).is_empty());
    assert!(world.handle(b).input_authority(&b_attach));
    assert!(!world.handle(a).input_authority(&a_attach));
    let (_, connections) = world.list(None);
    assert!(!connections[0].attaches[0].answers_queries);
    assert!(connections[1].attaches[0].answers_queries);

    // Once it goes, the next oldest answers; a second attach of the same
    // stream is younger still.
    let again = world.attach(b, attach_params("w1:p1"));
    let ended = world.send(
        Some(b),
        ControlMethod::TerminalDetach {
            params: TerminalAttachTarget {
                attach_id: b_attach,
            },
        },
    );
    assert!(done(&ended));
    assert_eq!(world.authority(), Some(a_attach.clone()));
    let ended = world.send(
        Some(a),
        ControlMethod::TerminalDetach {
            params: TerminalAttachTarget {
                attach_id: a_attach,
            },
        },
    );
    assert!(done(&ended));
    assert_eq!(world.authority(), Some(again));
}

#[test]
fn refusals_say_why() {
    let mut world = World::new("");
    let stream = world.open_v2("a");

    let again = world.send(
        Some(stream),
        ControlMethod::ControlOpen {
            params: ControlOpenParams::default(),
        },
    );
    assert_eq!(code(&again), "unsupported_in_control_stream");
    assert_eq!(message(&again), "control stream is already open");

    let plain = world.send(
        None,
        ControlMethod::ControlOpen {
            params: ControlOpenParams::default(),
        },
    );
    assert_eq!(code(&plain), "control_stream_required");
    assert_eq!(
        message(&plain),
        "control.open must be the first request on its own connection"
    );
    let plain = world.send(None, ControlMethod::ControlClose);
    assert_eq!(
        message(&plain),
        "control.close is only available on a control stream"
    );
    let plain = world.send(None, ControlMethod::TerminalInput);
    assert_eq!(
        message(&plain),
        "terminal.input is only available on a control stream"
    );

    let unopened = world.request_attach(0, attach_params("w1:p1"));
    assert_eq!(message(&unopened), "control stream is not open");
    let missing = world.request_attach(stream, attach_params("nowhere"));
    assert_eq!(code(&missing), "not_found");
    assert_eq!(message(&missing), "terminal target nowhere not found");
    let ambiguous = world.send(
        Some(stream),
        ControlMethod::TerminalAttach {
            params: attach_params("agent"),
            resolved: TargetResolution::Ambiguous {
                target: "agent".into(),
            },
        },
    );
    assert_eq!(code(&ambiguous), "ambiguous_target");
    assert_eq!(
        message(&ambiguous),
        "terminal target agent matches more than one terminal"
    );

    world
        .server
        .app
        .pending_alt_screen_reads
        .push("term-1".into());
    let busy = world.request_attach(stream, attach_params("w1:p1"));
    assert_eq!(code(&busy), "terminal_busy");
    assert_eq!(
        message(&busy),
        "terminal term-1 has a read in progress; retry"
    );
    world.server.app.pending_alt_screen_reads.clear();

    let unknown = world.send(
        Some(stream),
        ControlMethod::TerminalDetach {
            params: TerminalAttachTarget {
                attach_id: "0-9".into(),
            },
        },
    );
    assert_eq!(code(&unknown), "unknown_attach");
    assert_eq!(message(&unknown), "attach 0-9 is not live");

    let attach_id = world.attach(stream, attach_params("w1:p1"));
    assert_eq!(attach_id, "0-0");
    let resize = |cols: u16| TerminalResizeParams {
        attach_id: attach_id.clone(),
        cols,
        rows: 10,
        cell_width_px: 0,
        cell_height_px: 0,
    };
    let follows = world.send(
        Some(stream),
        ControlMethod::TerminalResize { params: resize(50) },
    );
    assert_eq!(code(&follows), "geometry_follows_tab");

    let empty = world.send(
        Some(stream),
        ControlMethod::TabSetGeometry {
            params: geometry_params(0, 10, true),
        },
    );
    assert_eq!(code(&empty), "invalid_request");
    assert_eq!(
        message(&empty),
        "tab.set_geometry cols and rows must be greater than 0"
    );
    let unnamed = world.claim(stream, TabClaimGeometryParams::default());
    assert_eq!(code(&unnamed), "invalid_request");
    assert_eq!(
        message(&unnamed),
        "tab.claim_geometry needs tab_id or attach_id"
    );
    let gone = world.claim(
        stream,
        TabClaimGeometryParams {
            tab_id: Some("w9:t9".into()),
            attach_id: None,
        },
    );
    assert_eq!(message(&gone), "tab w9:t9 not found");
    let unsized_tab = world.claim(
        stream,
        TabClaimGeometryParams {
            tab_id: Some("w1:t1".into()),
            attach_id: None,
        },
    );
    assert_eq!(
        message(&unsized_tab),
        "no size stored for tab w1:t1; send tab.set_geometry first"
    );
    assert_eq!(ErrorCode::NoGeometry.as_str(), code(&unsized_tab));
}

#[test]
fn a_size_owner_sizes_its_terminal_and_hands_it_back() {
    let mut world = World::new("");
    let owner = world.open_v2("owner");
    let mut sized = attach_params("w1:p1");
    sized.geometry = TerminalAttachGeometry::Terminal;
    let attach_id = world.attach(owner, sized);
    assert_eq!(world.size(), (24, 80), "no size was given");
    assert!(world.server.direct_attach_resize_locks.contains("term-1"));
    let resize = |cols: u16, rows: u16| TerminalResizeParams {
        attach_id: attach_id.clone(),
        cols,
        rows,
        cell_width_px: 0,
        cell_height_px: 0,
    };
    let resized = world.send(
        Some(owner),
        ControlMethod::TerminalResize {
            params: resize(50, 10),
        },
    );
    assert!(done(&resized));
    assert_eq!(world.size(), (10, 50));
    let empty = world.send(
        Some(owner),
        ControlMethod::TerminalResize {
            params: resize(50, 0),
        },
    );
    assert_eq!(
        message(&empty),
        "terminal.resize cols and rows must be greater than 0"
    );
    let ended = world.send(
        Some(owner),
        ControlMethod::TerminalDetach {
            params: TerminalAttachTarget {
                attach_id: attach_id.clone(),
            },
        },
    );
    assert!(done(&ended));
    assert!(!world.server.direct_attach_resize_locks.contains("term-1"));
    assert!(!world.live(owner, &attach_id));
}

#[test]
fn a_takeover_shuts_the_direct_client_down() {
    let mut world = World::new("");
    let stream = world.open_v2("a");
    world
        .server
        .terminal_attach_owners
        .insert("term-1".into(), 42);
    world.server.clients.insert(42, (100, 30));
    assert!(world.server.terminal_is_attached("term-1"));
    let refused = world.request_attach(stream, attach_params("w1:p1"));
    assert_eq!(
        message(&refused),
        "terminal term-1 already has an attached client; retry with takeover"
    );
    let mut takeover = attach_params("w1:p1");
    takeover.takeover = true;
    world.attach(stream, takeover);
    assert_eq!(world.shut_down, vec![42]);
    assert!(world.server.terminal_attach_owners.keys().is_empty());
    assert!(!world.server.clients.contains_key(&42));
}

#[test]
fn attaches_whose_terminal_went_away_are_forgotten() {
    let mut world = World::new("");
    let stream = world.open_v2("a");
    let attach_id = world.attach(stream, attach_params("w1:p1"));
    world.server.app.terminals[0].pane_runtime = false;
    let gone = world.send(
        Some(stream),
        ControlMethod::TerminalSnapshot {
            params: TerminalAttachTarget {
                attach_id: attach_id.clone(),
            },
        },
    );
    assert_eq!(code(&gone), "unknown_attach");
    assert!(!world.live(stream, &attach_id));
    let missing = world.request_attach(stream, attach_params("w1:p1"));
    assert_eq!(message(&missing), "terminal term-1 not found");
    let (_, connections) = world.list(Some(stream));
    assert!(connections[0].attaches.is_empty());
}

#[test]
fn a_snapshot_that_cannot_be_taken_is_reported() {
    let mut world = World::new("");
    let stream = world.open_v2("a");
    world.broken_snapshots = true;
    let attach_id = world.attach(stream, attach_params("w1:p1"));
    let items = world.drain(stream);
    match &items[0] {
        Item::Reply(Reply::Failure { id, code, message }) => {
            assert_eq!(id, "");
            assert_eq!(*code, ErrorCode::SnapshotFailed);
            assert_eq!(message, "terminal term-1 could not be snapshotted");
        }
        other => panic!("expected the failure, got {other:?}"),
    }
    let again = world.send(
        Some(stream),
        ControlMethod::TerminalSnapshot {
            params: TerminalAttachTarget { attach_id },
        },
    );
    assert_eq!(code(&again), "snapshot_failed");
}

#[test]
fn attach_ids_count_on_per_connection() {
    let mut world = World::new("");
    let a = world.open_v2("a");
    let b = world.open_v2("b");
    assert_eq!(a, CONTROL_CONNECTION_ID_BASE);
    assert_eq!(b, CONTROL_CONNECTION_ID_BASE + 1);
    assert_eq!(world.attach(a, attach_params("w1:p1")), "0-0");
    assert_eq!(world.attach(b, attach_params("w1:p1")), "1-0");
    world.drain(b);
    assert_eq!(world.attach(b, attach_params("w1:p1")), "1-1");
    world.close(b);
    let c = world.open_v2("c");
    assert_eq!(c, CONTROL_CONNECTION_ID_BASE + 2, "ids are not used again");
}

#[test]
fn history_limits_are_capped() {
    let mut world = World::new("");
    let a = world.open_v2("a");
    for (requested, expected) in [
        (None, 1024 * 1024),
        (Some(5), 5),
        (Some(8 * 1024 * 1024), 8 * 1024 * 1024),
        (Some(u64::MAX), 8 * 1024 * 1024),
    ] {
        let mut params = attach_params("w1:p1");
        params.history_limit_bytes = requested;
        world.attach(a, params);
        world.drain(a);
        let index = world.server.connection_index(a).unwrap();
        let attach = world.server.control_connections[index]
            .attaches
            .last()
            .unwrap();
        assert_eq!(attach.history_limit_bytes, expected);
    }
}

#[test]
fn closing_an_unknown_stream_is_harmless() {
    let mut world = World::new("");
    let a = world.open_v2("a");
    world.close(0);
    world.close(a + 5);
    assert!(world.server.connection_index(a).is_some());
    assert!(world.closed.is_empty());
}

#[test]
fn stored_sizes_of_tabs_that_are_gone_are_dropped() {
    let mut world = World::new("");
    let a = world.open_v2("a");
    world.set_geometry(a, 120, 40, true);
    assert!(world.server.control_connection_holds_tab(a, "w1:t1"));
    assert_eq!(world.server.control_connections_with_tab_claims(), 1);
    assert_eq!(world.server.control_connection_ids(), vec![a]);
    world.server.prune_control_tab_geometry(&TextSet::new());
    assert!(!world.server.control_connection_holds_tab(a, "w1:t1"));
}

#[test]
fn layouts_go_out_behind_held_locks() {
    let mut world = World::new("");
    assert_eq!(
        world.server.with_tab_layout_boundary(&vec![target()]),
        vec![BoundaryStep::Resize],
        "a server without streams just resizes"
    );
    world.open_v2("a");
    let pane = world.server.app.panes[0];
    assert_eq!(
        world.server.with_tab_layout_boundary(&vec![target()]),
        vec![
            BoundaryStep::Hold { pane },
            BoundaryStep::PushLayout { target: target() },
            BoundaryStep::Resize,
            BoundaryStep::Release,
        ]
    );
}

#[test]
fn syncing_again_changes_nothing() {
    let mut world = World::new("");
    let a = world.open_v2("a");
    world.attach(a, attach_params("w1:p1"));
    world.set_geometry(a, 120, 40, true);
    world.server.sync_control_geometry_tabs();
    assert!(world.server.take_effects().is_empty());
}

#[test]
fn a_shell_client_that_sizes_a_tab_is_reported() {
    let mut world = World::new("");
    let a = world.open_v2("a");
    world.server.clients.insert(9, (100, 30));
    world.server.set_tab_geometry_controller("w1:t1", Some(9));
    world.perform();
    let changes = world.hub.events_after(0);
    assert_eq!(changes.len(), 1);
    assert_eq!(changes[0].1.controller.kind, GeometryControllerKind::Client);
    assert_eq!(
        world.server.current_tab_area(target()),
        Rect::sized(100, 30)
    );
    assert!(!world.server.control_geometry_tabs.contains("w1:t1"));
    world.set_geometry(a, 120, 40, true);
    assert_eq!(world.controller(), Some(a));
    world.server.set_tab_geometry_controller("w1:t1", None);
    world.perform();
    let last = world.hub.events_after(0).pop().unwrap().1;
    assert_eq!(last.controller.kind, GeometryControllerKind::Server);
    assert_eq!(last.previous.unwrap().connection_id, Some(a));
}

#[test]
fn effects_are_only_appended() {
    let mut world = World::new("");
    let a = world.open_v2("a");
    let params = attach_params("w1:p1");
    let resolved = world.resolve("w1:p1");
    world.server.handle_control_api_request(
        "r1".into(),
        Some(a),
        ControlMethod::TerminalAttach { params, resolved },
    );
    let before = world
        .server
        .effects
        .iter()
        .map(|effect| format!("{effect:?}"))
        .collect::<Vec<_>>();
    assert!(matches!(
        world.server.effects[0],
        ControlEffect::AttachRaw { .. }
    ));
    assert!(matches!(
        world.server.effects[1],
        ControlEffect::SendReply { .. }
    ));
    assert!(matches!(
        world.server.effects[2],
        ControlEffect::SnapshotRaw { .. }
    ));
    world.server.handle_control_api_request(
        "r2".into(),
        Some(a),
        ControlMethod::TabSetGeometry {
            params: geometry_params(120, 40, true),
        },
    );
    let after = world
        .server
        .effects
        .iter()
        .map(|effect| format!("{effect:?}"))
        .collect::<Vec<_>>();
    assert!(after.len() > before.len());
    assert_eq!(after[..before.len()], before[..]);
}

#[test]
fn counters_tell_when_they_are_full() {
    let mut world = World::new("");
    let a = world.open_v2("a");
    let method = ControlMethod::TabClaimGeometry {
        params: TabClaimGeometryParams::default(),
    };
    assert!(world.server.has_room(Some(a), &method));
    world.server.next_activity_stamp = u64::MAX;
    assert!(!world.server.has_room(Some(a), &method));
    assert!(world.server.has_room(Some(a), &ControlMethod::ControlList));
    assert!(world.registries["term-1"].has_room(usize::MAX));
}

#[test]
fn detaching_undoes_attaching() {
    for geometry in [
        TerminalAttachGeometry::Tab,
        TerminalAttachGeometry::Terminal,
    ] {
        let mut world = World::new("");
        let a = world.open_v2("a");
        let attach_id = world.attach(
            a,
            TerminalAttachParams {
                geometry,
                ..attach_params("w1:p1")
            },
        );
        assert!(world.server.terminal_has_control_attaches("term-1"));
        let ended = world.send(
            Some(a),
            ControlMethod::TerminalDetach {
                params: TerminalAttachTarget {
                    attach_id: attach_id.clone(),
                },
            },
        );
        assert!(done(&ended));
        assert!(!world.server.terminal_has_control_attaches("term-1"));
        assert!(world
            .server
            .direct_attach_resize_locks
            .sorted()
            .is_empty());
        assert!(!world.live(a, &attach_id));
        let index = world.server.connection_index(a).unwrap();
        assert_eq!(world.server.control_connections[index].next_attach, 1);
        assert!(!world.registries["term-1"].has_taps());
    }
}

#[test]
fn closing_again_changes_nothing() {
    let mut world = World::new("");
    let a = world.open_v2("a");
    let b = world.open_v2("b");
    world.attach(b, attach_params("w1:p1"));
    world.close(a);
    world.close(a);
    assert_eq!(world.closed, vec![a]);
    assert_eq!(world.server.control_connection_ids(), vec![b]);
    assert!(world.server.terminal_has_control_attaches("term-1"));
}
