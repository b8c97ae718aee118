//! Which requests the control side answers before the application sees them.

use vstd::prelude::*;

use super::app::TabSurfaceTarget;
use super::attach::TargetResolution;
use super::requests::SnapshotStep;
use super::state::{HeadlessServer, CONTROL_CONNECTION_ID_BASE};
use crate::schema::{
    error, ControlOpenParams, ErrorCode, Rect, Reply, TabClaimGeometryParams, TabSetGeometryParams,
    TerminalAttachParams, TerminalAttachTarget, TerminalResizeParams,
};

verus! {

/// A request as the control side tells requests apart.
#[derive(Debug)]
pub enum ControlMethod {
    ControlOpen { params: ControlOpenParams },
    ControlClose,
    ControlList,
    /// Carries what its target stands for.
    TerminalAttach { params: TerminalAttachParams, resolved: TargetResolution },
    TerminalDetach { params: TerminalAttachTarget },
    TerminalSnapshot { params: TerminalAttachTarget },
    TerminalResize { params: TerminalResizeParams },
    TerminalInput,
    TabSetGeometry { params: TabSetGeometryParams },
    TabClaimGeometry { params: TabClaimGeometryParams },
    SessionSnapshot,
    /// Anything else.
    Other,
}

/// What comes of a request.
#[derive(Debug)]
pub enum ControlAnswer {
    /// Not a request for the control side.
    NotControl,
    Answer { reply: Reply },
    /// A capture of a terminal goes out on an attach's tap; then the answer.
    TakeSnapshot {
        id: String,
        terminal_id: String,
        attach_id: String,
        history_limit_bytes: usize,
    },
    /// The session's snapshot, with every tab laid out in the area its
    /// `tab.layout` records carry.
    SessionSnapshot { id: String, layouts: Vec<(TabSurfaceTarget, Rect)> },
}

/// What comes of a request, as contracts see it.
#[verifier::ext_equal]
pub enum AnswerModel {
    NotControl,
    Answer { reply: crate::schema::ReplyModel },
    TakeSnapshot {
        id: Seq<char>,
        terminal_id: Seq<char>,
        attach_id: Seq<char>,
        history_limit_bytes: usize,
    },
    SessionSnapshot { id: Seq<char>, layouts: Seq<(TabSurfaceTarget, Rect)> },
}

impl View for ControlAnswer {
    type V = AnswerModel;

    open spec fn view(&self) -> AnswerModel {
        match *self {
            ControlAnswer::NotControl => AnswerModel::NotControl,
            ControlAnswer::Answer { reply } => AnswerModel::Answer { reply: reply@ },
            ControlAnswer::TakeSnapshot { id, terminal_id, attach_id, history_limit_bytes } =>
                AnswerModel::TakeSnapshot {
                id: id@,
                terminal_id: terminal_id@,
                attach_id: attach_id@,
                history_limit_bytes,
            },
            ControlAnswer::SessionSnapshot { id, layouts } => AnswerModel::SessionSnapshot {
                id: id@,
                layouts: layouts@,
            },
        }
    }
}

/// A server and an answer.
pub open spec fn answered(
    outcome: (super::state::ServerModel, crate::schema::ReplyModel),
) -> (super::state::ServerModel, AnswerModel) {
    (outcome.0, AnswerModel::Answer { reply: outcome.1 })
}

impl super::state::ServerModel {
    /// What comes of a request for a snapshot.
    pub open spec fn snapshot_answer(
        self,
        id: Seq<char>,
        stream: Option<u64>,
        attach_id: Seq<char>,
    ) -> AnswerModel {
        match self.snapshot_step(id, stream, attach_id) {
            super::requests::SnapshotModel::Answer { reply } => AnswerModel::Answer { reply },
            super::requests::SnapshotModel::Take { terminal_id, attach_id, history_limit_bytes } =>
                AnswerModel::TakeSnapshot { id, terminal_id, attach_id, history_limit_bytes },
        }
    }

    /// The server and what comes of a request.
    pub open spec fn handled(
        self,
        id: Seq<char>,
        stream: Option<u64>,
        method: ControlMethod,
    ) -> (super::state::ServerModel, AnswerModel) {
        match method {
            ControlMethod::ControlOpen { params } => answered(
                self.opened(id, stream, crate::schema::client_view(params.client)),
            ),
            ControlMethod::ControlClose => answered(self.closed_by(id, stream)),
            ControlMethod::ControlList => answered((self, self.listed(id, stream))),
            ControlMethod::TerminalAttach { params, resolved } => answered(
                self.terminal_attached(id, stream, params, resolved@),
            ),
            ControlMethod::TerminalDetach { params } => answered(
                self.terminal_detached(id, stream, params.attach_id@),
            ),
            ControlMethod::TerminalSnapshot { params } => (
                self.looked_at(stream),
                self.snapshot_answer(id, stream, params.attach_id@),
            ),
            ControlMethod::TerminalResize { params } => answered(
                self.terminal_resized(id, stream, params),
            ),
            ControlMethod::TerminalInput => answered(
                (
                    self,
                    super::requests::stream_required(
                        id,
                        "terminal.input is only available on a control stream"@,
                    ),
                ),
            ),
            ControlMethod::TabSetGeometry { params } => answered(self.tab_set(id, stream, params)),
            ControlMethod::TabClaimGeometry { params } => answered(
                self.tab_claimed(id, stream, params),
            ),
            ControlMethod::SessionSnapshot => if stream is Some && stream != Some(0u64) {
                (self, AnswerModel::SessionSnapshot { id, layouts: self.session_layouts() })
            } else {
                (self, AnswerModel::NotControl)
            },
            ControlMethod::Other => (self, AnswerModel::NotControl),
        }
    }

    /// The counters have room for what a request takes of them.
    pub open spec fn has_room(self, stream: Option<u64>, method: ControlMethod) -> bool {
        match method {
            ControlMethod::ControlOpen { params } => CONTROL_CONNECTION_ID_BASE
                + self.next_control_connection_id < u64::MAX,
            ControlMethod::TerminalAttach { params, resolved } => stream matches Some(connection_id)
                ==> self.attach_has_room(connection_id),
            ControlMethod::TabSetGeometry { params } => self.next_activity_stamp < u64::MAX,
            ControlMethod::TabClaimGeometry { params } => self.next_activity_stamp < u64::MAX,
            _ => true,
        }
    }
}

impl HeadlessServer {
    /// Whether the counters have room for what a request takes of them.
    pub fn has_room(&self, stream: Option<u64>, method: &ControlMethod) -> (room: bool)
        ensures
            room == self@.has_room(stream, *method),
    {
        match method {
            ControlMethod::ControlOpen { .. } => self.next_control_connection_id < u64::MAX
                - CONTROL_CONNECTION_ID_BASE,
            ControlMethod::TerminalAttach { .. } => match stream {
                Some(connection_id) => match self.connection_index(connection_id) {
                    Some(i) => {
                        assert(self@.control_connections[i as int]
                            == self.control_connections@[i as int]@);
                        self.control_connections[i].next_attach < u64::MAX && self.next_attach_order
                            < u64::MAX
                    },
                    None => true,
                },
                None => true,
            },
            ControlMethod::TabSetGeometry { .. } | ControlMethod::TabClaimGeometry { .. } => {
                self.next_activity_stamp < u64::MAX
            },
            _ => true,
        }
    }

    /// Handles control-stream methods before the application sees them.
    pub fn handle_control_api_request(
        &mut self,
        id: String,
        stream: Option<u64>,
        method: ControlMethod,
    ) -> (answer: ControlAnswer)
        requires
            old(self)@.wf(),
            old(self)@.has_room(stream, method),
        ensures
            (final(self)@, answer@) == old(self)@.handled(id@, stream, method),
            final(self)@.wf(),
    {
        proof {
            super::preservation::sound_servers_stay_sound(self@, id@, stream, method);
        }
        let reply = match method {
            ControlMethod::ControlOpen { params } => self.control_open(id, stream, params.client),
            ControlMethod::ControlClose => self.control_close(id, stream),
            ControlMethod::ControlList => self.control_list(id, stream),
            ControlMethod::TerminalAttach { params, resolved } => self.control_terminal_attach(
                id,
                stream,
                &params,
                resolved,
            ),
            ControlMethod::TerminalDetach { params } => self.control_terminal_detach(
                id,
                stream,
                &params,
            ),
            ControlMethod::TerminalSnapshot { params } => {
                return match self.control_terminal_snapshot(id.clone(), stream, &params) {
                    SnapshotStep::Answer { reply } => ControlAnswer::Answer { reply },
                    SnapshotStep::Take { terminal_id, attach_id, history_limit_bytes } =>
                        ControlAnswer::TakeSnapshot {
                        id,
                        terminal_id,
                        attach_id,
                        history_limit_bytes,
                    },
                };
            },
            ControlMethod::TerminalResize { params } => self.control_terminal_resize(
                id,
                stream,
                &params,
            ),
            ControlMethod::TerminalInput => error(
                id,
                ErrorCode::ControlStreamRequired,
                "terminal.input is only available on a control stream".to_owned(),
            ),
            ControlMethod::TabSetGeometry { params } => self.control_tab_set_geometry(
                id,
                stream,
                &params,
            ),
            ControlMethod::TabClaimGeometry { params } => self.control_tab_claim_geometry(
                id,
                stream,
                &params,
            ),
            ControlMethod::SessionSnapshot => {
                // A stream bootstraps from the same rectangles its
                // `tab.layout` records carry, not the screen's view area.
                let on_stream = match stream {
                    Some(connection_id) => connection_id != 0,
                    None => false,
                };
                if on_stream {
                    let layouts = self.control_session_snapshot();
                    return ControlAnswer::SessionSnapshot { id, layouts };
                }
                return ControlAnswer::NotControl;
            },
            ControlMethod::Other => {
                return ControlAnswer::NotControl;
            },
        };
        ControlAnswer::Answer { reply }
    }
}

} // verus!
