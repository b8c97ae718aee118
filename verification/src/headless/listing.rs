//! `control.list`: every open stream with its attaches and tab sizes.

use vstd::prelude::*;

use super::state::{ControlConnectionState, HeadlessServer};
use crate::schema::{
    success, ControlAttachInfo, ControlConnectionInfo, ControlTabInfo, Reply, ResponseResult,
};

verus! {

impl super::state::ServerModel {
    /// An attach as it is listed.
    pub open spec fn attach_info(
        self,
        attach: super::state::AttachModel,
    ) -> crate::schema::AttachInfoModel {
        crate::schema::AttachInfoModel {
            attach_id: attach.attach_id,
            terminal_id: attach.terminal_id,
            pane_id: self.app.pane_id(attach.terminal_id),
            geometry: attach.geometry,
            answer_queries: attach.answer_queries,
            answers_queries: attach.answers_queries,
        }
    }

    /// A stored tab size as it is listed.
    pub open spec fn tab_info(
        self,
        c: super::state::ConnectionModel,
        tab_id: Seq<char>,
    ) -> crate::schema::TabInfoModel {
        let geometry = c.tab_geometry[tab_id];
        crate::schema::TabInfoModel {
            tab_id,
            cols: geometry.cols,
            rows: geometry.rows,
            cell_width_px: geometry.cell_size.width_px,
            cell_height_px: geometry.cell_size.height_px,
            chrome: geometry.chrome,
            controller: self.controller(tab_id) == Some(c.connection_id),
        }
    }

    /// A stream as it is listed: its attaches oldest first, its tabs in the
    /// order of their ids.
    pub open spec fn connection_info(
        self,
        c: super::state::ConnectionModel,
    ) -> crate::schema::ConnectionInfoModel {
        crate::schema::ConnectionInfoModel {
            connection_id: c.connection_id,
            control_protocol: c.protocol,
            client: c.client,
            attaches: c.attaches.map_values(|a: super::state::AttachModel| self.attach_info(a)),
            tabs: crate::find::ascending_members(c.tab_geometry.dom()).map_values(
                |t: Seq<char>| self.tab_info(c, t),
            ),
        }
    }

    /// The answer to `control.list`.
    pub open spec fn listed(self, id: Seq<char>, stream: Option<u64>) -> crate::schema::ReplyModel {
        crate::schema::ReplyModel::Success {
            id,
            result: crate::schema::ResultModel::ControlList {
                self_connection_id: if stream == Some(0u64) {
                    None
                } else {
                    stream
                },
                connections: self.control_connections.map_values(
                    |c: super::state::ConnectionModel| self.connection_info(c),
                ),
            },
        }
    }
}

impl HeadlessServer {
    /// The attaches of a stream, as they are listed.
    fn attach_infos(&self, state: &ControlConnectionState) -> (attaches: Vec<ControlAttachInfo>)
        ensures
            Seq::new(attaches@.len(), |i: int| attaches@[i]@) == state@.attaches.map_values(
                |a: super::state::AttachModel| self@.attach_info(a),
            ),
    {
        let mut attaches: Vec<ControlAttachInfo> = Vec::new();
        let mut i: usize = 0;
        while i < state.attaches.len()
            invariant
                0 <= i <= state.attaches.len(),
                attaches@.len() == i,
                forall|k: int|
                    0 <= k < i ==> (#[trigger] attaches@[k])@ == self@.attach_info(
                        state@.attaches[k],
                    ),
            decreases state.attaches.len() - i,
        {
            let attach = &state.attaches[i];
            assert(state@.attaches[i as int] == attach@);
            attaches.push(
                ControlAttachInfo {
                    attach_id: attach.attach_id.clone(),
                    terminal_id: attach.terminal_id.clone(),
                    pane_id: self.app.pane_id(attach.terminal_id.as_str()),
                    geometry: attach.geometry,
                    answer_queries: attach.answer_queries,
                    answers_queries: attach.answers_queries,
                },
            );
            i += 1;
        }
        assert(Seq::new(attaches@.len(), |i: int| attaches@[i]@) =~= state@.attaches.map_values(
            |a: super::state::AttachModel| self@.attach_info(a),
        ));
        attaches
    }

    /// The tab sizes of a stream, as they are listed.
    fn tab_infos(&self, state: &ControlConnectionState) -> (tabs: Vec<ControlTabInfo>)
        ensures
            Seq::new(tabs@.len(), |i: int| tabs@[i]@) == crate::find::ascending_members(
                state@.tab_geometry.dom(),
            ).map_values(|t: Seq<char>| self@.tab_info(state@, t)),
    {
        let keys = state.tab_geometry.keys();
        let ghost names = crate::text::text_views(keys@);
        proof {
            assert forall|t: Seq<char>|
                names.contains(t) <==> #[trigger] state@.tab_geometry.dom().contains(t) by {}
            crate::find::lemma_ascending_members(state@.tab_geometry.dom(), names);
        }
        let mut tabs: Vec<ControlTabInfo> = Vec::new();
        let mut i: usize = 0;
        while i < keys.len()
            invariant
                0 <= i <= keys.len(),
                names == crate::text::text_views(keys@),
                forall|t: Seq<char>|
                    names.contains(t) <==> #[trigger] state@.tab_geometry.dom().contains(t),
                tabs@.len() == i,
                forall|k: int|
                    0 <= k < i ==> (#[trigger] tabs@[k])@ == self@.tab_info(state@, names[k]),
            decreases keys.len() - i,
        {
            let tab_id = &keys[i];
            proof {
                assert(names[i as int] == tab_id@);
                assert(names.contains(tab_id@));
                assert(state@.tab_geometry.dom().contains(tab_id@));
            }
            if let Some(geometry) = state.tab_geometry.get(tab_id.as_str()) {
                let controller = match self.controller(tab_id.as_str()) {
                    Some(controller) => controller == state.connection_id,
                    None => false,
                };
                tabs.push(
                    ControlTabInfo {
                        tab_id: tab_id.clone(),
                        cols: geometry.cols,
                        rows: geometry.rows,
                        cell_width_px: geometry.cell_size.width_px,
                        cell_height_px: geometry.cell_size.height_px,
                        chrome: geometry.chrome,
                        controller,
                    },
                );
            }
            i += 1;
        }
        assert(Seq::new(tabs@.len(), |i: int| tabs@[i]@) =~= names.map_values(
            |t: Seq<char>| self@.tab_info(state@, t),
        ));
        tabs
    }

    /// Lists every open stream, oldest first.
    pub fn control_list(&self, id: String, stream: Option<u64>) -> (reply: Reply)
        ensures
            reply@ == self@.listed(id@, stream),
    {
        let self_connection_id: Option<u64> = match stream {
            Some(connection_id) => if connection_id == 0 {
                None
            } else {
                Some(connection_id)
            },
            None => None,
        };
        let mut connections: Vec<ControlConnectionInfo> = Vec::new();
        let mut i: usize = 0;
        while i < self.control_connections.len()
            invariant
                0 <= i <= self.control_connections.len(),
                connections@.len() == i,
                forall|k: int|
                    0 <= k < i ==> (#[trigger] connections@[k])@ == self@.connection_info(
                        self@.control_connections[k],
                    ),
            decreases self.control_connections.len() - i,
        {
            let state = &self.control_connections[i];
            assert(self@.control_connections[i as int] == state@);
            let client = match &state.client {
                Some(client) => Some(client.clone()),
                None => None,
            };
            let info = ControlConnectionInfo {
                connection_id: state.connection_id,
                control_protocol: state.protocol,
                client,
                attaches: self.attach_infos(state),
                tabs: self.tab_infos(state),
            };
            assert(info@ == self@.connection_info(state@));
            connections.push(info);
            i += 1;
        }
        assert(Seq::new(connections@.len(), |i: int| connections@[i]@)
            =~= self@.control_connections.map_values(
            |c: super::state::ConnectionModel| self@.connection_info(c),
        ));
        success(id, ResponseResult::ControlList { self_connection_id, connections })
    }
}

} // verus!
