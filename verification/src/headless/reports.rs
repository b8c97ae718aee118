//! What `control.list` tells: every open stream, as it is.

use vstd::prelude::*;

use super::dispatch::ControlMethod;
use crate::schema::TabSetGeometryParams;

verus! {

/// The streams that `control.list` answers with.
pub open spec fn listing(
    server: super::state::ServerModel,
    id: Seq<char>,
    stream: Option<u64>,
) -> Seq<crate::schema::ConnectionInfoModel> {
    match server.handled(id, stream, ControlMethod::ControlList).1 {
        super::dispatch::AnswerModel::Answer {
            reply: crate::schema::ReplyModel::Success {
                id: _,
                result: crate::schema::ResultModel::ControlList { self_connection_id, connections },
            },
        } => connections,
        _ => Seq::empty(),
    }
}

/// Listing is answered under the request's id, names the asking stream if it is
/// open, and changes nothing. Every open stream is listed, in the order they
/// were opened, with its id, its protocol, its client and its attaches, oldest
/// first, each as it is.
pub proof fn streams_are_listed_as_they_are(
    server: super::state::ServerModel,
    id: Seq<char>,
    stream: Option<u64>,
)
    ensures
        ({
            let (after, answer) = server.handled(id, stream, ControlMethod::ControlList);
            let listed = listing(server, id, stream);
            &&& after == server
            &&& answer == (super::dispatch::AnswerModel::Answer {
                reply: crate::schema::ReplyModel::Success {
                    id,
                    result: crate::schema::ResultModel::ControlList {
                        self_connection_id: if stream == Some(0u64) {
                            None
                        } else {
                            stream
                        },
                        connections: listed,
                    },
                },
            })
            &&& listed.len() == server.control_connections.len()
            &&& forall|i: int|
                0 <= i < listed.len() ==> {
                    let c = server.control_connections[i];
                    let info = #[trigger] listed[i];
                    &&& info.connection_id == c.connection_id
                    &&& info.control_protocol == c.protocol
                    &&& info.client == c.client
                    &&& info.attaches.len() == c.attaches.len()
                }
            &&& forall|i: int, k: int|
                0 <= i < listed.len() && 0 <= k < listed[i].attaches.len() ==> {
                    let attach = server.control_connections[i].attaches[k];
                    let info = #[trigger] listed[i].attaches[k];
                    &&& info.attach_id == attach.attach_id
                    &&& info.terminal_id == attach.terminal_id
                    &&& info.pane_id == server.app.pane_id(attach.terminal_id)
                    &&& info.geometry == attach.geometry
                    &&& info.answer_queries == attach.answer_queries
                    &&& info.answers_queries == attach.answers_queries
                }
        }),
{
}

/// The sizes that a stream stored are listed as they are, each tab once, in the
/// order of tab ids, and those it owns are marked.
pub proof fn sizes_are_listed_as_they_are(
    server: super::state::ServerModel,
    id: Seq<char>,
    stream: Option<u64>,
    i: int,
)
    requires
        0 <= i < server.control_connections.len(),
        server.control_connections[i].tab_geometry.dom().finite(),
    ensures
        ({
            let c = server.control_connections[i];
            let tabs = listing(server, id, stream)[i].tabs;
            &&& forall|t: Seq<char>| #[trigger]
                c.tab_geometry.contains_key(t) ==> exists|k: int|
                    0 <= k < tabs.len() && (#[trigger] tabs[k]).tab_id == t
            &&& forall|k: int|
                0 <= k < tabs.len() ==> {
                    let tab = #[trigger] tabs[k];
                    let stored = c.tab_geometry[tab.tab_id];
                    &&& c.tab_geometry.contains_key(tab.tab_id)
                    &&& tab.cols == stored.cols
                    &&& tab.rows == stored.rows
                    &&& tab.cell_width_px == stored.cell_size.width_px
                    &&& tab.cell_height_px == stored.cell_size.height_px
                    &&& tab.chrome == stored.chrome
                    &&& tab.controller <==> server.tab_geometry_controllers.contains_key(tab.tab_id)
                        && server.tab_geometry_controllers[tab.tab_id] == c.connection_id
                }
            &&& forall|k: int, l: int|
                0 <= k < l < tabs.len() ==> crate::text::text_before(
                    (#[trigger] tabs[k]).tab_id,
                    (#[trigger] tabs[l]).tab_id,
                )
        }),
{
    let c = server.control_connections[i];
    let names = crate::find::ascending_members(c.tab_geometry.dom());
    crate::find::lemma_ascending_members_exist(c.tab_geometry.dom());
    let tabs = listing(server, id, stream)[i].tabs;
    assert(tabs.len() == names.len());
    assert forall|k: int| 0 <= k < tabs.len() implies (#[trigger] tabs[k]).tab_id == names[k]
        && c.tab_geometry.contains_key(names[k]) by {
        assert(names.contains(names[k]));
        assert(c.tab_geometry.dom().contains(names[k]));
    }
    assert forall|t: Seq<char>| #[trigger] c.tab_geometry.contains_key(t) implies exists|k: int|
        0 <= k < tabs.len() && (#[trigger] tabs[k]).tab_id == t by {
        assert(c.tab_geometry.dom().contains(t));
        assert(names.contains(t));
        let k = choose|k: int| 0 <= k < names.len() && names[k] == t;
        assert(tabs[k].tab_id == t);
    }
}

/// A size that a stream stored is in the next list: under the stream, for its
/// tab, with the columns, rows, cell size and chrome that were asked for, and
/// marked as owned if the request claimed the tab.
pub proof fn a_stored_size_is_listed(
    server: super::state::ServerModel,
    id: Seq<char>,
    connection_id: u64,
    params: TabSetGeometryParams,
    list_id: Seq<char>,
    stream: Option<u64>,
)
    requires
        server.wf(),
        forall|i: int|
            0 <= i < server.control_connections.len() ==> (
            #[trigger] server.control_connections[i]).tab_geometry.dom().finite(),
        server.handled(id, Some(connection_id), ControlMethod::TabSetGeometry { params }).1
            == super::succession::done(id),
    ensures
        ({
            let after = server.handled(
                id,
                Some(connection_id),
                ControlMethod::TabSetGeometry { params },
            ).0;
            let listed = listing(after, list_id, stream);
            exists|i: int, k: int|
                {
                    let tab = #[trigger] listed[i].tabs[k];
                    &&& 0 <= i < listed.len() && 0 <= k < listed[i].tabs.len()
                    &&& listed[i].connection_id == connection_id
                    &&& tab.tab_id == params.tab_id@
                    &&& tab.cols == params.cols
                    &&& tab.rows == params.rows
                    &&& tab.cell_width_px == params.cell_width_px
                    &&& tab.cell_height_px == params.cell_height_px
                    &&& tab.chrome == params.chrome
                    &&& params.claim ==> tab.controller
                }
        }),
{
    let after = server.handled(
        id,
        Some(connection_id),
        ControlMethod::TabSetGeometry { params },
    ).0;
    let listed = listing(after, list_id, stream);
    super::succession::a_stored_size_is_the_one_asked_for(server, id, connection_id, params);
    let i = super::succession::lemma_set(server, id, connection_id, params);
    let c = after.control_connections[i];
    let t = params.tab_id@;
    assert(c.connection_id == connection_id);
    assert(server.control_connections[i].tab_geometry.dom().finite());
    assert(c.tab_geometry.dom() =~= server.control_connections[i].tab_geometry.dom().insert(t));
    sizes_are_listed_as_they_are(after, list_id, stream, i);
    streams_are_listed_as_they_are(after, list_id, stream);
    let tabs = listed[i].tabs;
    assert(c.tab_geometry.contains_key(t));
    let k = choose|k: int| 0 <= k < tabs.len() && (#[trigger] tabs[k]).tab_id == t;
    assert(listed[i].tabs[k].tab_id == t);
    assert(listed[i].connection_id == connection_id);
}

} // verus!
