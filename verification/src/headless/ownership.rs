//! What owning a tab's geometry promises: who gets it, who keeps it, who
//! inherits it.

use vstd::prelude::*;

use super::state::ControlTabGeometry;
use crate::schema::{TabSetGeometryParams, TerminalDetachReason};

verus! {

/// A stream that stores a size without claiming, for a tab it does not own,
/// leaves every tab with the owner it has.
pub proof fn storing_without_claiming_takes_nothing(
    server: super::state::ServerModel,
    id: Seq<char>,
    connection_id: u64,
    params: TabSetGeometryParams,
)
    requires
        !params.claim,
        server.controller(params.tab_id@) != Some(connection_id),
    ensures
        server.tab_set_by(id, connection_id, params).0.tab_geometry_controllers
            == server.tab_geometry_controllers,
{
    if let Some(i) = server.connection_index(connection_id) {
        let c = server.control_connections[i];
        let geometry = super::requests::stored_geometry(c, params, server.next_activity_stamp);
        let stored = server.stamped().with_connection(i, c.with_tab(params.tab_id@, geometry));
        let synced = stored.synced_control_geometry_tabs();
        super::soundness::lemma_geometry_sync_bare(stored);
        assert(synced.tab_geometry_controllers == synced.bare().tab_geometry_controllers);
        assert(stored.tab_geometry_controllers == stored.bare().tab_geometry_controllers);
    }
}

/// A claim of an existing tab makes the connection its owner, and changes no
/// other tab's.
pub proof fn a_claim_takes_one_tab(
    server: super::state::ServerModel,
    connection_id: u64,
    tab_id: Seq<char>,
    geometry: ControlTabGeometry,
)
    requires
        server.app.parse_tab_id(tab_id) is Some,
    ensures
        server.claimed(connection_id, tab_id, geometry).tab_geometry_controllers
            == server.tab_geometry_controllers.insert(tab_id, connection_id),
{
    super::soundness::lemma_claimed_bare(server, connection_id, tab_id, geometry);
    let claimed = server.claimed(connection_id, tab_id, geometry);
    assert(claimed.tab_geometry_controllers == claimed.bare().tab_geometry_controllers);
}

/// A claim leaves the size that the connection stored in force: the tab's
/// current area is that size.
pub proof fn a_claimed_tab_has_its_owners_size(
    server: super::state::ServerModel,
    i: int,
    tab_id: Seq<char>,
    target: super::app::TabSurfaceTarget,
)
    requires
        server.wf(),
        0 <= i < server.control_connections.len(),
        server.control_connections[i].holds_tab(tab_id),
        server.app.parse_tab_id(tab_id) is Some,
        server.app.tab_id_for_target(target) == Some(tab_id),
    ensures
        ({
            let c = server.control_connections[i];
            let geometry = c.tab_geometry[tab_id];
            server.claimed(c.connection_id, tab_id, geometry).current_tab_size(target) == (
                geometry.cols,
                geometry.rows,
            )
        }),
{
    let c = server.control_connections[i];
    let geometry = c.tab_geometry[tab_id];
    let with = server.with_controller(tab_id, Some(c.connection_id));
    let after = server.claimed(c.connection_id, tab_id, geometry);
    a_claim_takes_one_tab(server, c.connection_id, tab_id, geometry);
    super::soundness::lemma_claimed_bare(server, c.connection_id, tab_id, geometry);
    super::soundness::lemma_bare_connections(after, with);
    super::soundness::lemma_connection_index(server, i);
    super::soundness::lemma_open_connection(server, c.connection_id);
    assert(with.connection_index(c.connection_id) == Some(i)) by {
        assert(with.control_connections == server.control_connections);
    }
    assert(after.connection_index(c.connection_id) == with.connection_index(c.connection_id));
    super::soundness::lemma_open_connection(after, c.connection_id);
    super::soundness::lemma_bare_connection(after.control_connections[i], c);
    assert(after.app == after.bare().app);
    assert(with.app == with.bare().app);
    assert(c.wf());
}

/// Which connection inherits a tab depends on the stored sizes alone.
pub proof fn lemma_successor_frames(
    left: super::state::ServerModel,
    right: super::state::ServerModel,
    tab_id: Seq<char>,
)
    requires
        left.frames() == right.frames(),
    ensures
        left.successor(tab_id) == right.successor(tab_id),
        left.successor(tab_id) matches Some(i) ==> 0 <= i < left.control_connections.len()
            && left.control_connections[i].connection_id
            == right.control_connections[i].connection_id
            && left.control_connections[i].tab_geometry
            == right.control_connections[i].tab_geometry,
{
    super::soundness::lemma_frames(left, right);
    assert forall|i: int| left.is_successor(tab_id, i) == right.is_successor(tab_id, i) by {
        if left.is_successor(tab_id, i) {
            lemma_is_successor_frames(left, right, tab_id, i);
        }
        if right.is_successor(tab_id, i) {
            lemma_is_successor_frames(right, left, tab_id, i);
        }
    }
    if let Some(i) = left.successor(tab_id) {
        assert(left.is_successor(tab_id, i));
        assert(right.is_successor(tab_id, i));
        super::release::lemma_successor_unique(right, tab_id, i);
        assert(left.control_connections[i].frame() == right.control_connections[i].frame());
    } else if let Some(i) = right.successor(tab_id) {
        assert(right.is_successor(tab_id, i));
        assert(left.is_successor(tab_id, i));
    }
}

proof fn lemma_is_successor_frames(
    left: super::state::ServerModel,
    right: super::state::ServerModel,
    tab_id: Seq<char>,
    i: int,
)
    requires
        left.control_connections.len() == right.control_connections.len(),
        forall|k: int|
            0 <= k < left.control_connections.len() ==> (
            #[trigger] left.control_connections[k]).frame()
                == right.control_connections[k].frame(),
        left.is_successor(tab_id, i),
    ensures
        right.is_successor(tab_id, i),
{
    assert(left.control_connections[i].frame() == right.control_connections[i].frame());
    assert forall|j: int|
        0 <= j < right.control_connections.len() && (
        #[trigger] right.control_connections[j]).holds_tab(tab_id) implies {
        let theirs = right.control_connections[j].tab_geometry[tab_id].last_interaction;
        let ours = right.control_connections[i].tab_geometry[tab_id].last_interaction;
        theirs < ours || (theirs == ours && j <= i)
    } by {
        assert(left.control_connections[j].frame() == right.control_connections[j].frame());
        assert(left.control_connections[j].holds_tab(tab_id));
    }
}

/// Who owns a tab once tabs were handed over.
pub proof fn lemma_handed_over_controllers(
    server: super::state::ServerModel,
    tabs: Seq<Seq<char>>,
    tab_id: Seq<char>,
)
    requires
        server.wf(),
    ensures
        server.handed_over(tabs).controller(tab_id) == (if tabs.contains(tab_id)
            && server.app.parse_tab_id(tab_id) is Some && server.successor(tab_id) is Some {
            Some(server.control_connections[server.successor(tab_id)->Some_0].connection_id)
        } else {
            server.controller(tab_id)
        }),
    decreases tabs.len(),
{
    if tabs.len() > 0 {
        let earlier = tabs.drop_last();
        let last = tabs.last();
        let rest = server.handed_over(earlier);
        super::preservation::lemma_handed_over_wf(server, earlier);
        lemma_handed_over_controllers(server, earlier, tab_id);
        lemma_successor_frames(server, rest, last);
        lemma_successor_frames(server, rest, tab_id);
        if tabs.contains(tab_id) {
            let k = choose|k: int| 0 <= k < tabs.len() && tabs[k] == tab_id;
            if k < earlier.len() {
                assert(earlier[k] == tab_id);
            }
        }
        if earlier.contains(tab_id) {
            let k = choose|k: int| 0 <= k < earlier.len() && earlier[k] == tab_id;
            assert(tabs[k] == tab_id);
        }
        assert(tabs[tabs.len() - 1] == last);
        if let Some(i) = rest.successor(last) {
            let c = rest.control_connections[i];
            if rest.app.parse_tab_id(last) is Some {
                a_claim_takes_one_tab(rest, c.connection_id, last, c.tab_geometry[last]);
            }
        }
    }
}

/// The server without one connection, before anything is handed over.
pub open spec fn left_behind(
    server: super::state::ServerModel,
    connection_id: u64,
) -> super::state::ServerModel {
    server.with_connections(
        server.control_connections.remove(server.connection_index(connection_id)->Some_0),
    )
}

/// When a stream closes, a tab it owned passes to the connection that last
/// interacted with it, of those that stored a size for it; with none, or when
/// the tab is gone, it has no owner. Every other tab keeps its owner.
pub proof fn a_closed_streams_tabs_pass_on(
    server: super::state::ServerModel,
    connection_id: u64,
    tab_id: Seq<char>,
)
    requires
        server.wf(),
        server.connection_index(connection_id) is Some,
    ensures
        ({
            let rest = left_behind(server, connection_id);
            server.released_connection(connection_id).controller(tab_id) == (
            if server.controller(tab_id) == Some(connection_id) {
                if server.app.parse_tab_id(tab_id) is Some && rest.successor(tab_id) is Some {
                    Some(rest.control_connections[rest.successor(tab_id)->Some_0].connection_id)
                } else {
                    None
                }
            } else {
                server.controller(tab_id)
            })
        }),
{
    super::soundness::lemma_open_connection(server, connection_id);
    let i = server.connection_index(connection_id)->Some_0;
    let c = server.control_connections[i];
    let without = left_behind(server, connection_id);
    let released = without.released_attaches(c.attaches, TerminalDetachReason::Closed);
    super::release::lemma_released_attaches_frame(
        without,
        c.attaches,
        TerminalDetachReason::Closed,
    );
    let disowned = released.disowned(connection_id);
    super::preservation::lemma_disowned_wf(server, connection_id);
    let owned = server.owned_tabs(connection_id);
    assert(owned.subset_of(server.tab_geometry_controllers.dom()));
    vstd::set_lib::lemma_set_subset_finite(server.tab_geometry_controllers.dom(), owned);
    crate::find::lemma_ascending_members_exist(owned);
    let tabs = crate::find::ascending_members(owned);
    assert(tabs.contains(tab_id) <==> owned.contains(tab_id));
    assert(released.owned_tabs(connection_id) =~= owned);
    lemma_handed_over_controllers(disowned, tabs, tab_id);
    assert(disowned.frames() == without.frames());
    lemma_successor_frames(disowned, without, tab_id);
    let handed = disowned.handed_over(tabs);
    let synced = handed.synced_control_geometry_tabs();
    super::soundness::lemma_geometry_sync_bare(handed);
    let terminals = crate::find::distinct(c.attached_terminals());
    super::soundness::lemma_query_syncs_bare(synced, terminals);
    let told = synced.synced_query_authorities(terminals);
    assert(told.tab_geometry_controllers == told.bare().tab_geometry_controllers);
    assert(handed.tab_geometry_controllers == handed.bare().tab_geometry_controllers);
}

/// Connections that differ only in derived state have the same frames.
proof fn lemma_listed_frames(
    left: super::state::ServerModel,
    right: super::state::ServerModel,
)
    requires
        left.bare().control_connections == right.bare().control_connections,
    ensures
        left.frames() == right.frames(),
{
    let moved = right.with_connections(left.control_connections);
    assert(moved.bare() == right.bare());
    super::soundness::lemma_bare_frames(moved, right);
}

/// When a stream closes nothing of it is left: its connection is gone, it owns
/// no tab, and every other connection is still there with the attaches and
/// sizes it had.
pub proof fn a_closed_stream_leaves_no_trace(
    server: super::state::ServerModel,
    connection_id: u64,
)
    requires
        server.wf(),
    ensures
        !server.released_connection(connection_id).is_open(connection_id),
        server.connection_index(connection_id) is Some ==> {
            let after = server.released_connection(connection_id);
            &&& forall|t: Seq<char>| #[trigger] after.controller(t) != Some(connection_id)
            &&& after.bare().control_connections == left_behind(
                server,
                connection_id,
            ).bare().control_connections
        },
{
    super::soundness::lemma_open_connection(server, connection_id);
    if let Some(i) = server.connection_index(connection_id) {
        let after = server.released_connection(connection_id);
        let rest = left_behind(server, connection_id);
        let c = server.control_connections[i];
        let released = rest.released_attaches(c.attaches, TerminalDetachReason::Closed);
        super::release::lemma_released_attaches_frame(
            rest,
            c.attaches,
            TerminalDetachReason::Closed,
        );
        let disowned = released.disowned(connection_id);
        super::preservation::lemma_disowned_wf(server, connection_id);
        let tabs = crate::find::ascending_members(server.owned_tabs(connection_id));
        super::preservation::lemma_handed_over_wf(disowned, tabs);
        let handed = disowned.handed_over(tabs);
        let synced = handed.synced_control_geometry_tabs();
        super::soundness::lemma_geometry_sync_bare(handed);
        let terminals = crate::find::distinct(c.attached_terminals());
        super::soundness::lemma_query_syncs_bare(synced, terminals);
        let told = synced.synced_query_authorities(terminals);
        assert(after.bare().control_connections == told.bare().control_connections);
        assert(disowned.bare().control_connections == rest.bare().control_connections);
        lemma_listed_frames(after, rest);
        super::soundness::lemma_frames(after, rest);
        assert forall|k: int| 0 <= k < rest.control_connections.len() implies (
        #[trigger] rest.control_connections[k]).connection_id != connection_id by {
            let at = if k < i { k } else { k + 1 };
            assert(rest.control_connections[k] == server.control_connections[at]);
            if at < i {
                assert(server.control_connections[at].connection_id
                    < server.control_connections[i].connection_id);
            } else {
                assert(server.control_connections[i].connection_id
                    < server.control_connections[at].connection_id);
            }
        }
        if after.is_open(connection_id) {
            let k = choose|k: int|
                0 <= k < after.control_connections.len() && (
                #[trigger] after.control_connections[k]).connection_id == connection_id;
            assert(after.control_connections[k].frame() == rest.control_connections[k].frame());
        }
        assert forall|t: Seq<char>| #[trigger] after.controller(t) != Some(connection_id) by {
            a_closed_streams_tabs_pass_on(server, connection_id, t);
            if let Some(s) = rest.successor(t) {
                assert(rest.is_successor(t, s));
                assert(rest.control_connections[s].connection_id != connection_id);
            }
        }
    }
}

/// Closing a stream that is not open changes nothing, so closing one again
/// does not either.
pub proof fn closing_again_changes_nothing(server: super::state::ServerModel, connection_id: u64)
    requires
        server.wf(),
    ensures
        !server.is_open(connection_id) ==> server.released_connection(connection_id) == server,
        server.released_connection(connection_id).released_connection(connection_id)
            == server.released_connection(connection_id),
{
    let after = server.released_connection(connection_id);
    a_closed_stream_leaves_no_trace(server, connection_id);
    super::soundness::lemma_open_connection(server, connection_id);
    super::soundness::lemma_open_connection(after, connection_id);
}

} // verus!
