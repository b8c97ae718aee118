//! Every operation keeps the server sound.

use vstd::prelude::*;

use super::dispatch::ControlMethod;
use super::state::{ControlTabGeometry, EvictScope, CONTROL_CONNECTION_ID_BASE};
use crate::schema::{
    TabClaimGeometryParams, TabSetGeometryParams, TerminalAttachGeometry, TerminalAttachParams,
    TerminalDetachReason, TerminalResizeParams,
};

verus! {

/// Filtering attaches keeps their order, and exactly those that pass.
pub proof fn lemma_filtered_attaches(
    attaches: Seq<super::state::AttachModel>,
    p: spec_fn(super::state::AttachModel) -> bool,
)
    requires
        forall|i: int, j: int|
            0 <= i < j < attaches.len() ==> (#[trigger] attaches[i]).seq < (
            #[trigger] attaches[j]).seq && attaches[i].order < attaches[j].order,
    ensures
        forall|i: int, j: int|
            0 <= i < j < attaches.filter(p).len() ==> (#[trigger] attaches.filter(p)[i]).seq < (
            #[trigger] attaches.filter(p)[j]).seq && attaches.filter(p)[i].order
                < attaches.filter(p)[j].order,
        forall|i: int|
            0 <= i < attaches.filter(p).len() ==> p(#[trigger] attaches.filter(p)[i])
                && attaches.contains(attaches.filter(p)[i]),
        forall|a: super::state::AttachModel|
            attaches.contains(a) && p(a) ==> #[trigger] attaches.filter(p).contains(a),
    decreases attaches.len(),
{
    let kept = attaches.filter(p);
    if attaches.len() > 0 {
        let rest = attaches.drop_last();
        let last = attaches.last();
        lemma_filtered_attaches(rest, p);
        let tail = rest.filter(p);
        assert(attaches =~= rest.push(last));
        rest.lemma_filter_push(last, p);
        assert forall|i: int| 0 <= i < kept.len() implies p(#[trigger] kept[i])
            && attaches.contains(kept[i]) by {
            if i < tail.len() {
                assert(kept[i] == tail[i]);
                let k = choose|k: int| 0 <= k < rest.len() && rest[k] == tail[i];
                assert(attaches[k] == tail[i]);
            } else {
                assert(kept[i] == attaches[attaches.len() - 1]);
            }
        }
        assert forall|i: int, j: int| 0 <= i < j < kept.len() implies (#[trigger] kept[i]).seq < (
        #[trigger] kept[j]).seq && kept[i].order < kept[j].order by {
            assert(kept[i] == tail[i]);
            if j < tail.len() {
                assert(kept[j] == tail[j]);
            } else {
                assert(kept[j] == last);
                let k = choose|k: int| 0 <= k < rest.len() && rest[k] == tail[i];
                assert(attaches[k].seq < attaches[attaches.len() - 1].seq);
            }
        }
        assert forall|a: super::state::AttachModel|
            attaches.contains(a) && p(a) implies #[trigger] kept.contains(a) by {
            let k = choose|k: int| 0 <= k < attaches.len() && attaches[k] == a;
            if k < rest.len() {
                assert(rest[k] == a);
                assert(tail.contains(a));
                let m = choose|m: int| 0 <= m < tail.len() && tail[m] == a;
                assert(kept[m] == a);
            } else {
                assert(kept[kept.len() - 1] == a);
            }
        }
    }
}

/// In a sound connection an attach id names one attach.
pub proof fn lemma_attach_ids_unique(c: super::state::ConnectionModel, i: int, j: int)
    requires
        c.wf(),
        0 <= i < c.attaches.len(),
        0 <= j < c.attaches.len(),
        c.attaches[i].attach_id == c.attaches[j].attach_id,
    ensures
        i == j,
{
    let n = (c.connection_id - CONTROL_CONNECTION_ID_BASE) as nat;
    assert(c.attaches[i].attach_id == c.attach_name(c.attaches[i].seq));
    assert(c.attaches[j].attach_id == c.attach_name(c.attaches[j].seq));
    crate::text::lemma_dashed_injective(
        n,
        c.attaches[i].seq as nat,
        n,
        c.attaches[j].seq as nat,
    );
    if i < j {
        assert(c.attaches[i].seq < c.attaches[j].seq);
    }
    if j < i {
        assert(c.attaches[j].seq < c.attaches[i].seq);
    }
}

/// A connection stays sound without some of its attaches.
pub proof fn lemma_without_wf(
    c: super::state::ConnectionModel,
    gone: spec_fn(super::state::AttachModel) -> bool,
)
    requires
        c.wf(),
    ensures
        c.without(gone).wf(),
        forall|order: u64| #[trigger] c.without(gone).numbers(order) ==> c.numbers(order),
{
    let kept = c.without(gone);
    let stays = |a: super::state::AttachModel| !gone(a);
    lemma_filtered_attaches(c.attaches, stays);
    assert(kept.attaches == c.attaches.filter(stays));
    assert forall|order: u64| #[trigger] kept.numbers(order) implies c.numbers(order) by {
        let i = choose|i: int|
            0 <= i < kept.attaches.len() && (#[trigger] kept.attaches[i]).order == order;
        let k = choose|k: int| 0 <= k < c.attaches.len() && c.attaches[k] == kept.attaches[i];
        assert(c.attaches[k].order == order);
    }
    assert forall|i: int| 0 <= i < kept.attaches.len() implies {
        &&& (#[trigger] kept.attaches[i]).seq < kept.next_attach
        &&& kept.attaches[i].attach_id == kept.attach_name(kept.attaches[i].seq)
    } by {
        let k = choose|k: int| 0 <= k < c.attaches.len() && c.attaches[k] == kept.attaches[i];
        assert(c.attaches[k].seq < c.next_attach);
    }
    assert forall|k: Seq<char>| #[trigger]
        kept.handle.inputs.contains_key(k) <==> kept.lists(k) by {
        assert(c.handle.inputs.contains_key(k) <==> c.lists(k));
        if kept.lists(k) {
            let i = choose|i: int|
                0 <= i < kept.attaches.len() && (#[trigger] kept.attaches[i]).attach_id == k;
            let m = choose|m: int| 0 <= m < c.attaches.len() && c.attaches[m] == kept.attaches[i];
            assert(c.attaches[m].attach_id == k);
            if super::release::among(c.attaches, gone, k) {
                let g = choose|g: int|
                    0 <= g < c.attaches.len() && (#[trigger] c.attaches[g]).attach_id == k && gone(
                        c.attaches[g],
                    );
                lemma_attach_ids_unique(c, m, g);
                assert(stays(kept.attaches[i]));
            }
        }
        if kept.handle.inputs.contains_key(k) {
            let m = choose|m: int|
                0 <= m < c.attaches.len() && (#[trigger] c.attaches[m]).attach_id == k;
            assert(!gone(c.attaches[m]));
            assert(c.attaches.contains(c.attaches[m]));
            assert(stays(c.attaches[m]));
            assert(kept.attaches.contains(c.attaches[m]));
            let i = choose|i: int|
                0 <= i < kept.attaches.len() && kept.attaches[i] == c.attaches[m];
            assert(kept.attaches[i].attach_id == k);
        }
    }
}

/// A server stays sound when sound connections of the same ids, without new
/// attaches, replace its connections.
pub proof fn lemma_replaced_wf(
    server: super::state::ServerModel,
    connections: Seq<super::state::ConnectionModel>,
)
    requires
        server.wf(),
        connections.len() == server.control_connections.len(),
        forall|i: int|
            0 <= i < connections.len() ==> (#[trigger] connections[i]).wf()
                && connections[i].connection_id == server.control_connections[i].connection_id,
        forall|i: int, order: u64|
            0 <= i < connections.len() && (#[trigger] connections[i].numbers(order))
                ==> server.control_connections[i].numbers(order),
    ensures
        server.with_connections(connections).wf(),
{
    assert forall|i: int, j: int, order: u64| 0 <= i < j < connections.len() && (
    #[trigger] connections[i].numbers(order)) implies !(#[trigger] connections[j].numbers(order)) by {
        assert(server.control_connections[i].numbers(order));
        if connections[j].numbers(order) {
            assert(server.control_connections[j].numbers(order));
        }
    }
    lemma_relisted_wf(server, connections);
}

/// A server stays sound when sound connections of the same ids replace its
/// connections and their attaches keep their places apart.
proof fn lemma_relisted_wf(
    server: super::state::ServerModel,
    connections: Seq<super::state::ConnectionModel>,
)
    requires
        server.wf(),
        connections.len() == server.control_connections.len(),
        forall|i: int|
            0 <= i < connections.len() ==> (#[trigger] connections[i]).wf()
                && connections[i].connection_id == server.control_connections[i].connection_id,
        server.with_connections(connections).attaches_ordered(),
    ensures
        server.with_connections(connections).wf(),
{
    let after = server.with_connections(connections);
    assert forall|i: int, j: int| 0 <= i < j < connections.len() implies (
    #[trigger] connections[i]).connection_id < (#[trigger] connections[j]).connection_id by {
        assert(server.control_connections[i].connection_id
            < server.control_connections[j].connection_id);
    }
    assert forall|i: int| 0 <= i < connections.len() implies (
    #[trigger] connections[i]).connection_id < CONTROL_CONNECTION_ID_BASE
        + after.next_control_connection_id by {
        assert(server.control_connections[i].wf());
    }
    assert forall|t: Seq<char>| #[trigger]
        after.tab_geometry_controllers.contains_key(t) && super::state::is_control(
            after.tab_geometry_controllers[t],
        ) implies after.is_open(after.tab_geometry_controllers[t]) by {
        let id = after.tab_geometry_controllers[t];
        assert(server.tab_geometry_controllers.contains_key(t));
        assert(server.is_open(id));
        let i = choose|i: int|
            0 <= i < server.control_connections.len() && (
            #[trigger] server.control_connections[i]).connection_id == id;
        assert(connections[i].connection_id == id);
    }
}

/// A server stays sound when a sound connection of the same id replaces one.
pub proof fn lemma_replaced_one_wf(
    server: super::state::ServerModel,
    i: int,
    c: super::state::ConnectionModel,
)
    requires
        server.wf(),
        0 <= i < server.control_connections.len(),
        c.wf(),
        c.connection_id == server.control_connections[i].connection_id,
        forall|order: u64| #[trigger]
            c.numbers(order) ==> server.control_connections[i].numbers(order),
    ensures
        server.with_connection(i, c).wf(),
{
    assert forall|k: int| 0 <= k < server.control_connections.len() implies (
    #[trigger] server.control_connections.update(i, c)[k]).wf() by {
        assert(server.control_connections[k].wf());
    }
    lemma_replaced_wf(server, server.control_connections.update(i, c));
}

/// Picking an answering attach keeps the server sound.
pub proof fn lemma_query_sync_wf(server: super::state::ServerModel, terminal_id: Seq<char>)
    requires
        server.wf(),
    ensures
        server.synced_query_authority(terminal_id).wf(),
{
    super::soundness::lemma_query_sync_bare(server, terminal_id);
    super::soundness::lemma_bare_wf(server, server.synced_query_authority(terminal_id));
}

/// Bringing derived state up to date keeps the server sound.
pub proof fn lemma_geometry_sync_wf(server: super::state::ServerModel)
    requires
        server.wf(),
    ensures
        server.synced_control_geometry_tabs().wf(),
{
    super::soundness::lemma_geometry_sync_bare(server);
    super::soundness::lemma_bare_wf(server, server.synced_control_geometry_tabs());
}

/// Ending attaches that are no longer listed keeps the server sound.
pub proof fn lemma_released_attaches_wf(
    server: super::state::ServerModel,
    attaches: Seq<super::state::AttachModel>,
    reason: TerminalDetachReason,
)
    requires
        server.wf(),
    ensures
        server.released_attaches(attaches, reason).wf(),
{
    super::release::lemma_released_attaches_frame(server, attaches, reason);
    let after = server.released_attaches(attaches, reason);
    assert forall|t: Seq<char>| #[trigger]
        after.tab_geometry_controllers.contains_key(t) && super::state::is_control(
            after.tab_geometry_controllers[t],
        ) implies after.is_open(after.tab_geometry_controllers[t]) by {
        assert(server.tab_geometry_controllers.contains_key(t));
        assert(server.is_open(after.tab_geometry_controllers[t]));
    }
}

/// Forgetting attaches whose terminal went away keeps the server sound.
pub proof fn lemma_pruned_wf(server: super::state::ServerModel, connection_id: u64)
    requires
        server.wf(),
    ensures
        server.pruned(connection_id).wf(),
{
    super::soundness::lemma_open_connection(server, connection_id);
    if let Some(i) = server.connection_index(connection_id) {
        let c = server.control_connections[i];
        if c.attaches.filter(server.gone()).len() > 0 {
            lemma_without_wf(c, server.gone());
            lemma_replaced_one_wf(server, i, c.without(server.gone()));
            lemma_geometry_sync_wf(server.with_connection(i, c.without(server.gone())));
        }
    }
}

/// Evicting attaches keeps the server sound.
pub proof fn lemma_evicted_wf(
    server: super::state::ServerModel,
    terminal_id: Seq<char>,
    reason: TerminalDetachReason,
    scope: EvictScope,
)
    requires
        server.wf(),
    ensures
        server.evicted(terminal_id, reason, scope).wf(),
{
    let connections = server.control_connections.map_values(
        |c: super::state::ConnectionModel| c.without(c.evictees(terminal_id, scope)),
    );
    assert forall|i: int| 0 <= i < connections.len() implies (#[trigger] connections[i]).wf()
        && connections[i].connection_id == server.control_connections[i].connection_id by {
        let c = server.control_connections[i];
        assert(c.wf());
        lemma_without_wf(c, c.evictees(terminal_id, scope));
    }
    assert forall|i: int, order: u64| 0 <= i < connections.len() && (
    #[trigger] connections[i].numbers(order)) implies server.control_connections[i].numbers(
        order,
    ) by {
        let c = server.control_connections[i];
        assert(c.wf());
        lemma_without_wf(c, c.evictees(terminal_id, scope));
    }
    lemma_replaced_wf(server, connections);
    let without = server.with_connections(connections);
    let leavers = server.control_connections.flat_map(
        |c: super::state::ConnectionModel| c.attaches.filter(c.evictees(terminal_id, scope)),
    );
    lemma_released_attaches_wf(without, leavers, reason);
    let released = without.released_attaches(leavers, reason);
    lemma_query_sync_wf(released, terminal_id);
    lemma_geometry_sync_wf(released.synced_query_authority(terminal_id));
}

/// A claim by an open connection keeps the server sound.
pub proof fn lemma_claimed_wf(
    server: super::state::ServerModel,
    connection_id: u64,
    tab_id: Seq<char>,
    geometry: ControlTabGeometry,
)
    requires
        server.wf(),
        server.is_open(connection_id),
    ensures
        server.claimed(connection_id, tab_id, geometry).wf(),
{
    let with = server.with_controller(tab_id, Some(connection_id));
    lemma_with_controller_wf(server, tab_id, Some(connection_id));
    let synced = with.synced_control_geometry_tabs();
    let claimed = server.claimed(connection_id, tab_id, geometry);
    if server.app.parse_tab_id(tab_id) is Some {
        assert(claimed.bare() == synced.bare());
        super::soundness::lemma_bare_wf(synced, claimed);
    }
}

/// Handing tabs over keeps the server sound, and its connections.
pub proof fn lemma_handed_over_wf(server: super::state::ServerModel, tabs: Seq<Seq<char>>)
    requires
        server.wf(),
    ensures
        server.handed_over(tabs).wf(),
        server.handed_over(tabs).frames() == server.frames(),
        server.handed_over(tabs).bare().control_connections == server.bare().control_connections,
        server.handed_over(tabs).app == server.app,
    decreases tabs.len(),
{
    if tabs.len() > 0 {
        let rest = server.handed_over(tabs.drop_last());
        lemma_handed_over_wf(server, tabs.drop_last());
        if let Some(i) = rest.successor(tabs.last()) {
            assert(rest.is_successor(tabs.last(), i));
            let c = rest.control_connections[i];
            assert(rest.is_open(c.connection_id));
            let geometry = c.tab_geometry[tabs.last()];
            lemma_claimed_wf(rest, c.connection_id, tabs.last(), geometry);
            super::soundness::lemma_claimed_bare(rest, c.connection_id, tabs.last(), geometry);
            let with = rest.with_controller(tabs.last(), Some(c.connection_id));
            let claimed = rest.claimed(c.connection_id, tabs.last(), geometry);
            assert(claimed.app == claimed.bare().app);
            if rest.app.parse_tab_id(tabs.last()) is Some {
                super::soundness::lemma_bare_frames(claimed, with);
                assert(with.frames() == rest.frames());
            }
        }
    }
}

/// A server stays sound without one of its connections, once that one owns no
/// tab.
pub proof fn lemma_disowned_wf(server: super::state::ServerModel, connection_id: u64)
    requires
        server.wf(),
        server.connection_index(connection_id) is Some,
    ensures
        ({
            let i = server.connection_index(connection_id)->Some_0;
            server.with_connections(server.control_connections.remove(i)).released_attaches(
                server.control_connections[i].attaches,
                TerminalDetachReason::Closed,
            ).disowned(connection_id).wf()
        }),
{
    super::soundness::lemma_open_connection(server, connection_id);
    let i = server.connection_index(connection_id)->Some_0;
    let c = server.control_connections[i];
    let connections = server.control_connections.remove(i);
    let without = server.with_connections(connections);
    let released = without.released_attaches(c.attaches, TerminalDetachReason::Closed);
    super::release::lemma_released_attaches_frame(
        without,
        c.attaches,
        TerminalDetachReason::Closed,
    );
    let disowned = released.disowned(connection_id);
    assert(disowned.control_connections == connections);
    assert forall|k: int| 0 <= k < connections.len() implies {
        &&& (#[trigger] connections[k]).wf()
        &&& connections[k].connection_id < CONTROL_CONNECTION_ID_BASE
            + disowned.next_control_connection_id
    } by {
        if k < i {
            assert(connections[k] == server.control_connections[k]);
        } else {
            assert(connections[k] == server.control_connections[k + 1]);
        }
    }
    assert forall|k: int, l: int| 0 <= k < l < connections.len() implies (
    #[trigger] connections[k]).connection_id < (#[trigger] connections[l]).connection_id by {
        let from = if k < i { k } else { k + 1 };
        let to = if l < i { l } else { l + 1 };
        assert(connections[k] == server.control_connections[from]);
        assert(connections[l] == server.control_connections[to]);
    }
    assert forall|k: int, order: u64| 0 <= k < connections.len() && (
    #[trigger] connections[k].numbers(order)) implies order < disowned.next_attach_order by {
        let from = if k < i { k } else { k + 1 };
        assert(server.control_connections[from].numbers(order));
    }
    assert forall|k: int, l: int, order: u64| 0 <= k < l < connections.len() && (
    #[trigger] connections[k].numbers(order)) implies !(#[trigger] connections[l].numbers(order)) by {
        let from = if k < i { k } else { k + 1 };
        let to = if l < i { l } else { l + 1 };
        assert(server.control_connections[from].numbers(order));
        if connections[l].numbers(order) {
            assert(server.control_connections[to].numbers(order));
        }
    }
    assert forall|t: Seq<char>| #[trigger]
        disowned.tab_geometry_controllers.contains_key(t) && super::state::is_control(
            disowned.tab_geometry_controllers[t],
        ) implies disowned.is_open(disowned.tab_geometry_controllers[t]) by {
        let id = disowned.tab_geometry_controllers[t];
        assert(server.tab_geometry_controllers.contains_key(t));
        assert(id == server.tab_geometry_controllers[t]);
        assert(!released.owned_tabs(connection_id).contains(t));
        assert(id != connection_id);
        assert(server.is_open(id));
        let k = choose|k: int|
            0 <= k < server.control_connections.len() && (
            #[trigger] server.control_connections[k]).connection_id == id;
        let at = if k < i { k } else { k - 1 };
        assert(connections[at] == server.control_connections[k]);
        assert(disowned.control_connections[at].connection_id == id);
    }
    assert(disowned.tab_geometry_controllers.dom()
        =~= server.tab_geometry_controllers.dom().difference(
        released.owned_tabs(connection_id),
    ));
    assert(disowned.wf());
}

/// Ending a connection keeps the server sound.
pub proof fn lemma_released_connection_wf(
    server: super::state::ServerModel,
    connection_id: u64,
)
    requires
        server.wf(),
    ensures
        server.released_connection(connection_id).wf(),
{
    super::soundness::lemma_open_connection(server, connection_id);
    if let Some(i) = server.connection_index(connection_id) {
        let c = server.control_connections[i];
        let without = server.with_connections(server.control_connections.remove(i));
        let released = without.released_attaches(c.attaches, TerminalDetachReason::Closed);
        let disowned = released.disowned(connection_id);
        lemma_disowned_wf(server, connection_id);
        let tabs = crate::find::ascending_members(server.owned_tabs(connection_id));
        lemma_handed_over_wf(disowned, tabs);
        let handed = disowned.handed_over(tabs);
        lemma_geometry_sync_wf(handed);
        let synced = handed.synced_control_geometry_tabs();
        let terminals = crate::find::distinct(c.attached_terminals());
        super::soundness::lemma_query_syncs_bare(synced, terminals);
        let told = synced.synced_query_authorities(terminals);
        let after = server.released_connection(connection_id);
        assert(after.bare() == told.bare());
        super::soundness::lemma_bare_wf(synced, after);
    }
}

/// Making way for a successor keeps the server sound.
pub proof fn lemma_retired_wf(
    server: super::state::ServerModel,
    connection_id: u64,
    terminal_id: Seq<char>,
)
    requires
        server.wf(),
    ensures
        server.retired(connection_id, terminal_id).wf(),
{
    super::soundness::lemma_open_connection(server, connection_id);
    if let Some(i) = server.connection_index(connection_id) {
        let c = server.control_connections[i];
        let here = super::attach::on_terminal(terminal_id);
        let own = c.attaches.filter(here);
        if c.protocol <= 1 && own.len() > 0 {
            lemma_without_wf(c, here);
            lemma_replaced_one_wf(server, i, c.without(here));
            let without = server.with_connection(i, c.without(here));
            lemma_released_attaches_wf(without, own, TerminalDetachReason::Takeover);
            let released = without.released_attaches(own, TerminalDetachReason::Takeover);
            lemma_query_sync_wf(released, terminal_id);
            lemma_geometry_sync_wf(released.synced_query_authority(terminal_id));
        }
    }
}

/// Shutting a direct client down keeps the server sound.
pub proof fn lemma_alone_wf(server: super::state::ServerModel, terminal_id: Seq<char>)
    requires
        server.wf(),
    ensures
        server.without_direct_owner(terminal_id).wf(),
{
    let without = server.without_direct_owner(terminal_id);
    assert(without.control_connections == server.control_connections);
    assert forall|t: Seq<char>| #[trigger]
        without.tab_geometry_controllers.contains_key(t) && super::state::is_control(
            without.tab_geometry_controllers[t],
        ) implies without.is_open(without.tab_geometry_controllers[t]) by {
        assert(server.tab_geometry_controllers.contains_key(t));
        assert(server.is_open(without.tab_geometry_controllers[t]));
    }
}

/// A takeover keeps the server sound.
pub proof fn lemma_taken_over_wf(
    server: super::state::ServerModel,
    terminal_id: Seq<char>,
    geometry: TerminalAttachGeometry,
)
    requires
        server.wf(),
    ensures
        server.taken_over(terminal_id, geometry).wf(),
{
    let without = server.without_direct_owner(terminal_id);
    lemma_alone_wf(server, terminal_id);
    let scope = if geometry == TerminalAttachGeometry::Terminal {
        EvictScope::All
    } else {
        EvictScope::TabFollowerTakeover
    };
    lemma_evicted_wf(without, terminal_id, TerminalDetachReason::Takeover, scope);
}

/// One more attach keeps a connection sound.
pub proof fn lemma_next_attach_wf(
    c: super::state::ConnectionModel,
    order: u64,
    terminal_id: Seq<char>,
    params: TerminalAttachParams,
)
    requires
        c.wf(),
        c.next_attach < u64::MAX,
        forall|taken: u64| #[trigger] c.numbers(taken) ==> taken < order,
    ensures
        (super::state::ConnectionModel {
            attaches: c.attaches.push(c.next(order, terminal_id, params)),
            handle: c.handle.registered(c.next(order, terminal_id, params).attach_id),
            next_attach: (c.next_attach + 1) as u64,
            ..c
        }).wf(),
{
    let attach = c.next(order, terminal_id, params);
    let after = super::state::ConnectionModel {
        attaches: c.attaches.push(attach),
        handle: c.handle.registered(attach.attach_id),
        next_attach: (c.next_attach + 1) as u64,
        ..c
    };
    assert forall|i: int, j: int| 0 <= i < j < after.attaches.len() implies (
    #[trigger] after.attaches[i]).seq < (#[trigger] after.attaches[j]).seq
        && after.attaches[i].order < after.attaches[j].order by {
        assert(after.attaches[i] == c.attaches[i]);
        assert(c.numbers(c.attaches[i].order));
        if j < c.attaches.len() {
            assert(after.attaches[j] == c.attaches[j]);
        }
    }
    assert forall|i: int| 0 <= i < after.attaches.len() implies {
        &&& (#[trigger] after.attaches[i]).seq < after.next_attach
        &&& after.attaches[i].attach_id == after.attach_name(after.attaches[i].seq)
    } by {
        if i < c.attaches.len() {
            assert(after.attaches[i] == c.attaches[i]);
        }
    }
    assert forall|k: Seq<char>| #[trigger]
        after.handle.inputs.contains_key(k) <==> after.lists(k) by {
        assert(c.handle.inputs.contains_key(k) <==> c.lists(k));
        if c.lists(k) {
            let i = choose|i: int|
                0 <= i < c.attaches.len() && (#[trigger] c.attaches[i]).attach_id == k;
            assert(after.attaches[i].attach_id == k);
        }
        assert(after.attaches[c.attaches.len() as int].attach_id == attach.attach_id);
        if after.lists(k) {
            let i = choose|i: int|
                0 <= i < after.attaches.len() && (#[trigger] after.attaches[i]).attach_id == k;
            if i < c.attaches.len() {
                assert(c.attaches[i].attach_id == k);
            }
        }
    }
}

/// A server stays sound when a connection gets an attach with the newest place
/// among all attaches.
proof fn lemma_grown_wf(
    server: super::state::ServerModel,
    i: int,
    grown: super::state::ConnectionModel,
)
    requires
        server.wf(),
        0 <= i < server.control_connections.len(),
        grown.wf(),
        grown.connection_id == server.control_connections[i].connection_id,
        grown.attaches.len() == server.control_connections[i].attaches.len() + 1,
        grown.attaches.drop_last() == server.control_connections[i].attaches,
        grown.attaches.last().order < server.next_attach_order,
        forall|k: int| 0 <= k < server.control_connections.len() ==> !(
        #[trigger] server.control_connections[k]).numbers(grown.attaches.last().order),
    ensures
        server.with_connection(i, grown).wf(),
{
    let c = server.control_connections[i];
    let connections = server.control_connections.update(i, grown);
    let newest = grown.attaches.last().order;
    assert forall|order: u64| #[trigger] grown.numbers(order) implies order == newest || c.numbers(
        order,
    ) by {
        let k = choose|k: int|
            0 <= k < grown.attaches.len() && (#[trigger] grown.attaches[k]).order == order;
        if k < c.attaches.len() {
            assert(grown.attaches.drop_last()[k] == grown.attaches[k]);
            assert(c.attaches[k].order == order);
        }
    }
    assert forall|k: int| 0 <= k < connections.len() implies (#[trigger] connections[k]).wf()
        && connections[k].connection_id == server.control_connections[k].connection_id by {
        assert(server.control_connections[k].wf());
    }
    let after = server.with_connections(connections);
    assert(after.attaches_ordered()) by {
        assert forall|k: int, order: u64| 0 <= k < connections.len() && (
        #[trigger] connections[k].numbers(order)) implies order < after.next_attach_order by {
            if k != i {
                assert(server.control_connections[k].numbers(order));
            } else if order != newest {
                assert(server.control_connections[i].numbers(order));
            }
        }
        assert forall|k: int, l: int, order: u64| 0 <= k < l < connections.len() && (
        #[trigger] connections[k].numbers(order)) implies !(
        #[trigger] connections[l].numbers(order)) by {
            assert(!server.control_connections[k].numbers(newest));
            assert(!server.control_connections[l].numbers(newest));
            if connections[l].numbers(order) {
                assert(order == newest || server.control_connections[k].numbers(order));
                assert(order == newest || server.control_connections[l].numbers(order));
            }
        }
    }
    lemma_relisted_wf(server, connections);
}

/// Giving a connection an attach keeps the server sound.
pub proof fn lemma_joined_wf(
    server: super::state::ServerModel,
    id: Seq<char>,
    connection_id: u64,
    terminal_id: Seq<char>,
    pane_id: Option<Seq<char>>,
    params: TerminalAttachParams,
)
    requires
        server.wf(),
        server.attach_has_room(connection_id),
    ensures
        server.joined(id, connection_id, terminal_id, pane_id, params).0.wf(),
{
    super::soundness::lemma_open_connection(server, connection_id);
    if let Some(i) = server.connection_index(connection_id) {
        let c = server.control_connections[i];
        assert(c.wf());
        let attach = c.next(server.next_attach_order, terminal_id, params);
        let numbered = super::state::ConnectionModel {
            next_attach: (c.next_attach + 1) as u64,
            ..c
        };
        let drawn = server.drawn(terminal_id, params.geometry);
        assert(drawn.wf()) by {
            assert(drawn.control_connections == server.control_connections);
            assert forall|t: Seq<char>| #[trigger]
                drawn.tab_geometry_controllers.contains_key(t) && super::state::is_control(
                    drawn.tab_geometry_controllers[t],
                ) implies drawn.is_open(drawn.tab_geometry_controllers[t]) by {
                assert(server.tab_geometry_controllers.contains_key(t));
                assert(server.is_open(drawn.tab_geometry_controllers[t]));
            }
        }
        if server.app.running(terminal_id) {
            let grown = super::state::ConnectionModel {
                attaches: c.attaches.push(attach),
                handle: c.handle.registered(attach.attach_id),
                ..numbered
            };
            lemma_next_attach_wf(c, server.next_attach_order, terminal_id, params);
            assert(grown.attaches.drop_last() =~= c.attaches);
            lemma_grown_wf(drawn, i, grown);
            let listed = drawn.with_connection(i, grown);
            let effects = server.attach_effects(id, c, terminal_id, pane_id, params);
            let shown = listed.with_effects(effects);
            assert(shown.bare() == listed.bare());
            super::soundness::lemma_bare_wf(listed, shown);
            lemma_query_sync_wf(shown, terminal_id);
            lemma_geometry_sync_wf(shown.synced_query_authority(terminal_id));
        } else {
            assert(numbered.wf()) by {
                assert forall|k: Seq<char>| #[trigger]
                    numbered.handle.inputs.contains_key(k) <==> numbered.lists(k) by {
                    assert(c.handle.inputs.contains_key(k) <==> c.lists(k));
                    if c.lists(k) {
                        let m = choose|m: int|
                            0 <= m < c.attaches.len() && (#[trigger] c.attaches[m]).attach_id == k;
                        assert(numbered.attaches[m].attach_id == k);
                    }
                    if numbered.lists(k) {
                        let m = choose|m: int|
                            0 <= m < numbered.attaches.len() && (
                            #[trigger] numbered.attaches[m]).attach_id == k;
                        assert(c.attaches[m].attach_id == k);
                    }
                }
                assert forall|m: int| 0 <= m < numbered.attaches.len() implies {
                    &&& (#[trigger] numbered.attaches[m]).seq < numbered.next_attach
                    &&& numbered.attaches[m].attach_id == numbered.attach_name(
                        numbered.attaches[m].seq,
                    )
                } by {
                    assert(c.attaches[m].seq < c.next_attach);
                }
            }
            lemma_replaced_one_wf(drawn, i, numbered);
        }
    }
}

/// Clearing a terminal for an attach keeps the server sound, and the frames.
pub proof fn lemma_cleared_wf(
    server: super::state::ServerModel,
    connection_id: u64,
    terminal_id: Seq<char>,
    geometry: TerminalAttachGeometry,
)
    requires
        server.wf(),
    ensures
        server.retired(connection_id, terminal_id).wf(),
        server.retired(connection_id, terminal_id).frames() == server.frames(),
        server.retired(connection_id, terminal_id).taken_over(terminal_id, geometry).wf(),
        server.retired(connection_id, terminal_id).taken_over(terminal_id, geometry).frames()
            == server.frames(),
        server.retired(connection_id, terminal_id).next_attach_order == server.next_attach_order,
        server.retired(connection_id, terminal_id).taken_over(
            terminal_id,
            geometry,
        ).next_attach_order == server.next_attach_order,
{
    let retired = server.retired(connection_id, terminal_id);
    lemma_retired_wf(server, connection_id, terminal_id);
    super::attach::lemma_retired_frames(server, connection_id, terminal_id);
    lemma_taken_over_wf(retired, terminal_id, geometry);
    super::attach::lemma_taken_over_frames(retired, terminal_id, geometry);
}

/// There is still room for an attach while the frames and the counter stay.
pub proof fn lemma_room_kept(
    before: super::state::ServerModel,
    after: super::state::ServerModel,
    connection_id: u64,
)
    requires
        before.frames() == after.frames(),
        before.next_attach_order == after.next_attach_order,
        before.attach_has_room(connection_id),
    ensures
        after.attach_has_room(connection_id),
{
    super::soundness::lemma_frames(before, after);
    super::soundness::lemma_open_connection(before, connection_id);
    if let Some(i) = before.connection_index(connection_id) {
        assert(before.control_connections[i].frame() == after.control_connections[i].frame());
    }
}

/// A request for an attach of an open connection keeps the server sound.
proof fn lemma_attached_by_wf(
    server: super::state::ServerModel,
    id: Seq<char>,
    connection_id: u64,
    params: TerminalAttachParams,
    resolved: super::attach::TargetModel,
)
    requires
        server.wf(),
        server.attach_has_room(connection_id),
    ensures
        server.attached_by(id, connection_id, params, resolved).0.wf(),
{
    if let Ok((terminal_id, pane_id)) = server.attach_target(params.target@, resolved) {
        let retired = server.retired(connection_id, terminal_id);
        let taken_over = retired.taken_over(terminal_id, params.geometry);
        lemma_cleared_wf(server, connection_id, terminal_id, params.geometry);
        let cleared = if params.takeover {
            taken_over
        } else {
            retired
        };
        lemma_room_kept(server, cleared, connection_id);
        lemma_joined_wf(cleared, id, connection_id, terminal_id, pane_id, params);
    }
}

/// A request for an attach keeps the server sound.
pub proof fn lemma_terminal_attached_wf(
    server: super::state::ServerModel,
    id: Seq<char>,
    stream: Option<u64>,
    params: TerminalAttachParams,
    resolved: super::attach::TargetModel,
)
    requires
        server.wf(),
        stream matches Some(connection_id) ==> server.attach_has_room(connection_id),
    ensures
        server.terminal_attached(id, stream, params, resolved).0.wf(),
{
    if server.stream_refusal(stream) is None {
        let connection_id = stream->Some_0;
        let pruned = server.pruned(connection_id);
        lemma_pruned_wf(server, connection_id);
        super::soundness::lemma_pruned_frames(server, connection_id);
        lemma_room_kept(server, pruned, connection_id);
        lemma_attached_by_wf(pruned, id, connection_id, params, resolved);
    }
}

/// Opening a stream keeps the server sound.
pub proof fn lemma_opened_wf(
    server: super::state::ServerModel,
    id: Seq<char>,
    stream: Option<u64>,
    client: Option<crate::schema::ClientModel>,
)
    requires
        server.wf(),
        CONTROL_CONNECTION_ID_BASE + server.next_control_connection_id < u64::MAX,
    ensures
        server.opened(id, stream, client).0.wf(),
{
    let after = server.opened(id, stream, client).0;
    if stream == Some(0u64) {
        let c = server.opened_connection(client);
        assert(c.wf());
        let connections = after.control_connections;
        assert forall|i: int| 0 <= i < connections.len() implies {
            &&& (#[trigger] connections[i]).wf()
            &&& connections[i].connection_id < CONTROL_CONNECTION_ID_BASE
                + after.next_control_connection_id
        } by {
            if i < server.control_connections.len() {
                assert(connections[i] == server.control_connections[i]);
            }
        }
        assert forall|i: int, j: int| 0 <= i < j < connections.len() implies (
        #[trigger] connections[i]).connection_id < (#[trigger] connections[j]).connection_id by {
            assert(connections[i] == server.control_connections[i]);
            if j < server.control_connections.len() {
                assert(connections[j] == server.control_connections[j]);
            }
        }
        assert forall|t: Seq<char>| #[trigger]
            after.tab_geometry_controllers.contains_key(t) && super::state::is_control(
                after.tab_geometry_controllers[t],
            ) implies after.is_open(after.tab_geometry_controllers[t]) by {
            let owner = after.tab_geometry_controllers[t];
            assert(server.tab_geometry_controllers.contains_key(t));
            assert(server.is_open(owner));
            let i = choose|i: int|
                0 <= i < server.control_connections.len() && (
                #[trigger] server.control_connections[i]).connection_id == owner;
            assert(connections[i].connection_id == owner);
        }
    }
}

/// Ending an attach keeps the server sound.
pub proof fn lemma_terminal_detached_wf(
    server: super::state::ServerModel,
    id: Seq<char>,
    stream: Option<u64>,
    attach_id: Seq<char>,
)
    requires
        server.wf(),
    ensures
        server.terminal_detached(id, stream, attach_id).0.wf(),
{
    if server.stream_refusal(stream) is None {
        let connection_id = stream->Some_0;
        let pruned = server.pruned(connection_id);
        lemma_pruned_wf(server, connection_id);
        super::soundness::lemma_open_connection(pruned, connection_id);
        if let Some(i) = pruned.connection_index(connection_id) {
            let c = pruned.control_connections[i];
            assert(c.wf());
            if let Some(attach) = c.attach(attach_id) {
                let gone = super::requests::named(attach_id);
                lemma_without_wf(c, gone);
                lemma_replaced_one_wf(pruned, i, c.without(gone));
                let without = pruned.with_connection(i, c.without(gone));
                lemma_released_attaches_wf(
                    without,
                    c.attaches.filter(gone),
                    TerminalDetachReason::Closed,
                );
                let released = without.released_attaches(
                    c.attaches.filter(gone),
                    TerminalDetachReason::Closed,
                );
                lemma_query_sync_wf(released, attach.terminal_id);
                lemma_geometry_sync_wf(released.synced_query_authority(attach.terminal_id));
            }
        }
    }
}

/// Storing a size in a connection keeps it sound.
proof fn lemma_with_tab_wf(
    c: super::state::ConnectionModel,
    tab_id: Seq<char>,
    geometry: ControlTabGeometry,
)
    requires
        c.wf(),
    ensures
        c.with_tab(tab_id, geometry).wf(),
{
    lemma_resized_tabs_wf(c, c.with_tab(tab_id, geometry));
}

/// Handing out a stamp keeps the server sound.
proof fn lemma_stamped_wf(server: super::state::ServerModel)
    requires
        server.wf(),
    ensures
        server.stamped().wf(),
{
    let after = server.stamped();
    assert forall|t: Seq<char>| #[trigger]
        after.tab_geometry_controllers.contains_key(t) && super::state::is_control(
            after.tab_geometry_controllers[t],
        ) implies after.is_open(after.tab_geometry_controllers[t]) by {
        assert(server.tab_geometry_controllers.contains_key(t));
        assert(server.is_open(after.tab_geometry_controllers[t]));
    }
}

/// Storing a size, and taking the tab or not, keeps the server sound.
pub proof fn lemma_stored_wf(
    server: super::state::ServerModel,
    i: int,
    tab_id: Seq<char>,
    geometry: ControlTabGeometry,
)
    requires
        server.wf(),
        0 <= i < server.control_connections.len(),
    ensures
        ({
            let c = server.control_connections[i];
            let stored = server.stamped().with_connection(i, c.with_tab(tab_id, geometry));
            stored.claimed(c.connection_id, tab_id, geometry).wf()
                && stored.synced_control_geometry_tabs().wf()
        }),
{
    let c = server.control_connections[i];
    assert(c.wf());
    lemma_stamped_wf(server);
    lemma_with_tab_wf(c, tab_id, geometry);
    lemma_replaced_one_wf(server.stamped(), i, c.with_tab(tab_id, geometry));
    let stored = server.stamped().with_connection(i, c.with_tab(tab_id, geometry));
    assert(stored.control_connections[i].connection_id == c.connection_id);
    assert(stored.is_open(c.connection_id));
    lemma_claimed_wf(stored, c.connection_id, tab_id, geometry);
    lemma_geometry_sync_wf(stored);
}

/// Storing a size for a tab keeps the server sound.
pub proof fn lemma_tab_set_wf(
    server: super::state::ServerModel,
    id: Seq<char>,
    stream: Option<u64>,
    params: TabSetGeometryParams,
)
    requires
        server.wf(),
    ensures
        server.tab_set(id, stream, params).0.wf(),
{
    if server.stream_refusal(stream) is None {
        let connection_id = stream->Some_0;
        let pruned = server.pruned(connection_id);
        lemma_pruned_wf(server, connection_id);
        lemma_stamped_wf(pruned);
        super::soundness::lemma_open_connection(pruned, connection_id);
        if let Some(i) = pruned.connection_index(connection_id) {
            let c = pruned.control_connections[i];
            let geometry = super::requests::stored_geometry(
                c,
                params,
                pruned.next_activity_stamp,
            );
            lemma_stored_wf(pruned, i, params.tab_id@, geometry);
        }
    }
}

/// Claiming a tab keeps the server sound.
pub proof fn lemma_tab_claimed_wf(
    server: super::state::ServerModel,
    id: Seq<char>,
    stream: Option<u64>,
    params: TabClaimGeometryParams,
)
    requires
        server.wf(),
    ensures
        server.tab_claimed(id, stream, params).0.wf(),
{
    if server.stream_refusal(stream) is None {
        let connection_id = stream->Some_0;
        let pruned = server.pruned(connection_id);
        lemma_pruned_wf(server, connection_id);
        lemma_stamped_wf(pruned);
        super::soundness::lemma_open_connection(pruned, connection_id);
        if let Ok(tab_id) = pruned.claimed_tab(connection_id, params) {
            if let Some(i) = pruned.connection_index(connection_id) {
                let c = pruned.control_connections[i];
                let geometry = ControlTabGeometry {
                    last_interaction: pruned.next_activity_stamp,
                    ..c.tab_geometry[tab_id]
                };
                lemma_stored_wf(pruned, i, tab_id, geometry);
            }
        }
    }
}

/// Resizing a terminal keeps the server sound.
pub proof fn lemma_terminal_resized_wf(
    server: super::state::ServerModel,
    id: Seq<char>,
    stream: Option<u64>,
    params: TerminalResizeParams,
)
    requires
        server.wf(),
    ensures
        server.terminal_resized(id, stream, params).0.wf(),
{
    if server.stream_refusal(stream) is None {
        let connection_id = stream->Some_0;
        let pruned = server.pruned(connection_id);
        lemma_pruned_wf(server, connection_id);
        let after = server.terminal_resized(id, stream, params).0;
        assert(after.bare() == pruned.bare());
        super::soundness::lemma_bare_wf(pruned, after);
    }
}

/// Dropping stored sizes of tabs that no longer exist keeps the server sound.
pub proof fn lemma_pruned_tab_geometry_wf(
    server: super::state::ServerModel,
    keep: Set<Seq<char>>,
)
    requires
        server.wf(),
    ensures
        server.pruned_tab_geometry(keep).wf(),
{
    let connections = server.pruned_tab_geometry(keep).control_connections;
    assert forall|i: int| 0 <= i < connections.len() implies (#[trigger] connections[i]).wf()
        && connections[i].connection_id == server.control_connections[i].connection_id by {
        let c = server.control_connections[i];
        assert(c.wf());
        lemma_resized_tabs_wf(c, connections[i]);
    }
    lemma_replaced_wf(server, connections);
}

/// Soundness of a connection does not depend on its stored sizes.
proof fn lemma_resized_tabs_wf(
    before: super::state::ConnectionModel,
    after: super::state::ConnectionModel,
)
    requires
        before.wf(),
        after == (super::state::ConnectionModel { tab_geometry: after.tab_geometry, ..before }),
    ensures
        after.wf(),
{
    assert(after.attaches == before.attaches);
    assert forall|k: Seq<char>| #[trigger]
        after.handle.inputs.contains_key(k) <==> after.lists(k) by {
        assert(before.handle.inputs.contains_key(k) <==> before.lists(k));
        if before.lists(k) {
            let m = choose|m: int|
                0 <= m < before.attaches.len() && (#[trigger] before.attaches[m]).attach_id == k;
            assert(after.attaches[m].attach_id == k);
        }
        if after.lists(k) {
            let m = choose|m: int|
                0 <= m < after.attaches.len() && (#[trigger] after.attaches[m]).attach_id == k;
            assert(before.attaches[m].attach_id == k);
        }
    }
    assert forall|m: int| 0 <= m < after.attaches.len() implies {
        &&& (#[trigger] after.attaches[m]).seq < after.next_attach
        &&& after.attaches[m].attach_id == after.attach_name(after.attaches[m].seq)
    } by {
        assert(before.attaches[m].seq < before.next_attach);
    }
}

/// Giving a tab to a client or to an open connection, or to nobody, keeps the
/// server sound.
pub proof fn lemma_with_controller_wf(
    server: super::state::ServerModel,
    tab_id: Seq<char>,
    controller: Option<u64>,
)
    requires
        server.wf(),
        controller matches Some(id) ==> !super::state::is_control(id) || server.is_open(id),
    ensures
        server.with_controller(tab_id, controller).synced_control_geometry_tabs().wf(),
{
    let with = server.with_controller(tab_id, controller);
    assert forall|t: Seq<char>| #[trigger]
        with.tab_geometry_controllers.contains_key(t) && super::state::is_control(
            with.tab_geometry_controllers[t],
        ) implies with.is_open(with.tab_geometry_controllers[t]) by {
        let id = with.tab_geometry_controllers[t];
        if t != tab_id {
            assert(server.tab_geometry_controllers.contains_key(t));
        }
        assert(server.is_open(id));
        let i = choose|i: int|
            0 <= i < server.control_connections.len() && (
            #[trigger] server.control_connections[i]).connection_id == id;
        assert(with.control_connections[i].connection_id == id);
    }
    assert(with.wf());
    lemma_geometry_sync_wf(with);
}

/// Every request keeps the server sound.
pub proof fn sound_servers_stay_sound(
    server: super::state::ServerModel,
    id: Seq<char>,
    stream: Option<u64>,
    method: ControlMethod,
)
    requires
        server.wf(),
        server.has_room(stream, method),
    ensures
        server.handled(id, stream, method).0.wf(),
{
    match method {
        ControlMethod::ControlOpen { params } => {
            lemma_opened_wf(server, id, stream, crate::schema::client_view(params.client));
        },
        ControlMethod::ControlClose => {
            if let Some(connection_id) = stream {
                lemma_released_connection_wf(server, connection_id);
            }
        },
        ControlMethod::TerminalAttach { params, resolved } => {
            lemma_terminal_attached_wf(server, id, stream, params, resolved@);
        },
        ControlMethod::TerminalDetach { params } => {
            lemma_terminal_detached_wf(server, id, stream, params.attach_id@);
        },
        ControlMethod::TerminalSnapshot { params } => {
            if server.stream_refusal(stream) is None {
                lemma_pruned_wf(server, stream->Some_0);
            }
        },
        ControlMethod::TerminalResize { params } => {
            lemma_terminal_resized_wf(server, id, stream, params);
        },
        ControlMethod::TabSetGeometry { params } => {
            lemma_tab_set_wf(server, id, stream, params);
        },
        ControlMethod::TabClaimGeometry { params } => {
            lemma_tab_claimed_wf(server, id, stream, params);
        },
        _ => {},
    }
}

/// What the server does on its own keeps it sound: ending a connection,
/// forgetting and evicting attaches, passing tabs on, dropping stored sizes,
/// and bringing derived state up to date.
pub proof fn upkeep_keeps_servers_sound(
    server: super::state::ServerModel,
    connection_id: u64,
    terminal_id: Seq<char>,
    reason: TerminalDetachReason,
    scope: EvictScope,
    tab_id: Seq<char>,
    controller: Option<u64>,
    keep: Set<Seq<char>>,
)
    requires
        server.wf(),
        controller matches Some(id) ==> !super::state::is_control(id) || server.is_open(id),
    ensures
        server.released_connection(connection_id).wf(),
        server.pruned(connection_id).wf(),
        server.evicted(terminal_id, reason, scope).wf(),
        server.with_controller(tab_id, controller).synced_control_geometry_tabs().wf(),
        server.pruned_tab_geometry(keep).wf(),
        server.synced_query_authority(terminal_id).wf(),
        server.synced_control_geometry_tabs().wf(),
{
    lemma_released_connection_wf(server, connection_id);
    lemma_pruned_wf(server, connection_id);
    lemma_evicted_wf(server, terminal_id, reason, scope);
    lemma_with_controller_wf(server, tab_id, controller);
    lemma_pruned_tab_geometry_wf(server, keep);
    lemma_query_sync_wf(server, terminal_id);
    lemma_geometry_sync_wf(server);
}

/// A server without connections is sound.
pub proof fn a_fresh_server_is_sound(
    client_shell_boot_id: Seq<char>,
    version: Seq<char>,
    protocol_version: u32,
    effective_size: (u16, u16),
)
    ensures
        super::state::ServerModel::fresh(
            client_shell_boot_id,
            version,
            protocol_version,
            effective_size,
        ).wf(),
{
}

} // verus!
