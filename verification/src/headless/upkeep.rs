//! What every request leaves in order: derived state is current, and effects
//! are only appended.

use vstd::prelude::*;

use super::dispatch::ControlMethod;
use super::state::{ControlTabGeometry, EvictScope};
use crate::schema::{TerminalAttachGeometry, TerminalAttachParams, TerminalDetachReason};

verus! {

/// Whether derived state is current depends on the application, the owners of
/// tabs, the mirrors and, of a connection, its id, its sizes, its attaches and
/// its input claims.
pub proof fn lemma_current_same(before: super::state::ServerModel, after: super::state::ServerModel)
    requires
        super::laws::derived_is_current(before),
        after.app == before.app,
        after.tab_geometry_controllers == before.tab_geometry_controllers,
        after.control_geometry_tabs == before.control_geometry_tabs,
        after.control_chromeless_tabs == before.control_chromeless_tabs,
        after.control_tab_geometry_controllers == before.control_tab_geometry_controllers,
        after.control_connections.len() == before.control_connections.len(),
        forall|i: int|
            0 <= i < before.control_connections.len() ==> {
                let b = #[trigger] before.control_connections[i];
                let a = after.control_connections[i];
                &&& a.connection_id == b.connection_id
                &&& a.tab_geometry == b.tab_geometry
                &&& a.attaches == b.attaches
                &&& a.handle.claim_on_input == b.handle.claim_on_input
            },
    ensures
        super::laws::derived_is_current(after),
{
    let l = before.control_connections;
    let r = after.control_connections;
    assert forall|t: Seq<char>, id: u64| #[trigger]
        before.controller_info(t, id) == after.controller_info(t, id) by {
        let p = |c: super::state::ConnectionModel| c.connection_id == id;
        assert forall|i: int| 0 <= i < l.len() implies #[trigger] p(l[i]) == p(r[i]) by {
            assert(l[i].connection_id == r[i].connection_id);
        }
        crate::find::lemma_first_index(l, p);
        crate::find::lemma_first_index(r, p);
        match (before.connection_index(id), after.connection_index(id)) {
            (Some(i), Some(j)) => {
                assert(p(l[i]) == p(r[i]));
                assert(p(l[j]) == p(r[j]));
                assert(i == j);
                assert(l[i].tab_geometry == r[i].tab_geometry);
            },
            (Some(i), None) => {
                assert(p(l[i]) == p(r[i]));
            },
            (None, Some(j)) => {
                assert(p(l[j]) == p(r[j]));
            },
            (None, None) => {},
        }
    }
    assert(before.reported_controllers() =~= after.reported_controllers());
    assert(before.control_tabs() =~= after.control_tabs());
    assert(before.chromeless_tabs() =~= after.chromeless_tabs());
    assert forall|i: int| 0 <= i < r.len() implies (#[trigger] r[i]).handle.claim_on_input
        == after.claiming_attaches(r[i]) by {
        assert(l[i].connection_id == r[i].connection_id);
        assert(l[i].attaches == r[i].attaches);
        assert forall|k: int| 0 <= k < l[i].attaches.len() implies #[trigger] before.claims_on_input(
            l[i],
            l[i].attaches[k],
        ) == after.claims_on_input(r[i], r[i].attaches[k]) by {}
        assert(before.claiming_attaches(l[i]) =~= after.claiming_attaches(r[i]));
    }
}

/// A claim leaves derived state current.
proof fn lemma_claimed_current(
    server: super::state::ServerModel,
    connection_id: u64,
    tab_id: Seq<char>,
    geometry: ControlTabGeometry,
)
    requires
        server.app.parse_tab_id(tab_id) is Some,
    ensures
        super::laws::derived_is_current(server.claimed(connection_id, tab_id, geometry)),
{
    let with = server.with_controller(tab_id, Some(connection_id));
    super::laws::syncing_makes_derived_state_current(with);
    lemma_current_same(
        with.synced_control_geometry_tabs(),
        server.claimed(connection_id, tab_id, geometry),
    );
}

/// Forgetting attaches whose terminal went away leaves derived state current.
pub proof fn lemma_pruned_current(server: super::state::ServerModel, connection_id: u64)
    requires
        super::laws::derived_is_current(server),
    ensures
        super::laws::derived_is_current(server.pruned(connection_id)),
{
    if let Some(i) = server.connection_index(connection_id) {
        super::laws::syncing_makes_derived_state_current(
            server.with_connection(i, server.control_connections[i].without(server.gone())),
        );
    }
}

/// Evicting attaches leaves derived state current.
proof fn lemma_evicted_current(
    server: super::state::ServerModel,
    terminal_id: Seq<char>,
    reason: TerminalDetachReason,
    scope: EvictScope,
)
    ensures
        super::laws::derived_is_current(server.evicted(terminal_id, reason, scope)),
{
    let connections = server.control_connections.map_values(
        |c: super::state::ConnectionModel| c.without(c.evictees(terminal_id, scope)),
    );
    let leavers = server.control_connections.flat_map(
        |c: super::state::ConnectionModel| c.attaches.filter(c.evictees(terminal_id, scope)),
    );
    super::laws::syncing_makes_derived_state_current(
        server.with_connections(connections).released_attaches(
            leavers,
            reason,
        ).synced_query_authority(terminal_id),
    );
}

/// Making way for a successor leaves derived state current.
proof fn lemma_retired_current(
    server: super::state::ServerModel,
    connection_id: u64,
    terminal_id: Seq<char>,
)
    requires
        super::laws::derived_is_current(server),
    ensures
        super::laws::derived_is_current(server.retired(connection_id, terminal_id)),
{
    if let Some(i) = server.connection_index(connection_id) {
        let c = server.control_connections[i];
        let here = super::attach::on_terminal(terminal_id);
        super::laws::syncing_makes_derived_state_current(
            server.with_connection(i, c.without(here)).released_attaches(
                c.attaches.filter(here),
                TerminalDetachReason::Takeover,
            ).synced_query_authority(terminal_id),
        );
    }
}

/// Giving a connection its attach leaves derived state current.
proof fn lemma_joined_current(
    server: super::state::ServerModel,
    id: Seq<char>,
    connection_id: u64,
    terminal_id: Seq<char>,
    pane_id: Option<Seq<char>>,
    params: TerminalAttachParams,
)
    requires
        super::laws::derived_is_current(server),
    ensures
        super::laws::derived_is_current(
            server.joined(id, connection_id, terminal_id, pane_id, params).0,
        ),
{
    super::soundness::lemma_open_connection(server, connection_id);
    if let Some(i) = server.connection_index(connection_id) {
        let c = server.control_connections[i];
        let attach = c.next(server.next_attach_order, terminal_id, params);
        let drawn = server.drawn(terminal_id, params.geometry);
        let numbered = super::state::ConnectionModel {
            next_attach: (c.next_attach + 1) as u64,
            ..c
        };
        if server.app.running(terminal_id) {
            let grown = super::state::ConnectionModel {
                attaches: c.attaches.push(attach),
                handle: c.handle.registered(attach.attach_id),
                ..numbered
            };
            super::laws::syncing_makes_derived_state_current(
                drawn.with_connection(i, grown).with_effects(
                    server.attach_effects(id, c, terminal_id, pane_id, params),
                ).synced_query_authority(terminal_id),
            );
        } else {
            lemma_current_same(server, drawn.with_connection(i, numbered));
        }
    }
}

/// A request for an attach leaves derived state current.
proof fn lemma_attached_by_current(
    server: super::state::ServerModel,
    id: Seq<char>,
    connection_id: u64,
    params: TerminalAttachParams,
    resolved: super::attach::TargetModel,
)
    requires
        super::laws::derived_is_current(server),
    ensures
        super::laws::derived_is_current(server.attached_by(id, connection_id, params, resolved).0),
{
    if let Ok((terminal_id, pane_id)) = server.attach_target(params.target@, resolved) {
        let retired = server.retired(connection_id, terminal_id);
        lemma_retired_current(server, connection_id, terminal_id);
        lemma_taken_over_current(retired, terminal_id, params.geometry);
        let cleared = if params.takeover {
            retired.taken_over(terminal_id, params.geometry)
        } else {
            retired
        };
        lemma_joined_current(cleared, id, connection_id, terminal_id, pane_id, params);
    }
}

/// A takeover leaves derived state current.
proof fn lemma_taken_over_current(
    server: super::state::ServerModel,
    terminal_id: Seq<char>,
    geometry: TerminalAttachGeometry,
)
    ensures
        super::laws::derived_is_current(server.taken_over(terminal_id, geometry)),
{
    lemma_evicted_current(
        server.without_direct_owner(terminal_id),
        terminal_id,
        TerminalDetachReason::Takeover,
        if geometry == TerminalAttachGeometry::Terminal {
            EvictScope::All
        } else {
            EvictScope::TabFollowerTakeover
        },
    );
}

/// Ending a connection leaves derived state current.
proof fn lemma_released_connection_current(
    server: super::state::ServerModel,
    connection_id: u64,
)
    requires
        super::laws::derived_is_current(server),
    ensures
        super::laws::derived_is_current(server.released_connection(connection_id)),
{
    if let Some(i) = server.connection_index(connection_id) {
        let c = server.control_connections[i];
        let handed = server.with_connections(
            server.control_connections.remove(i),
        ).released_attaches(c.attaches, TerminalDetachReason::Closed).disowned(
            connection_id,
        ).handed_over(crate::find::ascending_members(server.owned_tabs(connection_id)));
        let synced = handed.synced_control_geometry_tabs();
        super::laws::syncing_makes_derived_state_current(handed);
        let terminals = crate::find::distinct(c.attached_terminals());
        super::laws::lemma_query_syncs_current(synced, terminals);
        lemma_current_same(
            synced.synced_query_authorities(terminals),
            server.released_connection(connection_id),
        );
    }
}

/// Opening a stream leaves derived state current.
proof fn lemma_opened_current(
    server: super::state::ServerModel,
    id: Seq<char>,
    stream: Option<u64>,
    client: Option<crate::schema::ClientModel>,
)
    requires
        server.wf(),
        super::state::CONTROL_CONNECTION_ID_BASE + server.next_control_connection_id < u64::MAX,
        super::laws::derived_is_current(server),
    ensures
        super::laws::derived_is_current(server.opened(id, stream, client).0),
{
    let after = server.opened(id, stream, client).0;
    if stream == Some(0u64) {
        let fresh = server.opened_connection(client);
        super::laws::opened_ids_are_fresh(server, client);
        let l = server.control_connections;
        let r = after.control_connections;
        assert forall|t: Seq<char>| #[trigger] server.tab_geometry_controllers.contains_key(
            t,
        ) implies server.controller_info(t, server.tab_geometry_controllers[t])
            == after.controller_info(t, server.tab_geometry_controllers[t]) by {
            let owner = server.tab_geometry_controllers[t];
            let p = |c: super::state::ConnectionModel| c.connection_id == owner;
            crate::find::lemma_first_index(l, p);
            crate::find::lemma_first_index(r, p);
            assert(owner != fresh.connection_id);
            assert(!p(fresh));
            assert forall|i: int| 0 <= i < l.len() implies #[trigger] p(l[i]) == p(r[i]) by {
                assert(l[i] == r[i]);
            }
            match (server.connection_index(owner), after.connection_index(owner)) {
                (Some(i), Some(j)) => {
                    assert(p(l[i]) == p(r[i]));
                    if j < l.len() {
                        assert(p(l[j]) == p(r[j]));
                    }
                },
                (Some(i), None) => {
                    assert(p(l[i]) == p(r[i]));
                },
                (None, Some(j)) => {
                    assert(j < l.len());
                    assert(p(l[j]) == p(r[j]));
                },
                (None, None) => {},
            }
        }
        assert(server.reported_controllers() =~= after.reported_controllers());
        assert(server.control_tabs() =~= after.control_tabs());
        assert(server.chromeless_tabs() =~= after.chromeless_tabs());
        assert forall|i: int| 0 <= i < r.len() implies (#[trigger] r[i]).handle.claim_on_input
            == after.claiming_attaches(r[i]) by {
            if i < l.len() {
                assert(r[i] == l[i]);
                assert(l[i].handle.claim_on_input == server.claiming_attaches(l[i]));
                assert(server.claiming_attaches(l[i]) =~= after.claiming_attaches(r[i]));
            } else {
                assert(after.claiming_attaches(r[i]) =~= Set::empty());
            }
        }
    }
}

/// Every request leaves everything current that is derived from who sizes the
/// tabs.
#[verifier::rlimit(20)]
pub proof fn derived_state_stays_current(
    server: super::state::ServerModel,
    id: Seq<char>,
    stream: Option<u64>,
    method: ControlMethod,
)
    requires
        server.wf(),
        server.has_room(stream, method),
        super::laws::derived_is_current(server),
    ensures
        super::laws::derived_is_current(server.handled(id, stream, method).0),
{
    let pruned = server.pruned(stream->Some_0);
    let connection_id = stream->Some_0;
    if server.stream_refusal(stream) is None {
        lemma_pruned_current(server, connection_id);
    }
    match method {
        ControlMethod::ControlOpen { params } => {
            lemma_opened_current(server, id, stream, crate::schema::client_view(params.client));
        },
        ControlMethod::ControlClose => {
            if let Some(connection_id) = stream {
                lemma_released_connection_current(server, connection_id);
            }
        },
        ControlMethod::TerminalAttach { params, resolved } => {
            if server.stream_refusal(stream) is None {
                lemma_attached_by_current(pruned, id, connection_id, params, resolved@);
            }
        },
        ControlMethod::TerminalDetach { params } => {
            if let Some(i) = pruned.connection_index(connection_id) {
                let c = pruned.control_connections[i];
                let gone = super::requests::named(params.attach_id@);
                if let Some(attach) = c.attach(params.attach_id@) {
                    super::laws::syncing_makes_derived_state_current(
                        pruned.with_connection(i, c.without(gone)).released_attaches(
                            c.attaches.filter(gone),
                            TerminalDetachReason::Closed,
                        ).synced_query_authority(attach.terminal_id),
                    );
                }
            }
        },
        ControlMethod::TerminalResize { params } => {
            if server.stream_refusal(stream) is None {
                lemma_current_same(pruned, server.terminal_resized(id, stream, params).0);
            }
        },
        ControlMethod::TabSetGeometry { params } => {
            if server.stream_refusal(stream) is None {
                lemma_current_same(pruned, pruned.stamped());
                if let Some(i) = pruned.connection_index(connection_id) {
                    let c = pruned.control_connections[i];
                    let geometry = super::requests::stored_geometry(
                        c,
                        params,
                        pruned.next_activity_stamp,
                    );
                    let stored = pruned.stamped().with_connection(
                        i,
                        c.with_tab(params.tab_id@, geometry),
                    );
                    super::laws::syncing_makes_derived_state_current(stored);
                    if stored.app.parse_tab_id(params.tab_id@) is Some {
                        lemma_claimed_current(stored, connection_id, params.tab_id@, geometry);
                    }
                }
            }
        },
        ControlMethod::TabClaimGeometry { params } => {
            if server.stream_refusal(stream) is None {
                lemma_current_same(pruned, pruned.stamped());
                if let Ok(tab_id) = pruned.claimed_tab(connection_id, params) {
                    if let Some(i) = pruned.connection_index(connection_id) {
                        let c = pruned.control_connections[i];
                        let geometry = ControlTabGeometry {
                            last_interaction: pruned.next_activity_stamp,
                            ..c.tab_geometry[tab_id]
                        };
                        let stored = pruned.stamped().with_connection(
                            i,
                            c.with_tab(tab_id, geometry),
                        );
                        if stored.app.parse_tab_id(tab_id) is Some {
                            lemma_claimed_current(stored, connection_id, tab_id, geometry);
                        }
                    }
                }
            }
        },
        _ => {},
    }
}

/// Whether a server's effects begin with another's.
pub open spec fn extends(
    after: super::state::ServerModel,
    before: super::state::ServerModel,
) -> bool {
    before.effects.is_prefix_of(after.effects)
}

pub proof fn lemma_extends_transitive(
    last: super::state::ServerModel,
    middle: super::state::ServerModel,
    first: super::state::ServerModel,
)
    requires
        extends(last, middle),
        extends(middle, first),
    ensures
        extends(last, first),
{
    assert(first.effects =~= last.effects.subrange(0, first.effects.len() as int));
}

pub proof fn lemma_released_attaches_extends(
    server: super::state::ServerModel,
    attaches: Seq<super::state::AttachModel>,
    reason: TerminalDetachReason,
)
    ensures
        extends(server.released_attaches(attaches, reason), server),
    decreases attaches.len(),
{
    if attaches.len() > 0 {
        let rest = server.released_attaches(attaches.drop_last(), reason);
        lemma_released_attaches_extends(server, attaches.drop_last(), reason);
        lemma_extends_transitive(rest.released_attach(attaches.last(), reason), rest, server);
    }
}

pub proof fn lemma_query_syncs_extends(server: super::state::ServerModel, terminals: Seq<Seq<char>>)
    ensures
        extends(server.synced_query_authorities(terminals), server),
    decreases terminals.len(),
{
    if terminals.len() > 0 {
        let rest = server.synced_query_authorities(terminals.drop_last());
        lemma_query_syncs_extends(server, terminals.drop_last());
        lemma_extends_transitive(rest.synced_query_authority(terminals.last()), rest, server);
    }
}

pub proof fn lemma_geometry_sync_extends(server: super::state::ServerModel)
    ensures
        extends(server.synced_control_geometry_tabs(), server),
{
    let claims = server.mirrored().with_input_claims();
    lemma_query_syncs_extends(claims, server.terminals_changing_hands());
    lemma_extends_transitive(server.synced_control_geometry_tabs(), claims, server);
}

/// Picking an answering attach and then syncing appends to the effects.
pub proof fn lemma_both_syncs_extend(
    first: super::state::ServerModel,
    server: super::state::ServerModel,
    terminal_id: Seq<char>,
)
    requires
        extends(server, first),
    ensures
        extends(server.synced_query_authority(terminal_id).synced_control_geometry_tabs(), first),
{
    let picked = server.synced_query_authority(terminal_id);
    let synced = picked.synced_control_geometry_tabs();
    lemma_geometry_sync_extends(picked);
    assert(extends(picked, server));
    lemma_extends_transitive(synced, picked, server);
    lemma_extends_transitive(synced, server, first);
}

pub proof fn lemma_claimed_extends(
    server: super::state::ServerModel,
    connection_id: u64,
    tab_id: Seq<char>,
    geometry: ControlTabGeometry,
)
    ensures
        extends(server.claimed(connection_id, tab_id, geometry), server),
{
    let with = server.with_controller(tab_id, Some(connection_id));
    lemma_geometry_sync_extends(with);
    if server.app.parse_tab_id(tab_id) is Some {
        lemma_extends_transitive(
            server.claimed(connection_id, tab_id, geometry),
            with.synced_control_geometry_tabs(),
            server,
        );
    }
}

pub proof fn lemma_handed_over_extends(server: super::state::ServerModel, tabs: Seq<Seq<char>>)
    ensures
        extends(server.handed_over(tabs), server),
    decreases tabs.len(),
{
    if tabs.len() > 0 {
        let rest = server.handed_over(tabs.drop_last());
        lemma_handed_over_extends(server, tabs.drop_last());
        if let Some(i) = rest.successor(tabs.last()) {
            let c = rest.control_connections[i];
            lemma_claimed_extends(
                rest,
                c.connection_id,
                tabs.last(),
                c.tab_geometry[tabs.last()],
            );
        }
        lemma_extends_transitive(rest.handed_over_tab(tabs.last()), rest, server);
    }
}

pub proof fn lemma_pruned_extends(server: super::state::ServerModel, connection_id: u64)
    ensures
        extends(server.pruned(connection_id), server),
{
    if let Some(i) = server.connection_index(connection_id) {
        lemma_geometry_sync_extends(
            server.with_connection(i, server.control_connections[i].without(server.gone())),
        );
    }
}

pub proof fn lemma_evicted_extends(
    server: super::state::ServerModel,
    terminal_id: Seq<char>,
    reason: TerminalDetachReason,
    scope: EvictScope,
)
    ensures
        extends(server.evicted(terminal_id, reason, scope), server),
{
    let without = server.with_connections(
        server.control_connections.map_values(
            |c: super::state::ConnectionModel| c.without(c.evictees(terminal_id, scope)),
        ),
    );
    let leavers = server.control_connections.flat_map(
        |c: super::state::ConnectionModel| c.attaches.filter(c.evictees(terminal_id, scope)),
    );
    lemma_released_attaches_extends(without, leavers, reason);
    lemma_both_syncs_extend(server, without.released_attaches(leavers, reason), terminal_id);
}

proof fn lemma_released_connection_extends(
    server: super::state::ServerModel,
    connection_id: u64,
)
    ensures
        extends(server.released_connection(connection_id), server),
{
    if let Some(i) = server.connection_index(connection_id) {
        let c = server.control_connections[i];
        let without = server.with_connections(server.control_connections.remove(i));
        let disowned = without.released_attaches(
            c.attaches,
            TerminalDetachReason::Closed,
        ).disowned(connection_id);
        lemma_released_attaches_extends(without, c.attaches, TerminalDetachReason::Closed);
        let tabs = crate::find::ascending_members(server.owned_tabs(connection_id));
        let handed = disowned.handed_over(tabs);
        lemma_handed_over_extends(disowned, tabs);
        lemma_extends_transitive(handed, disowned, server);
        let synced = handed.synced_control_geometry_tabs();
        lemma_geometry_sync_extends(handed);
        lemma_extends_transitive(synced, handed, server);
        let terminals = crate::find::distinct(c.attached_terminals());
        let told = synced.synced_query_authorities(terminals);
        lemma_query_syncs_extends(synced, terminals);
        lemma_extends_transitive(told, synced, server);
        lemma_extends_transitive(server.released_connection(connection_id), told, server);
    }
}

proof fn lemma_attached_by_extends(
    server: super::state::ServerModel,
    id: Seq<char>,
    connection_id: u64,
    params: TerminalAttachParams,
    resolved: super::attach::TargetModel,
)
    ensures
        extends(server.attached_by(id, connection_id, params, resolved).0, server),
{
    if let Ok((terminal_id, pane_id)) = server.attach_target(params.target@, resolved) {
        let retired = server.retired(connection_id, terminal_id);
        if let Some(i) = server.connection_index(connection_id) {
            let c = server.control_connections[i];
            let here = super::attach::on_terminal(terminal_id);
            let without = server.with_connection(i, c.without(here));
            lemma_released_attaches_extends(
                without,
                c.attaches.filter(here),
                TerminalDetachReason::Takeover,
            );
            lemma_both_syncs_extend(
                server,
                without.released_attaches(
                    c.attaches.filter(here),
                    TerminalDetachReason::Takeover,
                ),
                terminal_id,
            );
        }
        assert(extends(retired, server));
        let cleared = if params.takeover {
            let alone = retired.without_direct_owner(terminal_id);
            let scope = if params.geometry == TerminalAttachGeometry::Terminal {
                EvictScope::All
            } else {
                EvictScope::TabFollowerTakeover
            };
            lemma_evicted_extends(alone, terminal_id, TerminalDetachReason::Takeover, scope);
            assert(extends(alone, retired));
            lemma_extends_transitive(
                retired.taken_over(terminal_id, params.geometry),
                alone,
                retired,
            );
            retired.taken_over(terminal_id, params.geometry)
        } else {
            retired
        };
        lemma_extends_transitive(cleared, retired, server);
        let after = cleared.joined(id, connection_id, terminal_id, pane_id, params).0;
        if let Some(i) = cleared.connection_index(connection_id) {
            let c = cleared.control_connections[i];
            let attach = c.next(cleared.next_attach_order, terminal_id, params);
            let grown = super::state::ConnectionModel {
                attaches: c.attaches.push(attach),
                handle: c.handle.registered(attach.attach_id),
                next_attach: (c.next_attach + 1) as u64,
                ..c
            };
            let listed = cleared.drawn(terminal_id, params.geometry).with_connection(i, grown).with_effects(
                cleared.attach_effects(id, c, terminal_id, pane_id, params),
            );
            assert(extends(listed, cleared));
            lemma_both_syncs_extend(cleared, listed, terminal_id);
        }
        assert(extends(after, cleared));
        lemma_extends_transitive(after, cleared, server);
    }
}

/// A request only appends effects: those still to be performed stay first, in
/// their order.
pub proof fn effects_are_only_appended(
    server: super::state::ServerModel,
    id: Seq<char>,
    stream: Option<u64>,
    method: ControlMethod,
)
    ensures
        extends(server.handled(id, stream, method).0, server),
{
    let connection_id = stream->Some_0;
    let pruned = server.pruned(connection_id);
    let after = server.handled(id, stream, method).0;
    lemma_pruned_extends(server, connection_id);
    match method {
        ControlMethod::ControlClose => {
            lemma_released_connection_extends(server, connection_id);
        },
        ControlMethod::TerminalAttach { params, resolved } => {
            lemma_attached_by_extends(pruned, id, connection_id, params, resolved@);
            if server.stream_refusal(stream) is None {
                lemma_extends_transitive(after, pruned, server);
            }
        },
        ControlMethod::TerminalDetach { params } => {
            if let Some(i) = pruned.connection_index(connection_id) {
                let c = pruned.control_connections[i];
                let gone = super::requests::named(params.attach_id@);
                if let Some(attach) = c.attach(params.attach_id@) {
                    let without = pruned.with_connection(i, c.without(gone));
                    let released = without.released_attaches(
                        c.attaches.filter(gone),
                        TerminalDetachReason::Closed,
                    );
                    lemma_released_attaches_extends(
                        without,
                        c.attaches.filter(gone),
                        TerminalDetachReason::Closed,
                    );
                    lemma_extends_transitive(released, pruned, server);
                    lemma_both_syncs_extend(server, released, attach.terminal_id);
                }
            }
        },
        ControlMethod::TerminalResize { params } => {
            if server.stream_refusal(stream) is None {
                assert(extends(after, pruned));
                lemma_extends_transitive(after, pruned, server);
            }
        },
        ControlMethod::TabSetGeometry { params } => {
            if let Some(i) = pruned.connection_index(connection_id) {
                let c = pruned.control_connections[i];
                let geometry = super::requests::stored_geometry(
                    c,
                    params,
                    pruned.next_activity_stamp,
                );
                let stored = pruned.stamped().with_connection(
                    i,
                    c.with_tab(params.tab_id@, geometry),
                );
                lemma_geometry_sync_extends(stored);
                lemma_claimed_extends(stored, connection_id, params.tab_id@, geometry);
            }
            if server.stream_refusal(stream) is None {
                assert(extends(after, pruned));
                lemma_extends_transitive(after, pruned, server);
            }
        },
        ControlMethod::TabClaimGeometry { params } => {
            if let Ok(tab_id) = pruned.claimed_tab(connection_id, params) {
                if let Some(i) = pruned.connection_index(connection_id) {
                    let c = pruned.control_connections[i];
                    let geometry = ControlTabGeometry {
                        last_interaction: pruned.next_activity_stamp,
                        ..c.tab_geometry[tab_id]
                    };
                    let stored = pruned.stamped().with_connection(
                        i,
                        c.with_tab(tab_id, geometry),
                    );
                    lemma_claimed_extends(stored, connection_id, tab_id, geometry);
                }
            }
            if server.stream_refusal(stream) is None {
                assert(extends(after, pruned));
                lemma_extends_transitive(after, pruned, server);
            }
        },
        _ => {},
    }
}

/// A client learns the id of its attach before the first snapshot on it, and
/// who answers the terminal's queries after that.
pub proof fn attaches_are_answered_before_their_snapshot(
    server: super::state::ServerModel,
    id: Seq<char>,
    connection_id: u64,
    terminal_id: Seq<char>,
    pane_id: Option<Seq<char>>,
    params: TerminalAttachParams,
)
    requires
        server.connection_index(connection_id) is Some,
        server.app.running(terminal_id),
    ensures
        ({
            let c = server.control_connections[server.connection_index(connection_id)->Some_0];
            let after = server.joined(id, connection_id, terminal_id, pane_id, params).0;
            let first = server.attach_effects(id, c, terminal_id, pane_id, params);
            &&& (server.effects + first).is_prefix_of(after.effects)
            &&& first[0] is AttachRaw
            &&& first[first.len() - 2] is SendReply
            &&& first.last() is SnapshotRaw
            &&& forall|k: int|
                0 <= k < first.len() ==> !((#[trigger] first[k]) is SetRawQueryAuthority)
        }),
{
    let i = server.connection_index(connection_id)->Some_0;
    let c = server.control_connections[i];
    let attach = c.next(server.next_attach_order, terminal_id, params);
    let first = server.attach_effects(id, c, terminal_id, pane_id, params);
    let listed = server.drawn(terminal_id, params.geometry).with_connection(
        i,
        super::state::ConnectionModel {
            attaches: c.attaches.push(attach),
            handle: c.handle.registered(attach.attach_id),
            next_attach: (c.next_attach + 1) as u64,
            ..c
        },
    ).with_effects(first);
    assert(listed.effects == server.effects + first);
    assert(extends(listed, listed));
    lemma_both_syncs_extend(listed, listed, terminal_id);
}

} // verus!
