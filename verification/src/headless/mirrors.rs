//! What layouts, streams and listeners are told of who sizes the tabs.

use vstd::prelude::*;

use super::dispatch::ControlMethod;
use crate::schema::{GeometryController, GeometryControllerKind, TabChrome, TabSetGeometryParams};

verus! {

/// Whether a tab is sized by a stream that stored a size of that chrome for it.
pub open spec fn sized_with(
    server: super::state::ServerModel,
    tab_id: Seq<char>,
    chrome: TabChrome,
) -> bool {
    server.tab_geometry_controllers.contains_key(tab_id) && exists|i: int|
        0 <= i < server.control_connections.len() && (
        #[trigger] server.control_connections[i]).connection_id
            == server.tab_geometry_controllers[tab_id]
            && server.control_connections[i].tab_geometry.contains_key(tab_id)
            && server.control_connections[i].tab_geometry[tab_id].chrome == chrome
}

/// Whether a tab is one that a stream sizes.
pub open spec fn sized_by_stream(server: super::state::ServerModel, tab_id: Seq<char>) -> bool {
    server.tab_geometry_controllers.contains_key(tab_id) && server.tab_geometry_controllers[tab_id]
        >= 0x100_0000_0000
}

/// Whether input on an attach claims the tab that its terminal is in: its stream
/// stored a size for the tab and does not size it.
pub open spec fn would_claim(server: super::state::ServerModel, i: int, k: int) -> bool {
    let c = server.control_connections[i];
    server.app.tab_of_terminal(c.attaches[k].terminal_id) matches Some(tab_id)
        && c.tab_geometry.contains_key(tab_id) && !(server.tab_geometry_controllers.contains_key(
        tab_id,
    ) && server.tab_geometry_controllers[tab_id] == c.connection_id)
}

/// The tabs that streams size are known as such, and those that they size
/// without chrome. Every tab that is sized is reported with who sizes it. Every
/// stream knows which attaches claim on input.
pub open spec fn mirrors_hold(server: super::state::ServerModel) -> bool {
    &&& forall|t: Seq<char>| #[trigger]
        server.control_geometry_tabs.contains(t) <==> sized_by_stream(server, t)
    &&& forall|t: Seq<char>| #[trigger]
        server.control_chromeless_tabs.contains(t) <==> sized_by_stream(server, t) && sized_with(
            server,
            t,
            TabChrome::Bare,
        )
    &&& forall|t: Seq<char>| #[trigger]
        server.control_tab_geometry_controllers.contains_key(t)
            <==> server.tab_geometry_controllers.contains_key(t)
    &&& forall|t: Seq<char>| #[trigger]
        server.control_tab_geometry_controllers.contains_key(t) ==> {
            let reported = server.control_tab_geometry_controllers[t];
            &&& reported.kind == (if sized_by_stream(server, t) {
                GeometryControllerKind::Control
            } else {
                GeometryControllerKind::Client
            })
            &&& reported.connection_id == Some(server.tab_geometry_controllers[t])
            &&& reported.chrome == (if sized_by_stream(server, t) && sized_with(
                server,
                t,
                TabChrome::Bare,
            ) {
                TabChrome::Bare
            } else {
                TabChrome::Server
            })
        }
    &&& forall|i: int, attach_id: Seq<char>|
        0 <= i < server.control_connections.len() ==> (
        #[trigger] server.control_connections[i].handle.claim_on_input.contains(attach_id)
            <==> exists|k: int|
            0 <= k < server.control_connections[i].attaches.len() && (
            #[trigger] server.control_connections[i].attaches[k]).attach_id == attach_id
                && would_claim(server, i, k))
}

proof fn lemma_report(server: super::state::ServerModel, t: Seq<char>)
    requires
        server.wf(),
        server.tab_geometry_controllers.contains_key(t),
    ensures
        ({
            let reported = server.controller_info(t, server.tab_geometry_controllers[t]);
            let control = sized_by_stream(server, t);
            let bare = control && sized_with(server, t, TabChrome::Bare);
            &&& reported.kind == (if control {
                GeometryControllerKind::Control
            } else {
                GeometryControllerKind::Client
            })
            &&& reported.connection_id == Some(server.tab_geometry_controllers[t])
            &&& reported.chrome == (if bare {
                TabChrome::Bare
            } else {
                TabChrome::Server
            })
        }),
{
    let owner = server.tab_geometry_controllers[t];
    super::soundness::lemma_open_connection(server, owner);
    assert forall|i: int|
        0 <= i < server.control_connections.len() && (
        #[trigger] server.control_connections[i]).connection_id == owner implies server.connection(
        owner,
    ) == Some(server.control_connections[i]) by {
        super::soundness::lemma_connection_index(server, i);
    }
}

/// What is derived from who sizes the tabs is up to date just when it says so of
/// every tab and every attach.
pub proof fn derived_state_says_who_sizes_the_tabs(server: super::state::ServerModel)
    requires
        server.wf(),
    ensures
        super::laws::derived_is_current(server) <==> mirrors_hold(server),
{
    assert forall|t: Seq<char>| server.tab_geometry_controllers.contains_key(t) implies ({
        let reported = #[trigger] server.controller_info(t, server.tab_geometry_controllers[t]);
        let control = sized_by_stream(server, t);
        &&& reported.kind == (if control {
            GeometryControllerKind::Control
        } else {
            GeometryControllerKind::Client
        })
        &&& reported.connection_id == Some(server.tab_geometry_controllers[t])
        &&& reported.chrome == (if control && sized_with(server, t, TabChrome::Bare) {
            TabChrome::Bare
        } else {
            TabChrome::Server
        })
    }) by {
        lemma_report(server, t);
    }
    assert forall|i: int, attach_id: Seq<char>|
        0 <= i < server.control_connections.len() implies (#[trigger] server.claiming_attaches(
        server.control_connections[i],
    ).contains(attach_id) <==> exists|k: int|
        0 <= k < server.control_connections[i].attaches.len() && (
        #[trigger] server.control_connections[i].attaches[k]).attach_id == attach_id
            && would_claim(server, i, k)) by {
        let c = server.control_connections[i];
        assert forall|k: int| 0 <= k < c.attaches.len() implies would_claim(server, i, k)
            == server.claims_on_input(c, #[trigger] c.attaches[k]) by {}
    }
    if super::laws::derived_is_current(server) {
        assert forall|t: Seq<char>| #[trigger]
            server.control_tab_geometry_controllers.contains_key(t) implies
            server.control_tab_geometry_controllers[t] == server.controller_info(
            t,
            server.tab_geometry_controllers[t],
        ) by {}
        assert forall|i: int, attach_id: Seq<char>|
            0 <= i < server.control_connections.len() implies (
        #[trigger] server.control_connections[i].handle.claim_on_input.contains(attach_id)
            <==> exists|k: int|
            0 <= k < server.control_connections[i].attaches.len() && (
            #[trigger] server.control_connections[i].attaches[k]).attach_id == attach_id
                && would_claim(server, i, k)) by {
            assert(server.claiming_attaches(server.control_connections[i]).contains(attach_id)
                == server.control_connections[i].handle.claim_on_input.contains(attach_id));
        }
    }
    if mirrors_hold(server) {
        assert(server.control_geometry_tabs =~= server.control_tabs());
        assert(server.control_tab_geometry_controllers =~= server.reported_controllers());
        assert(server.control_chromeless_tabs =~= server.chromeless_tabs());
        assert forall|i: int| 0 <= i < server.control_connections.len() implies (
        #[trigger] server.control_connections[i]).handle.claim_on_input
            == server.claiming_attaches(server.control_connections[i]) by {
            assert(server.control_connections[i].handle.claim_on_input
                =~= server.claiming_attaches(server.control_connections[i]));
        }
    }
}

/// Every request leaves what is told of who sizes the tabs up to date.
pub proof fn requests_keep_the_mirrors(
    server: super::state::ServerModel,
    id: Seq<char>,
    stream: Option<u64>,
    method: ControlMethod,
)
    requires
        server.wf(),
        server.has_room(stream, method),
        mirrors_hold(server),
    ensures
        mirrors_hold(server.handled(id, stream, method).0),
{
    derived_state_says_who_sizes_the_tabs(server);
    super::upkeep::derived_state_stays_current(server, id, stream, method);
    super::preservation::sound_servers_stay_sound(server, id, stream, method);
    derived_state_says_who_sizes_the_tabs(server.handled(id, stream, method).0);
}

/// Whether an effect tells that a tab went from what was reported to what is.
pub open spec fn announces(
    effect: super::state::EffectModel,
    tab_id: Seq<char>,
    before: Map<Seq<char>, GeometryController>,
    after: Map<Seq<char>, GeometryController>,
) -> bool {
    effect matches super::state::EffectModel::GeometryChanged {
        tab_id: told,
        controller,
        previous,
    } && told == tab_id && controller.kind == (if after.contains_key(tab_id) {
        after[tab_id].kind
    } else {
        GeometryControllerKind::Server
    }) && controller.connection_id == (if after.contains_key(tab_id) {
        after[tab_id].connection_id
    } else {
        None
    }) && controller.chrome == (if after.contains_key(tab_id) {
        after[tab_id].chrome
    } else {
        TabChrome::Server
    }) && previous == (if before.contains_key(tab_id) {
        Some(before[tab_id])
    } else {
        None
    })
}

/// Whether what is reported of a tab differs.
pub open spec fn differs(
    tab_id: Seq<char>,
    before: Map<Seq<char>, GeometryController>,
    after: Map<Seq<char>, GeometryController>,
) -> bool {
    before.contains_key(tab_id) != after.contains_key(tab_id) || (before.contains_key(tab_id)
        && before[tab_id] != after[tab_id])
}

/// Bringing what is reported up to date announces every tab whose report
/// changes, with the old report and the new, and no other tab.
pub proof fn changes_of_hands_are_announced(
    server: super::state::ServerModel,
    after: super::state::ServerModel,
)
    requires
        after == server.synced_control_geometry_tabs(),
        server.tab_geometry_controllers.dom().finite(),
        server.control_tab_geometry_controllers.dom().finite(),
    ensures
        forall|t: Seq<char>| #[trigger]
            differs(
                t,
                server.control_tab_geometry_controllers,
                after.control_tab_geometry_controllers,
            ) ==> exists|p: int|
                server.effects.len() <= p < after.effects.len() && announces(
                    #[trigger] after.effects[p],
                    t,
                    server.control_tab_geometry_controllers,
                    after.control_tab_geometry_controllers,
                ),
        forall|p: int|
            server.effects.len() <= p < after.effects.len() && (
            #[trigger] after.effects[p]) is GeometryChanged ==> exists|t: Seq<char>| #[trigger]
                differs(
                    t,
                    server.control_tab_geometry_controllers,
                    after.control_tab_geometry_controllers,
                ) && announces(
                    after.effects[p],
                    t,
                    server.control_tab_geometry_controllers,
                    after.control_tab_geometry_controllers,
                ),
{
    let old_reports = server.control_tab_geometry_controllers;
    let reports = server.reported_controllers();
    let mirrored = server.mirrored();
    let claims = mirrored.with_input_claims();
    let terminals = server.terminals_changing_hands();
    let n = server.effects.len() as int;
    super::upkeep::lemma_query_syncs_extends(claims, terminals);
    lemma_syncs_reports(claims, terminals);
    assert(after.control_tab_geometry_controllers == reports);
    assert(reports.dom() =~= server.tab_geometry_controllers.dom());
    assert(server.changed_tabs() =~= reports.dom().union(old_reports.dom()).filter(
        |t: Seq<char>| server.changed_tabs().contains(t),
    ));
    let tabs = crate::find::ascending_members(server.changed_tabs());
    crate::find::lemma_ascending_members_exist(server.changed_tabs());
    assert forall|m: int| 0 <= m < tabs.len() implies #[trigger] after.effects[n + m]
        == server.change_event(tabs[m]) by {
        assert(claims.effects[n + m] == server.change_event(tabs[m]));
    }
    assert forall|t: Seq<char>| #[trigger] differs(t, old_reports, reports) implies exists|p: int|
        n <= p < after.effects.len() && announces(
            #[trigger] after.effects[p],
            t,
            old_reports,
            reports,
        ) by {
        assert(server.changed_tabs().contains(t));
        assert(tabs.contains(t));
        let m = choose|m: int| 0 <= m < tabs.len() && tabs[m] == t;
        assert(announces(after.effects[n + m], t, old_reports, reports));
    }
    assert forall|p: int|
        n <= p < after.effects.len() && (
        #[trigger] after.effects[p]) is GeometryChanged implies exists|t: Seq<char>| #[trigger]
        differs(t, old_reports, reports) && announces(
            after.effects[p],
            t,
            old_reports,
            reports,
        ) by {
        if p < claims.effects.len() {
            let t = tabs[p - n];
            assert(after.effects[n + (p - n)] == server.change_event(t));
            assert(tabs.contains(t));
            assert(server.changed_tabs().contains(t));
            assert(differs(t, old_reports, reports));
        } else {
            super::departures::lemma_query_syncs_effects(claims, terminals, p);
        }
    }
}

/// Picking answering attaches leaves what is reported alone.
proof fn lemma_syncs_reports(server: super::state::ServerModel, terminals: Seq<Seq<char>>)
    ensures
        server.synced_query_authorities(terminals).control_tab_geometry_controllers
            == server.control_tab_geometry_controllers,
    decreases terminals.len(),
{
    if terminals.len() > 0 {
        lemma_syncs_reports(server, terminals.drop_last());
    }
}

/// A stream that takes a tab from another, or from nobody, is announced with the
/// chrome it asked for, beside what was reported before.
pub proof fn taking_a_tab_is_announced(
    server: super::state::ServerModel,
    id: Seq<char>,
    connection_id: u64,
    params: TabSetGeometryParams,
    after: super::state::ServerModel,
)
    requires
        server.wf(),
        mirrors_hold(server),
        params.claim,
        server.next_activity_stamp < u64::MAX,
        !(server.tab_geometry_controllers.contains_key(params.tab_id@)
            && server.tab_geometry_controllers[params.tab_id@] == connection_id),
        server.handled(id, Some(connection_id), ControlMethod::TabSetGeometry { params }) == (
            after,
            super::succession::done(id),
        ),
    ensures
        exists|p: int|
            server.effects.len() <= p < after.effects.len() && (#[trigger] after.effects[p])
                == (super::state::EffectModel::GeometryChanged {
                tab_id: params.tab_id@,
                controller: GeometryController {
                    kind: GeometryControllerKind::Control,
                    connection_id: Some(connection_id),
                    chrome: params.chrome,
                },
                previous: if server.control_tab_geometry_controllers.contains_key(params.tab_id@) {
                    Some(server.control_tab_geometry_controllers[params.tab_id@])
                } else {
                    None
                },
            }),
{
    let t = params.tab_id@;
    let i = super::succession::lemma_set(server, id, connection_id, params);
    let pruned = server.pruned(connection_id);
    super::succession::lemma_pruned_sizes(server, connection_id);
    super::upkeep::lemma_pruned_extends(server, connection_id);
    super::preservation::lemma_pruned_wf(server, connection_id);
    derived_state_says_who_sizes_the_tabs(server);
    super::upkeep::lemma_pruned_current(server, connection_id);
    derived_state_says_who_sizes_the_tabs(pruned);
    let c = pruned.control_connections[i];
    let geometry = super::requests::stored_geometry(c, params, pruned.next_activity_stamp);
    let stored = pruned.stamped().with_connection(i, c.with_tab(t, geometry)).with_controller(
        t,
        Some(connection_id),
    );
    let synced = stored.synced_control_geometry_tabs();
    assert(after == pruned.tab_set_by(id, connection_id, params).0);
    assert(after.effects == synced.effects.push(after.effects.last()));
    let reports = pruned.control_tab_geometry_controllers;
    assert(reports.dom() =~= pruned.tab_geometry_controllers.dom());
    assert(stored.tab_geometry_controllers.dom() =~= pruned.tab_geometry_controllers.dom().insert(
        t,
    ));
    changes_of_hands_are_announced(stored, synced);
    super::upkeep::derived_state_stays_current(
        server,
        id,
        Some(connection_id),
        ControlMethod::TabSetGeometry { params },
    );
    super::preservation::sound_servers_stay_sound(
        server,
        id,
        Some(connection_id),
        ControlMethod::TabSetGeometry { params },
    );
    derived_state_says_who_sizes_the_tabs(after);
    let told = after.control_tab_geometry_controllers;
    assert(told == synced.control_tab_geometry_controllers);
    assert(after.control_connections[i].connection_id == connection_id);
    assert(after.control_connections[i].wf());
    assert(told.contains_key(t));
    lemma_same_reports(server, pruned, t);
    if params.chrome == TabChrome::Bare {
        assert(sized_with(after, t, TabChrome::Bare));
    } else if sized_with(after, t, TabChrome::Bare) {
        let j = choose|j: int|
            0 <= j < after.control_connections.len() && (
            #[trigger] after.control_connections[j]).connection_id == connection_id
                && after.control_connections[j].tab_geometry[t].chrome == TabChrome::Bare;
        super::soundness::lemma_connection_index(after, j);
        super::soundness::lemma_connection_index(after, i);
    }
    assert(differs(t, reports, told));
    let p = choose|p: int|
        stored.effects.len() <= p < synced.effects.len() && announces(
            #[trigger] synced.effects[p],
            t,
            reports,
            told,
        );
    assert(after.effects[p] == synced.effects[p]);
}

/// Two servers with the same sizes and owners report the same of a tab.
proof fn lemma_same_reports(
    left: super::state::ServerModel,
    right: super::state::ServerModel,
    t: Seq<char>,
)
    requires
        mirrors_hold(left),
        mirrors_hold(right),
        left.tab_geometry_controllers == right.tab_geometry_controllers,
        super::succession::same_sizes(right, left),
    ensures
        left.control_tab_geometry_controllers.contains_key(t)
            == right.control_tab_geometry_controllers.contains_key(t),
        left.control_tab_geometry_controllers.contains_key(t)
            ==> left.control_tab_geometry_controllers[t]
            == right.control_tab_geometry_controllers[t],
{
    if left.tab_geometry_controllers.contains_key(t) {
        assert(left.control_tab_geometry_controllers.contains_key(t));
        assert(right.control_tab_geometry_controllers.contains_key(t));
        let owner = left.tab_geometry_controllers[t];
        if sized_with(left, t, TabChrome::Bare) {
            let j = choose|j: int|
                0 <= j < left.control_connections.len() && (
                #[trigger] left.control_connections[j]).connection_id == owner
                    && left.control_connections[j].tab_geometry.contains_key(t)
                    && left.control_connections[j].tab_geometry[t].chrome == TabChrome::Bare;
            assert(right.control_connections[j].connection_id == owner);
        }
        if sized_with(right, t, TabChrome::Bare) {
            let j = choose|j: int|
                0 <= j < right.control_connections.len() && (
                #[trigger] right.control_connections[j]).connection_id == owner
                    && right.control_connections[j].tab_geometry.contains_key(t)
                    && right.control_connections[j].tab_geometry[t].chrome == TabChrome::Bare;
            assert(left.control_connections[j].connection_id == owner);
        }
    }
}

/// A tab is laid out at the size that the stream that sizes it stored for it;
/// else at that of the client that sizes it; else at the size every tab gets.
/// It is laid out from the corner.
pub proof fn tabs_are_as_large_as_their_owner_says(
    server: super::state::ServerModel,
    target: super::app::TabSurfaceTarget,
    tab_id: Seq<char>,
)
    requires
        server.wf(),
        server.app.tab_id_for_target(target) == Some(tab_id),
    ensures
        ({
            let area = server.current_tab_area(target);
            let owned = server.tab_geometry_controllers.contains_key(tab_id);
            let owner = server.tab_geometry_controllers[tab_id];
            &&& area.x == 0 && area.y == 0
            &&& forall|i: int|
                owned && 0 <= i < server.control_connections.len() && (
                #[trigger] server.control_connections[i]).connection_id == owner
                    && server.control_connections[i].tab_geometry.contains_key(tab_id)
                    ==> area.width == server.control_connections[i].tab_geometry[tab_id].cols
                    && area.height == server.control_connections[i].tab_geometry[tab_id].rows
            &&& owned && owner < 0x100_0000_0000 && server.clients.contains_key(owner) ==> (
                area.width,
                area.height,
            ) == server.clients[owner]
            &&& !owned ==> (area.width, area.height) == server.effective_size
            &&& owned && owner < 0x100_0000_0000 && !server.clients.contains_key(owner) ==> (
                area.width,
                area.height,
            ) == server.effective_size
        }),
{
    if server.tab_geometry_controllers.contains_key(tab_id) {
        let owner = server.tab_geometry_controllers[tab_id];
        assert forall|i: int|
            0 <= i < server.control_connections.len() && (
            #[trigger] server.control_connections[i]).connection_id
                == owner implies server.connection(owner) == Some(
            server.control_connections[i],
        ) && owner >= 0x100_0000_0000 by {
            assert(server.control_connections[i].wf());
            super::soundness::lemma_connection_index(server, i);
        }
    }
}

/// Forgetting sizes for tabs that are gone keeps every size for a tab that is
/// not, and nothing else.
pub proof fn sizes_for_other_tabs_are_forgotten(
    server: super::state::ServerModel,
    keep: Set<Seq<char>>,
    i: int,
    tab_id: Seq<char>,
)
    requires
        0 <= i < server.control_connections.len(),
    ensures
        ({
            let after = server.pruned_tab_geometry(keep);
            let before = server.control_connections[i];
            let c = after.control_connections[i];
            &&& after.control_connections.len() == server.control_connections.len()
            &&& c.connection_id == before.connection_id
            &&& c.attaches == before.attaches
            &&& c.handle == before.handle
            &&& c.tab_geometry.contains_key(tab_id) <==> before.tab_geometry.contains_key(tab_id)
                && keep.contains(tab_id)
            &&& c.tab_geometry.contains_key(tab_id) ==> c.tab_geometry[tab_id]
                == before.tab_geometry[tab_id]
        }),
{
}

/// The connections that claim are the streams that size a tab.
pub proof fn claiming_streams_size_a_tab(server: super::state::ServerModel, id: u64)
    ensures
        server.claiming_connections().contains(id) <==> id >= 0x100_0000_0000 && exists|
            t: Seq<char>,
        | #[trigger]
            server.tab_geometry_controllers.contains_key(t) && server.tab_geometry_controllers[t]
                == id,
{
}

/// What a stream asked for on a tab is the size it stored for the tab; a client,
/// and a stream that stored none, asked for nothing.
pub proof fn streams_ask_for_what_they_stored(
    server: super::state::ServerModel,
    target: super::app::TabSurfaceTarget,
    tab_id: Seq<char>,
    i: int,
    client_id: u64,
)
    requires
        server.wf(),
        server.app.tab_id_for_target(target) == Some(tab_id),
        0 <= i < server.control_connections.len(),
        client_id < 0x100_0000_0000,
    ensures
        ({
            let c = server.control_connections[i];
            let asked = server.control_tab_geometry_for_target(c.connection_id, target);
            let geometry = c.tab_geometry[tab_id];
            &&& c.tab_geometry.contains_key(tab_id) ==> asked == Some(
                (geometry.cols, geometry.rows, geometry.cell_size),
            )
            &&& !c.tab_geometry.contains_key(tab_id) ==> asked is None
            &&& server.control_tab_geometry_for_target(client_id, target) is None
        }),
{
    assert(server.control_connections[i].wf());
    super::soundness::lemma_connection_index(server, i);
}

/// Who sizes the tab that shows a terminal is who sizes that tab, if it is shown
/// in one and anybody does.
pub proof fn terminals_are_sized_by_their_tabs_owner(
    server: super::state::ServerModel,
    terminal_id: Seq<char>,
)
    ensures
        ({
            let found = server.shell_geometry_controller_for_terminal(terminal_id);
            let tab = server.app.tab_of_terminal(terminal_id);
            &&& found is Some <==> tab is Some && server.tab_geometry_controllers.contains_key(
                tab->Some_0,
            )
            &&& found is Some ==> found->Some_0.0 == server.tab_geometry_controllers[tab->Some_0]
                && server.app.tab_target_for_terminal(terminal_id) == Some(found->Some_0.1)
        }),
{
}

/// A fresh server knows of nothing and has nothing to do.
pub proof fn a_fresh_server_is_empty(
    client_shell_boot_id: Seq<char>,
    version: Seq<char>,
    protocol_version: u32,
    effective_size: (u16, u16),
)
    ensures
        ({
            let server = super::state::ServerModel::fresh(
                client_shell_boot_id,
                version,
                protocol_version,
                effective_size,
            );
            &&& server.control_connections.len() == 0
            &&& server.effects.len() == 0
            &&& server.client_shell_boot_id == client_shell_boot_id
            &&& server.version == version
            &&& server.protocol_version == protocol_version
            &&& server.effective_size == effective_size
            &&& mirrors_hold(server)
            &&& forall|t: Seq<char>| !#[trigger] server.tab_geometry_controllers.contains_key(t)
            &&& forall|t: Seq<char>| !#[trigger] server.terminal_attach_owners.contains_key(t)
            &&& forall|t: Seq<char>| !#[trigger] server.direct_attach_resize_locks.contains(t)
            &&& forall|t: Seq<char>| !#[trigger] server.app.running(t)
        }),
{
}

/// A tab that is given an owner has that one, and a tab that is given none has
/// none; every other tab keeps its own.
pub proof fn tabs_have_the_owner_they_were_given(
    server: super::state::ServerModel,
    tab_id: Seq<char>,
    owner: Option<u64>,
    other: Seq<char>,
)
    ensures
        ({
            let after = server.with_controller(tab_id, owner).synced_control_geometry_tabs();
            let owners = after.tab_geometry_controllers;
            &&& owners.contains_key(tab_id) == (owner is Some)
            &&& owner is Some ==> owners[tab_id] == owner->Some_0
            &&& other != tab_id ==> owners.contains_key(other)
                == server.tab_geometry_controllers.contains_key(other) && (owners.contains_key(
                other,
            ) ==> owners[other] == server.tab_geometry_controllers[other])
        }),
{
    let given = server.with_controller(tab_id, owner);
    super::soundness::lemma_geometry_sync_bare(given);
    super::succession::lemma_bare_sizes(given.synced_control_geometry_tabs(), given);
}

} // verus!
