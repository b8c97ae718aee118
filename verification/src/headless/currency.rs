//! The attach that should answer a terminal's queries is the one that does,
//! whatever comes and goes.

use vstd::prelude::*;

use super::dispatch::ControlMethod;
use super::state::EvictScope;
use crate::schema::{TerminalAttachGeometry, TerminalAttachParams, TerminalDetachReason};

verus! {

/// Whether the attaches on a terminal know which of them answers its queries.
pub open spec fn settled(server: super::state::ServerModel, terminal_id: Seq<char>) -> bool {
    forall|i: int, k: int|
        0 <= i < server.control_connections.len() && 0 <= k
            < server.control_connections[i].attaches.len() && (
        #[trigger] server.control_connections[i].attaches[k]).terminal_id == terminal_id
            ==> server.control_connections[i].attaches[k].answers_queries == (
        server.query_authority(terminal_id) == Some(
            server.control_connections[i].attaches[k].attach_id,
        ))
}

/// Whether the attaches on every running terminal know which of them answers.
pub open spec fn all_settled(server: super::state::ServerModel) -> bool {
    forall|t: Seq<char>| server.app.running(t) ==> #[trigger] settled(server, t)
}

/// Whether what is reported of a terminal's tab is out of date.
spec fn pending(server: super::state::ServerModel, terminal_id: Seq<char>) -> bool {
    server.shown_in(terminal_id, server.changed_tabs())
}

/// Whether the owners that were reported are those there are.
spec fn names_owners(
    mirror: Map<Seq<char>, crate::schema::GeometryController>,
    controllers: Map<Seq<char>, u64>,
) -> bool {
    forall|t: Seq<char>| #[trigger]
        mirror.contains_key(t) == controllers.contains_key(t) && (controllers.contains_key(t)
            ==> mirror[t].connection_id == Some(controllers[t]))
}

/// With the same offers and the same owner, the same attach answers.
proof fn lemma_same_authority(
    before: super::state::ServerModel,
    after: super::state::ServerModel,
    t: Seq<char>,
)
    requires
        before.app == after.app,
        before.candidates(t) == after.candidates(t),
        before.app.tab_of_terminal(t) is Some ==> before.controller(
            before.app.tab_of_terminal(t)->Some_0,
        ) == after.controller(before.app.tab_of_terminal(t)->Some_0),
    ensures
        before.query_authority(t) == after.query_authority(t),
{
}

/// Connections that offer the same offer the same together.
proof fn lemma_offers_together(
    before: super::state::ServerModel,
    after: super::state::ServerModel,
    t: Seq<char>,
)
    requires
        before.control_connections.len() == after.control_connections.len(),
        forall|j: int|
            0 <= j < before.control_connections.len() ==> (
            #[trigger] after.control_connections[j]).candidates(t)
                == before.control_connections[j].candidates(t),
    ensures
        before.candidates(t) == after.candidates(t),
{
    let n = before.control_connections.len() as int;
    super::answering::lemma_same_candidates(
        before.control_connections,
        after.control_connections,
        t,
        n,
    );
    assert(before.control_connections.take(n) =~= before.control_connections);
    assert(after.control_connections.take(n) =~= after.control_connections);
}

/// What is not derived decides who answers.
proof fn lemma_authority_from_bare(
    before: super::state::ServerModel,
    after: super::state::ServerModel,
    t: Seq<char>,
)
    requires
        before.bare() == after.bare(),
    ensures
        before.query_authority(t) == after.query_authority(t),
{
    super::soundness::lemma_bare_connections(before, after);
    assert forall|j: int| 0 <= j < before.control_connections.len() implies (
    #[trigger] after.control_connections[j]).candidates(t)
        == before.control_connections[j].candidates(t) by {
        super::answering::lemma_offers_from_bare(
            after.control_connections[j],
            before.control_connections[j],
            t,
        );
    }
    lemma_offers_together(before, after, t);
    assert(before.app == before.bare().app && after.app == after.bare().app);
    assert(before.tab_geometry_controllers == before.bare().tab_geometry_controllers);
    assert(after.tab_geometry_controllers == after.bare().tab_geometry_controllers);
    lemma_same_authority(before, after, t);
}

/// A terminal that lost no attach, whose offers and owner are as they were, is
/// as settled as it was.
proof fn lemma_kept(
    before: super::state::ServerModel,
    after: super::state::ServerModel,
    t: Seq<char>,
)
    requires
        settled(before, t),
        before.query_authority(t) == after.query_authority(t),
        before.control_connections.len() == after.control_connections.len(),
        forall|j: int, k: int|
            0 <= j < after.control_connections.len() && 0 <= k
                < after.control_connections[j].attaches.len() && (
            #[trigger] after.control_connections[j].attaches[k]).terminal_id == t
                ==> before.control_connections[j].attaches.contains(
                after.control_connections[j].attaches[k],
            ),
    ensures
        settled(after, t),
{
    assert forall|i: int, k: int|
        0 <= i < after.control_connections.len() && 0 <= k
            < after.control_connections[i].attaches.len() && (
        #[trigger] after.control_connections[i].attaches[k]).terminal_id
            == t implies after.control_connections[i].attaches[k].answers_queries == (
    after.query_authority(t) == Some(after.control_connections[i].attaches[k].attach_id)) by {
        let a = after.control_connections[i].attaches[k];
        let attaches = before.control_connections[i].attaches;
        assert(attaches.contains(a));
        let m = choose|m: int| 0 <= m < attaches.len() && attaches[m] == a;
        assert(before.control_connections[i].attaches[m].terminal_id == t);
    }
}

/// Picking a terminal's answering attach settles it, and unsettles no other.
proof fn lemma_pick_settles(server: super::state::ServerModel, u: Seq<char>, t: Seq<char>)
    requires
        t == u || settled(server, t),
    ensures
        settled(server.synced_query_authority(u), t),
{
    let after = server.synced_query_authority(u);
    let chosen = server.query_authority(u);
    super::soundness::lemma_query_sync_bare(server, u);
    lemma_authority_from_bare(server, after, t);
    assert forall|i: int, k: int|
        0 <= i < after.control_connections.len() && 0 <= k
            < after.control_connections[i].attaches.len() && (
        #[trigger] after.control_connections[i].attaches[k]).terminal_id
            == t implies after.control_connections[i].attaches[k].answers_queries == (
    after.query_authority(t) == Some(after.control_connections[i].attaches[k].attach_id)) by {
        let a = server.control_connections[i].attaches[k];
        assert(after.control_connections[i].attaches[k] == super::authority::told_attach(
            a,
            u,
            chosen,
        ));
        assert(a.terminal_id == t);
    }
}

proof fn lemma_picks_settle(
    server: super::state::ServerModel,
    terminals: Seq<Seq<char>>,
    t: Seq<char>,
)
    requires
        terminals.contains(t) || settled(server, t),
    ensures
        settled(server.synced_query_authorities(terminals), t),
    decreases terminals.len(),
{
    if terminals.len() > 0 {
        let rest = terminals.drop_last();
        if t != terminals.last() {
            if terminals.contains(t) {
                let k = choose|k: int| 0 <= k < terminals.len() && terminals[k] == t;
                assert(rest[k] == t);
            }
            lemma_picks_settle(server, rest, t);
        }
        lemma_pick_settles(server.synced_query_authorities(rest), terminals.last(), t);
    }
}

/// Bringing derived state up to date settles the terminals of tabs that changed
/// hands, and unsettles none.
proof fn lemma_sync_settles(server: super::state::ServerModel, t: Seq<char>)
    requires
        settled(server, t) || pending(server, t),
    ensures
        settled(server.synced_control_geometry_tabs(), t),
{
    let mirrored = server.mirrored();
    let claims = mirrored.with_input_claims();
    let terminals = server.terminals_changing_hands();
    assert(claims.bare() == server.bare()) by {
        super::laws::lemma_input_claims_bare(mirrored);
        assert(mirrored.bare().control_connections =~= server.bare().control_connections);
    }
    lemma_authority_from_bare(server, claims, t);
    assert forall|j: int| 0 <= j < server.control_connections.len() implies (
    #[trigger] claims.control_connections[j]).attaches == server.control_connections[j].attaches by {}
    if settled(server, t) {
        assert forall|j: int, k: int|
            0 <= j < claims.control_connections.len() && 0 <= k
                < claims.control_connections[j].attaches.len() && (
            #[trigger] claims.control_connections[j].attaches[k]).terminal_id
                == t implies server.control_connections[j].attaches.contains(
            claims.control_connections[j].attaches[k],
        ) by {
            assert(claims.control_connections[j].attaches
                == server.control_connections[j].attaches);
        }
        lemma_kept(server, claims, t);
    } else {
        let (i, k) = choose|i: int, k: int|
            0 <= i < server.control_connections.len() && 0 <= k
                < server.control_connections[i].attaches.len() && (
            #[trigger] server.control_connections[i].attaches[k]).terminal_id == t;
        let c = server.control_connections[i];
        let step = |c: super::state::ConnectionModel| c.attached_terminals();
        assert(c.attached_terminals()[k] == t);
        assert(step(c).contains(t));
        crate::find::lemma_flat_map_contains(server.control_connections, step, i, t);
        let all = server.attached_terminals();
        let m = choose|m: int| 0 <= m < all.len() && all[m] == t;
        let shown = |u: Seq<char>| server.shown_in(u, server.changed_tabs());
        all.lemma_filter_contains(shown, m);
        crate::find::lemma_distinct(all.filter(shown));
        assert(terminals.contains(t));
    }
    lemma_picks_settle(claims, terminals, t);
}

/// Where only owners and stored sizes changed since the owners were reported, a
/// settled terminal is still settled, or its tab is known to have changed hands.
proof fn lemma_new_owners(
    before: super::state::ServerModel,
    after: super::state::ServerModel,
    t: Seq<char>,
)
    requires
        settled(before, t),
        names_owners(before.control_tab_geometry_controllers, before.tab_geometry_controllers),
        after.app == before.app,
        after.control_tab_geometry_controllers == before.control_tab_geometry_controllers,
        after.control_connections.len() == before.control_connections.len(),
        forall|j: int|
            0 <= j < before.control_connections.len() ==> (
            #[trigger] after.control_connections[j]).attaches
                == before.control_connections[j].attaches
                && after.control_connections[j].connection_id
                == before.control_connections[j].connection_id
                && after.control_connections[j].protocol == before.control_connections[j].protocol,
    ensures
        settled(after, t) || pending(after, t),
{
    assert forall|j: int| 0 <= j < before.control_connections.len() implies (
    #[trigger] after.control_connections[j]).candidates(t)
        == before.control_connections[j].candidates(t) by {
        assert(after.control_connections[j].candidates(t)
            =~= before.control_connections[j].candidates(t));
    }
    lemma_offers_together(before, after, t);
    let same = match before.app.tab_of_terminal(t) {
        Some(tab) => before.controller(tab) == after.controller(tab),
        None => true,
    };
    if same {
        lemma_same_authority(before, after, t);
        assert forall|j: int, k: int|
            0 <= j < after.control_connections.len() && 0 <= k
                < after.control_connections[j].attaches.len() && (
            #[trigger] after.control_connections[j].attaches[k]).terminal_id
                == t implies before.control_connections[j].attaches.contains(
            after.control_connections[j].attaches[k],
        ) by {
            assert(after.control_connections[j].attaches
                == before.control_connections[j].attaches);
        }
        lemma_kept(before, after, t);
    } else {
        let tab = before.app.tab_of_terminal(t)->Some_0;
        let mirror = before.control_tab_geometry_controllers;
        assert(mirror.contains_key(tab) == before.tab_geometry_controllers.contains_key(tab));
        let told = super::geometry::lookup(after.reported_controllers(), tab);
        assert(after.controller(tab) is Some ==> told is Some && told->Some_0.connection_id
            == after.controller(tab));
        assert(after.changed_tabs().contains(tab));
    }
}

/// Up to date, what is reported names the owners.
proof fn lemma_current_names(server: super::state::ServerModel)
    requires
        super::laws::derived_is_current(server),
    ensures
        names_owners(server.control_tab_geometry_controllers, server.tab_geometry_controllers),
{
    let mirror = server.control_tab_geometry_controllers;
    assert forall|t: Seq<char>| #[trigger]
        mirror.contains_key(t) == server.tab_geometry_controllers.contains_key(t) && (
        server.tab_geometry_controllers.contains_key(t) ==> mirror[t].connection_id == Some(
            server.tab_geometry_controllers[t],
        )) by {}
}

/// Taking attaches away that are not among those wanted leaves the wanted.
proof fn lemma_filter_filter(
    attaches: Seq<super::state::AttachModel>,
    stays: spec_fn(super::state::AttachModel) -> bool,
    wanted: spec_fn(super::state::AttachModel) -> bool,
)
    requires
        forall|k: int| 0 <= k < attaches.len() && wanted(#[trigger] attaches[k]) ==> stays(attaches[k]),
    ensures
        attaches.filter(stays).filter(wanted) == attaches.filter(wanted),
    decreases attaches.len(),
{
    if attaches.len() > 0 {
        let rest = attaches.drop_last();
        let last = attaches.last();
        assert forall|k: int| 0 <= k < rest.len() && wanted(#[trigger] rest[k]) implies stays(
            rest[k],
        ) by {
            assert(attaches[k] == rest[k]);
        }
        lemma_filter_filter(rest, stays, wanted);
        assert(attaches =~= rest.push(last));
        assert(attaches[attaches.len() - 1] == last);
        rest.lemma_filter_push(last, stays);
        rest.lemma_filter_push(last, wanted);
        if stays(last) {
            rest.filter(stays).lemma_filter_push(last, wanted);
        }
    } else {
        assert(attaches.filter(stays) =~= attaches);
    }
}

/// A connection that loses no attach on a terminal offers there what it did.
proof fn lemma_offers_without(
    c: super::state::ConnectionModel,
    gone: spec_fn(super::state::AttachModel) -> bool,
    t: Seq<char>,
)
    requires
        forall|k: int|
            0 <= k < c.attaches.len() && (#[trigger] c.attaches[k]).terminal_id == t ==> !gone(
                c.attaches[k],
            ),
    ensures
        c.without(gone).candidates(t) == c.candidates(t),
{
    let stays = |a: super::state::AttachModel| !gone(a);
    let wanted = |a: super::state::AttachModel| super::state::ConnectionModel::offers(a, t);
    lemma_filter_filter(c.attaches, stays, wanted);
    assert(c.without(gone).candidates(t) =~= c.candidates(t));
}

/// Attaches that a connection is left with were there before.
proof fn lemma_left_were_there(
    c: super::state::ConnectionModel,
    gone: spec_fn(super::state::AttachModel) -> bool,
    k: int,
)
    requires
        0 <= k < c.without(gone).attaches.len(),
    ensures
        c.attaches.contains(c.without(gone).attaches[k]),
{
    let stays = |a: super::state::AttachModel| !gone(a);
    c.attaches.lemma_filter_pred(stays, k);
    crate::find::lemma_filter_origin(c.attaches, stays, k);
}

/// A terminal that loses no attach of a connection is as settled as it was.
proof fn lemma_less_one(
    server: super::state::ServerModel,
    i: int,
    gone: spec_fn(super::state::AttachModel) -> bool,
    t: Seq<char>,
)
    requires
        0 <= i < server.control_connections.len(),
        settled(server, t),
        forall|k: int|
            0 <= k < server.control_connections[i].attaches.len() && (
            #[trigger] server.control_connections[i].attaches[k]).terminal_id == t ==> !gone(
                server.control_connections[i].attaches[k],
            ),
    ensures
        settled(server.with_connection(i, server.control_connections[i].without(gone)), t),
{
    let c = server.control_connections[i];
    let after = server.with_connection(i, c.without(gone));
    lemma_offers_without(c, gone, t);
    lemma_offers_together(server, after, t);
    lemma_same_authority(server, after, t);
    assert forall|j: int, k: int|
        0 <= j < after.control_connections.len() && 0 <= k
            < after.control_connections[j].attaches.len() && (
        #[trigger] after.control_connections[j].attaches[k]).terminal_id
            == t implies server.control_connections[j].attaches.contains(
        after.control_connections[j].attaches[k],
    ) by {
        if j == i {
            lemma_left_were_there(c, gone, k);
        } else {
            assert(after.control_connections[j] == server.control_connections[j]);
        }
    }
    lemma_kept(server, after, t);
}

/// The same attaches, offers and owners are as settled.
proof fn lemma_same_settled(
    before: super::state::ServerModel,
    after: super::state::ServerModel,
    t: Seq<char>,
)
    requires
        settled(before, t),
        after.app == before.app,
        after.control_connections == before.control_connections,
        after.tab_geometry_controllers == before.tab_geometry_controllers,
    ensures
        settled(after, t),
{
    lemma_same_authority(before, after, t);
    lemma_kept(before, after, t);
}

/// Whether derived state is up to date and every running terminal settled.
pub open spec fn calm(server: super::state::ServerModel) -> bool {
    super::laws::derived_is_current(server) && all_settled(server)
}

/// Changes that touch neither attaches nor owners nor anything derived keep the
/// calm.
proof fn lemma_still_calm(
    before: super::state::ServerModel,
    after: super::state::ServerModel,
)
    requires
        calm(before),
        after.app == before.app,
        after.control_connections == before.control_connections,
        after.tab_geometry_controllers == before.tab_geometry_controllers,
        after.control_geometry_tabs == before.control_geometry_tabs,
        after.control_chromeless_tabs == before.control_chromeless_tabs,
        after.control_tab_geometry_controllers == before.control_tab_geometry_controllers,
    ensures
        calm(after),
{
    super::upkeep::lemma_current_same(before, after);
    assert forall|t: Seq<char>| after.app.running(t) implies #[trigger] settled(after, t) by {
        assert(settled(before, t));
        lemma_same_settled(before, after, t);
    }
}

/// Bringing derived state up to date brings the calm, where every terminal is
/// settled or its tab is known to have changed hands.
proof fn lemma_sync_calms(server: super::state::ServerModel)
    requires
        forall|t: Seq<char>|
            server.app.running(t) ==> #[trigger] settled(server, t) || pending(server, t),
    ensures
        calm(server.synced_control_geometry_tabs()),
        server.synced_control_geometry_tabs().app == server.app,
{
    let after = server.synced_control_geometry_tabs();
    super::laws::syncing_makes_derived_state_current(server);
    super::soundness::lemma_geometry_sync_bare(server);
    super::succession::lemma_bare_sizes(after, server);
    assert forall|t: Seq<char>| after.app.running(t) implies #[trigger] settled(after, t) by {
        assert(settled(server, t) || pending(server, t));
        lemma_sync_settles(server, t);
    }
}

proof fn lemma_pruned_calm(server: super::state::ServerModel, connection_id: u64)
    requires
        calm(server),
    ensures
        calm(server.pruned(connection_id)),
        server.pruned(connection_id).app == server.app,
{
    super::soundness::lemma_open_connection(server, connection_id);
    if let Some(i) = server.connection_index(connection_id) {
        let c = server.control_connections[i];
        let without = server.with_connection(i, c.without(server.gone()));
        if c.attaches.filter(server.gone()).len() > 0 {
            assert forall|t: Seq<char>| without.app.running(t) implies #[trigger] settled(
                without,
                t,
            ) || pending(without, t) by {
                assert(settled(server, t));
                lemma_less_one(server, i, server.gone(), t);
            }
            lemma_sync_calms(without);
        }
    }
}

/// Ending attaches on one terminal, and picking there anew, keeps the calm.
proof fn lemma_ended_calm(
    server: super::state::ServerModel,
    without: super::state::ServerModel,
    leavers: Seq<super::state::AttachModel>,
    reason: TerminalDetachReason,
    u: Seq<char>,
)
    requires
        without.app == server.app,
        forall|t: Seq<char>|
            server.app.running(t) && t != u ==> #[trigger] settled(without, t),
    ensures
        ({
            let after = without.released_attaches(leavers, reason).synced_query_authority(
                u,
            ).synced_control_geometry_tabs();
            &&& calm(after)
            &&& after.app == server.app
        }),
{
    let released = without.released_attaches(leavers, reason);
    super::release::lemma_released_attaches_frame(without, leavers, reason);
    let picked = released.synced_query_authority(u);
    assert(picked.app == server.app);
    assert forall|t: Seq<char>| picked.app.running(t) implies #[trigger] settled(picked, t)
        || pending(picked, t) by {
        if t != u {
            assert(settled(without, t));
            lemma_same_settled(without, released, t);
        }
        lemma_pick_settles(released, u, t);
    }
    lemma_sync_calms(picked);
}

proof fn lemma_detached_calm(
    server: super::state::ServerModel,
    id: Seq<char>,
    connection_id: u64,
    attach_id: Seq<char>,
)
    requires
        server.wf(),
        calm(server),
    ensures
        calm(server.detached_by(id, connection_id, attach_id).0),
{
    super::soundness::lemma_open_connection(server, connection_id);
    if let Some(i) = server.connection_index(connection_id) {
        let c = server.control_connections[i];
        let wanted = |a: super::state::AttachModel| a.attach_id == attach_id;
        crate::find::lemma_first_index(c.attaches, wanted);
        if let Some(attach) = c.attach(attach_id) {
            let m = c.attach_index(attach_id)->Some_0;
            let named = super::requests::named(attach_id);
            let without = server.with_connection(i, c.without(named));
            assert forall|t: Seq<char>|
                server.app.running(t) && t != attach.terminal_id implies #[trigger] settled(
                without,
                t,
            ) by {
                assert(settled(server, t));
                assert forall|k: int|
                    0 <= k < c.attaches.len() && (#[trigger] c.attaches[k]).terminal_id
                        == t implies !named(c.attaches[k]) by {
                    if named(c.attaches[k]) {
                        super::laws::attach_ids_are_unique(server, i, k, i, m);
                    }
                }
                lemma_less_one(server, i, named, t);
            }
            lemma_ended_calm(
                server,
                without,
                c.attaches.filter(named),
                TerminalDetachReason::Closed,
                attach.terminal_id,
            );
        }
    }
}

proof fn lemma_retired_calm(
    server: super::state::ServerModel,
    connection_id: u64,
    u: Seq<char>,
)
    requires
        calm(server),
    ensures
        calm(server.retired(connection_id, u)),
        server.retired(connection_id, u).app == server.app,
{
    super::soundness::lemma_open_connection(server, connection_id);
    if let Some(i) = server.connection_index(connection_id) {
        let c = server.control_connections[i];
        let here = super::attach::on_terminal(u);
        let without = server.with_connection(i, c.without(here));
        if c.protocol <= 1 && c.attaches.filter(here).len() > 0 {
            assert forall|t: Seq<char>| server.app.running(t) && t != u implies #[trigger] settled(
                without,
                t,
            ) by {
                assert(settled(server, t));
                lemma_less_one(server, i, here, t);
            }
            lemma_ended_calm(
                server,
                without,
                c.attaches.filter(here),
                TerminalDetachReason::Takeover,
                u,
            );
        }
    }
}

proof fn lemma_evicted_calm(
    server: super::state::ServerModel,
    u: Seq<char>,
    reason: TerminalDetachReason,
    scope: EvictScope,
)
    requires
        calm(server),
    ensures
        calm(server.evicted(u, reason, scope)),
        server.evicted(u, reason, scope).app == server.app,
{
    let without = server.with_connections(
        server.control_connections.map_values(
            |c: super::state::ConnectionModel| c.without(c.evictees(u, scope)),
        ),
    );
    let leavers = server.control_connections.flat_map(
        |c: super::state::ConnectionModel| c.attaches.filter(c.evictees(u, scope)),
    );
    assert forall|t: Seq<char>| server.app.running(t) && t != u implies #[trigger] settled(
        without,
        t,
    ) by {
        assert(settled(server, t));
        assert forall|j: int| 0 <= j < server.control_connections.len() implies (
        #[trigger] without.control_connections[j]).candidates(t)
            == server.control_connections[j].candidates(t) by {
            let c = server.control_connections[j];
            lemma_offers_without(c, c.evictees(u, scope), t);
        }
        lemma_offers_together(server, without, t);
        lemma_same_authority(server, without, t);
        assert forall|j: int, k: int|
            0 <= j < without.control_connections.len() && 0 <= k
                < without.control_connections[j].attaches.len() && (
            #[trigger] without.control_connections[j].attaches[k]).terminal_id
                == t implies server.control_connections[j].attaches.contains(
            without.control_connections[j].attaches[k],
        ) by {
            let c = server.control_connections[j];
            assert(without.control_connections[j] == c.without(c.evictees(u, scope)));
            lemma_left_were_there(c, c.evictees(u, scope), k);
        }
        lemma_kept(server, without, t);
    }
    lemma_ended_calm(server, without, leavers, reason, u);
}

proof fn lemma_taken_over_calm(
    server: super::state::ServerModel,
    u: Seq<char>,
    geometry: TerminalAttachGeometry,
)
    requires
        calm(server),
    ensures
        calm(server.taken_over(u, geometry)),
        server.taken_over(u, geometry).app == server.app,
{
    let alone = server.without_direct_owner(u);
    lemma_still_calm(server, alone);
    lemma_evicted_calm(
        alone,
        u,
        TerminalDetachReason::Takeover,
        if geometry == TerminalAttachGeometry::Terminal {
            EvictScope::All
        } else {
            EvictScope::TabFollowerTakeover
        },
    );
}

proof fn lemma_joined_calm(
    server: super::state::ServerModel,
    id: Seq<char>,
    connection_id: u64,
    u: Seq<char>,
    pane_id: Option<Seq<char>>,
    params: TerminalAttachParams,
)
    requires
        calm(server),
    ensures
        calm(server.joined(id, connection_id, u, pane_id, params).0),
{
    super::soundness::lemma_open_connection(server, connection_id);
    if let Some(i) = server.connection_index(connection_id) {
        let c = server.control_connections[i];
        let attach = c.next(server.next_attach_order, u, params);
        let numbered = super::state::ConnectionModel {
            next_attach: (c.next_attach + 1) as u64,
            ..c
        };
        let drawn = server.drawn(u, params.geometry);
        if server.app.running(u) {
            let grown = super::state::ConnectionModel {
                attaches: c.attaches.push(attach),
                handle: c.handle.registered(attach.attach_id),
                ..numbered
            };
            let listed = drawn.with_connection(i, grown).with_effects(
                server.attach_effects(id, c, u, pane_id, params),
            );
            let picked = listed.synced_query_authority(u);
            assert forall|t: Seq<char>| picked.app.running(t) implies #[trigger] settled(picked, t)
                || pending(picked, t) by {
                if t != u {
                    assert(settled(server, t));
                    super::answering::lemma_one_more_offer(c, attach, t);
                    let more = super::state::ConnectionModel {
                        attaches: c.attaches.push(attach),
                        ..c
                    };
                    assert(grown.candidates(t) =~= more.candidates(t));
                    lemma_offers_together(server, listed, t);
                    lemma_same_authority(server, listed, t);
                    assert forall|j: int, k: int|
                        0 <= j < listed.control_connections.len() && 0 <= k
                            < listed.control_connections[j].attaches.len() && (
                        #[trigger] listed.control_connections[j].attaches[k]).terminal_id
                            == t implies server.control_connections[j].attaches.contains(
                        listed.control_connections[j].attaches[k],
                    ) by {
                        if j == i {
                            if k < c.attaches.len() {
                                assert(grown.attaches[k] == c.attaches[k]);
                            } else {
                                assert(grown.attaches[k] == attach);
                            }
                        } else {
                            assert(listed.control_connections[j] == server.control_connections[j]);
                        }
                    }
                    lemma_kept(server, listed, t);
                }
                lemma_pick_settles(listed, u, t);
            }
            lemma_sync_calms(picked);
        } else {
            let after = drawn.with_connection(i, numbered);
            lemma_renumbered_calm(server, after, i, numbered.next_attach);
        }
    }
}

/// Numbering a connection's attaches on keeps the calm.
proof fn lemma_renumbered_calm(
    before: super::state::ServerModel,
    after: super::state::ServerModel,
    i: int,
    n: u64,
)
    requires
        calm(before),
        0 <= i < before.control_connections.len(),
        after.app == before.app,
        after.tab_geometry_controllers == before.tab_geometry_controllers,
        after.control_geometry_tabs == before.control_geometry_tabs,
        after.control_chromeless_tabs == before.control_chromeless_tabs,
        after.control_tab_geometry_controllers == before.control_tab_geometry_controllers,
        after.control_connections == before.control_connections.update(
            i,
            super::state::ConnectionModel { next_attach: n, ..before.control_connections[i] },
        ),
    ensures
        calm(after),
{
    super::upkeep::lemma_current_same(before, after);
    lemma_current_names(before);
    assert forall|t: Seq<char>| after.app.running(t) implies #[trigger] settled(after, t) by {
        assert(settled(before, t));
        assert forall|j: int| 0 <= j < before.control_connections.len() implies (
        #[trigger] after.control_connections[j]).candidates(t)
            == before.control_connections[j].candidates(t) by {
            assert(after.control_connections[j].candidates(t)
                =~= before.control_connections[j].candidates(t));
        }
        lemma_offers_together(before, after, t);
        lemma_same_authority(before, after, t);
        assert forall|j: int, k: int|
            0 <= j < after.control_connections.len() && 0 <= k
                < after.control_connections[j].attaches.len() && (
            #[trigger] after.control_connections[j].attaches[k]).terminal_id
                == t implies before.control_connections[j].attaches.contains(
            after.control_connections[j].attaches[k],
        ) by {
            assert(after.control_connections[j].attaches
                == before.control_connections[j].attaches);
        }
        lemma_kept(before, after, t);
    }
}

proof fn lemma_attached_calm(
    server: super::state::ServerModel,
    id: Seq<char>,
    connection_id: u64,
    params: TerminalAttachParams,
    resolved: super::attach::TargetModel,
)
    requires
        calm(server),
    ensures
        calm(server.attached_by(id, connection_id, params, resolved).0),
{
    if let Ok((u, pane_id)) = server.attach_target(params.target@, resolved) {
        let retired = server.retired(connection_id, u);
        lemma_retired_calm(server, connection_id, u);
        lemma_taken_over_calm(retired, u, params.geometry);
        let cleared = if params.takeover {
            retired.taken_over(u, params.geometry)
        } else {
            retired
        };
        lemma_joined_calm(cleared, id, connection_id, u, pane_id, params);
    }
}

/// Storing a size, and then claiming its tab or not, keeps the calm.
proof fn lemma_stored_calm(
    server: super::state::ServerModel,
    i: int,
    tab_id: Seq<char>,
    geometry: super::state::ControlTabGeometry,
)
    requires
        calm(server),
        0 <= i < server.control_connections.len(),
        server.app.parse_tab_id(tab_id) is Some,
    ensures
        ({
            let c = server.control_connections[i];
            let stored = server.stamped().with_connection(i, c.with_tab(tab_id, geometry));
            &&& calm(stored.synced_control_geometry_tabs())
            &&& calm(stored.claimed(c.connection_id, tab_id, geometry))
        }),
{
    let c = server.control_connections[i];
    let stored = server.stamped().with_connection(i, c.with_tab(tab_id, geometry));
    lemma_current_names(server);
    assert forall|t: Seq<char>| stored.app.running(t) implies #[trigger] settled(stored, t)
        || pending(stored, t) by {
        assert(settled(server, t));
        lemma_new_owners(server, stored, t);
    }
    lemma_sync_calms(stored);
    let taken = stored.with_controller(tab_id, Some(c.connection_id));
    assert forall|t: Seq<char>| taken.app.running(t) implies #[trigger] settled(taken, t)
        || pending(taken, t) by {
        assert(settled(server, t));
        lemma_new_owners(server, taken, t);
    }
    lemma_sync_calms(taken);
    lemma_still_calm(
        taken.synced_control_geometry_tabs(),
        stored.claimed(c.connection_id, tab_id, geometry),
    );
}

/// Leaving out a part that adds nothing leaves the whole.
proof fn lemma_flat_map_without<A, B>(s: Seq<A>, f: spec_fn(A) -> Seq<B>, i: int)
    requires
        0 <= i < s.len(),
        f(s[i]).len() == 0,
    ensures
        s.remove(i).flat_map(f) == s.flat_map(f),
    decreases s.len(),
{
    let n = s.len() as int;
    s.lemma_flat_map_take_append(f, n - 1);
    assert(s.take(n) =~= s);
    assert(s.take(n - 1) =~= s.drop_last());
    if i == n - 1 {
        assert(s.remove(i) =~= s.drop_last());
        assert(s.flat_map(f) =~= s.drop_last().flat_map(f));
    } else {
        let rest = s.remove(i);
        rest.lemma_flat_map_take_append(f, n - 2);
        assert(rest.take(n - 1) =~= rest);
        assert(rest.take(n - 2) =~= s.drop_last().remove(i));
        assert(rest[n - 2] == s[n - 1]);
        lemma_flat_map_without(s.drop_last(), f, i);
    }
}

proof fn lemma_opened_calm(
    server: super::state::ServerModel,
    id: Seq<char>,
    stream: Option<u64>,
    client: Option<crate::schema::ClientModel>,
    after: super::state::ServerModel,
)
    requires
        calm(server),
        after == server.opened(id, stream, client).0,
        super::laws::derived_is_current(after),
    ensures
        calm(after),
{
    if stream == Some(0u64) {
        let n = server.control_connections.len() as int;
        assert forall|t: Seq<char>| after.app.running(t) implies #[trigger] settled(after, t) by {
            assert(settled(server, t));
            let offered = |c: super::state::ConnectionModel| c.candidates(t);
            let newest = after.control_connections[n];
            assert(newest.attaches.len() == 0);
            assert(newest.candidates(t).len() == 0);
            lemma_flat_map_without(after.control_connections, offered, n);
            assert(after.control_connections.remove(n) =~= server.control_connections);
            lemma_same_authority(server, after, t);
            assert forall|i: int, k: int|
                0 <= i < after.control_connections.len() && 0 <= k
                    < after.control_connections[i].attaches.len() && (
                #[trigger] after.control_connections[i].attaches[k]).terminal_id
                    == t implies after.control_connections[i].attaches[k].answers_queries == (
            after.query_authority(t) == Some(
                after.control_connections[i].attaches[k].attach_id,
            )) by {
                assert(i < n);
                assert(after.control_connections[i] == server.control_connections[i]);
                assert(server.control_connections[i].attaches[k].terminal_id == t);
            }
        }
    }
}

/// Whether a terminal is settled while a stream's tabs are handed over: it is,
/// and what is reported names the owners, or nothing was handed over yet and the
/// terminal's tab, if it was the stream's, is known to have changed hands.
spec fn underway(
    start: super::state::ServerModel,
    server: super::state::ServerModel,
    t: Seq<char>,
) -> bool {
    ||| server == start && (settled(start, t) || pending(start, t))
    ||| names_owners(server.control_tab_geometry_controllers, server.tab_geometry_controllers)
        && settled(server, t)
}

proof fn lemma_handed_over_underway(
    start: super::state::ServerModel,
    tabs: Seq<Seq<char>>,
    gone: u64,
    t: Seq<char>,
)
    requires
        settled(start, t) || pending(start, t),
        forall|k: int|
            0 <= k < tabs.len() ==> start.control_tab_geometry_controllers.contains_key(
                #[trigger] tabs[k],
            ) && start.control_tab_geometry_controllers[tabs[k]].connection_id == Some(gone),
        forall|i: int|
            0 <= i < start.control_connections.len() ==> (
            #[trigger] start.control_connections[i]).connection_id != gone,
    ensures
        underway(start, start.handed_over(tabs), t),
        start.handed_over(tabs).app == start.app,
    decreases tabs.len(),
{
    if tabs.len() > 0 {
        let rest = tabs.drop_last();
        let tab = tabs.last();
        assert forall|k: int| 0 <= k < rest.len() implies
            start.control_tab_geometry_controllers.contains_key(#[trigger] rest[k])
            && start.control_tab_geometry_controllers[rest[k]].connection_id == Some(gone) by {
            assert(rest[k] == tabs[k]);
        }
        lemma_handed_over_underway(start, rest, gone, t);
        let before = start.handed_over(rest);
        let after = start.handed_over(tabs);
        assert(after == before.handed_over_tab(tab));
        if let Some(i) = before.successor(tab) {
            assert(before.is_successor(tab, i));
            let heir = before.control_connections[i].connection_id;
            let taken = before.with_controller(tab, Some(heir));
            if before.app.parse_tab_id(tab) is Some {
                if names_owners(
                    before.control_tab_geometry_controllers,
                    before.tab_geometry_controllers,
                ) && settled(before, t) {
                    lemma_new_owners(before, taken, t);
                } else {
                    assert(tabs[tabs.len() - 1] == tab);
                    assert(before == start);
                    assert(heir != gone);
                    lemma_first_hand_over(start, tab, heir, gone, t);
                }
                lemma_sync_settles(taken, t);
                super::laws::syncing_makes_derived_state_current(taken);
                let synced = taken.synced_control_geometry_tabs();
                lemma_current_names(synced);
                super::soundness::lemma_geometry_sync_bare(taken);
                super::succession::lemma_bare_sizes(synced, taken);
                lemma_same_settled(synced, after, t);
            }
        }
    }
}

/// The first tab that is handed over is known to have changed hands, and so is
/// every other that was.
proof fn lemma_first_hand_over(
    start: super::state::ServerModel,
    tab: Seq<char>,
    heir: u64,
    gone: u64,
    t: Seq<char>,
)
    requires
        settled(start, t) || pending(start, t),
        start.control_tab_geometry_controllers.contains_key(tab),
        start.control_tab_geometry_controllers[tab].connection_id == Some(gone),
        heir != gone,
    ensures
        ({
            let taken = start.with_controller(tab, Some(heir));
            settled(taken, t) || pending(taken, t)
        }),
{
    let taken = start.with_controller(tab, Some(heir));
    assert(start.candidates(t) == taken.candidates(t));
    if start.app.tab_of_terminal(t) == Some(tab) {
        let told = super::geometry::lookup(taken.reported_controllers(), tab);
        assert(told is Some && told->Some_0.connection_id == Some(heir));
        assert(taken.changed_tabs().contains(tab));
    } else if settled(start, t) {
        lemma_same_authority(start, taken, t);
        lemma_kept(start, taken, t);
    } else {
        let other = start.app.tab_of_terminal(t)->Some_0;
        assert(super::geometry::lookup(taken.reported_controllers(), other)
            == super::geometry::lookup(start.reported_controllers(), other));
        assert(taken.changed_tabs().contains(other));
    }
}

/// A terminal without an attach of a stream that closes is settled, or its tab
/// was the stream's, once the stream is gone.
proof fn lemma_left_behind(
    server: super::state::ServerModel,
    i: int,
    disowned: super::state::ServerModel,
    t: Seq<char>,
)
    requires
        server.wf(),
        calm(server),
        server.app.running(t),
        0 <= i < server.control_connections.len(),
        disowned.app == server.app,
        disowned.control_connections == server.control_connections.remove(i),
        disowned.control_tab_geometry_controllers == server.control_tab_geometry_controllers,
        !server.control_connections[i].attached_terminals().contains(t),
    ensures
        settled(disowned, t) || pending(disowned, t),
{
    let c = server.control_connections[i];
    let offered = |c: super::state::ConnectionModel| c.candidates(t);
    let offers = |a: super::state::AttachModel| super::state::ConnectionModel::offers(a, t);
    assert(c.candidates(t).len() == 0) by {
        let kept = c.attaches.filter(offers);
        if kept.len() > 0 {
            c.attaches.lemma_filter_pred(offers, 0);
            crate::find::lemma_filter_origin(c.attaches, offers, 0);
            let k = choose|k: int| 0 <= k < c.attaches.len() && c.attaches[k] == kept[0];
            assert(c.attached_terminals()[k] == t);
        }
    }
    lemma_flat_map_without(server.control_connections, offered, i);
    let rest = server.with_connections(server.control_connections.remove(i));
    assert(rest.candidates(t) == server.candidates(t));
    lemma_same_authority(server, rest, t);
    assert(settled(server, t));
    assert forall|j: int, k: int|
        0 <= j < rest.control_connections.len() && 0 <= k
            < rest.control_connections[j].attaches.len() && (
        #[trigger] rest.control_connections[j].attaches[k]).terminal_id
            == t implies rest.control_connections[j].attaches[k].answers_queries == (
    rest.query_authority(t) == Some(rest.control_connections[j].attaches[k].attach_id)) by {
        let at = if j < i {
            j
        } else {
            j + 1
        };
        assert(rest.control_connections[j] == server.control_connections[at]);
        assert(server.control_connections[at].attaches[k].terminal_id == t);
    }
    lemma_current_names(server);
    lemma_new_owners(rest, disowned, t);
}

proof fn lemma_closed_calm(server: super::state::ServerModel, connection_id: u64)
    requires
        server.wf(),
        calm(server),
    ensures
        calm(server.released_connection(connection_id)),
{
    super::soundness::lemma_open_connection(server, connection_id);
    if let Some(i) = server.connection_index(connection_id) {
        let c = server.control_connections[i];
        let rest = server.with_connections(server.control_connections.remove(i));
        let released = rest.released_attaches(c.attaches, TerminalDetachReason::Closed);
        super::release::lemma_released_attaches_frame(
            rest,
            c.attaches,
            TerminalDetachReason::Closed,
        );
        let disowned = released.disowned(connection_id);
        let tabs = crate::find::ascending_members(server.owned_tabs(connection_id));
        let handed = disowned.handed_over(tabs);
        let synced = handed.synced_control_geometry_tabs();
        let terminals = crate::find::distinct(c.attached_terminals());
        let picked = synced.synced_query_authorities(terminals);
        let after = server.released_connection(connection_id);
        crate::find::lemma_distinct(c.attached_terminals());
        lemma_current_names(server);
        assert(server.owned_tabs(connection_id) =~= server.tab_geometry_controllers.dom().filter(
            |t: Seq<char>| server.tab_geometry_controllers[t] == connection_id,
        ));
        crate::find::lemma_ascending_members_exist(server.owned_tabs(connection_id));
        assert forall|k: int| 0 <= k < tabs.len() implies
            disowned.control_tab_geometry_controllers.contains_key(#[trigger] tabs[k])
            && disowned.control_tab_geometry_controllers[tabs[k]].connection_id == Some(
            connection_id,
        ) by {
            assert(tabs.contains(tabs[k]));
            assert(server.owned_tabs(connection_id).contains(tabs[k]));
            assert(server.control_tab_geometry_controllers.contains_key(tabs[k])
                == server.tab_geometry_controllers.contains_key(tabs[k]));
        }
        assert forall|j: int| 0 <= j < disowned.control_connections.len() implies (
        #[trigger] disowned.control_connections[j]).connection_id != connection_id by {
            let at = if j < i {
                j
            } else {
                j + 1
            };
            assert(disowned.control_connections[j] == server.control_connections[at]);
            super::soundness::lemma_connection_index(server, at);
        }
        super::laws::syncing_makes_derived_state_current(handed);
        super::laws::lemma_query_syncs_current(synced, terminals);
        super::succession::lemma_closed_sizes(server, connection_id);
        assert(picked.app == after.app);
        assert forall|t: Seq<char>| picked.app.running(t) implies #[trigger] settled(picked, t) by {
            if !terminals.contains(t) {
                lemma_left_behind(server, i, disowned, t);
                lemma_handed_over_underway(disowned, tabs, connection_id, t);
                assert(settled(handed, t) || pending(handed, t));
                lemma_sync_settles(handed, t);
            }
            lemma_picks_settle(synced, terminals, t);
        }
        lemma_still_calm(picked, after);
    }
}

/// Whatever requests come in, on every running terminal the attach that should
/// answer its queries knows that it does, and every other that it does not: who
/// answers is picked anew whenever an attach comes or goes, a stream closes or a
/// tab changes hands.
pub proof fn whoever_should_answer_does(
    server: super::state::ServerModel,
    id: Seq<char>,
    stream: Option<u64>,
    method: ControlMethod,
)
    requires
        server.wf(),
        server.has_room(stream, method),
        super::mirrors::mirrors_hold(server),
        all_settled(server),
    ensures
        all_settled(server.handled(id, stream, method).0),
{
    super::mirrors::derived_state_says_who_sizes_the_tabs(server);
    let after = server.handled(id, stream, method).0;
    super::upkeep::derived_state_stays_current(server, id, stream, method);
    if let Some(connection_id) = stream {
        super::soundness::lemma_open_connection(server, connection_id);
        lemma_pruned_calm(server, connection_id);
        super::preservation::lemma_pruned_wf(server, connection_id);
        super::succession::lemma_pruned_sizes(server, connection_id);
        let pruned = server.pruned(connection_id);
        match method {
            ControlMethod::ControlClose => {
                lemma_closed_calm(server, connection_id);
            },
            ControlMethod::TerminalAttach { params, resolved } => {
                lemma_attached_calm(pruned, id, connection_id, params, resolved@);
            },
            ControlMethod::TerminalDetach { params } => {
                lemma_detached_calm(pruned, id, connection_id, params.attach_id@);
            },
            ControlMethod::TerminalResize { params } => {
                lemma_still_calm(pruned, pruned.resized_by(id, connection_id, params).0);
            },
            ControlMethod::TabSetGeometry { params } => {
                if server.stream_refusal(stream) is None {
                    let i = pruned.connection_index(connection_id)->Some_0;
                    let c = pruned.control_connections[i];
                    let tab_id = params.tab_id@;
                    if params.cols > 0 && params.rows > 0 && pruned.app.parse_tab_id(
                        tab_id,
                    ) is Some {
                        assert(c.connection_id == connection_id);
                        lemma_stored_calm(
                            pruned,
                            i,
                            tab_id,
                            super::requests::stored_geometry(
                                c,
                                params,
                                pruned.next_activity_stamp,
                            ),
                        );
                    }
                }
            },
            ControlMethod::TabClaimGeometry { params } => {
                lemma_still_calm(pruned, pruned.stamped());
                if server.stream_refusal(stream) is None {
                    let i = pruned.connection_index(connection_id)->Some_0;
                    let c = pruned.control_connections[i];
                    if let Ok(tab_id) = pruned.claimed_tab(connection_id, params) {
                        if pruned.app.parse_tab_id(tab_id) is Some && c.holds_tab(tab_id) {
                            assert(c.connection_id == connection_id);
                            let geometry = super::state::ControlTabGeometry {
                                last_interaction: pruned.next_activity_stamp,
                                ..c.tab_geometry[tab_id]
                            };
                            lemma_stored_calm(pruned, i, tab_id, geometry);
                        }
                    }
                }
            },
            ControlMethod::ControlOpen { params } => {
                lemma_opened_calm(
                    server,
                    id,
                    stream,
                    crate::schema::client_view(params.client),
                    after,
                );
            },
            _ => {},
        }
    }
}

/// A fresh server has nothing to settle.
pub proof fn a_fresh_server_is_settled(
    client_shell_boot_id: Seq<char>,
    version: Seq<char>,
    protocol_version: u32,
    effective_size: (u16, u16),
)
    ensures
        all_settled(
            super::state::ServerModel::fresh(
                client_shell_boot_id,
                version,
                protocol_version,
                effective_size,
            ),
        ),
{
}

/// An attach that stops answering its terminal's queries is remembered to have
/// done so by now; one that starts has nothing to be remembered; any other keeps
/// what is remembered of it, and so do attaches on other terminals.
pub proof fn picks_are_remembered(
    server: super::state::ServerModel,
    terminal_id: Seq<char>,
    i: int,
    k: int,
)
    requires
        server.wf(),
        0 <= i < server.control_connections.len(),
        0 <= k < server.control_connections[i].attaches.len(),
    ensures
        ({
            let after = server.synced_query_authority(terminal_id);
            let attach = server.control_connections[i].attaches[k];
            let entry = server.control_connections[i].handle.inputs[attach.attach_id];
            let told = after.control_connections[i].handle.inputs[attach.attach_id];
            &&& after.control_connections[i].handle.inputs.contains_key(attach.attach_id)
            &&& attach.terminal_id == terminal_id ==> {
                &&& told.authority ==> told.lost_at is None
                &&& entry.authority && !told.authority ==> told.lost_at == Some(server.now)
                &&& !entry.authority && !told.authority ==> told.lost_at == entry.lost_at
                &&& told.authority == after.control_connections[i].attaches[k].answers_queries
            }
            &&& attach.terminal_id != terminal_id ==> told == entry
                && after.control_connections[i].attaches[k] == attach
        }),
{
    let c = server.control_connections[i];
    let attach = c.attaches[k];
    let chosen = server.query_authority(terminal_id);
    let after = server.synced_query_authority(terminal_id);
    assert(c.wf());
    assert(c.lists(attach.attach_id));
    assert(after.control_connections[i] == c.told(terminal_id, chosen, server.now));
    if super::authority::attached_to(c.attaches, terminal_id, attach.attach_id) {
        let m = choose|m: int|
            0 <= m < c.attaches.len() && (#[trigger] c.attaches[m]).terminal_id == terminal_id
                && c.attaches[m].attach_id == attach.attach_id;
        super::laws::attach_ids_are_unique(server, i, k, i, m);
    }
}

} // verus!
