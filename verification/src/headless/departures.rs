//! What ending an attach leaves to be done: its tap goes, and a terminal it
//! sized is sized by its tab again.

use vstd::prelude::*;

use super::dispatch::ControlMethod;
use super::state::EvictScope;
use crate::schema::{TerminalAttachGeometry, TerminalDetachReason};

verus! {

/// Whether an effect sizes the tab of a terminal anew: for the one that sizes
/// the tab, if one does, else for the only shell client.
pub open spec fn hands_back(
    server: super::state::ServerModel,
    terminal_id: Seq<char>,
    effect: super::state::EffectModel,
) -> bool {
    match (
        server.app.tab_target_for_terminal(terminal_id),
        server.app.tab_of_terminal(terminal_id),
    ) {
        (Some(target), Some(tab_id)) => if server.tab_geometry_controllers.contains_key(tab_id) {
            effect == super::state::EffectModel::RestoreShellTab {
                controller_id: server.tab_geometry_controllers[tab_id],
                target,
            }
        } else {
            effect == super::state::EffectModel::ResizeForOnlyShellClient
        },
        _ => effect == super::state::EffectModel::ResizeForOnlyShellClient,
    }
}

/// Whether an effect is one that hands a terminal back to its tab.
pub open spec fn is_hand_back(effect: super::state::EffectModel) -> bool {
    effect is RestoreShellTab || effect is ResizeForOnlyShellClient
}

/// The effect that ends an attach's tap.
pub open spec fn detach_of(
    attach: super::state::AttachModel,
    reason: TerminalDetachReason,
) -> super::state::EffectModel {
    super::state::EffectModel::DetachRaw {
        terminal_id: attach.terminal_id,
        attach_id: attach.attach_id,
        reason,
    }
}

/// Ending an attach on a running terminal ends its tap, for the reason given.
/// If the attach sized the terminal, one resize of the terminal's tab follows
/// and layouts may resize the terminal again; else nothing follows and every
/// lock stays.
pub proof fn ending_an_attach_hands_its_terminal_back(
    server: super::state::ServerModel,
    attach: super::state::AttachModel,
    reason: TerminalDetachReason,
)
    ensures
        ({
            let after = server.released_attach(attach, reason);
            let n = server.effects.len() as int;
            let taps: int = if server.app.running(attach.terminal_id) {
                1
            } else {
                0
            };
            let sizes = attach.geometry == TerminalAttachGeometry::Terminal;
            &&& server.effects.is_prefix_of(after.effects)
            &&& after.effects.len() == n + taps + (if sizes {
                1int
            } else {
                0
            })
            &&& taps == 1 ==> after.effects[n] == detach_of(attach, reason)
            &&& sizes ==> hands_back(server, attach.terminal_id, after.effects[n + taps])
            &&& sizes && server.app.registered(attach.terminal_id)
                ==> after.direct_attach_resize_locks == server.direct_attach_resize_locks.remove(
                attach.terminal_id,
            )
            &&& !sizes ==> after.direct_attach_resize_locks == server.direct_attach_resize_locks
        }),
{
}

/// What ending attaches one after another is to do at least for one of them.
pub proof fn lemma_each_released(
    server: super::state::ServerModel,
    attaches: Seq<super::state::AttachModel>,
    reason: TerminalDetachReason,
    m: int,
)
    requires
        0 <= m < attaches.len(),
    ensures
        ({
            let after = server.released_attaches(attaches, reason);
            let attach = attaches[m];
            let sizes = attach.geometry == TerminalAttachGeometry::Terminal;
            &&& server.app.running(attach.terminal_id) ==> exists|p: int|
                server.effects.len() <= p < after.effects.len() && #[trigger] after.effects[p]
                    == detach_of(attach, reason)
            &&& sizes ==> exists|p: int|
                server.effects.len() <= p < after.effects.len() && #[trigger] hands_back(
                    server,
                    attach.terminal_id,
                    after.effects[p],
                )
        }),
    decreases attaches.len(),
{
    let earlier = attaches.drop_last();
    let last = attaches.last();
    let rest = server.released_attaches(earlier, reason);
    let after = server.released_attaches(attaches, reason);
    let attach = attaches[m];
    super::release::lemma_released_attaches_frame(server, earlier, reason);
    super::upkeep::lemma_released_attaches_extends(server, earlier, reason);
    ending_an_attach_hands_its_terminal_back(rest, last, reason);
    if m == attaches.len() - 1 {
        let n = rest.effects.len() as int;
        let taps: int = if server.app.running(attach.terminal_id) {
            1
        } else {
            0
        };
        if server.app.running(attach.terminal_id) {
            assert(after.effects[n] == detach_of(attach, reason));
        }
        if attach.geometry == TerminalAttachGeometry::Terminal {
            assert(hands_back(server, attach.terminal_id, after.effects[n + taps]));
        }
    } else {
        assert(earlier[m] == attach);
        lemma_each_released(server, earlier, reason, m);
        if server.app.running(attach.terminal_id) {
            let p = choose|p: int|
                server.effects.len() <= p < rest.effects.len() && #[trigger] rest.effects[p]
                    == detach_of(attach, reason);
            assert(after.effects[p] == rest.effects[p]);
        }
        if attach.geometry == TerminalAttachGeometry::Terminal {
            let p = choose|p: int|
                server.effects.len() <= p < rest.effects.len() && #[trigger] hands_back(
                    server,
                    attach.terminal_id,
                    rest.effects[p],
                );
            assert(after.effects[p] == rest.effects[p]);
            assert(hands_back(server, attach.terminal_id, after.effects[p]));
        }
    }
}

/// Ending attaches ends the taps of those attaches, for the reason given, and
/// of no others; and hands back terminals only that they sized.
proof fn lemma_only_released(
    server: super::state::ServerModel,
    attaches: Seq<super::state::AttachModel>,
    reason: TerminalDetachReason,
    p: int,
)
    requires
        server.effects.len() <= p < server.released_attaches(attaches, reason).effects.len(),
    ensures
        ({
            let effect = server.released_attaches(attaches, reason).effects[p];
            ||| effect is DetachRaw && exists|m: int|
                0 <= m < attaches.len() && effect == detach_of(#[trigger] attaches[m], reason)
            ||| is_hand_back(effect) && exists|m: int|
                0 <= m < attaches.len() && (#[trigger] attaches[m]).geometry
                    == TerminalAttachGeometry::Terminal
        }),
    decreases attaches.len(),
{
    if attaches.len() > 0 {
        let earlier = attaches.drop_last();
        let last = attaches.last();
        let rest = server.released_attaches(earlier, reason);
        let after = server.released_attaches(attaches, reason);
        super::upkeep::lemma_released_attaches_extends(server, earlier, reason);
        ending_an_attach_hands_its_terminal_back(rest, last, reason);
        if p < rest.effects.len() {
            lemma_only_released(server, earlier, reason, p);
            assert(after.effects[p] == rest.effects[p]);
            let effect = after.effects[p];
            if effect is DetachRaw {
                let m = choose|m: int|
                    0 <= m < earlier.len() && effect == detach_of(#[trigger] earlier[m], reason);
                assert(attaches[m] == earlier[m]);
            } else {
                let m = choose|m: int|
                    0 <= m < earlier.len() && (#[trigger] earlier[m]).geometry
                        == TerminalAttachGeometry::Terminal;
                assert(attaches[m] == earlier[m]);
            }
        } else {
            assert(attaches[attaches.len() - 1] == last);
        }
    }
}

/// What is appended when answering attaches are picked.
pub proof fn lemma_query_syncs_effects(
    server: super::state::ServerModel,
    terminals: Seq<Seq<char>>,
    p: int,
)
    requires
        server.effects.len() <= p < server.synced_query_authorities(terminals).effects.len(),
    ensures
        server.synced_query_authorities(terminals).effects[p] is SetRawQueryAuthority,
    decreases terminals.len(),
{
    if terminals.len() > 0 {
        let rest = server.synced_query_authorities(terminals.drop_last());
        let after = server.synced_query_authorities(terminals);
        super::upkeep::lemma_query_syncs_extends(server, terminals.drop_last());
        if p < rest.effects.len() {
            lemma_query_syncs_effects(server, terminals.drop_last(), p);
            assert(after.effects[p] == rest.effects[p]);
        }
    }
}

/// Bringing derived state up to date announces tabs that changed hands and
/// picks answering attaches; it does nothing else outside.
pub proof fn syncing_announces_and_picks(server: super::state::ServerModel, p: int)
    requires
        server.effects.len() <= p < server.synced_control_geometry_tabs().effects.len(),
    ensures
        ({
            let effect = server.synced_control_geometry_tabs().effects[p];
            effect is GeometryChanged || effect is SetRawQueryAuthority
        }),
{
    let mirrored = server.mirrored();
    let claims = mirrored.with_input_claims();
    let terminals = server.terminals_changing_hands();
    let after = server.synced_control_geometry_tabs();
    super::upkeep::lemma_query_syncs_extends(claims, terminals);
    if p < claims.effects.len() {
        assert(after.effects[p] == claims.effects[p]);
        assert(claims.effects == mirrored.effects);
    } else {
        lemma_query_syncs_effects(claims, terminals, p);
    }
}

/// What a request for the end of an attach comes to that is answered.
proof fn lemma_detach(
    server: super::state::ServerModel,
    id: Seq<char>,
    connection_id: u64,
    attach_id: Seq<char>,
) -> (found: (int, int))
    requires
        server.wf(),
        server.terminal_detached(id, Some(connection_id), attach_id).1
            == super::requests::done(id),
    ensures
        ({
            let (i, k) = found;
            let c = server.control_connections[i];
            let attach = c.attaches[k];
            let pruned = server.pruned(connection_id);
            let d = pruned.control_connections[i];
            let gone = super::requests::named(attach_id);
            let released = pruned.with_connection(i, d.without(gone)).released_attach(
                attach,
                TerminalDetachReason::Closed,
            );
            &&& 0 <= i < server.control_connections.len()
            &&& c.connection_id == connection_id
            &&& 0 <= k < c.attaches.len()
            &&& attach.attach_id == attach_id
            &&& server.app.running(attach.terminal_id)
            &&& server.terminal_detached(id, Some(connection_id), attach_id).0
                == released.synced_query_authority(
                attach.terminal_id,
            ).synced_control_geometry_tabs()
        }),
{
    let pruned = server.pruned(connection_id);
    super::succession::lemma_pruned_sizes(server, connection_id);
    super::preservation::lemma_pruned_wf(server, connection_id);
    super::soundness::lemma_open_connection(server, connection_id);
    let i = server.connection_index(connection_id)->Some_0;
    let c = server.control_connections[i];
    let d = pruned.control_connections[i];
    let gone = super::requests::named(attach_id);
    let wanted = |a: super::state::AttachModel| a.attach_id == attach_id;
    crate::find::lemma_first_index(d.attaches, wanted);
    let m = d.attach_index(attach_id)->Some_0;
    let attach = d.attaches[m];
    assert(pruned.control_connections[i].wf());
    assert forall|l: int| 0 <= l < d.attaches.len() implies (gone(#[trigger] d.attaches[l]) <==> l
        == m) by {
        if gone(d.attaches[l]) {
            super::preservation::lemma_attach_ids_unique(d, l, m);
        }
    }
    crate::find::lemma_single_filter(d.attaches, gone, m);
    let without = pruned.with_connection(i, d.without(gone));
    let leavers = d.attaches.filter(gone);
    assert(leavers == seq![attach]);
    assert(leavers.drop_last() =~= Seq::empty());
    assert(without.released_attaches(leavers.drop_last(), TerminalDetachReason::Closed)
        == without);
    assert(leavers.last() == attach);
    super::succession::lemma_named_attach(server, i, attach_id);
    let k = choose|k: int|
        0 <= k < c.attaches.len() && (#[trigger] c.attaches[k]).attach_id == attach_id
            && c.attaches[k].bare() == attach.bare();
    lemma_pruned_running(server, i, m);
    lemma_release_of_bare(without, c.attaches[k], attach);
    (i, k)
}

/// Ending an attach does not depend on whether it answered queries.
proof fn lemma_release_of_bare(
    server: super::state::ServerModel,
    left: super::state::AttachModel,
    right: super::state::AttachModel,
)
    requires
        left.bare() == right.bare(),
    ensures
        server.released_attach(left, TerminalDetachReason::Closed) == server.released_attach(
            right,
            TerminalDetachReason::Closed,
        ),
        left.terminal_id == right.terminal_id,
        left.geometry == right.geometry,
{
    assert(left.terminal_id == left.bare().terminal_id);
    assert(right.terminal_id == right.bare().terminal_id);
    assert(left.geometry == left.bare().geometry);
    assert(right.geometry == right.bare().geometry);
    assert(left.attach_id == left.bare().attach_id);
    assert(right.attach_id == right.bare().attach_id);
}

/// An attach that is left once those were forgotten whose terminal went away
/// is on a running terminal.
pub proof fn lemma_pruned_running(server: super::state::ServerModel, i: int, m: int)
    requires
        server.wf(),
        0 <= i < server.control_connections.len(),
        0 <= m < server.pruned(
            server.control_connections[i].connection_id,
        ).control_connections[i].attaches.len(),
    ensures
        server.app.running(
            server.pruned(
                server.control_connections[i].connection_id,
            ).control_connections[i].attaches[m].terminal_id,
        ),
{
    super::soundness::lemma_connection_index(server, i);
    let c = server.control_connections[i];
    let gone = server.gone();
    let pruned = server.pruned(c.connection_id);
    let stays = |a: super::state::AttachModel| !gone(a);
    if c.attaches.filter(gone).len() == 0 {
        if gone(c.attaches[m]) {
            c.attaches.lemma_filter_contains(gone, m);
        }
    } else {
        let without = server.with_connection(i, c.without(gone));
        super::soundness::lemma_geometry_sync_bare(without);
        super::soundness::lemma_bare_connections(pruned, without);
        super::soundness::lemma_bare_connection(pruned.control_connections[i], c.without(gone));
        assert(pruned.control_connections[i].attaches[m].bare()
            == c.without(gone).attaches[m].bare());
        c.attaches.lemma_filter_pred(stays, m);
        assert(stays(c.without(gone).attaches[m]));
    }
}

/// Whether what is left to be done for the end of the attach at `i`, `k` is, from
/// place `p` on, to end its tap and, if it sized the terminal, to size the
/// terminal's tab anew; and no other tap is ended or tab sized anew.
pub open spec fn ends_one_attach(
    server: super::state::ServerModel,
    after: super::state::ServerModel,
    connection_id: u64,
    attach_id: Seq<char>,
    i: int,
    k: int,
    p: int,
) -> bool {
    let c = server.control_connections[i];
    let attach = c.attaches[k];
    let sizes = attach.geometry == TerminalAttachGeometry::Terminal;
    &&& 0 <= i < server.control_connections.len()
    &&& c.connection_id == connection_id
    &&& 0 <= k < c.attaches.len()
    &&& attach.attach_id == attach_id
    &&& server.effects.len() <= p < after.effects.len()
    &&& after.effects[p] == detach_of(attach, TerminalDetachReason::Closed)
    &&& sizes ==> p + 1 < after.effects.len() && hands_back(
        server,
        attach.terminal_id,
        after.effects[p + 1],
    )
    &&& forall|q: int|
        server.effects.len() <= q < after.effects.len() && !(sizes && q == p + 1)
            ==> !is_hand_back(#[trigger] after.effects[q])
    &&& forall|q: int|
        server.effects.len() <= q < after.effects.len() && q != p ==> !((
        #[trigger] after.effects[q]) is DetachRaw)
}

/// Detaching an attach that sized its terminal ends its tap and then sizes the
/// terminal's tab anew, once: for the connection or client that sizes the tab,
/// else for the only shell client. Detaching one that followed its tab ends its
/// tap and sizes nothing. The detached attach is gone.
pub proof fn detaching_hands_the_terminal_back(
    server: super::state::ServerModel,
    id: Seq<char>,
    connection_id: u64,
    params: crate::schema::TerminalAttachTarget,
)
    requires
        server.wf(),
        server.handled(id, Some(connection_id), ControlMethod::TerminalDetach { params }).1
            == super::succession::done(id),
    ensures
        ({
            let after = server.handled(
                id,
                Some(connection_id),
                ControlMethod::TerminalDetach { params },
            ).0;
            exists|i: int, k: int, p: int| #[trigger]
                ends_one_attach(server, after, connection_id, params.attach_id@, i, k, p)
        }),
{
    let attach_id = params.attach_id@;
    let after = server.handled(
        id,
        Some(connection_id),
        ControlMethod::TerminalDetach { params },
    ).0;
    assert(after == server.terminal_detached(id, Some(connection_id), attach_id).0);
    let (i, k) = lemma_detach(server, id, connection_id, attach_id);
    let attach = server.control_connections[i].attaches[k];
    let pruned = server.pruned(connection_id);
    super::succession::lemma_pruned_sizes(server, connection_id);
    let d = pruned.control_connections[i];
    let without = pruned.with_connection(i, d.without(super::requests::named(attach_id)));
    ending_an_attach_hands_its_terminal_back(without, attach, TerminalDetachReason::Closed);
    let released = without.released_attach(attach, TerminalDetachReason::Closed);
    let picked = released.synced_query_authority(attach.terminal_id);
    let p = pruned.effects.len() as int;
    let sizes = attach.geometry == TerminalAttachGeometry::Terminal;
    super::upkeep::lemma_pruned_extends(server, connection_id);
    super::upkeep::lemma_geometry_sync_extends(picked);
    assert(super::upkeep::extends(picked, released));
    super::upkeep::lemma_extends_transitive(after, picked, released);
    assert(after.effects[p] == released.effects[p]);
    if sizes {
        assert(after.effects[p + 1] == released.effects[p + 1]);
        assert(hands_back(server, attach.terminal_id, released.effects[p + 1]));
    }
    assert forall|q: int| server.effects.len() <= q < after.effects.len() && q != p && !(sizes && q
        == p + 1) implies !is_hand_back(#[trigger] after.effects[q]) && !(
    after.effects[q] is DetachRaw) by {
        if q < p {
            lemma_pruned_effects(server, connection_id, q);
            assert(after.effects[q] == released.effects[q]);
            assert(released.effects[q] == pruned.effects[q]);
        } else if q < released.effects.len() {
        } else if q < picked.effects.len() {
            assert(after.effects[q] == picked.effects[q]);
        } else {
            syncing_announces_and_picks(picked, q);
        }
    }
    assert(ends_one_attach(server, after, connection_id, attach_id, i, k, p));
}

/// What is appended when attaches are forgotten whose terminal went away.
pub proof fn lemma_pruned_effects(
    server: super::state::ServerModel,
    connection_id: u64,
    q: int,
)
    requires
        server.effects.len() <= q < server.pruned(connection_id).effects.len(),
    ensures
        ({
            let effect = server.pruned(connection_id).effects[q];
            effect is GeometryChanged || effect is SetRawQueryAuthority
        }),
{
    let i = server.connection_index(connection_id)->Some_0;
    syncing_announces_and_picks(
        server.with_connection(i, server.control_connections[i].without(server.gone())),
        q,
    );
}

/// Closing a stream ends the tap of each of its attaches on a running terminal
/// and sizes the tab of each terminal it sized anew; at the end every tab is
/// sized anew for who remains, and the stream is reported closed.
pub proof fn closing_ends_every_attach(
    server: super::state::ServerModel,
    id: Seq<char>,
    connection_id: u64,
    i: int,
    k: int,
)
    requires
        server.wf(),
        0 <= i < server.control_connections.len(),
        server.control_connections[i].connection_id == connection_id,
        0 <= k < server.control_connections[i].attaches.len(),
    ensures
        ({
            let after = server.handled(id, Some(connection_id), ControlMethod::ControlClose).0;
            let answer = server.handled(id, Some(connection_id), ControlMethod::ControlClose).1;
            let attach = server.control_connections[i].attaches[k];
            let n = after.effects.len() as int;
            &&& answer == super::succession::done(id)
            &&& server.app.running(attach.terminal_id) ==> exists|p: int|
                server.effects.len() <= p < after.effects.len() && #[trigger] after.effects[p]
                    == detach_of(attach, TerminalDetachReason::Closed)
            &&& attach.geometry == TerminalAttachGeometry::Terminal ==> exists|p: int|
                server.effects.len() <= p < after.effects.len() && #[trigger] hands_back(
                    server,
                    attach.terminal_id,
                    after.effects[p],
                )
            &&& n >= server.effects.len() + 2
            &&& after.effects[n - 2] == super::state::EffectModel::RederiveShellGeometry
            &&& after.effects[n - 1] == super::state::EffectModel::StreamClosed { connection_id }
        }),
{
    super::soundness::lemma_connection_index(server, i);
    let c = server.control_connections[i];
    let attach = c.attaches[k];
    let after = server.handled(id, Some(connection_id), ControlMethod::ControlClose).0;
    assert(after == server.released_connection(connection_id));
    let without = server.with_connections(server.control_connections.remove(i));
    let released = without.released_attaches(c.attaches, TerminalDetachReason::Closed);
    let disowned = released.disowned(connection_id);
    lemma_each_released(without, c.attaches, TerminalDetachReason::Closed, k);
    super::upkeep::lemma_released_attaches_extends(
        without,
        c.attaches,
        TerminalDetachReason::Closed,
    );
    let tabs = crate::find::ascending_members(server.owned_tabs(connection_id));
    let handed = disowned.handed_over(tabs);
    super::upkeep::lemma_handed_over_extends(disowned, tabs);
    let synced = handed.synced_control_geometry_tabs();
    super::upkeep::lemma_geometry_sync_extends(handed);
    let terminals = crate::find::distinct(c.attached_terminals());
    let told = synced.synced_query_authorities(terminals);
    super::upkeep::lemma_query_syncs_extends(synced, terminals);
    super::upkeep::lemma_extends_transitive(synced, handed, disowned);
    super::upkeep::lemma_extends_transitive(told, synced, disowned);
    super::upkeep::lemma_extends_transitive(after, told, disowned);
    if server.app.running(attach.terminal_id) {
        let p = choose|p: int|
            without.effects.len() <= p < released.effects.len() && #[trigger] released.effects[p]
                == detach_of(attach, TerminalDetachReason::Closed);
        assert(after.effects[p] == released.effects[p]);
    }
    if attach.geometry == TerminalAttachGeometry::Terminal {
        let p = choose|p: int|
            without.effects.len() <= p < released.effects.len() && #[trigger] hands_back(
                without,
                attach.terminal_id,
                released.effects[p],
            );
        assert(after.effects[p] == released.effects[p]);
        assert(hands_back(server, attach.terminal_id, after.effects[p]));
    }
}

/// A takeover ends the taps of exactly the attaches that it evicts, for the
/// reason given: every attach on the terminal that a size owner takes over, and
/// of those that a follower takes over the size owners' and the protocol 1
/// streams'.
pub proof fn a_takeover_ends_the_taps_of_the_evicted(
    server: super::state::ServerModel,
    terminal_id: Seq<char>,
    reason: TerminalDetachReason,
    scope: EvictScope,
    i: int,
    k: int,
)
    requires
        server.app.running(terminal_id),
        0 <= i < server.control_connections.len(),
        0 <= k < server.control_connections[i].attaches.len(),
    ensures
        ({
            let c = server.control_connections[i];
            let attach = c.attaches[k];
            let after = server.evicted(terminal_id, reason, scope);
            let evicted = attach.terminal_id == terminal_id && (scope == EvictScope::All
                || attach.geometry == TerminalAttachGeometry::Terminal || c.protocol <= 1);
            &&& evicted ==> exists|p: int|
                server.effects.len() <= p < after.effects.len() && #[trigger] after.effects[p]
                    == detach_of(attach, reason)
            &&& evicted && attach.geometry == TerminalAttachGeometry::Terminal ==> exists|p: int|
                server.effects.len() <= p < after.effects.len() && #[trigger] hands_back(
                    server,
                    terminal_id,
                    after.effects[p],
                )
        }),
{
    let c = server.control_connections[i];
    let attach = c.attaches[k];
    let leaving = |c: super::state::ConnectionModel|
        c.attaches.filter(c.evictees(terminal_id, scope));
    let without = server.with_connections(
        server.control_connections.map_values(
            |c: super::state::ConnectionModel| c.without(c.evictees(terminal_id, scope)),
        ),
    );
    let leavers = server.control_connections.flat_map(leaving);
    let released = without.released_attaches(leavers, reason);
    let after = server.evicted(terminal_id, reason, scope);
    super::upkeep::lemma_released_attaches_extends(without, leavers, reason);
    let picked = released.synced_query_authority(terminal_id);
    super::upkeep::lemma_geometry_sync_extends(picked);
    assert(super::upkeep::extends(picked, released));
    super::upkeep::lemma_extends_transitive(after, picked, released);
    if c.evictees(terminal_id, scope)(attach) {
        c.attaches.lemma_filter_contains(c.evictees(terminal_id, scope), k);
        crate::find::lemma_flat_map_contains(server.control_connections, leaving, i, attach);
        let m = choose|m: int| 0 <= m < leavers.len() && leavers[m] == attach;
        lemma_each_released(without, leavers, reason, m);
        let p = choose|p: int|
            without.effects.len() <= p < released.effects.len() && #[trigger] released.effects[p]
                == detach_of(attach, reason);
        assert(after.effects[p] == released.effects[p]);
        if attach.geometry == TerminalAttachGeometry::Terminal {
            let q = choose|q: int|
                without.effects.len() <= q < released.effects.len() && #[trigger] hands_back(
                    without,
                    attach.terminal_id,
                    released.effects[q],
                );
            assert(after.effects[q] == released.effects[q]);
            assert(hands_back(server, terminal_id, after.effects[q]));
        }
    }
}

/// A takeover ends no tap of an attach that stays.
pub proof fn a_takeover_ends_no_other_tap(
    server: super::state::ServerModel,
    terminal_id: Seq<char>,
    reason: TerminalDetachReason,
    scope: EvictScope,
    p: int,
)
    requires
        server.effects.len() <= p < server.evicted(terminal_id, reason, scope).effects.len(),
        server.evicted(terminal_id, reason, scope).effects[p] is DetachRaw,
    ensures
        exists|i: int, k: int|
            {
                let c = server.control_connections[i];
                &&& 0 <= i < server.control_connections.len()
                &&& 0 <= k < c.attaches.len()
                &&& server.evicted(terminal_id, reason, scope).effects[p] == detach_of(
                    #[trigger] server.control_connections[i].attaches[k],
                    reason,
                )
                &&& c.attaches[k].terminal_id == terminal_id
                &&& scope == EvictScope::All || c.attaches[k].geometry
                    == TerminalAttachGeometry::Terminal || c.protocol <= 1
            },
{
    let leaving = |c: super::state::ConnectionModel|
        c.attaches.filter(c.evictees(terminal_id, scope));
    let without = server.with_connections(
        server.control_connections.map_values(
            |c: super::state::ConnectionModel| c.without(c.evictees(terminal_id, scope)),
        ),
    );
    let leavers = server.control_connections.flat_map(leaving);
    let released = without.released_attaches(leavers, reason);
    let after = server.evicted(terminal_id, reason, scope);
    let picked = released.synced_query_authority(terminal_id);
    super::upkeep::lemma_geometry_sync_extends(picked);
    assert(super::upkeep::extends(picked, released));
    super::upkeep::lemma_extends_transitive(after, picked, released);
    if p < released.effects.len() {
        assert(after.effects[p] == released.effects[p]);
        lemma_only_released(without, leavers, reason, p);
        let m = choose|m: int|
            0 <= m < leavers.len() && after.effects[p] == detach_of(#[trigger] leavers[m], reason);
        let i = crate::find::lemma_flat_map_origin(server.control_connections, leaving, leavers[m]);
        let c = server.control_connections[i];
        let gone = c.evictees(terminal_id, scope);
        let piece = leaving(c);
        let at = choose|at: int| 0 <= at < piece.len() && piece[at] == leavers[m];
        c.attaches.lemma_filter_pred(gone, at);
        crate::find::lemma_filter_origin(c.attaches, gone, at);
        let k = choose|k: int| 0 <= k < c.attaches.len() && c.attaches[k] == leavers[m];
        assert(after.effects[p] == detach_of(
            server.control_connections[i].attaches[k],
            reason,
        ));
    } else if p < picked.effects.len() {
        assert(after.effects[p] == picked.effects[p]);
    } else {
        syncing_announces_and_picks(picked, p);
    }
}

} // verus!
