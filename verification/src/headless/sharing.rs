//! What sharing a terminal promises: who joins, who has to leave, who stays.

use vstd::prelude::*;

use super::state::EvictScope;
use crate::schema::{
    ErrorCode, TerminalAttachGeometry, TerminalAttachParams, TerminalDetachReason,
};

verus! {

/// A takeover takes what its scope covers off the terminal, and nothing else
/// from any connection.
pub proof fn a_takeover_evicts_what_its_scope_covers(
    server: super::state::ServerModel,
    terminal_id: Seq<char>,
    reason: TerminalDetachReason,
    scope: EvictScope,
)
    ensures
        ({
            let after = server.evicted(terminal_id, reason, scope);
            &&& after.control_connections.len() == server.control_connections.len()
            &&& forall|i: int|
                0 <= i < server.control_connections.len() ==> (
                #[trigger] after.control_connections[i]).bare()
                    == server.control_connections[i].without(
                    server.control_connections[i].evictees(terminal_id, scope),
                ).bare()
        }),
{
    let connections = server.control_connections.map_values(
        |c: super::state::ConnectionModel| c.without(c.evictees(terminal_id, scope)),
    );
    let without = server.with_connections(connections);
    let leavers = server.control_connections.flat_map(
        |c: super::state::ConnectionModel| c.attaches.filter(c.evictees(terminal_id, scope)),
    );
    let released = without.released_attaches(leavers, reason);
    super::release::lemma_released_attaches_frame(without, leavers, reason);
    let synced = released.synced_query_authority(terminal_id);
    super::soundness::lemma_query_sync_bare(released, terminal_id);
    super::soundness::lemma_geometry_sync_bare(synced);
    let after = synced.synced_control_geometry_tabs();
    super::soundness::lemma_bare_connections(after, released);
    assert(after.control_connections.len() == connections.len());
    assert forall|i: int| 0 <= i < server.control_connections.len() implies (
    #[trigger] after.control_connections[i]).bare() == server.control_connections[i].without(
        server.control_connections[i].evictees(terminal_id, scope),
    ).bare() by {
        assert(released.control_connections[i] == connections[i]);
        assert(after.control_connections[i].bare() == released.control_connections[i].bare());
    }
}

/// What an attach is like that is still listed after a takeover.
proof fn lemma_survivor(
    server: super::state::ServerModel,
    terminal_id: Seq<char>,
    reason: TerminalDetachReason,
    scope: EvictScope,
    i: int,
    k: int,
)
    requires
        0 <= i < server.control_connections.len(),
        0 <= k < server.evicted(terminal_id, reason, scope).control_connections[i].attaches.len(),
    ensures
        ({
            let c = server.evicted(terminal_id, reason, scope).control_connections[i];
            c.attaches[k].terminal_id == terminal_id ==> !scope.covers(
                c.attaches[k].geometry,
                c.protocol,
            )
        }),
{
    a_takeover_evicts_what_its_scope_covers(server, terminal_id, reason, scope);
    let before = server.control_connections[i];
    let gone = before.evictees(terminal_id, scope);
    let stays = |a: super::state::AttachModel| !gone(a);
    let after = server.evicted(terminal_id, reason, scope).control_connections[i];
    super::soundness::lemma_bare_connection(after, before.without(gone));
    assert(after.attaches[k].bare() == before.without(gone).attaches[k].bare());
    before.attaches.lemma_filter_pred(stays, k);
    assert(stays(before.without(gone).attaches[k]));
}

/// A size owner that takes a terminal over is alone on it: no attach of any
/// connection is left there.
pub proof fn a_size_owner_takeover_clears_the_terminal(
    server: super::state::ServerModel,
    terminal_id: Seq<char>,
    reason: TerminalDetachReason,
    i: int,
    k: int,
)
    requires
        0 <= i < server.control_connections.len(),
        0 <= k < server.evicted(
            terminal_id,
            reason,
            EvictScope::All,
        ).control_connections[i].attaches.len(),
    ensures
        server.evicted(
            terminal_id,
            reason,
            EvictScope::All,
        ).control_connections[i].attaches[k].terminal_id != terminal_id,
{
    lemma_survivor(server, terminal_id, reason, EvictScope::All, i, k);
}

/// A follower that takes a terminal over leaves only followers of protocol 2
/// and later there: size owners go, and so do protocol 1 followers.
pub proof fn a_follower_takeover_leaves_shared_followers(
    server: super::state::ServerModel,
    terminal_id: Seq<char>,
    reason: TerminalDetachReason,
    i: int,
    k: int,
)
    requires
        0 <= i < server.control_connections.len(),
        0 <= k < server.evicted(
            terminal_id,
            reason,
            EvictScope::TabFollowerTakeover,
        ).control_connections[i].attaches.len(),
    ensures
        ({
            let c = server.evicted(
                terminal_id,
                reason,
                EvictScope::TabFollowerTakeover,
            ).control_connections[i];
            c.attaches[k].terminal_id == terminal_id ==> c.protocol > 1 && c.attaches[k].geometry
                == TerminalAttachGeometry::Tab
        }),
{
    lemma_survivor(server, terminal_id, reason, EvictScope::TabFollowerTakeover, i, k);
}

/// A follower's takeover keeps every follower of protocol 2 and later: it is
/// still listed afterwards.
pub proof fn a_follower_takeover_keeps_shared_followers(
    server: super::state::ServerModel,
    terminal_id: Seq<char>,
    reason: TerminalDetachReason,
    i: int,
    k: int,
)
    requires
        0 <= i < server.control_connections.len(),
        0 <= k < server.control_connections[i].attaches.len(),
        server.control_connections[i].protocol > 1,
        server.control_connections[i].attaches[k].geometry == TerminalAttachGeometry::Tab,
    ensures
        server.evicted(
            terminal_id,
            reason,
            EvictScope::TabFollowerTakeover,
        ).control_connections[i].lists(server.control_connections[i].attaches[k].attach_id),
{
    let scope = EvictScope::TabFollowerTakeover;
    a_takeover_evicts_what_its_scope_covers(server, terminal_id, reason, scope);
    let before = server.control_connections[i];
    let gone = before.evictees(terminal_id, scope);
    let stays = |a: super::state::AttachModel| !gone(a);
    let kept = before.without(gone);
    let after = server.evicted(terminal_id, reason, scope).control_connections[i];
    assert(stays(before.attaches[k]));
    before.attaches.lemma_filter_contains(stays, k);
    let m = choose|m: int| 0 <= m < kept.attaches.len() && kept.attaches[m] == before.attaches[k];
    super::soundness::lemma_bare_connection(after, kept);
    assert(after.attaches[m].bare() == kept.attaches[m].bare());
    assert(after.attaches[m].attach_id == before.attaches[k].attach_id);
}

/// A request that is refused because of who holds the terminal, because the
/// terminal is busy, or because its target is ambiguous, changes nothing: in
/// particular a protocol 1 stream keeps the attach it has.
pub proof fn a_refused_attach_changes_nothing(
    server: super::state::ServerModel,
    id: Seq<char>,
    stream: Option<u64>,
    params: TerminalAttachParams,
    resolved: super::attach::TargetModel,
    code: ErrorCode,
    message: Seq<char>,
)
    requires
        server.terminal_attached(id, stream, params, resolved).1 == crate::schema::failure(
            id,
            code,
            message,
        ),
        code == ErrorCode::TerminalAttached || code == ErrorCode::TerminalBusy || code
            == ErrorCode::AmbiguousTarget,
    ensures
        server.terminal_attached(id, stream, params, resolved).0 == server.looked_at(stream),
{
}

/// What giving a connection its attach does to the connections: one more
/// attach on that one, nothing on the others.
pub proof fn lemma_joined_bare(
    server: super::state::ServerModel,
    id: Seq<char>,
    connection_id: u64,
    terminal_id: Seq<char>,
    pane_id: Option<Seq<char>>,
    params: TerminalAttachParams,
)
    requires
        server.connection_index(connection_id) is Some,
        server.app.running(terminal_id),
    ensures
        ({
            let i = server.connection_index(connection_id)->Some_0;
            let c = server.control_connections[i];
            let after = server.joined(id, connection_id, terminal_id, pane_id, params).0;
            &&& after.control_connections.len() == server.control_connections.len()
            &&& forall|j: int|
                0 <= j < server.control_connections.len() && j != i ==> (
                #[trigger] after.control_connections[j]).bare()
                    == server.control_connections[j].bare()
            &&& after.control_connections[i].bare().attaches == c.bare().attaches.push(
                c.next(server.next_attach_order, terminal_id, params),
            )
        }),
{
    super::soundness::lemma_open_connection(server, connection_id);
    let i = server.connection_index(connection_id)->Some_0;
    let c = server.control_connections[i];
    let attach = c.next(server.next_attach_order, terminal_id, params);
    let grown = super::state::ConnectionModel {
        attaches: c.attaches.push(attach),
        handle: c.handle.registered(attach.attach_id),
        next_attach: (c.next_attach + 1) as u64,
        ..c
    };
    let listed = server.drawn(terminal_id, params.geometry).with_connection(i, grown).with_effects(
        server.attach_effects(id, c, terminal_id, pane_id, params),
    );
    let synced = listed.synced_query_authority(terminal_id);
    let after = synced.synced_control_geometry_tabs();
    super::soundness::lemma_query_sync_bare(listed, terminal_id);
    super::soundness::lemma_geometry_sync_bare(synced);
    super::soundness::lemma_bare_connections(after, listed);
    assert forall|j: int| 0 <= j < server.control_connections.len() && j != i implies (
    #[trigger] after.control_connections[j]).bare() == server.control_connections[j].bare() by {
        assert(listed.control_connections[j] == server.control_connections[j]);
        assert(after.control_connections[j].bare() == listed.control_connections[j].bare());
    }
    assert(after.control_connections[i].bare() == grown.bare());
    assert(grown.bare().attaches =~= c.bare().attaches.push(attach.bare()));
}

/// A follower of protocol 2 joins a terminal that only followers hold, without
/// a takeover, and evicts nobody.
pub proof fn followers_join_without_evicting(
    server: super::state::ServerModel,
    id: Seq<char>,
    connection_id: u64,
    params: TerminalAttachParams,
    resolved: super::attach::TargetModel,
    terminal_id: Seq<char>,
    pane_id: Option<Seq<char>>,
)
    requires
        server.connection_index(connection_id) is Some,
        server.protocol_of(connection_id) > 1,
        params.geometry == TerminalAttachGeometry::Tab,
        !params.takeover,
        server.attach_target(params.target@, resolved) == Ok::<_, (ErrorCode, Seq<char>)>(
            (terminal_id, pane_id),
        ),
        server.app.running(terminal_id),
        !server.app.pending_alt_screen_reads.contains(terminal_id),
        !server.terminal_attach_owners.contains_key(terminal_id),
        !super::attach::other_size_owner(server.attached(terminal_id), connection_id),
    ensures
        ({
            let i = server.connection_index(connection_id)->Some_0;
            let c = server.control_connections[i];
            let (after, reply) = server.attached_by(id, connection_id, params, resolved);
            &&& reply == crate::schema::ReplyModel::AlreadyWritten
            &&& after.control_connections.len() == server.control_connections.len()
            &&& forall|j: int|
                0 <= j < server.control_connections.len() && j != i ==> (
                #[trigger] after.control_connections[j]).bare()
                    == server.control_connections[j].bare()
            &&& after.control_connections[i].bare().attaches == c.bare().attaches.push(
                c.next(server.next_attach_order, terminal_id, params),
            )
        }),
{
    lemma_joined_bare(server, id, connection_id, terminal_id, pane_id, params);
}

/// Without a takeover nobody joins a terminal that a direct client or another
/// connection's size owner holds.
pub proof fn size_owners_share_with_nobody(
    server: super::state::ServerModel,
    id: Seq<char>,
    connection_id: u64,
    params: TerminalAttachParams,
    resolved: super::attach::TargetModel,
    terminal_id: Seq<char>,
    pane_id: Option<Seq<char>>,
)
    requires
        !params.takeover,
        server.attach_target(params.target@, resolved) == Ok::<_, (ErrorCode, Seq<char>)>(
            (terminal_id, pane_id),
        ),
        !server.app.pending_alt_screen_reads.contains(terminal_id),
        server.terminal_attach_owners.contains_key(terminal_id)
            || super::attach::other_size_owner(server.attached(terminal_id), connection_id),
    ensures
        server.attached_by(id, connection_id, params, resolved) == (
            server,
            crate::schema::failure(
                id,
                ErrorCode::TerminalAttached,
                "terminal "@ + terminal_id
                    + " already has an attached client; retry with takeover"@,
            ),
        ),
{
    let existing = server.attached(terminal_id);
    if super::attach::other_size_owner(existing, connection_id) {
        let k = choose|k: int|
            0 <= k < existing.len() && (#[trigger] existing[k]).connection_id != connection_id
                && existing[k].geometry == TerminalAttachGeometry::Terminal;
        assert(existing[k].connection_id != connection_id);
        assert(super::attach::others_attached(existing, connection_id));
    }
}

/// A protocol 1 stream that attaches again ends its own attach on the
/// terminal; nobody else's is touched.
pub proof fn protocol_1_replaces_its_own_attach(
    server: super::state::ServerModel,
    connection_id: u64,
    terminal_id: Seq<char>,
)
    requires
        server.connection_index(connection_id) is Some,
        server.protocol_of(connection_id) <= 1,
    ensures
        ({
            let i = server.connection_index(connection_id)->Some_0;
            let after = server.retired(connection_id, terminal_id);
            &&& after.control_connections.len() == server.control_connections.len()
            &&& forall|j: int|
                0 <= j < server.control_connections.len() && j != i ==> (
                #[trigger] after.control_connections[j]).bare()
                    == server.control_connections[j].bare()
            &&& forall|k: int|
                0 <= k < after.control_connections[i].attaches.len() ==> (
                #[trigger] after.control_connections[i].attaches[k]).terminal_id != terminal_id
        }),
{
    super::soundness::lemma_open_connection(server, connection_id);
    let i = server.connection_index(connection_id)->Some_0;
    let c = server.control_connections[i];
    let here = super::attach::on_terminal(terminal_id);
    let stays = |a: super::state::AttachModel| !here(a);
    let own = c.attaches.filter(here);
    let after = server.retired(connection_id, terminal_id);
    if own.len() > 0 {
        let without = server.with_connection(i, c.without(here));
        let released = without.released_attaches(own, TerminalDetachReason::Takeover);
        super::release::lemma_released_attaches_frame(
            without,
            own,
            TerminalDetachReason::Takeover,
        );
        let synced = released.synced_query_authority(terminal_id);
        super::soundness::lemma_query_sync_bare(released, terminal_id);
        super::soundness::lemma_geometry_sync_bare(synced);
        super::soundness::lemma_bare_connections(after, released);
        assert forall|j: int| 0 <= j < server.control_connections.len() && j != i implies (
        #[trigger] after.control_connections[j]).bare()
            == server.control_connections[j].bare() by {
            assert(released.control_connections[j] == server.control_connections[j]);
            assert(after.control_connections[j].bare() == released.control_connections[j].bare());
        }
        assert forall|k: int| 0 <= k < after.control_connections[i].attaches.len() implies (
        #[trigger] after.control_connections[i].attaches[k]).terminal_id != terminal_id by {
            assert(released.control_connections[i] == c.without(here));
            super::soundness::lemma_bare_connection(
                after.control_connections[i],
                c.without(here),
            );
            assert(after.control_connections[i].attaches[k].bare()
                == c.without(here).attaches[k].bare());
            c.attaches.lemma_filter_pred(stays, k);
            assert(stays(c.without(here).attaches[k]));
        }
    } else {
        assert forall|k: int| 0 <= k < c.attaches.len() implies (
        #[trigger] c.attaches[k]).terminal_id != terminal_id by {
            if here(c.attaches[k]) {
                c.attaches.lemma_filter_contains(here, k);
            }
        }
    }
}

} // verus!
