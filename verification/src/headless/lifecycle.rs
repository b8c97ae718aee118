//! What one request undoes of another.

use vstd::prelude::*;

use crate::schema::{TerminalAttachGeometry, TerminalAttachParams, TerminalDetachReason};

verus! {

/// A connection that got one more attach, and lost it again, is as before but
/// for the number of its next attach.
proof fn lemma_last_attach_removed(
    c: super::state::ConnectionModel,
    grown: super::state::ConnectionModel,
    order: u64,
    terminal_id: Seq<char>,
    params: TerminalAttachParams,
)
    requires
        c.wf(),
        c.next_attach < u64::MAX,
        forall|taken: u64| #[trigger] c.numbers(taken) ==> taken < order,
        grown.bare() == (super::state::ConnectionModel {
            attaches: c.attaches.push(c.next(order, terminal_id, params)),
            handle: c.handle.registered(c.next(order, terminal_id, params).attach_id),
            next_attach: (c.next_attach + 1) as u64,
            ..c
        }).bare(),
    ensures
        ({
            let gone = super::requests::named(c.next(order, terminal_id, params).attach_id);
            &&& grown.attaches.len() == c.attaches.len() + 1
            &&& grown.attaches.last().bare() == c.next(order, terminal_id, params).bare()
            &&& grown.attach(c.next(order, terminal_id, params).attach_id) == Some(grown.attaches.last())
            &&& grown.attaches.filter(gone) == seq![grown.attaches.last()]
            &&& grown.without(gone).bare() == (super::state::ConnectionModel {
                next_attach: (c.next_attach + 1) as u64,
                ..c
            }).bare()
        }),
{
    let attach = c.next(order, terminal_id, params);
    let attach_id = attach.attach_id;
    let gone = super::requests::named(attach_id);
    let stays = |a: super::state::AttachModel| !gone(a);
    let n = c.attaches.len() as int;
    let fresh = super::state::ConnectionModel {
        attaches: c.attaches.push(attach),
        handle: c.handle.registered(attach_id),
        next_attach: (c.next_attach + 1) as u64,
        ..c
    };
    super::preservation::lemma_next_attach_wf(c, order, terminal_id, params);
    super::soundness::lemma_bare_connection(grown, fresh);
    assert(grown.wf());
    assert(fresh.attaches[n] == attach);
    assert(grown.attaches[n].bare() == attach.bare());
    assert forall|k: int| 0 <= k < n implies (#[trigger] grown.attaches[k]).bare()
        == c.attaches[k].bare() && grown.attaches[k].attach_id != attach_id by {
        assert(fresh.attaches[k] == c.attaches[k]);
        if grown.attaches[k].attach_id == attach_id {
            super::preservation::lemma_attach_ids_unique(grown, k, n);
        }
    }
    let wanted = |a: super::state::AttachModel| a.attach_id == attach_id;
    crate::find::lemma_first_index(grown.attaches, wanted);
    assert(wanted(grown.attaches[n]));
    crate::find::lemma_tail_filter(grown.attaches, gone, n);
    assert(grown.attaches.skip(n) =~= seq![grown.attaches.last()]);
    crate::find::lemma_head_filter(grown.attaches, stays, n);
    let back = grown.without(gone);
    let expected = super::state::ConnectionModel {
        next_attach: (c.next_attach + 1) as u64,
        ..c
    };
    assert(back.attaches =~= grown.attaches.take(n));
    assert(back.bare().attaches =~= expected.bare().attaches);
    assert forall|k: Seq<char>| #[trigger]
        back.handle.inputs.contains_key(k) == c.handle.inputs.contains_key(k) by {
        assert(grown.handle.inputs.contains_key(k) == fresh.handle.inputs.contains_key(k));
        if k == attach_id {
            assert(gone(grown.attaches[n]));
            assert(super::release::among(grown.attaches, gone, k));
            if c.handle.inputs.contains_key(k) {
                assert(c.lists(k));
                let m = choose|m: int|
                    0 <= m < c.attaches.len() && (#[trigger] c.attaches[m]).attach_id == k;
                assert(grown.attaches[m].bare() == c.attaches[m].bare());
            }
        } else if super::release::among(grown.attaches, gone, k) {
            let m = choose|m: int|
                0 <= m < grown.attaches.len() && (#[trigger] grown.attaches[m]).attach_id == k
                    && gone(grown.attaches[m]);
            assert(grown.attaches[m].attach_id == attach_id);
        }
    }
    assert(back.bare().handle.inputs =~= expected.bare().handle.inputs);
    assert(grown.bare().handle == fresh.bare().handle);
    assert(back.bare() == expected.bare());
}

/// Ending an attach undoes making it: every connection has the attaches, sizes
/// and input entries it had, the same tabs and terminals are sized and locked,
/// and only the attach's numbers are used up.
pub proof fn detaching_undoes_attaching(
    server: super::state::ServerModel,
    attach_request: Seq<char>,
    detach_request: Seq<char>,
    connection_id: u64,
    terminal_id: Seq<char>,
    pane_id: Option<Seq<char>>,
    params: TerminalAttachParams,
)
    requires
        server.wf(),
        server.connection_index(connection_id) is Some,
        server.attach_has_room(connection_id),
        server.app.running(terminal_id),
        params.geometry == TerminalAttachGeometry::Terminal
            ==> !server.direct_attach_resize_locks.contains(terminal_id),
    ensures
        ({
            let i = server.connection_index(connection_id)->Some_0;
            let c = server.control_connections[i];
            let there = server.joined(
                attach_request,
                connection_id,
                terminal_id,
                pane_id,
                params,
            ).0;
            let (back, reply) = there.detached_by(
                detach_request,
                connection_id,
                c.next(server.next_attach_order, terminal_id, params).attach_id,
            );
            &&& reply == super::requests::done(detach_request)
            &&& back.bare() == (super::state::ServerModel {
                next_attach_order: (server.next_attach_order + 1) as u64,
                ..server
            }).with_connection(
                i,
                super::state::ConnectionModel { next_attach: (c.next_attach + 1) as u64, ..c },
            ).bare()
        }),
{
    super::soundness::lemma_open_connection(server, connection_id);
    let i = server.connection_index(connection_id)->Some_0;
    let c = server.control_connections[i];
    assert(c.wf());
    let attach = c.next(server.next_attach_order, terminal_id, params);
    let fresh = super::state::ConnectionModel {
        attaches: c.attaches.push(attach),
        handle: c.handle.registered(attach.attach_id),
        next_attach: (c.next_attach + 1) as u64,
        ..c
    };
    let drawn = server.drawn(terminal_id, params.geometry);
    let listed = drawn.with_connection(i, fresh).with_effects(
        server.attach_effects(attach_request, c, terminal_id, pane_id, params),
    );
    let there = server.joined(attach_request, connection_id, terminal_id, pane_id, params).0;
    assert(there == listed.synced_query_authority(terminal_id).synced_control_geometry_tabs());
    super::soundness::lemma_query_sync_bare(listed, terminal_id);
    super::soundness::lemma_geometry_sync_bare(listed.synced_query_authority(terminal_id));
    assert(there.bare() == listed.bare());
    super::preservation::lemma_joined_wf(
        server,
        attach_request,
        connection_id,
        terminal_id,
        pane_id,
        params,
    );
    super::soundness::lemma_bare_connections(there, listed);
    let grown = there.control_connections[i];
    assert(listed.control_connections[i] == fresh);
    assert(grown.bare() == fresh.bare());
    super::soundness::lemma_connection_index(there, i);
    lemma_last_attach_removed(c, grown, server.next_attach_order, terminal_id, params);

    let gone = super::requests::named(attach.attach_id);
    let without = there.with_connection(i, grown.without(gone));
    let leavers = grown.attaches.filter(gone);
    let released = without.released_attaches(leavers, TerminalDetachReason::Closed);
    super::release::lemma_released_attaches_frame(without, leavers, TerminalDetachReason::Closed);
    assert(leavers.drop_last() =~= Seq::empty());
    assert(without.released_attaches(leavers.drop_last(), TerminalDetachReason::Closed) == without);
    assert(leavers.last() == grown.attaches.last());
    assert(there.direct_attach_resize_locks == there.bare().direct_attach_resize_locks);
    assert(there.direct_attach_resize_locks == drawn.direct_attach_resize_locks);
    assert(there.app == there.bare().app);
    assert(released.direct_attach_resize_locks =~= server.direct_attach_resize_locks);
    let (back, _) = there.detached_by(detach_request, connection_id, attach.attach_id);
    super::soundness::lemma_query_sync_bare(released, terminal_id);
    super::soundness::lemma_geometry_sync_bare(released.synced_query_authority(terminal_id));
    assert(grown.attaches.last().bare().terminal_id == terminal_id);
    assert(back == released.synced_query_authority(
        terminal_id,
    ).synced_control_geometry_tabs());
    let expected = super::state::ServerModel {
        next_attach_order: (server.next_attach_order + 1) as u64,
        ..server
    }.with_connection(
        i,
        super::state::ConnectionModel { next_attach: (c.next_attach + 1) as u64, ..c },
    );
    assert forall|k: int| 0 <= k < server.control_connections.len() implies (
    #[trigger] released.control_connections[k]).bare() == expected.control_connections[k].bare() by {
        if k != i {
            assert(released.control_connections[k] == there.control_connections[k]);
            assert(listed.control_connections[k] == server.control_connections[k]);
            assert(there.control_connections[k].bare() == listed.control_connections[k].bare());
        }
    }
    assert(released.bare().control_connections =~= expected.bare().control_connections);
    assert(there.bare() == listed.bare());
    assert(released.bare() == expected.bare());
}

} // verus!
