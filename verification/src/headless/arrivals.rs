//! What asking for an attach comes to: the attach that was asked for, or a
//! refusal that says why.

use vstd::prelude::*;

use super::dispatch::ControlMethod;
use crate::schema::{
    ErrorCode, TerminalAttachGeometry, TerminalAttachParams, TerminalDetachReason,
    TerminalQueryAuthority,
};

verus! {

/// What a request for an attach comes to that has been answered on its stream.
pub open spec fn attached() -> super::dispatch::AnswerModel {
    super::dispatch::AnswerModel::Answer { reply: crate::schema::ReplyModel::AlreadyWritten }
}

/// What a request comes to that is refused.
pub open spec fn refusal(
    id: Seq<char>,
    code: ErrorCode,
    message: Seq<char>,
) -> super::dispatch::AnswerModel {
    super::dispatch::AnswerModel::Answer {
        reply: crate::schema::ReplyModel::Failure { id, code, message },
    }
}

/// How many bytes of history a snapshot carries: as many as asked for, eight
/// mebibytes at most, and one when nothing was asked.
pub proof fn history_is_limited(requested: Option<u64>)
    ensures
        requested is None ==> super::attach::history_limit(requested) == 1024 * 1024,
        requested matches Some(n) ==> super::attach::history_limit(requested) == (if n <= 8 * 1024
            * 1024 {
            n as int
        } else {
            8 * 1024 * 1024 as int
        }),
{
}

/// Whether an attach is what a request asked for, on a terminal.
pub open spec fn asked_for(
    attach: super::state::AttachModel,
    terminal_id: Seq<char>,
    params: TerminalAttachParams,
) -> bool {
    &&& attach.terminal_id == terminal_id
    &&& attach.geometry == params.geometry
    &&& attach.answer_queries == params.answer_queries
    &&& match params.history_limit_bytes {
        Some(n) => attach.history_limit_bytes == (if n <= 8 * 1024 * 1024 {
            n as int
        } else {
            8 * 1024 * 1024 as int
        }),
        None => attach.history_limit_bytes == 1024 * 1024,
    }
}

/// Whether from place `p` on an attach's tap is opened, its terminal resized if
/// it sizes it and gave a size, its id answered, and then its first snapshot
/// sent.
pub open spec fn welcomed(
    effects: Seq<super::state::EffectModel>,
    p: int,
    id: Seq<char>,
    connection_id: u64,
    protocol: u32,
    attach: super::state::AttachModel,
    pane_id: Option<Seq<char>>,
    params: TerminalAttachParams,
) -> bool {
    let resized = params.geometry == TerminalAttachGeometry::Terminal && params.cols is Some
        && params.rows is Some;
    let q: int = if resized {
        p + 2
    } else {
        p + 1
    };
    &&& 0 <= p && q + 1 < effects.len()
    &&& effects[p] == super::state::EffectModel::AttachRaw {
        connection_id,
        terminal_id: attach.terminal_id,
        attach_id: attach.attach_id,
        suppress_responses: params.answer_queries == TerminalQueryAuthority::Client,
        protocol,
    }
    &&& resized ==> effects[p + 1] == super::state::EffectModel::ResizeTerminal {
        terminal_id: attach.terminal_id,
        rows: params.rows->Some_0,
        cols: params.cols->Some_0,
        cell_width_px: params.cell_width_px,
        cell_height_px: params.cell_height_px,
    }
    &&& effects[q] == super::state::EffectModel::SendReply {
        connection_id,
        reply: crate::schema::ReplyModel::Success {
            id,
            result: crate::schema::ResultModel::TerminalAttached {
                attach_id: attach.attach_id,
                terminal_id: attach.terminal_id,
                pane_id,
            },
        },
    }
    &&& effects[q + 1] == super::state::EffectModel::SnapshotRaw {
        connection_id,
        terminal_id: attach.terminal_id,
        attach_id: attach.attach_id,
        history_limit_bytes: attach.history_limit_bytes,
    }
}

/// The terminal and pane that a request's target stands for.
pub open spec fn stands_for(
    params: TerminalAttachParams,
    resolved: super::attach::TargetModel,
    terminal_id: Seq<char>,
    pane_id: Option<Seq<char>>,
) -> bool {
    match resolved {
        super::attach::TargetModel::Found { terminal_id: t, pane_id: p } => terminal_id == t
            && pane_id == p,
        super::attach::TargetModel::NotFound => terminal_id == params.target@ && pane_id is None,
        super::attach::TargetModel::Ambiguous { target } => false,
    }
}

/// What is left of a server once a connection's own attach and, with a
/// takeover, others made way for a new one.
spec fn cleared(
    server: super::state::ServerModel,
    connection_id: u64,
    terminal_id: Seq<char>,
    params: TerminalAttachParams,
) -> super::state::ServerModel {
    let retired = server.pruned(connection_id).retired(connection_id, terminal_id);
    if params.takeover {
        retired.taken_over(terminal_id, params.geometry)
    } else {
        retired
    }
}

proof fn lemma_cleared(
    server: super::state::ServerModel,
    connection_id: u64,
    terminal_id: Seq<char>,
    params: TerminalAttachParams,
)
    requires
        server.wf(),
        server.connection_index(connection_id) is Some,
        server.attach_has_room(connection_id),
    ensures
        ({
            let c = cleared(server, connection_id, terminal_id, params);
            &&& c.wf()
            &&& c.frames() == server.frames()
            &&& c.connection_index(connection_id) == server.connection_index(connection_id)
            &&& c.attach_has_room(connection_id)
            &&& c.app == server.app
            &&& super::upkeep::extends(c, server)
        }),
{
    let pruned = server.pruned(connection_id);
    let retired = pruned.retired(connection_id, terminal_id);
    let c = cleared(server, connection_id, terminal_id, params);
    super::preservation::lemma_pruned_wf(server, connection_id);
    super::soundness::lemma_pruned_frames(server, connection_id);
    super::succession::lemma_pruned_sizes(server, connection_id);
    super::preservation::lemma_cleared_wf(pruned, connection_id, terminal_id, params.geometry);
    super::soundness::lemma_frames(c, server);
    super::preservation::lemma_room_kept(server, pruned, connection_id);
    super::preservation::lemma_room_kept(pruned, c, connection_id);
    lemma_retired_app(pruned, connection_id, terminal_id);
    super::upkeep::lemma_pruned_extends(server, connection_id);
    super::upkeep::lemma_extends_transitive(retired, pruned, server);
    if params.takeover {
        lemma_taken_over_app(retired, terminal_id, params.geometry);
        super::upkeep::lemma_extends_transitive(c, retired, server);
    }
}

proof fn lemma_retired_app(
    server: super::state::ServerModel,
    connection_id: u64,
    terminal_id: Seq<char>,
)
    ensures
        server.retired(connection_id, terminal_id).app == server.app,
        super::upkeep::extends(server.retired(connection_id, terminal_id), server),
{
    if let Some(i) = server.connection_index(connection_id) {
        let c = server.control_connections[i];
        let here = super::attach::on_terminal(terminal_id);
        let own = c.attaches.filter(here);
        let without = server.with_connection(i, c.without(here));
        let reason = crate::schema::TerminalDetachReason::Takeover;
        let released = without.released_attaches(own, reason);
        super::release::lemma_released_attaches_frame(without, own, reason);
        super::upkeep::lemma_released_attaches_extends(without, own, reason);
        let synced = released.synced_query_authority(terminal_id);
        super::soundness::lemma_geometry_sync_bare(synced);
        super::succession::lemma_bare_sizes(synced.synced_control_geometry_tabs(), synced);
        super::upkeep::lemma_both_syncs_extend(server, released, terminal_id);
    }
}

proof fn lemma_taken_over_app(
    server: super::state::ServerModel,
    terminal_id: Seq<char>,
    geometry: TerminalAttachGeometry,
)
    ensures
        server.taken_over(terminal_id, geometry).app == server.app,
        super::upkeep::extends(server.taken_over(terminal_id, geometry), server),
{
    let alone = server.without_direct_owner(terminal_id);
    let scope = if geometry == TerminalAttachGeometry::Terminal {
        super::state::EvictScope::All
    } else {
        super::state::EvictScope::TabFollowerTakeover
    };
    let reason = crate::schema::TerminalDetachReason::Takeover;
    let without = alone.with_connections(
        alone.control_connections.map_values(
            |c: super::state::ConnectionModel| c.without(c.evictees(terminal_id, scope)),
        ),
    );
    let leavers = alone.control_connections.flat_map(
        |c: super::state::ConnectionModel| c.attaches.filter(c.evictees(terminal_id, scope)),
    );
    let released = without.released_attaches(leavers, reason);
    super::release::lemma_released_attaches_frame(without, leavers, reason);
    let synced = released.synced_query_authority(terminal_id);
    super::soundness::lemma_geometry_sync_bare(synced);
    super::succession::lemma_bare_sizes(synced.synced_control_geometry_tabs(), synced);
    super::upkeep::lemma_evicted_extends(alone, terminal_id, reason, scope);
    assert(super::upkeep::extends(alone, server));
    super::upkeep::lemma_extends_transitive(
        server.taken_over(terminal_id, geometry),
        alone,
        server,
    );
}

/// An attach that is granted is the one asked for, on the running terminal that
/// the target stands for, listed last on its stream and taking input. Its id is
/// made of its stream's number and its own, and is that of no other attach. It is welcomed in order: its tap, its size if it
/// sizes the terminal, the answer, its first snapshot. A terminal that it sizes
/// is locked against layouts.
pub proof fn an_attach_is_what_was_asked_for(
    server: super::state::ServerModel,
    id: Seq<char>,
    connection_id: u64,
    params: TerminalAttachParams,
    resolved: super::attach::TargetResolution,
) -> (found: (int, Seq<char>, Option<Seq<char>>, int))
    requires
        server.wf(),
        server.attach_has_room(connection_id),
        server.handled(
            id,
            Some(connection_id),
            ControlMethod::TerminalAttach { params, resolved },
        ).1 == attached(),
    ensures
        ({
            let after = server.handled(
                id,
                Some(connection_id),
                ControlMethod::TerminalAttach { params, resolved },
            ).0;
            let (i, terminal_id, pane_id, p) = found;
            let c = after.control_connections[i];
            let attach = c.attaches.last();
            &&& 0 <= i < after.control_connections.len()
            &&& c.connection_id == connection_id
            &&& stands_for(params, resolved@, terminal_id, pane_id)
            &&& server.app.running(terminal_id)
            &&& c.attaches.len() > 0
            &&& asked_for(attach, terminal_id, params)
            &&& c.handle.inputs.contains_key(attach.attach_id)
            &&& attach.attach_id == crate::text::decimal((connection_id - 0x100_0000_0000) as nat)
                + seq!['-'] + crate::text::decimal(
                server.control_connections[i].next_attach as nat,
            )
            &&& forall|j: int, k: int|
                0 <= j < server.control_connections.len() && 0 <= k
                    < server.control_connections[j].attaches.len() ==> (
                #[trigger] server.control_connections[j].attaches[k]).attach_id
                    != attach.attach_id
            &&& server.effects.len() <= p
            &&& welcomed(
                after.effects,
                p,
                id,
                connection_id,
                c.protocol,
                attach,
                pane_id,
                params,
            )
            &&& params.geometry == TerminalAttachGeometry::Terminal && server.app.registered(
                terminal_id,
            ) ==> after.direct_attach_resize_locks.contains(terminal_id)
        }),
{
    let after = server.handled(
        id,
        Some(connection_id),
        ControlMethod::TerminalAttach { params, resolved },
    ).0;
    let pruned = server.pruned(connection_id);
    super::succession::lemma_pruned_sizes(server, connection_id);
    super::soundness::lemma_open_connection(server, connection_id);
    let i = server.connection_index(connection_id)->Some_0;
    let (terminal_id, pane_id) = pruned.attach_target(params.target@, resolved@)->Ok_0;
    let before = cleared(server, connection_id, terminal_id, params);
    lemma_cleared(server, connection_id, terminal_id, params);
    assert(after == before.joined(id, connection_id, terminal_id, pane_id, params).0);
    assert(before.app.running(terminal_id));
    let c = before.control_connections[i];
    let next = c.next(before.next_attach_order, terminal_id, params);
    super::sharing::lemma_joined_bare(
        before,
        id,
        connection_id,
        terminal_id,
        pane_id,
        params,
    );
    super::preservation::lemma_joined_wf(
        before,
        id,
        connection_id,
        terminal_id,
        pane_id,
        params,
    );
    super::succession::lemma_joined_sizes(
        before,
        id,
        connection_id,
        terminal_id,
        pane_id,
        params,
    );
    super::soundness::lemma_open_connection(before, connection_id);
    let d = after.control_connections[i];
    assert(super::succession::same_sizes(after, before));
    assert(0 <= i < after.control_connections.len());
    assert(d.connection_id == c.connection_id);
    assert(d.wf());
    let n = d.attaches.len() - 1;
    assert(d.bare().attaches.len() == d.attaches.len());
    assert(d.bare().attaches[n] == d.attaches[n].bare());
    assert(c.bare().attaches.push(next).last() == next);
    let attach = d.attaches.last();
    assert(attach.bare() == next);
    history_is_limited(params.history_limit_bytes);
    assert(asked_for(attach, terminal_id, params));
    assert(d.attaches[n].attach_id == attach.attach_id);
    assert(d.lists(attach.attach_id));

    super::soundness::lemma_frames(before, server);
    assert(before.control_connections[i].frame() == server.control_connections[i].frame());
    assert forall|j: int, k: int|
        0 <= j < server.control_connections.len() && 0 <= k
            < server.control_connections[j].attaches.len() implies (
    #[trigger] server.control_connections[j].attaches[k]).attach_id != attach.attach_id by {
        let e = server.control_connections[j];
        assert(e.wf());
        assert(c.wf());
        assert(e.attaches[k].attach_id == e.attach_name(e.attaches[k].seq));
        if e.attaches[k].attach_id == attach.attach_id {
            crate::text::lemma_dashed_injective(
                (e.connection_id - super::state::CONTROL_CONNECTION_ID_BASE) as nat,
                e.attaches[k].seq as nat,
                (c.connection_id - super::state::CONTROL_CONNECTION_ID_BASE) as nat,
                c.next_attach as nat,
            );
            super::soundness::lemma_connection_index(server, j);
            assert(j == i);
        }
    }

    let first = before.attach_effects(id, c, terminal_id, pane_id, params);
    super::upkeep::attaches_are_answered_before_their_snapshot(
        before,
        id,
        connection_id,
        terminal_id,
        pane_id,
        params,
    );
    let p = before.effects.len() as int;
    lemma_joined_protocol(before, id, connection_id, terminal_id, pane_id, params);
    assert forall|q: int| 0 <= q < first.len() implies #[trigger] after.effects[p + q]
        == first[q] by {
        assert((before.effects + first)[p + q] == first[q]);
    }
    assert(after.effects[p + 0] == first[0]);
    assert(after.effects[p + 1] == first[1]);
    assert(after.effects[p + 2] == first[2]);
    if first.len() > 3 {
        assert(after.effects[p + 3] == first[3]);
    }
    assert(welcomed(
        after.effects,
        p,
        id,
        connection_id,
        d.protocol,
        attach,
        pane_id,
        params,
    ));
    (i, terminal_id, pane_id, p)
}

/// Giving a connection its attach keeps its protocol, and locks the terminal if
/// the attach sizes it.
proof fn lemma_joined_protocol(
    server: super::state::ServerModel,
    id: Seq<char>,
    connection_id: u64,
    terminal_id: Seq<char>,
    pane_id: Option<Seq<char>>,
    params: TerminalAttachParams,
)
    requires
        server.connection_index(connection_id) is Some,
        server.app.running(terminal_id),
    ensures
        ({
            let i = server.connection_index(connection_id)->Some_0;
            let after = server.joined(id, connection_id, terminal_id, pane_id, params).0;
            &&& after.control_connections[i].protocol == server.control_connections[i].protocol
            &&& after.direct_attach_resize_locks == server.locks_with(terminal_id, params.geometry)
        }),
{
    super::soundness::lemma_open_connection(server, connection_id);
    let i = server.connection_index(connection_id)->Some_0;
    let c = server.control_connections[i];
    let attach = c.next(server.next_attach_order, terminal_id, params);
    let grown = super::state::ConnectionModel {
        attaches: c.attaches.push(attach),
        handle: c.handle.registered(attach.attach_id),
        next_attach: (c.next_attach + 1) as u64,
        ..c
    };
    let listed = server.drawn(terminal_id, params.geometry).with_connection(i, grown).with_effects(
        server.attach_effects(id, c, terminal_id, pane_id, params),
    );
    let synced = listed.synced_query_authority(terminal_id);
    super::soundness::lemma_query_sync_bare(listed, terminal_id);
    super::soundness::lemma_geometry_sync_bare(synced);
    super::succession::lemma_bare_sizes(synced.synced_control_geometry_tabs(), listed);
    assert(listed.control_connections[i] == grown);
}

/// Whether another connection has an attach on a terminal.
pub open spec fn others_hold(
    server: super::state::ServerModel,
    terminal_id: Seq<char>,
    connection_id: u64,
) -> bool {
    exists|i: int, k: int|
        0 <= i < server.control_connections.len() && 0 <= k
            < server.control_connections[i].attaches.len() && (
        #[trigger] server.control_connections[i].attaches[k]).terminal_id == terminal_id
            && server.control_connections[i].connection_id != connection_id
}

/// Whether another connection has an attach on a terminal that sizes it.
pub open spec fn another_sizes(
    server: super::state::ServerModel,
    terminal_id: Seq<char>,
    connection_id: u64,
) -> bool {
    exists|i: int, k: int|
        0 <= i < server.control_connections.len() && 0 <= k
            < server.control_connections[i].attaches.len() && (
        #[trigger] server.control_connections[i].attaches[k]).terminal_id == terminal_id
            && server.control_connections[i].connection_id != connection_id
            && server.control_connections[i].attaches[k].geometry
            == TerminalAttachGeometry::Terminal
}

/// Whether a connection has an attach on a terminal itself.
pub open spec fn holds(
    server: super::state::ServerModel,
    terminal_id: Seq<char>,
    connection_id: u64,
) -> bool {
    exists|i: int, k: int|
        0 <= i < server.control_connections.len() && 0 <= k
            < server.control_connections[i].attaches.len() && (
        #[trigger] server.control_connections[i].attaches[k]).terminal_id == terminal_id
            && server.control_connections[i].connection_id == connection_id
}

/// The attaches on a terminal are those that are listed.
proof fn lemma_attached_at(
    server: super::state::ServerModel,
    terminal_id: Seq<char>,
    i: int,
    k: int,
) -> (m: int)
    requires
        0 <= i < server.control_connections.len(),
        0 <= k < server.control_connections[i].attaches.len(),
        server.control_connections[i].attaches[k].terminal_id == terminal_id,
    ensures
        ({
            let existing = server.attached(terminal_id);
            let c = server.control_connections[i];
            &&& 0 <= m < existing.len()
            &&& existing[m].connection_id == c.connection_id
            &&& existing[m].geometry == c.attaches[k].geometry
            &&& existing[m].protocol == c.protocol
        }),
{
    let existing = server.attached(terminal_id);
    let step = |c: super::state::ConnectionModel| c.attached(terminal_id);
    let c = server.control_connections[i];
    let here = super::attach::on_terminal(terminal_id);
    let kept = c.attaches.filter(here);
    c.attaches.lemma_filter_contains(here, k);
    let at = choose|at: int| 0 <= at < kept.len() && kept[at] == c.attaches[k];
    let entry = c.attached(terminal_id)[at];
    assert(step(c).contains(entry));
    crate::find::lemma_flat_map_contains(server.control_connections, step, i, entry);
    choose|m: int| 0 <= m < existing.len() && existing[m] == entry
}

proof fn lemma_attached_from(
    server: super::state::ServerModel,
    terminal_id: Seq<char>,
    m: int,
) -> (place: (int, int))
    requires
        0 <= m < server.attached(terminal_id).len(),
    ensures
        ({
            let (i, k) = place;
            let existing = server.attached(terminal_id);
            let c = server.control_connections[i];
            &&& 0 <= i < server.control_connections.len()
            &&& 0 <= k < c.attaches.len()
            &&& c.attaches[k].terminal_id == terminal_id
            &&& existing[m].connection_id == c.connection_id
            &&& existing[m].geometry == c.attaches[k].geometry
        }),
{
    let existing = server.attached(terminal_id);
    let step = |c: super::state::ConnectionModel| c.attached(terminal_id);
    assert(existing.contains(existing[m]));
    let i = crate::find::lemma_flat_map_origin(server.control_connections, step, existing[m]);
    let c = server.control_connections[i];
    let piece = c.attached(terminal_id);
    assert(step(c) == piece);
    let at = choose|at: int| 0 <= at < piece.len() && piece[at] == existing[m];
    let here = super::attach::on_terminal(terminal_id);
    let kept = c.attaches.filter(here);
    c.attaches.lemma_filter_pred(here, at);
    crate::find::lemma_filter_origin(c.attaches, here, at);
    let k = choose|k: int| 0 <= k < c.attaches.len() && c.attaches[k] == kept[at];
    (i, k)
}

/// Without a takeover, who else holds a terminal decides. A direct client keeps
/// everybody off. A size owner gets a terminal that nobody else holds, nor, from
/// protocol 2 on, its own stream. A protocol 1 follower gets one that nobody
/// else holds, or that its own stream holds and nobody else sizes. A later
/// follower gets any that nobody else sizes. A takeover is never refused for
/// who holds the terminal.
pub proof fn who_holds_a_terminal_decides(
    server: super::state::ServerModel,
    id: Seq<char>,
    connection_id: u64,
    params: TerminalAttachParams,
    resolved: super::attach::TargetModel,
    terminal_id: Seq<char>,
    pane_id: Option<Seq<char>>,
)
    requires
        stands_for(params, resolved, terminal_id, pane_id),
        server.app.running(terminal_id),
        !server.app.pending_alt_screen_reads.contains(terminal_id),
        server.connection(connection_id) is Some,
    ensures
        ({
            let direct = server.terminal_attach_owners.contains_key(terminal_id);
            let protocol = server.connection(connection_id)->Some_0.protocol;
            let others = others_hold(server, terminal_id, connection_id);
            let sized = another_sizes(server, terminal_id, connection_id);
            let own = holds(server, terminal_id, connection_id);
            let free = if direct {
                false
            } else if params.geometry == TerminalAttachGeometry::Terminal {
                !others && !(own && protocol > 1)
            } else if protocol <= 1 && !own {
                !others
            } else {
                !sized
            };
            let (after, reply) = server.attached_by(id, connection_id, params, resolved);
            &&& params.takeover || free ==> reply == crate::schema::ReplyModel::AlreadyWritten
            &&& !params.takeover && !free ==> after == server && reply
                == (crate::schema::ReplyModel::Failure {
                id,
                code: ErrorCode::TerminalAttached,
                message: "terminal "@ + terminal_id
                    + " already has an attached client; retry with takeover"@,
            })
        }),
{
    let existing = server.attached(terminal_id);
    super::soundness::lemma_open_connection(server, connection_id);
    if others_hold(server, terminal_id, connection_id) {
        let (i, k) = choose|i: int, k: int|
            0 <= i < server.control_connections.len() && 0 <= k
                < server.control_connections[i].attaches.len() && (
            #[trigger] server.control_connections[i].attaches[k]).terminal_id == terminal_id
                && server.control_connections[i].connection_id != connection_id;
        let m = lemma_attached_at(server, terminal_id, i, k);
        assert(existing[m].connection_id != connection_id);
    }
    if another_sizes(server, terminal_id, connection_id) {
        let (i, k) = choose|i: int, k: int|
            0 <= i < server.control_connections.len() && 0 <= k
                < server.control_connections[i].attaches.len() && (
            #[trigger] server.control_connections[i].attaches[k]).terminal_id == terminal_id
                && server.control_connections[i].connection_id != connection_id
                && server.control_connections[i].attaches[k].geometry
                == TerminalAttachGeometry::Terminal;
        let m = lemma_attached_at(server, terminal_id, i, k);
        assert(existing[m].connection_id != connection_id);
    }
    if holds(server, terminal_id, connection_id) {
        let (i, k) = choose|i: int, k: int|
            0 <= i < server.control_connections.len() && 0 <= k
                < server.control_connections[i].attaches.len() && (
            #[trigger] server.control_connections[i].attaches[k]).terminal_id == terminal_id
                && server.control_connections[i].connection_id == connection_id;
        let m = lemma_attached_at(server, terminal_id, i, k);
        assert(existing[m].connection_id == connection_id);
    }
    if super::attach::others_attached(existing, connection_id) {
        let m = choose|m: int|
            0 <= m < existing.len() && (#[trigger] existing[m]).connection_id != connection_id;
        let (i, k) = lemma_attached_from(server, terminal_id, m);
        assert(server.control_connections[i].attaches[k].terminal_id == terminal_id);
    }
    if super::attach::other_size_owner(existing, connection_id) {
        let m = choose|m: int|
            0 <= m < existing.len() && (#[trigger] existing[m]).connection_id != connection_id
                && existing[m].geometry == TerminalAttachGeometry::Terminal;
        let (i, k) = lemma_attached_from(server, terminal_id, m);
        assert(server.control_connections[i].attaches[k].terminal_id == terminal_id);
    }
    if super::attach::is_attached(existing, connection_id) {
        let m = choose|m: int|
            0 <= m < existing.len() && (#[trigger] existing[m]).connection_id == connection_id;
        let (i, k) = lemma_attached_from(server, terminal_id, m);
        assert(server.control_connections[i].attaches[k].terminal_id == terminal_id);
    }
    let retired = server.retired(connection_id, terminal_id);
    super::attach::lemma_retired_frames(server, connection_id, terminal_id);
    super::attach::lemma_taken_over_frames(retired, terminal_id, params.geometry);
    super::soundness::lemma_frames(retired, server);
    super::soundness::lemma_frames(retired.taken_over(terminal_id, params.geometry), server);
    lemma_retired_app(server, connection_id, terminal_id);
    lemma_taken_over_app(retired, terminal_id, params.geometry);
}

/// An attach needs one running terminal that nothing is being read from. A
/// target that stands for several, for none or for one that is not running is
/// refused, and so is a terminal with a read in progress, takeover or not.
pub proof fn attaching_needs_a_running_terminal(
    server: super::state::ServerModel,
    id: Seq<char>,
    i: int,
    params: TerminalAttachParams,
    resolved: super::attach::TargetResolution,
)
    requires
        server.wf(),
        0 <= i < server.control_connections.len(),
    ensures
        ({
            let answer = server.handled(
                id,
                Some(server.control_connections[i].connection_id),
                ControlMethod::TerminalAttach { params, resolved },
            ).1;
            &&& resolved@ is Ambiguous ==> answer == refusal(
                id,
                ErrorCode::AmbiguousTarget,
                "terminal target "@ + resolved@->Ambiguous_target
                    + " matches more than one terminal"@,
            )
            &&& resolved@ is NotFound && !server.app.running(params.target@) ==> answer == refusal(
                id,
                ErrorCode::NotFound,
                "terminal target "@ + params.target@ + " not found"@,
            )
            &&& forall|terminal_id: Seq<char>, pane_id: Option<Seq<char>>| #[trigger]
                stands_for(params, resolved@, terminal_id, pane_id) && (server.app.running(
                    terminal_id,
                ) || resolved@ is Found) && server.app.pending_alt_screen_reads.contains(
                    terminal_id,
                ) ==> answer == refusal(
                    id,
                    ErrorCode::TerminalBusy,
                    "terminal "@ + terminal_id + " has a read in progress; retry"@,
                )
            &&& forall|terminal_id: Seq<char>, pane_id: Option<Seq<char>>| #[trigger]
                stands_for(params, resolved@, terminal_id, pane_id) && resolved@ is Found
                    && !server.app.running(terminal_id)
                    && !server.app.pending_alt_screen_reads.contains(terminal_id) ==> answer == refusal(
                    id,
                    ErrorCode::NotFound,
                    "terminal "@ + terminal_id + " not found"@,
                ) || (!params.takeover && answer == refusal(
                    id,
                    ErrorCode::TerminalAttached,
                    "terminal "@ + terminal_id
                        + " already has an attached client; retry with takeover"@,
                ))
        }),
{
    let connection_id = server.control_connections[i].connection_id;
    assert(server.control_connections[i].wf());
    super::soundness::lemma_connection_index(server, i);
    super::succession::lemma_pruned_sizes(server, connection_id);
    let pruned = server.pruned(connection_id);
    if let super::attach::TargetModel::Found { terminal_id, pane_id } = resolved@ {
        let retired = pruned.retired(connection_id, terminal_id);
        super::attach::lemma_retired_frames(pruned, connection_id, terminal_id);
        super::attach::lemma_taken_over_frames(retired, terminal_id, params.geometry);
        super::soundness::lemma_frames(retired, pruned);
        super::soundness::lemma_frames(retired.taken_over(terminal_id, params.geometry), pruned);
        lemma_retired_app(pruned, connection_id, terminal_id);
        lemma_taken_over_app(retired, terminal_id, params.geometry);
    }
}

/// A takeover shuts the terminal's direct client down, and only its own: the
/// client is gone and the terminal is nobody's; every other direct client stays.
pub proof fn a_takeover_shuts_the_direct_client_down(
    server: super::state::ServerModel,
    terminal_id: Seq<char>,
    geometry: TerminalAttachGeometry,
)
    requires
        server.terminal_attach_owners.contains_key(terminal_id),
    ensures
        ({
            let after = server.taken_over(terminal_id, geometry);
            let client_id = server.terminal_attach_owners[terminal_id];
            let n = server.effects.len() as int;
            &&& after.terminal_attach_owners == server.terminal_attach_owners.remove(terminal_id)
            &&& after.clients == server.clients.remove(client_id)
            &&& n < after.effects.len()
            &&& after.effects[n] == super::state::EffectModel::ShutDownClient { client_id }
        }),
{
    let alone = server.without_direct_owner(terminal_id);
    let scope = if geometry == TerminalAttachGeometry::Terminal {
        super::state::EvictScope::All
    } else {
        super::state::EvictScope::TabFollowerTakeover
    };
    let reason = crate::schema::TerminalDetachReason::Takeover;
    let without = alone.with_connections(
        alone.control_connections.map_values(
            |c: super::state::ConnectionModel| c.without(c.evictees(terminal_id, scope)),
        ),
    );
    let leavers = alone.control_connections.flat_map(
        |c: super::state::ConnectionModel| c.attaches.filter(c.evictees(terminal_id, scope)),
    );
    let released = without.released_attaches(leavers, reason);
    super::release::lemma_released_attaches_frame(without, leavers, reason);
    let synced = released.synced_query_authority(terminal_id);
    super::soundness::lemma_geometry_sync_bare(synced);
    let after = synced.synced_control_geometry_tabs();
    assert(after.terminal_attach_owners == after.bare().terminal_attach_owners);
    assert(synced.terminal_attach_owners == synced.bare().terminal_attach_owners);
    assert(after.clients == after.bare().clients);
    assert(synced.clients == synced.bare().clients);
    super::upkeep::lemma_evicted_extends(alone, terminal_id, reason, scope);
    assert(after.effects[server.effects.len() as int] == alone.effects[server.effects.len() as int]);
}

/// A takeover tells every attach that has to go that it was taken over: on a
/// terminal that is to be sized every attach, on one that is not those that size
/// it and those of protocol 1 streams.
pub proof fn a_takeover_says_so(
    server: super::state::ServerModel,
    terminal_id: Seq<char>,
    geometry: TerminalAttachGeometry,
    i: int,
    k: int,
)
    requires
        server.app.running(terminal_id),
        0 <= i < server.control_connections.len(),
        0 <= k < server.control_connections[i].attaches.len(),
        server.control_connections[i].attaches[k].terminal_id == terminal_id,
        geometry == TerminalAttachGeometry::Terminal
            || server.control_connections[i].attaches[k].geometry
            == TerminalAttachGeometry::Terminal || server.control_connections[i].protocol <= 1,
    ensures
        ({
            let after = server.taken_over(terminal_id, geometry);
            exists|p: int|
                server.effects.len() <= p < after.effects.len() && #[trigger] after.effects[p]
                    == (super::state::EffectModel::DetachRaw {
                    terminal_id,
                    attach_id: server.control_connections[i].attaches[k].attach_id,
                    reason: TerminalDetachReason::Takeover,
                })
        }),
{
    let alone = server.without_direct_owner(terminal_id);
    let scope = if geometry == TerminalAttachGeometry::Terminal {
        super::state::EvictScope::All
    } else {
        super::state::EvictScope::TabFollowerTakeover
    };
    let after = server.taken_over(terminal_id, geometry);
    assert(alone.effects.len() >= server.effects.len());
    super::departures::a_takeover_ends_the_taps_of_the_evicted(
        alone,
        terminal_id,
        TerminalDetachReason::Takeover,
        scope,
        i,
        k,
    );
    let attach = server.control_connections[i].attaches[k];
    let p = choose|p: int|
        alone.effects.len() <= p < after.effects.len() && #[trigger] after.effects[p]
            == super::departures::detach_of(attach, TerminalDetachReason::Takeover);
    assert(after.effects[p] == super::departures::detach_of(
        attach,
        TerminalDetachReason::Takeover,
    ));
}

/// A stream of protocol 1 that attaches again is told that its attach on the
/// terminal was taken over. A later stream keeps what it has.
pub proof fn protocol_1_is_told_of_its_own_takeover(
    server: super::state::ServerModel,
    terminal_id: Seq<char>,
    i: int,
    k: int,
)
    requires
        server.wf(),
        server.app.running(terminal_id),
        0 <= i < server.control_connections.len(),
        0 <= k < server.control_connections[i].attaches.len(),
        server.control_connections[i].attaches[k].terminal_id == terminal_id,
    ensures
        ({
            let c = server.control_connections[i];
            let after = server.retired(c.connection_id, terminal_id);
            &&& c.protocol > 1 ==> after == server
            &&& c.protocol <= 1 ==> exists|p: int|
                server.effects.len() <= p < after.effects.len() && #[trigger] after.effects[p]
                    == (super::state::EffectModel::DetachRaw {
                    terminal_id,
                    attach_id: c.attaches[k].attach_id,
                    reason: TerminalDetachReason::Takeover,
                })
        }),
{
    let c = server.control_connections[i];
    super::soundness::lemma_connection_index(server, i);
    let here = super::attach::on_terminal(terminal_id);
    let own = c.attaches.filter(here);
    let reason = TerminalDetachReason::Takeover;
    c.attaches.lemma_filter_contains(here, k);
    if c.protocol <= 1 {
        let m = choose|m: int| 0 <= m < own.len() && own[m] == c.attaches[k];
        let without = server.with_connection(i, c.without(here));
        let released = without.released_attaches(own, reason);
        super::departures::lemma_each_released(without, own, reason, m);
        let p = choose|p: int|
            without.effects.len() <= p < released.effects.len() && #[trigger] released.effects[p]
                == super::departures::detach_of(own[m], reason);
        super::upkeep::lemma_both_syncs_extend(released, released, terminal_id);
        let after = server.retired(c.connection_id, terminal_id);
        assert(after.effects[p] == released.effects[p]);
    }
}

/// An attach that follows its tab locks nothing.
pub proof fn followers_lock_nothing(
    server: super::state::ServerModel,
    id: Seq<char>,
    i: int,
    terminal_id: Seq<char>,
    pane_id: Option<Seq<char>>,
    params: TerminalAttachParams,
)
    requires
        server.wf(),
        0 <= i < server.control_connections.len(),
        server.app.running(terminal_id),
        params.geometry == TerminalAttachGeometry::Tab || !server.app.registered(terminal_id),
    ensures
        server.joined(
            id,
            server.control_connections[i].connection_id,
            terminal_id,
            pane_id,
            params,
        ).0.direct_attach_resize_locks == server.direct_attach_resize_locks,
{
    super::soundness::lemma_connection_index(server, i);
    lemma_joined_protocol(
        server,
        id,
        server.control_connections[i].connection_id,
        terminal_id,
        pane_id,
        params,
    );
}

} // verus!
