//! Which requests a stream is granted, and what refuses the others.

use vstd::prelude::*;

use super::dispatch::ControlMethod;
use crate::schema::{
    ErrorCode, TabClaimGeometryParams, TabSetGeometryParams, TerminalAttachGeometry,
    TerminalAttachTarget, TerminalResizeParams,
};

verus! {

/// Whether a stream is one that is open.
pub open spec fn is_open(server: super::state::ServerModel, stream: Option<u64>) -> bool {
    stream matches Some(connection_id) && connection_id != 0 && exists|i: int|
        0 <= i < server.control_connections.len() && (
        #[trigger] server.control_connections[i]).connection_id == connection_id
}

/// Attaching, detaching, sizing, claiming and snapshots are for open streams;
/// without one the request is refused and changes nothing. Input never comes this
/// way.
pub proof fn requests_need_an_open_stream(
    server: super::state::ServerModel,
    id: Seq<char>,
    stream: Option<u64>,
    method: ControlMethod,
)
    requires
        server.wf(),
        method is TerminalInput || (!is_open(server, stream) && (method is TerminalAttach
            || method is TerminalDetach || method is TerminalSnapshot || method is TerminalResize
            || method is TabSetGeometry || method is TabClaimGeometry)),
    ensures
        server.handled(id, stream, method).0 == server,
        server.handled(id, stream, method).1 == super::arrivals::refusal(
            id,
            ErrorCode::ControlStreamRequired,
            if method is TerminalInput {
                "terminal.input is only available on a control stream"@
            } else if stream is None {
                "this method is only available on a control stream"@
            } else {
                "control stream is not open"@
            },
        ),
{
    if !(method is TerminalInput) {
        if let Some(connection_id) = stream {
            super::soundness::lemma_open_connection(server, connection_id);
        }
    }
}

/// Whether the attach at `k` of the connection at `i` is of that name, on a
/// running terminal.
pub open spec fn is_live(
    server: super::state::ServerModel,
    i: int,
    attach_id: Seq<char>,
    k: int,
) -> bool {
    &&& 0 <= k < server.control_connections[i].attaches.len()
    &&& server.control_connections[i].attaches[k].attach_id == attach_id
    &&& server.app.running(server.control_connections[i].attaches[k].terminal_id)
}

/// The attach of a live name is found, and no other.
pub proof fn lemma_live(
    server: super::state::ServerModel,
    i: int,
    attach_id: Seq<char>,
)
    requires
        server.wf(),
        0 <= i < server.control_connections.len(),
    ensures
        ({
            let connection_id = server.control_connections[i].connection_id;
            let found = server.pruned(connection_id).attach_of(connection_id, attach_id);
            &&& connection_id != 0
            &&& server.connection_index(connection_id) == Some(i)
            &&& server.pruned(connection_id).connection_index(connection_id) == Some(i)
            &&& found is Some <==> exists|k: int| is_live(server, i, attach_id, k)
            &&& forall|k: int| #[trigger]
                is_live(server, i, attach_id, k) ==> found is Some && found->Some_0.bare()
                    == server.control_connections[i].attaches[k].bare()
        }),
{
    let c = server.control_connections[i];
    let connection_id = c.connection_id;
    let pruned = server.pruned(connection_id);
    let found = pruned.attach_of(connection_id, attach_id);
    assert(c.wf());
    super::soundness::lemma_connection_index(server, i);
    super::succession::lemma_pruned_sizes(server, connection_id);
    super::soundness::lemma_pruned_frames(server, connection_id);
    let d = pruned.control_connections[i];
    let wanted = |a: super::state::AttachModel| a.attach_id == attach_id;
    crate::find::lemma_first_index(d.attaches, wanted);
    if found is Some {
        let m = d.attach_index(attach_id)->Some_0;
        super::succession::lemma_named_attach(server, i, attach_id);
        let k = choose|k: int|
            0 <= k < c.attaches.len() && (#[trigger] c.attaches[k]).attach_id == attach_id
                && c.attaches[k].bare() == found->Some_0.bare();
        super::departures::lemma_pruned_running(server, i, m);
        assert(is_live(server, i, attach_id, k));
    }
    assert forall|k: int| #[trigger] is_live(server, i, attach_id, k) implies found is Some
        && found->Some_0.bare() == c.attaches[k].bare() by {
        let gone = server.gone();
        if c.attaches.filter(gone).len() > 0 {
            let stays = |a: super::state::AttachModel| !gone(a);
            let without = server.with_connection(i, c.without(gone));
            super::soundness::lemma_geometry_sync_bare(without);
            super::soundness::lemma_bare_connections(pruned, without);
            super::soundness::lemma_bare_connection(d, c.without(gone));
            c.attaches.lemma_filter_contains(stays, k);
            let kept = c.attaches.filter(stays);
            let m = choose|m: int| 0 <= m < kept.len() && kept[m] == c.attaches[k];
            assert(d.attaches[m].bare() == kept[m].bare());
            assert(d.attaches[m].attach_id == attach_id);
            assert(wanted(d.attaches[m]));
        } else {
            assert(wanted(d.attaches[k]));
        }
        super::succession::lemma_named_attach(server, i, attach_id);
        let k2 = choose|k2: int|
            0 <= k2 < c.attaches.len() && (#[trigger] c.attaches[k2]).attach_id == attach_id
                && c.attaches[k2].bare() == found->Some_0.bare();
        super::laws::attach_ids_are_unique(server, i, k, i, k2);
    }
}

/// A name of no live attach of the stream is refused as unknown, by snapshots, by
/// resizes, by claims through it and when it is to be detached.
pub proof fn a_dead_attach_is_unknown(
    server: super::state::ServerModel,
    id: Seq<char>,
    i: int,
    target: TerminalAttachTarget,
    size: TerminalResizeParams,
    claim: TabClaimGeometryParams,
)
    requires
        server.wf(),
        0 <= i < server.control_connections.len(),
        size.attach_id@ == target.attach_id@,
        claim.tab_id is None && claim.attach_id is Some && claim.attach_id->Some_0@
            == target.attach_id@,
        forall|k: int| !#[trigger] is_live(server, i, target.attach_id@, k),
    ensures
        ({
            let stream = Some(server.control_connections[i].connection_id);
            let unknown = super::arrivals::refusal(
                id,
                ErrorCode::UnknownAttach,
                "attach "@ + target.attach_id@ + " is not live"@,
            );
            &&& server.handled(id, stream, ControlMethod::TerminalDetach { params: target }).1
                == unknown
            &&& server.handled(id, stream, ControlMethod::TerminalSnapshot { params: target }).1
                == unknown
            &&& server.handled(id, stream, ControlMethod::TerminalResize { params: size }).1
                == unknown
            &&& server.handled(id, stream, ControlMethod::TabClaimGeometry { params: claim }).1
                == unknown
        }),
{
    lemma_live(server, i, target.attach_id@);
}

/// A snapshot of a live attach is taken of its terminal, with its history, for
/// it.
pub proof fn a_live_attach_gets_its_snapshot(
    server: super::state::ServerModel,
    id: Seq<char>,
    i: int,
    k: int,
    target: TerminalAttachTarget,
)
    requires
        server.wf(),
        0 <= i < server.control_connections.len(),
        is_live(server, i, target.attach_id@, k),
    ensures
        ({
            let stream = Some(server.control_connections[i].connection_id);
            let attach = server.control_connections[i].attaches[k];
            server.handled(id, stream, ControlMethod::TerminalSnapshot { params: target }).1
                == super::dispatch::AnswerModel::TakeSnapshot {
                id,
                terminal_id: attach.terminal_id,
                attach_id: attach.attach_id,
                history_limit_bytes: attach.history_limit_bytes,
            }
        }),
{
    lemma_live(server, i, target.attach_id@);
    super::succession::lemma_pruned_sizes(server, server.control_connections[i].connection_id);
}

/// A live attach that sizes its terminal resizes it as asked, to a size that is
/// not empty. One that follows its tab resizes nothing.
pub proof fn a_live_attach_resizes_its_terminal(
    server: super::state::ServerModel,
    id: Seq<char>,
    i: int,
    k: int,
    params: TerminalResizeParams,
)
    requires
        server.wf(),
        0 <= i < server.control_connections.len(),
        is_live(server, i, params.attach_id@, k),
    ensures
        ({
            let stream = Some(server.control_connections[i].connection_id);
            let attach = server.control_connections[i].attaches[k];
            let outcome = server.handled(id, stream, ControlMethod::TerminalResize { params });
            if attach.geometry == TerminalAttachGeometry::Tab {
                outcome.1 == super::arrivals::refusal(
                    id,
                    ErrorCode::GeometryFollowsTab,
                    "this attach follows its tab layout; use tab.set_geometry"@,
                )
            } else if params.cols == 0 || params.rows == 0 {
                outcome.1 == super::arrivals::refusal(
                    id,
                    ErrorCode::InvalidRequest,
                    "terminal.resize cols and rows must be greater than 0"@,
                )
            } else {
                &&& outcome.1 == super::succession::done(id)
                &&& outcome.0.effects.len() > server.effects.len()
                &&& outcome.0.effects.last() == super::state::EffectModel::ResizeTerminal {
                    terminal_id: attach.terminal_id,
                    rows: params.rows,
                    cols: params.cols,
                    cell_width_px: params.cell_width_px,
                    cell_height_px: params.cell_height_px,
                }
            }
        }),
{
    let connection_id = server.control_connections[i].connection_id;
    lemma_live(server, i, params.attach_id@);
    super::succession::lemma_pruned_sizes(server, connection_id);
    super::upkeep::lemma_pruned_extends(server, connection_id);
}

/// A size for a tab is stored if it is not empty and the tab exists.
pub proof fn sizes_are_for_tabs_that_exist(
    server: super::state::ServerModel,
    id: Seq<char>,
    i: int,
    params: TabSetGeometryParams,
)
    requires
        server.wf(),
        0 <= i < server.control_connections.len(),
    ensures
        ({
            let stream = Some(server.control_connections[i].connection_id);
            let answer = server.handled(id, stream, ControlMethod::TabSetGeometry { params }).1;
            if params.cols == 0 || params.rows == 0 {
                answer == super::arrivals::refusal(
                    id,
                    ErrorCode::InvalidRequest,
                    "tab.set_geometry cols and rows must be greater than 0"@,
                )
            } else if server.app.parse_tab_id(params.tab_id@) is None {
                answer == super::arrivals::refusal(
                    id,
                    ErrorCode::NotFound,
                    "tab "@ + params.tab_id@ + " not found"@,
                )
            } else {
                answer == super::succession::done(id)
            }
        }),
{
    lemma_live(server, i, Seq::empty());
    super::succession::lemma_pruned_sizes(server, server.control_connections[i].connection_id);
}

/// Whether a claim names a tab: itself, or else through a live attach on one of
/// the tab's terminals.
pub open spec fn names_tab(
    server: super::state::ServerModel,
    i: int,
    params: TabClaimGeometryParams,
    tab_id: Seq<char>,
) -> bool {
    match (params.tab_id, params.attach_id) {
        (Some(named), _) => named@ == tab_id,
        (None, Some(attach_id)) => exists|k: int| #[trigger]
            is_live(server, i, attach_id@, k) && server.app.tab_of_terminal(
                server.control_connections[i].attaches[k].terminal_id,
            ) == Some(tab_id),
        (None, None) => false,
    }
}

/// A claim is granted for a tab that exists and that the stream stored a size
/// for.
pub proof fn claims_are_for_stored_sizes(
    server: super::state::ServerModel,
    id: Seq<char>,
    i: int,
    params: TabClaimGeometryParams,
    tab_id: Seq<char>,
)
    requires
        server.wf(),
        0 <= i < server.control_connections.len(),
        names_tab(server, i, params, tab_id),
    ensures
        ({
            let c = server.control_connections[i];
            let answer = server.handled(
                id,
                Some(c.connection_id),
                ControlMethod::TabClaimGeometry { params },
            ).1;
            if server.app.parse_tab_id(tab_id) is None {
                answer == super::arrivals::refusal(
                    id,
                    ErrorCode::NotFound,
                    "tab "@ + tab_id + " not found"@,
                )
            } else if !c.tab_geometry.contains_key(tab_id) {
                answer == super::arrivals::refusal(
                    id,
                    ErrorCode::NoGeometry,
                    "no size stored for tab "@ + tab_id + "; send tab.set_geometry first"@,
                )
            } else {
                answer == super::succession::done(id)
            }
        }),
{
    let attach_id = match params.attach_id {
        Some(attach_id) => attach_id@,
        None => Seq::empty(),
    };
    lemma_live(server, i, attach_id);
    super::succession::lemma_pruned_sizes(server, server.control_connections[i].connection_id);
}

/// A claim that names neither a tab nor an attach is refused, and one through an
/// attach whose terminal is in no tab.
pub proof fn claims_name_a_tab(
    server: super::state::ServerModel,
    id: Seq<char>,
    i: int,
    params: TabClaimGeometryParams,
    k: int,
)
    requires
        server.wf(),
        0 <= i < server.control_connections.len(),
        params.tab_id is None,
        params.attach_id matches Some(attach_id) ==> is_live(server, i, attach_id@, k)
            && server.app.tab_of_terminal(
            server.control_connections[i].attaches[k].terminal_id,
        ) is None,
    ensures
        ({
            let stream = Some(server.control_connections[i].connection_id);
            server.handled(id, stream, ControlMethod::TabClaimGeometry { params }).1 == (
            if params.attach_id is None {
                super::arrivals::refusal(
                    id,
                    ErrorCode::InvalidRequest,
                    "tab.claim_geometry needs tab_id or attach_id"@,
                )
            } else {
                super::arrivals::refusal(
                    id,
                    ErrorCode::NotFound,
                    "terminal "@ + server.control_connections[i].attaches[k].terminal_id
                        + " is not in a tab"@,
                )
            })
        }),
{
    let attach_id = match params.attach_id {
        Some(attach_id) => attach_id@,
        None => Seq::empty(),
    };
    lemma_live(server, i, attach_id);
    super::succession::lemma_pruned_sizes(server, server.control_connections[i].connection_id);
}

/// A live attach is detached when asked for: it is gone from its stream and takes
/// no input any more. Every other live attach of the stream stays.
pub proof fn a_live_attach_is_detached(
    server: super::state::ServerModel,
    id: Seq<char>,
    i: int,
    k: int,
    target: TerminalAttachTarget,
)
    requires
        server.wf(),
        0 <= i < server.control_connections.len(),
        is_live(server, i, target.attach_id@, k),
    ensures
        ({
            let stream = Some(server.control_connections[i].connection_id);
            let outcome = server.handled(
                id,
                stream,
                ControlMethod::TerminalDetach { params: target },
            );
            let d = outcome.0.control_connections[i];
            &&& outcome.1 == super::succession::done(id)
            &&& outcome.0.control_connections.len() == server.control_connections.len()
            &&& d.connection_id == server.control_connections[i].connection_id
            &&& !d.lists(target.attach_id@)
            &&& !d.handle.inputs.contains_key(target.attach_id@)
            &&& forall|attach_id: Seq<char>, m: int| #[trigger]
                is_live(server, i, attach_id, m) && attach_id != target.attach_id@ ==> d.lists(
                    attach_id,
                ) && d.handle.inputs.contains_key(attach_id)
        }),
{
    let c = server.control_connections[i];
    let connection_id = c.connection_id;
    let attach_id = target.attach_id@;
    lemma_live(server, i, attach_id);
    let pruned = server.pruned(connection_id);
    super::succession::lemma_pruned_sizes(server, connection_id);
    super::preservation::lemma_pruned_wf(server, connection_id);
    let named = super::requests::named(attach_id);
    let others = |a: super::state::AttachModel| !named(a);
    let p = pruned.control_connections[i];
    let attach = pruned.attach_of(connection_id, attach_id)->Some_0;
    let without = pruned.with_connection(i, p.without(named));
    let leavers = p.attaches.filter(named);
    let reason = crate::schema::TerminalDetachReason::Closed;
    let released = without.released_attaches(leavers, reason);
    super::release::lemma_released_attaches_frame(without, leavers, reason);
    let synced = released.synced_query_authority(attach.terminal_id);
    super::soundness::lemma_query_sync_bare(released, attach.terminal_id);
    super::soundness::lemma_geometry_sync_bare(synced);
    let after = synced.synced_control_geometry_tabs();
    assert(after == server.terminal_detached(id, Some(connection_id), attach_id).0);
    super::soundness::lemma_bare_connections(after, released);
    let d = after.control_connections[i];
    super::soundness::lemma_bare_connection(d, p.without(named));
    super::preservation::lemma_terminal_detached_wf(server, id, Some(connection_id), attach_id);
    assert(d.wf());
    let kept = p.attaches.filter(others);
    assert forall|m: int| 0 <= m < d.attaches.len() implies (#[trigger] d.attaches[m]).attach_id
        != attach_id by {
        assert(d.attaches[m].bare() == kept[m].bare());
        p.attaches.lemma_filter_pred(others, m);
        assert(others(kept[m]));
    }
    assert forall|other: Seq<char>, m: int| #[trigger]
        is_live(server, i, other, m) && other != attach_id implies d.lists(other) by {
        lemma_live(server, i, other);
        let wanted = |a: super::state::AttachModel| a.attach_id == other;
        crate::find::lemma_first_index(p.attaches, wanted);
        let q = p.attach_index(other)->Some_0;
        p.attaches.lemma_filter_contains(others, q);
        let r = choose|r: int| 0 <= r < kept.len() && kept[r] == p.attaches[q];
        assert(d.attaches[r].bare() == kept[r].bare());
        assert(d.attaches[r].attach_id == other);
    }
}

} // verus!
