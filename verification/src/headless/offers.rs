//! Who may answer a terminal's queries: only an attach that offered to, and of
//! those the one that comes first.

use vstd::prelude::*;

use super::dispatch::ControlMethod;
use crate::schema::{TerminalDetachReason, TerminalQueryAuthority};

verus! {

/// Whether the attach at `i`, `k` is on a terminal and offered to answer its
/// queries.
pub open spec fn offered(
    server: super::state::ServerModel,
    terminal_id: Seq<char>,
    i: int,
    k: int,
) -> bool {
    &&& 0 <= i < server.control_connections.len()
    &&& 0 <= k < server.control_connections[i].attaches.len()
    &&& server.control_connections[i].attaches[k].terminal_id == terminal_id
    &&& server.control_connections[i].attaches[k].answer_queries == TerminalQueryAuthority::Client
}

/// The candidate that the attach at `i`, `k` makes.
spec fn candidate_at(
    server: super::state::ServerModel,
    i: int,
    k: int,
) -> super::authority::CandidateModel {
    super::answering::candidate_of(
        server.control_connections[i],
        server.control_connections[i].attaches[k],
    )
}

/// A candidate is an attach that offered.
proof fn lemma_candidate_origin(
    server: super::state::ServerModel,
    terminal_id: Seq<char>,
    m: int,
) -> (place: (int, int))
    requires
        0 <= m < server.candidates(terminal_id).len(),
    ensures
        offered(server, terminal_id, place.0, place.1),
        server.candidates(terminal_id)[m] == candidate_at(server, place.0, place.1),
{
    let candidates = server.candidates(terminal_id);
    let step = |c: super::state::ConnectionModel| c.candidates(terminal_id);
    assert(candidates.contains(candidates[m]));
    let i = crate::find::lemma_flat_map_origin(server.control_connections, step, candidates[m]);
    let c = server.control_connections[i];
    let piece = c.candidates(terminal_id);
    assert(step(c) == piece);
    let at = choose|at: int| 0 <= at < piece.len() && piece[at] == candidates[m];
    let offers = |a: super::state::AttachModel|
        super::state::ConnectionModel::offers(a, terminal_id);
    let kept = c.attaches.filter(offers);
    c.attaches.lemma_filter_pred(offers, at);
    crate::find::lemma_filter_origin(c.attaches, offers, at);
    let k = choose|k: int| 0 <= k < c.attaches.len() && c.attaches[k] == kept[at];
    (i, k)
}

/// An attach that offered is a candidate.
proof fn lemma_candidate_of_offer(
    server: super::state::ServerModel,
    terminal_id: Seq<char>,
    i: int,
    k: int,
) -> (m: int)
    requires
        offered(server, terminal_id, i, k),
    ensures
        0 <= m < server.candidates(terminal_id).len(),
        server.candidates(terminal_id)[m] == candidate_at(server, i, k),
{
    let candidates = server.candidates(terminal_id);
    let step = |c: super::state::ConnectionModel| c.candidates(terminal_id);
    let c = server.control_connections[i];
    let offers = |a: super::state::AttachModel|
        super::state::ConnectionModel::offers(a, terminal_id);
    let kept = c.attaches.filter(offers);
    c.attaches.lemma_filter_contains(offers, k);
    let at = choose|at: int| 0 <= at < kept.len() && kept[at] == c.attaches[k];
    assert(c.candidates(terminal_id)[at] == candidate_at(server, i, k));
    assert(step(c).contains(candidate_at(server, i, k)));
    crate::find::lemma_flat_map_contains(
        server.control_connections,
        step,
        i,
        candidate_at(server, i, k),
    );
    choose|m: int| 0 <= m < candidates.len() && candidates[m] == candidate_at(server, i, k)
}

/// A candidate that is picked is one of the candidates.
proof fn lemma_picked(server: super::state::ServerModel, terminal_id: Seq<char>)
    ensures
        server.query_authority(terminal_id) matches Some(id) ==> exists|m: int|
            0 <= m < server.candidates(terminal_id).len() && (#[trigger] server.candidates(
                terminal_id,
            )[m]).attach_id == id,
{
    let candidates = server.candidates(terminal_id);
    let controller = match server.shell_geometry_controller_for_terminal(terminal_id) {
        Some((controller, _)) => Some(controller),
        None => None,
    };
    if server.query_authority(terminal_id) is Some {
        if candidates.len() > 0 {
            super::laws::protocol_1_answers_before_the_controller_before_the_oldest(
                server,
                terminal_id,
                0,
            );
        }
    }
}

/// The attach that answers a terminal's queries is on the terminal and asked to
/// answer them; a terminal whose attaches all left its queries to the server has
/// none.
pub proof fn only_an_attach_that_offered_answers(
    server: super::state::ServerModel,
    terminal_id: Seq<char>,
)
    ensures
        server.query_authority(terminal_id) matches Some(id) ==> exists|i: int, k: int| #[trigger]
            offered(server, terminal_id, i, k)
                && server.control_connections[i].attaches[k].attach_id == id,
        (forall|i: int, k: int| !#[trigger] offered(server, terminal_id, i, k))
            ==> server.query_authority(terminal_id) is None,
{
    lemma_picked(server, terminal_id);
    if let Some(id) = server.query_authority(terminal_id) {
        let m = choose|m: int|
            0 <= m < server.candidates(terminal_id).len() && (#[trigger] server.candidates(
                terminal_id,
            )[m]).attach_id == id;
        let (i, k) = lemma_candidate_origin(server, terminal_id, m);
        assert(offered(server, terminal_id, i, k));
    }
}

/// Whether a connection sizes the tab that shows a terminal.
pub open spec fn sizes_tab_of(
    server: super::state::ServerModel,
    terminal_id: Seq<char>,
    connection_id: u64,
) -> bool {
    match server.app.tab_of_terminal(terminal_id) {
        Some(tab_id) => server.tab_geometry_controllers.contains_key(tab_id)
            && server.tab_geometry_controllers[tab_id] == connection_id,
        None => false,
    }
}

/// If an attach on a terminal offered, one answers. Among the attaches that
/// offered, one of a protocol 1 stream comes before all others, then one of the
/// stream that sizes the terminal's tab, and of two alike the one that was made
/// first.
pub proof fn the_first_that_offered_answers(
    server: super::state::ServerModel,
    terminal_id: Seq<char>,
    j: int,
    l: int,
)
    requires
        offered(server, terminal_id, j, l),
    ensures
        exists|i: int, k: int|
            {
                let mine = server.control_connections[i];
                let theirs = server.control_connections[j];
                let sizing = |c: super::state::ConnectionModel|
                    sizes_tab_of(server, terminal_id, c.connection_id);
                let before = mine.attaches[k].order <= theirs.attaches[l].order;
                &&& #[trigger] offered(server, terminal_id, i, k)
                &&& server.query_authority(terminal_id) == Some(mine.attaches[k].attach_id)
                &&& theirs.protocol <= 1 ==> mine.protocol <= 1 && before
                &&& mine.protocol > 1 && sizing(theirs) ==> sizing(mine) && before
                &&& mine.protocol > 1 && !sizing(mine) ==> before
            },
{
    let n = lemma_candidate_of_offer(server, terminal_id, j, l);
    super::laws::protocol_1_answers_before_the_controller_before_the_oldest(
        server,
        terminal_id,
        n,
    );
    let candidates = server.candidates(terminal_id);
    let controller = match server.shell_geometry_controller_for_terminal(terminal_id) {
        Some((controller, _)) => Some(controller),
        None => None,
    };
    let m = choose|m: int|
        {
            &&& 0 <= m < candidates.len()
            &&& server.query_authority(terminal_id) == Some((#[trigger] candidates[m]).attach_id)
            &&& candidates[n].protocol <= 1 ==> candidates[m].protocol <= 1 && candidates[m].order
                <= candidates[n].order
            &&& candidates[m].protocol > 1 && Some(candidates[n].connection_id) == controller
                ==> Some(candidates[m].connection_id) == controller && candidates[m].order
                <= candidates[n].order
            &&& candidates[m].protocol > 1 && Some(candidates[m].connection_id) != controller
                ==> candidates[m].order <= candidates[n].order
        };
    let (i, k) = lemma_candidate_origin(server, terminal_id, m);
    assert(offered(server, terminal_id, i, k));
}

/// Whether no attach answers queries but one that offered to, and none has held
/// the right to send automatic replies but one that offered, nor holds it but
/// one that answers.
pub open spec fn answers_were_offered(server: super::state::ServerModel) -> bool {
    forall|i: int, k: int|
        0 <= i < server.control_connections.len() && 0 <= k
            < server.control_connections[i].attaches.len() ==> standing_was_offered(
            server.control_connections[i],
            #[trigger] server.control_connections[i].attaches[k],
        )
}

/// Whether an attach of a connection answers only if it offered, and holds or
/// held the right to send automatic replies only then.
pub open spec fn standing_was_offered(
    c: super::state::ConnectionModel,
    attach: super::state::AttachModel,
) -> bool {
    &&& attach.answers_queries ==> attach.answer_queries == TerminalQueryAuthority::Client
    &&& c.handle.inputs.contains_key(attach.attach_id) ==> {
        let entry = c.handle.inputs[attach.attach_id];
        &&& entry.authority ==> attach.answers_queries
        &&& entry.lost_at is Some ==> attach.answer_queries == TerminalQueryAuthority::Client
    }
}

/// Picking an answering attach gives standing only to one that offered.
proof fn lemma_pick_offered(server: super::state::ServerModel, terminal_id: Seq<char>)
    requires
        server.wf(),
        answers_were_offered(server),
    ensures
        answers_were_offered(server.synced_query_authority(terminal_id)),
{
    let after = server.synced_query_authority(terminal_id);
    let chosen = server.query_authority(terminal_id);
    only_an_attach_that_offered_answers(server, terminal_id);
    assert forall|i: int, k: int|
        0 <= i < after.control_connections.len() && 0 <= k
            < after.control_connections[i].attaches.len() implies standing_was_offered(
        after.control_connections[i],
        #[trigger] after.control_connections[i].attaches[k],
    ) by {
        let c = server.control_connections[i];
        let told = after.control_connections[i];
        assert(told == c.told(terminal_id, chosen, server.now));
        assert(c.wf());
        let was = c.attaches[k];
        let attach = told.attaches[k];
        assert(standing_was_offered(c, server.control_connections[i].attaches[k]));
        if was.terminal_id == terminal_id {
            if chosen == Some(was.attach_id) {
                let (j, l) = choose|j: int, l: int| #[trigger]
                    offered(server, terminal_id, j, l)
                        && server.control_connections[j].attaches[l].attach_id == was.attach_id;
                super::laws::attach_ids_are_unique(server, i, k, j, l);
            }
            assert(super::authority::attached_to(c.attaches, terminal_id, was.attach_id));
        } else if super::authority::attached_to(c.attaches, terminal_id, was.attach_id) {
            let m = choose|m: int|
                0 <= m < c.attaches.len() && (#[trigger] c.attaches[m]).terminal_id == terminal_id
                    && c.attaches[m].attach_id == was.attach_id;
            super::preservation::lemma_attach_ids_unique(c, k, m);
        }
    }
}

proof fn lemma_picks_offered(server: super::state::ServerModel, terminals: Seq<Seq<char>>)
    requires
        server.wf(),
        answers_were_offered(server),
    ensures
        answers_were_offered(server.synced_query_authorities(terminals)),
        server.synced_query_authorities(terminals).wf(),
    decreases terminals.len(),
{
    if terminals.len() > 0 {
        let rest = server.synced_query_authorities(terminals.drop_last());
        lemma_picks_offered(server, terminals.drop_last());
        lemma_pick_offered(rest, terminals.last());
        super::preservation::lemma_query_sync_wf(rest, terminals.last());
    }
}

/// Servers whose connections have the same attaches and input entries.
proof fn lemma_same_standing(
    before: super::state::ServerModel,
    after: super::state::ServerModel,
)
    requires
        answers_were_offered(before),
        after.control_connections.len() == before.control_connections.len(),
        forall|i: int|
            0 <= i < before.control_connections.len() ==> {
                &&& (#[trigger] after.control_connections[i]).attaches
                    == before.control_connections[i].attaches
                &&& after.control_connections[i].handle.inputs
                    == before.control_connections[i].handle.inputs
            },
    ensures
        answers_were_offered(after),
{
    assert forall|i: int, k: int|
        0 <= i < after.control_connections.len() && 0 <= k
            < after.control_connections[i].attaches.len() implies standing_was_offered(
        after.control_connections[i],
        #[trigger] after.control_connections[i].attaches[k],
    ) by {
        assert(after.control_connections[i].attaches == before.control_connections[i].attaches);
        assert(standing_was_offered(
            before.control_connections[i],
            before.control_connections[i].attaches[k],
        ));
    }
}

proof fn lemma_sync_offered(server: super::state::ServerModel)
    requires
        server.wf(),
        answers_were_offered(server),
    ensures
        answers_were_offered(server.synced_control_geometry_tabs()),
        server.synced_control_geometry_tabs().wf(),
{
    let mirrored = server.mirrored();
    let claims = mirrored.with_input_claims();
    lemma_same_standing(server, claims);
    assert(claims.wf()) by {
        let connections = server.control_connections;
        assert forall|i: int| 0 <= i < connections.len() implies (
        #[trigger] claims.control_connections[i]).bare() == connections[i].bare() by {
            let c = connections[i];
            let flagged = c.with_claims(mirrored.claiming_attaches(c));
            assert(claims.control_connections[i] == flagged);
            assert(flagged.bare().attaches =~= c.bare().attaches);
            assert(flagged.bare().handle.inputs =~= c.bare().handle.inputs);
        }
        assert(claims.bare().control_connections =~= server.bare().control_connections);
        assert(claims.bare() == server.bare());
        super::soundness::lemma_bare_wf(server, claims);
    }
    lemma_picks_offered(claims, server.terminals_changing_hands());
}

/// A connection without some attaches gives nobody standing.
proof fn lemma_without_offered(
    c: super::state::ConnectionModel,
    gone: spec_fn(super::state::AttachModel) -> bool,
    k: int,
)
    requires
        forall|l: int|
            0 <= l < c.attaches.len() ==> standing_was_offered(c, #[trigger] c.attaches[l]),
        0 <= k < c.without(gone).attaches.len(),
    ensures
        standing_was_offered(c.without(gone), c.without(gone).attaches[k]),
{
    let stays = |a: super::state::AttachModel| !gone(a);
    crate::find::lemma_filter_origin(c.attaches, stays, k);
    let kept = c.without(gone).attaches;
    let l = choose|l: int| 0 <= l < c.attaches.len() && c.attaches[l] == kept[k];
    assert(standing_was_offered(c, c.attaches[l]));
}

proof fn lemma_reduced_offered(
    server: super::state::ServerModel,
    i: int,
    gone: spec_fn(super::state::AttachModel) -> bool,
)
    requires
        answers_were_offered(server),
        0 <= i < server.control_connections.len(),
    ensures
        answers_were_offered(
            server.with_connection(i, server.control_connections[i].without(gone)),
        ),
{
    let c = server.control_connections[i];
    let after = server.with_connection(i, c.without(gone));
    assert forall|l: int| 0 <= l < c.attaches.len() implies standing_was_offered(
        c,
        #[trigger] c.attaches[l],
    ) by {
        assert(standing_was_offered(
            server.control_connections[i],
            server.control_connections[i].attaches[l],
        ));
    }
    assert forall|j: int, k: int|
        0 <= j < after.control_connections.len() && 0 <= k
            < after.control_connections[j].attaches.len() implies standing_was_offered(
        after.control_connections[j],
        #[trigger] after.control_connections[j].attaches[k],
    ) by {
        if j == i {
            lemma_without_offered(c, gone, k);
        } else {
            assert(after.control_connections[j] == server.control_connections[j]);
            assert(standing_was_offered(
                server.control_connections[j],
                server.control_connections[j].attaches[k],
            ));
        }
    }
}

proof fn lemma_pruned_offered(server: super::state::ServerModel, connection_id: u64)
    requires
        server.wf(),
        answers_were_offered(server),
    ensures
        answers_were_offered(server.pruned(connection_id)),
{
    super::soundness::lemma_open_connection(server, connection_id);
    if let Some(i) = server.connection_index(connection_id) {
        let c = server.control_connections[i];
        lemma_reduced_offered(server, i, server.gone());
        super::preservation::lemma_without_wf(c, server.gone());
        assert(server.control_connections[i].wf());
        super::preservation::lemma_replaced_one_wf(server, i, c.without(server.gone()));
        lemma_sync_offered(server.with_connection(i, c.without(server.gone())));
    }
}

/// Ending attaches of a connection, then picking and syncing, gives nobody
/// standing.
proof fn lemma_ended_offered(
    server: super::state::ServerModel,
    i: int,
    gone: spec_fn(super::state::AttachModel) -> bool,
    leavers: Seq<super::state::AttachModel>,
    reason: TerminalDetachReason,
    terminal_id: Seq<char>,
)
    requires
        server.wf(),
        answers_were_offered(server),
        0 <= i < server.control_connections.len(),
    ensures
        answers_were_offered(
            server.with_connection(
                i,
                server.control_connections[i].without(gone),
            ).released_attaches(leavers, reason).synced_query_authority(
                terminal_id,
            ).synced_control_geometry_tabs(),
        ),
{
    let c = server.control_connections[i];
    let without = server.with_connection(i, c.without(gone));
    let released = without.released_attaches(leavers, reason);
    assert(server.control_connections[i].wf());
    lemma_reduced_offered(server, i, gone);
    super::preservation::lemma_without_wf(c, gone);
    super::preservation::lemma_replaced_one_wf(server, i, c.without(gone));
    super::release::lemma_released_attaches_frame(without, leavers, reason);
    super::preservation::lemma_released_attaches_wf(without, leavers, reason);
    lemma_same_standing(without, released);
    lemma_pick_offered(released, terminal_id);
    super::preservation::lemma_query_sync_wf(released, terminal_id);
    lemma_sync_offered(released.synced_query_authority(terminal_id));
}

proof fn lemma_evicted_offered(
    server: super::state::ServerModel,
    terminal_id: Seq<char>,
    reason: TerminalDetachReason,
    scope: super::state::EvictScope,
)
    requires
        server.wf(),
        answers_were_offered(server),
    ensures
        answers_were_offered(server.evicted(terminal_id, reason, scope)),
{
    let connections = server.control_connections.map_values(
        |c: super::state::ConnectionModel| c.without(c.evictees(terminal_id, scope)),
    );
    let without = server.with_connections(connections);
    let leavers = server.control_connections.flat_map(
        |c: super::state::ConnectionModel| c.attaches.filter(c.evictees(terminal_id, scope)),
    );
    assert forall|i: int, k: int|
        0 <= i < without.control_connections.len() && 0 <= k
            < without.control_connections[i].attaches.len() implies standing_was_offered(
        without.control_connections[i],
        #[trigger] without.control_connections[i].attaches[k],
    ) by {
        let c = server.control_connections[i];
        assert forall|l: int| 0 <= l < c.attaches.len() implies standing_was_offered(
            c,
            #[trigger] c.attaches[l],
        ) by {
            assert(standing_was_offered(
                server.control_connections[i],
                server.control_connections[i].attaches[l],
            ));
        }
        lemma_without_offered(c, c.evictees(terminal_id, scope), k);
    }
    assert(without.wf()) by {
        assert forall|i: int| 0 <= i < connections.len() implies (#[trigger] connections[i]).wf()
            && connections[i].connection_id == server.control_connections[i].connection_id by {
            let c = server.control_connections[i];
            assert(c.wf());
            super::preservation::lemma_without_wf(c, c.evictees(terminal_id, scope));
        }
        assert forall|i: int, order: u64| 0 <= i < connections.len() && (
        #[trigger] connections[i].numbers(order)) implies server.control_connections[i].numbers(
            order,
        ) by {
            let c = server.control_connections[i];
            assert(c.wf());
            super::preservation::lemma_without_wf(c, c.evictees(terminal_id, scope));
            assert(connections[i] == c.without(c.evictees(terminal_id, scope)));
        }
        super::preservation::lemma_replaced_wf(server, connections);
    }
    let released = without.released_attaches(leavers, reason);
    super::release::lemma_released_attaches_frame(without, leavers, reason);
    super::preservation::lemma_released_attaches_wf(without, leavers, reason);
    lemma_same_standing(without, released);
    lemma_pick_offered(released, terminal_id);
    super::preservation::lemma_query_sync_wf(released, terminal_id);
    lemma_sync_offered(released.synced_query_authority(terminal_id));
}

proof fn lemma_joined_offered(
    server: super::state::ServerModel,
    id: Seq<char>,
    connection_id: u64,
    terminal_id: Seq<char>,
    pane_id: Option<Seq<char>>,
    params: crate::schema::TerminalAttachParams,
)
    requires
        server.wf(),
        server.attach_has_room(connection_id),
        answers_were_offered(server),
    ensures
        answers_were_offered(
            server.joined(id, connection_id, terminal_id, pane_id, params).0,
        ),
{
    super::soundness::lemma_open_connection(server, connection_id);
    if let Some(i) = server.connection_index(connection_id) {
        let c = server.control_connections[i];
        let after = server.joined(id, connection_id, terminal_id, pane_id, params).0;
        if server.app.running(terminal_id) {
            let attach = c.next(server.next_attach_order, terminal_id, params);
            let grown = super::state::ConnectionModel {
                attaches: c.attaches.push(attach),
                handle: c.handle.registered(attach.attach_id),
                next_attach: (c.next_attach + 1) as u64,
                ..c
            };
            let listed = server.drawn(terminal_id, params.geometry).with_connection(
                i,
                grown,
            ).with_effects(server.attach_effects(id, c, terminal_id, pane_id, params));
            assert(server.control_connections[i].wf());
            super::preservation::lemma_joined_wf(
                server,
                id,
                connection_id,
                terminal_id,
                pane_id,
                params,
            );
            super::soundness::lemma_query_sync_bare(listed, terminal_id);
            super::soundness::lemma_geometry_sync_bare(listed.synced_query_authority(terminal_id));
            super::soundness::lemma_bare_wf(after, listed);
            assert forall|j: int, k: int|
                0 <= j < listed.control_connections.len() && 0 <= k
                    < listed.control_connections[j].attaches.len() implies standing_was_offered(
                listed.control_connections[j],
                #[trigger] listed.control_connections[j].attaches[k],
            ) by {
                if j == i {
                    if k < c.attaches.len() {
                        assert(standing_was_offered(
                            server.control_connections[i],
                            server.control_connections[i].attaches[k],
                        ));
                        assert(grown.attaches[k] == c.attaches[k]);
                    } else {
                        assert(grown.attaches[k] == attach);
                    }
                } else {
                    assert(listed.control_connections[j] == server.control_connections[j]);
                    assert(standing_was_offered(
                        server.control_connections[j],
                        server.control_connections[j].attaches[k],
                    ));
                }
            }
            lemma_pick_offered(listed, terminal_id);
            super::preservation::lemma_query_sync_wf(listed, terminal_id);
            lemma_sync_offered(listed.synced_query_authority(terminal_id));
        } else {
            lemma_same_standing(server, after);
        }
    }
}

proof fn lemma_attached_offered(
    server: super::state::ServerModel,
    id: Seq<char>,
    connection_id: u64,
    params: crate::schema::TerminalAttachParams,
    resolved: super::attach::TargetModel,
)
    requires
        server.wf(),
        server.attach_has_room(connection_id),
        answers_were_offered(server),
    ensures
        answers_were_offered(server.attached_by(id, connection_id, params, resolved).0),
{
    if let Ok((terminal_id, pane_id)) = server.attach_target(params.target@, resolved) {
        let retired = server.retired(connection_id, terminal_id);
        super::soundness::lemma_open_connection(server, connection_id);
        if let Some(i) = server.connection_index(connection_id) {
            let here = super::attach::on_terminal(terminal_id);
            lemma_ended_offered(
                server,
                i,
                here,
                server.control_connections[i].attaches.filter(here),
                TerminalDetachReason::Takeover,
                terminal_id,
            );
        }
        assert(answers_were_offered(retired));
        super::preservation::lemma_cleared_wf(
            server,
            connection_id,
            terminal_id,
            params.geometry,
        );
        let alone = retired.without_direct_owner(terminal_id);
        lemma_same_standing(retired, alone);
        let scope = if params.geometry == crate::schema::TerminalAttachGeometry::Terminal {
            super::state::EvictScope::All
        } else {
            super::state::EvictScope::TabFollowerTakeover
        };
        super::preservation::lemma_alone_wf(retired, terminal_id);
        lemma_evicted_offered(alone, terminal_id, TerminalDetachReason::Takeover, scope);
        let cleared = if params.takeover {
            retired.taken_over(terminal_id, params.geometry)
        } else {
            retired
        };
        super::preservation::lemma_room_kept(server, cleared, connection_id);
        lemma_joined_offered(cleared, id, connection_id, terminal_id, pane_id, params);
    }
}

proof fn lemma_handed_over_offered(server: super::state::ServerModel, tabs: Seq<Seq<char>>)
    requires
        server.wf(),
        answers_were_offered(server),
    ensures
        answers_were_offered(server.handed_over(tabs)),
    decreases tabs.len(),
{
    if tabs.len() > 0 {
        let rest = server.handed_over(tabs.drop_last());
        lemma_handed_over_offered(server, tabs.drop_last());
        super::preservation::lemma_handed_over_wf(server, tabs.drop_last());
        if let Some(i) = rest.successor(tabs.last()) {
            assert(rest.is_successor(tabs.last(), i));
            let c = rest.control_connections[i];
            assert(rest.is_open(c.connection_id));
            lemma_claimed_offered(rest, c.connection_id, tabs.last(), c.tab_geometry[tabs.last()]);
        }
    }
}

proof fn lemma_claimed_offered(
    server: super::state::ServerModel,
    connection_id: u64,
    tab_id: Seq<char>,
    geometry: super::state::ControlTabGeometry,
)
    requires
        server.wf(),
        server.is_open(connection_id),
        answers_were_offered(server),
    ensures
        answers_were_offered(server.claimed(connection_id, tab_id, geometry)),
{
    let with = server.with_controller(tab_id, Some(connection_id));
    super::preservation::lemma_with_controller_wf(server, tab_id, Some(connection_id));
    super::soundness::lemma_geometry_sync_bare(with);
    super::soundness::lemma_bare_wf(with.synced_control_geometry_tabs(), with);
    lemma_same_standing(server, with);
    lemma_sync_offered(with);
    if server.app.parse_tab_id(tab_id) is Some {
        lemma_same_standing(
            with.synced_control_geometry_tabs(),
            server.claimed(connection_id, tab_id, geometry),
        );
    }
}

proof fn lemma_closed_offered(server: super::state::ServerModel, connection_id: u64)
    requires
        server.wf(),
        answers_were_offered(server),
    ensures
        answers_were_offered(server.released_connection(connection_id)),
{
    super::soundness::lemma_open_connection(server, connection_id);
    if let Some(i) = server.connection_index(connection_id) {
        let c = server.control_connections[i];
        let without = server.with_connections(server.control_connections.remove(i));
        let released = without.released_attaches(c.attaches, TerminalDetachReason::Closed);
        super::release::lemma_released_attaches_frame(
            without,
            c.attaches,
            TerminalDetachReason::Closed,
        );
        let disowned = released.disowned(connection_id);
        super::preservation::lemma_disowned_wf(server, connection_id);
        assert forall|j: int, k: int|
            0 <= j < disowned.control_connections.len() && 0 <= k
                < disowned.control_connections[j].attaches.len() implies standing_was_offered(
            disowned.control_connections[j],
            #[trigger] disowned.control_connections[j].attaches[k],
        ) by {
            let at = if j < i {
                j
            } else {
                j + 1
            };
            assert(disowned.control_connections[j] == server.control_connections[at]);
            assert(standing_was_offered(
                server.control_connections[at],
                server.control_connections[at].attaches[k],
            ));
        }
        let tabs = crate::find::ascending_members(server.owned_tabs(connection_id));
        let handed = disowned.handed_over(tabs);
        lemma_handed_over_offered(disowned, tabs);
        super::preservation::lemma_handed_over_wf(disowned, tabs);
        lemma_sync_offered(handed);
        let synced = handed.synced_control_geometry_tabs();
        let terminals = crate::find::distinct(c.attached_terminals());
        lemma_picks_offered(synced, terminals);
        lemma_same_standing(
            synced.synced_query_authorities(terminals),
            server.released_connection(connection_id),
        );
    }
}

/// Whatever requests come in, no attach answers a terminal's queries, or sends
/// automatic replies that reach it, that did not offer to answer: an observer
/// stays one.
pub proof fn observers_never_answer(
    server: super::state::ServerModel,
    id: Seq<char>,
    stream: Option<u64>,
    method: ControlMethod,
)
    requires
        server.wf(),
        server.has_room(stream, method),
        answers_were_offered(server),
    ensures
        answers_were_offered(server.handled(id, stream, method).0),
{
    let after = server.handled(id, stream, method).0;
    let asking = stream->Some_0;
    let pruned = server.pruned(asking);
    super::succession::lemma_pruned_sizes(server, asking);
    lemma_pruned_offered(server, asking);
    super::preservation::lemma_pruned_wf(server, asking);
    super::soundness::lemma_open_connection(pruned, asking);
    match method {
        ControlMethod::ControlOpen { params } => {
            if stream == Some(0u64) {
                assert forall|j: int, k: int|
                    0 <= j < after.control_connections.len() && 0 <= k
                        < after.control_connections[j].attaches.len() implies standing_was_offered(
                    after.control_connections[j],
                    #[trigger] after.control_connections[j].attaches[k],
                ) by {
                    assert(after.control_connections[j] == server.control_connections[j]);
                    assert(standing_was_offered(
                        server.control_connections[j],
                        server.control_connections[j].attaches[k],
                    ));
                }
            }
        },
        ControlMethod::ControlClose => {
            if let Some(closed) = stream {
                lemma_closed_offered(server, closed);
            }
        },
        ControlMethod::TerminalAttach { params, resolved } => {
            if server.stream_refusal(stream) is None {
                super::soundness::lemma_pruned_frames(server, asking);
                super::preservation::lemma_room_kept(server, pruned, asking);
                lemma_attached_offered(pruned, id, asking, params, resolved@);
            }
        },
        ControlMethod::TerminalDetach { params } => {
            if server.stream_refusal(stream) is None {
                let gone = super::requests::named(params.attach_id@);
                if let Some(i) = pruned.connection_index(asking) {
                    let c = pruned.control_connections[i];
                    if let Some(attach) = c.attach(params.attach_id@) {
                        lemma_ended_offered(
                            pruned,
                            i,
                            gone,
                            c.attaches.filter(gone),
                            TerminalDetachReason::Closed,
                            attach.terminal_id,
                        );
                    }
                }
            }
        },
        ControlMethod::TerminalResize { params } => {
            if server.stream_refusal(stream) is None {
                lemma_same_standing(pruned, after);
            }
        },
        ControlMethod::TabSetGeometry { params } => {
            if server.stream_refusal(stream) is None {
                if let Some(i) = pruned.connection_index(asking) {
                    let c = pruned.control_connections[i];
                    let geometry = super::requests::stored_geometry(
                        c,
                        params,
                        pruned.next_activity_stamp,
                    );
                    lemma_stored_offered(pruned, i, params.tab_id@, geometry);
                }
                lemma_same_standing(pruned, pruned.stamped());
            }
        },
        ControlMethod::TabClaimGeometry { params } => {
            if server.stream_refusal(stream) is None {
                if let Some(i) = pruned.connection_index(asking) {
                    if let Ok(tab_id) = pruned.claimed_tab(asking, params) {
                        let c = pruned.control_connections[i];
                        let geometry = super::state::ControlTabGeometry {
                            last_interaction: pruned.next_activity_stamp,
                            ..c.tab_geometry[tab_id]
                        };
                        lemma_stored_offered(pruned, i, tab_id, geometry);
                    }
                }
                lemma_same_standing(pruned, pruned.stamped());
            }
        },
        _ => {},
    }
}

proof fn lemma_stored_offered(
    server: super::state::ServerModel,
    i: int,
    tab_id: Seq<char>,
    geometry: super::state::ControlTabGeometry,
)
    requires
        server.wf(),
        0 <= i < server.control_connections.len(),
        answers_were_offered(server),
    ensures
        ({
            let c = server.control_connections[i];
            let stored = server.stamped().with_connection(i, c.with_tab(tab_id, geometry));
            answers_were_offered(stored.claimed(c.connection_id, tab_id, geometry))
                && answers_were_offered(stored.synced_control_geometry_tabs())
        }),
{
    let c = server.control_connections[i];
    let stored = server.stamped().with_connection(i, c.with_tab(tab_id, geometry));
    super::preservation::lemma_stored_wf(server, i, tab_id, geometry);
    super::soundness::lemma_geometry_sync_bare(stored);
    super::soundness::lemma_bare_wf(stored.synced_control_geometry_tabs(), stored);
    lemma_same_standing(server, stored);
    assert(stored.control_connections[i].connection_id == c.connection_id);
    assert(stored.is_open(c.connection_id));
    lemma_claimed_offered(stored, c.connection_id, tab_id, geometry);
    lemma_sync_offered(stored);
}

/// Nobody answers in a server without connections.
pub proof fn nobody_answers_at_first(
    client_shell_boot_id: Seq<char>,
    version: Seq<char>,
    protocol_version: u32,
    effective_size: (u16, u16),
)
    ensures
        answers_were_offered(
            super::state::ServerModel::fresh(
                client_shell_boot_id,
                version,
                protocol_version,
                effective_size,
            ),
        ),
{
}

/// What a running terminal is told is what the streams are: the attach named is
/// the one on the terminal that answers, and nobody answers when none is named.
pub proof fn the_terminal_and_the_streams_are_told_the_same(
    server: super::state::ServerModel,
    terminal_id: Seq<char>,
    i: int,
    k: int,
)
    requires
        server.wf(),
        server.app.running(terminal_id),
        0 <= i < server.control_connections.len(),
        0 <= k < server.control_connections[i].attaches.len(),
        server.control_connections[i].attaches[k].terminal_id == terminal_id,
    ensures
        ({
            let after = server.synced_query_authority(terminal_id);
            let c = after.control_connections[i];
            let attach = c.attaches[k];
            &&& after.effects.len() == server.effects.len() + 1
            &&& after.effects.last() matches super::state::EffectModel::SetRawQueryAuthority {
                terminal_id: told,
                attach_id,
            }
            &&& told == terminal_id
            &&& attach.answers_queries <==> attach_id == Some(attach.attach_id)
            &&& attach.answers_queries ==> attach.answer_queries == TerminalQueryAuthority::Client
            &&& c.handle.inputs.contains_key(attach.attach_id)
            &&& c.handle.inputs[attach.attach_id].authority <==> attach.answers_queries
        }),
{
    super::laws::the_picked_attach_answers(server, terminal_id, i, k);
    only_an_attach_that_offered_answers(server, terminal_id);
    let after = server.synced_query_authority(terminal_id);
    let was = server.control_connections[i].attaches[k];
    if server.query_authority(terminal_id) == Some(was.attach_id) {
        let (j, l) = choose|j: int, l: int| #[trigger]
            offered(server, terminal_id, j, l)
                && server.control_connections[j].attaches[l].attach_id == was.attach_id;
        super::laws::attach_ids_are_unique(server, i, k, j, l);
    }
    assert(after.control_connections[i] == server.control_connections[i].told(
        terminal_id,
        server.query_authority(terminal_id),
        server.now,
    ));
}

} // verus!
