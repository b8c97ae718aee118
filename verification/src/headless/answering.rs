//! Who answers a terminal's queries while attaches come.

use vstd::prelude::*;

use super::authority::AnsweringGroup;
use crate::schema::{TerminalAttachParams, TerminalQueryAuthority};

verus! {

/// A newer candidate does not become the oldest of a group that has one, and
/// changes nothing for a group it does not belong to.
proof fn lemma_newer_candidate(
    group: AnsweringGroup,
    candidates: Seq<super::authority::CandidateModel>,
    at: int,
    newer: super::authority::CandidateModel,
)
    requires
        0 <= at <= candidates.len(),
        forall|k: int| 0 <= k < candidates.len() ==> (#[trigger] candidates[k]).order < newer.order,
    ensures
        group.oldest(candidates) is Some ==> group.oldest(candidates.insert(at, newer))
            == group.oldest(candidates),
        !group.takes(newer) ==> group.oldest(candidates.insert(at, newer)) == group.oldest(
            candidates,
        ),
{
    let with = candidates.insert(at, newer);
    if group.oldest(candidates) is Some {
        let k = choose|k: int| group.is_oldest(candidates, k);
        assert(group.is_oldest(candidates, k));
        let moved: int = if k < at {
            k
        } else {
            k + 1
        };
        assert(with[moved] == candidates[k]);
        assert forall|j: int| 0 <= j < with.len() && group.takes(#[trigger] with[j]) implies (
        with[moved].order < with[j].order || (with[moved].order == with[j].order && moved <= j)) by {
            if j < at {
                assert(with[j] == candidates[j]);
            } else if j > at {
                assert(with[j] == candidates[j - 1]);
            }
        }
        assert(group.is_oldest(with, moved));
        super::authority::lemma_oldest_unique(group, with, moved);
    } else if !group.takes(newer) && group.oldest(with) is Some {
        let j = choose|j: int| group.is_oldest(with, j);
        assert(group.is_oldest(with, j));
        let from: int = if j < at {
            j
        } else {
            j - 1
        };
        assert(with[j] == candidates[from]);
        let m = super::authority::lemma_oldest_exists(group, candidates, from);
        assert(group.is_oldest(candidates, m));
    }
}

/// What attaches offer does not depend on derived state.
pub proof fn lemma_offers_from_bare(
    left: super::state::ConnectionModel,
    right: super::state::ConnectionModel,
    terminal_id: Seq<char>,
)
    requires
        left.bare() == right.bare(),
    ensures
        left.candidates(terminal_id) == right.candidates(terminal_id),
{
    super::soundness::lemma_bare_connection(left, right);
    lemma_offers_of_prefix(left, right, terminal_id, left.attaches.len() as int);
    assert(left.attaches.take(left.attaches.len() as int) =~= left.attaches);
    assert(right.attaches.take(right.attaches.len() as int) =~= right.attaches);
}

/// The first `n` attaches offer the same when only derived state differs.
proof fn lemma_offers_of_prefix(
    left: super::state::ConnectionModel,
    right: super::state::ConnectionModel,
    terminal_id: Seq<char>,
    n: int,
)
    requires
        left.bare() == right.bare(),
        0 <= n <= left.attaches.len(),
    ensures
        n <= right.attaches.len(),
        (super::state::ConnectionModel { attaches: left.attaches.take(n), ..left }).candidates(
            terminal_id,
        ) == (super::state::ConnectionModel {
            attaches: right.attaches.take(n),
            ..right
        }).candidates(terminal_id),
    decreases n,
{
    super::soundness::lemma_bare_connection(left, right);
    let l = super::state::ConnectionModel { attaches: left.attaches.take(n), ..left };
    let r = super::state::ConnectionModel { attaches: right.attaches.take(n), ..right };
    if n == 0 {
        assert(l.candidates(terminal_id) =~= r.candidates(terminal_id));
    } else {
        lemma_offers_of_prefix(left, right, terminal_id, n - 1);
        let a = left.attaches[n - 1];
        let b = right.attaches[n - 1];
        assert(a.bare() == b.bare());
        assert(left.attaches.take(n) =~= left.attaches.take(n - 1).push(a));
        assert(right.attaches.take(n) =~= right.attaches.take(n - 1).push(b));
        lemma_one_more_offer(
            super::state::ConnectionModel { attaches: left.attaches.take(n - 1), ..left },
            a,
            terminal_id,
        );
        lemma_one_more_offer(
            super::state::ConnectionModel { attaches: right.attaches.take(n - 1), ..right },
            b,
            terminal_id,
        );
    }
}

/// The candidate that an attach of a connection makes.
pub open spec fn candidate_of(
    c: super::state::ConnectionModel,
    attach: super::state::AttachModel,
) -> super::authority::CandidateModel {
    super::authority::CandidateModel {
        connection_id: c.connection_id,
        attach_id: attach.attach_id,
        protocol: c.protocol,
        order: attach.order,
    }
}

/// One more attach is one more candidate, if it offers to answer.
pub proof fn lemma_one_more_offer(
    c: super::state::ConnectionModel,
    attach: super::state::AttachModel,
    terminal_id: Seq<char>,
)
    ensures
        (super::state::ConnectionModel { attaches: c.attaches.push(attach), ..c }).candidates(
            terminal_id,
        ) == (if super::state::ConnectionModel::offers(attach, terminal_id) {
            c.candidates(terminal_id).push(candidate_of(c, attach))
        } else {
            c.candidates(terminal_id)
        }),
{
    let offers = |a: super::state::AttachModel|
        super::state::ConnectionModel::offers(a, terminal_id);
    c.attaches.lemma_filter_push(attach, offers);
    let grown = super::state::ConnectionModel { attaches: c.attaches.push(attach), ..c };
    assert(grown.candidates(terminal_id) =~= (if offers(attach) {
        c.candidates(terminal_id).push(candidate_of(c, attach))
    } else {
        c.candidates(terminal_id)
    }));
}

/// Where a list of connections offers one more candidate, at one of them, the
/// list of all candidates has it inserted.
proof fn lemma_inserted_candidate(
    before: Seq<super::state::ConnectionModel>,
    after: Seq<super::state::ConnectionModel>,
    terminal_id: Seq<char>,
    i: int,
    newer: super::authority::CandidateModel,
    n: int,
) -> (at: int)
    requires
        before.len() == after.len(),
        0 <= i < before.len(),
        0 <= n <= before.len(),
        forall|j: int|
            0 <= j < before.len() && j != i ==> (#[trigger] after[j]).candidates(terminal_id)
                == before[j].candidates(terminal_id),
        after[i].candidates(terminal_id) == before[i].candidates(terminal_id).push(newer),
    ensures
        ({
            let offered = |c: super::state::ConnectionModel| c.candidates(terminal_id);
            let had = before.take(n).flat_map(offered);
            let has = after.take(n).flat_map(offered);
            if n <= i {
                has == had
            } else {
                0 <= at <= had.len() && has == had.insert(at, newer)
            }
        }),
    decreases n,
{
    let offered = |c: super::state::ConnectionModel| c.candidates(terminal_id);
    if n == 0 {
        assert(after.take(0) =~= before.take(0));
        0
    } else {
        let earlier = lemma_inserted_candidate(before, after, terminal_id, i, newer, n - 1);
        before.lemma_flat_map_take_append(offered, n - 1);
        after.lemma_flat_map_take_append(offered, n - 1);
        let had = before.take(n - 1).flat_map(offered);
        let has = after.take(n - 1).flat_map(offered);
        let piece = offered(before[n - 1]);
        if n - 1 < i {
            assert(offered(after[n - 1]) == piece);
            0
        } else if n - 1 == i {
            let at = (had + piece).len() as int;
            assert(has + piece.push(newer) =~= (had + piece).insert(at, newer));
            at
        } else {
            assert(offered(after[n - 1]) == piece);
            assert(had.insert(earlier, newer) + piece =~= (had + piece).insert(earlier, newer));
            earlier
        }
    }
}

/// In a sound server every candidate's place among all attaches was handed
/// out.
proof fn lemma_candidate_orders(server: super::state::ServerModel, terminal_id: Seq<char>, n: int)
    requires
        server.wf(),
        0 <= n <= server.control_connections.len(),
    ensures
        ({
            let offered = |c: super::state::ConnectionModel| c.candidates(terminal_id);
            let candidates = server.control_connections.take(n).flat_map(offered);
            forall|k: int|
                0 <= k < candidates.len() ==> (#[trigger] candidates[k]).order
                    < server.next_attach_order
        }),
    decreases n,
{
    let offered = |c: super::state::ConnectionModel| c.candidates(terminal_id);
    if n == 0 {
        assert(server.control_connections.take(0).flat_map(offered) =~= Seq::empty());
    } else {
        lemma_candidate_orders(server, terminal_id, n - 1);
        server.control_connections.lemma_flat_map_take_append(offered, n - 1);
        let c = server.control_connections[n - 1];
        assert(c.wf());
        let piece = c.candidates(terminal_id);
        let offers = |a: super::state::AttachModel|
            super::state::ConnectionModel::offers(a, terminal_id);
        super::preservation::lemma_filtered_attaches(c.attaches, offers);
        assert forall|k: int| 0 <= k < piece.len() implies (#[trigger] piece[k]).order
            < server.next_attach_order by {
            let attach = c.attaches.filter(offers)[k];
            assert(c.attaches.contains(attach));
            let m = choose|m: int| 0 <= m < c.attaches.len() && c.attaches[m] == attach;
            assert(c.attaches[m].order == piece[k].order);
            assert(server.control_connections[n - 1].numbers(piece[k].order));
        }
    }
}

/// A stream of protocol 2 that joins a terminal takes the answers from nobody:
/// unless it sizes the terminal's tab, the attach that answered goes on
/// answering.
pub proof fn joining_takes_no_answers(
    server: super::state::ServerModel,
    id: Seq<char>,
    connection_id: u64,
    terminal_id: Seq<char>,
    pane_id: Option<Seq<char>>,
    params: TerminalAttachParams,
)
    requires
        server.wf(),
        server.connection_index(connection_id) is Some,
        server.protocol_of(connection_id) > 1,
        server.app.running(terminal_id),
        server.shell_geometry_controller_for_terminal(terminal_id) matches Some((controller, _))
            ==> controller != connection_id,
        server.query_authority(terminal_id) is Some,
    ensures
        server.joined(id, connection_id, terminal_id, pane_id, params).0.query_authority(
            terminal_id,
        ) == server.query_authority(terminal_id),
{
    super::soundness::lemma_open_connection(server, connection_id);
    let i = server.connection_index(connection_id)->Some_0;
    let c = server.control_connections[i];
    let attach = c.next(server.next_attach_order, terminal_id, params);
    let grown = super::state::ConnectionModel {
        attaches: c.attaches.push(attach),
        handle: c.handle.registered(attach.attach_id),
        next_attach: (c.next_attach + 1) as u64,
        ..c
    };
    let listed = server.drawn(terminal_id, params.geometry).with_connection(i, grown).with_effects(
        server.attach_effects(id, c, terminal_id, pane_id, params),
    );
    let synced = listed.synced_query_authority(terminal_id);
    let after = synced.synced_control_geometry_tabs();
    super::soundness::lemma_query_sync_bare(listed, terminal_id);
    super::soundness::lemma_geometry_sync_bare(synced);
    super::soundness::lemma_bare_connections(after, listed);
    assert(after.app == after.bare().app);
    assert(after.tab_geometry_controllers == after.bare().tab_geometry_controllers);
    assert(after.shell_geometry_controller_for_terminal(terminal_id)
        == server.shell_geometry_controller_for_terminal(terminal_id));

    let before = server.control_connections;
    let now = after.control_connections;
    let n = before.len() as int;
    assert forall|j: int| 0 <= j < n && j != i implies (#[trigger] now[j]).candidates(terminal_id)
        == before[j].candidates(terminal_id) by {
        assert(listed.control_connections[j] == before[j]);
        assert(now[j].bare() == before[j].bare());
        lemma_offers_from_bare(now[j], before[j], terminal_id);
    }
    assert(listed.control_connections[i] == grown);
    assert(now[i].bare() == grown.bare());
    lemma_offers_from_bare(now[i], grown, terminal_id);
    lemma_one_more_offer(c, attach, terminal_id);
    assert(grown.candidates(terminal_id) == (super::state::ConnectionModel {
        attaches: c.attaches.push(attach),
        ..c
    }).candidates(terminal_id));
    assert(before.take(n) =~= before);
    assert(now.take(n) =~= now);
    let offered = |c: super::state::ConnectionModel| c.candidates(terminal_id);
    let candidates = server.candidates(terminal_id);
    lemma_candidate_orders(server, terminal_id, n);
    if params.answer_queries == TerminalQueryAuthority::Client {
        let newer = candidate_of(c, attach);
        let at = lemma_inserted_candidate(before, now, terminal_id, i, newer, n);
        assert(after.candidates(terminal_id) == candidates.insert(at, newer));
        let controller = match server.shell_geometry_controller_for_terminal(terminal_id) {
            Some((controller, _)) => Some(controller),
            None => None,
        };
        lemma_newer_candidate(AnsweringGroup::Exclusive, candidates, at, newer);
        lemma_newer_candidate(AnsweringGroup::Sizing { controller }, candidates, at, newer);
        lemma_newer_candidate(AnsweringGroup::Everyone, candidates, at, newer);
    } else {
        assert forall|j: int| 0 <= j < n implies offered(#[trigger] now[j]) == offered(
            before[j],
        ) by {}
        lemma_same_candidates(before, now, terminal_id, n);
    }
}

/// Connections that offer the same give the same candidates.
pub proof fn lemma_same_candidates(
    before: Seq<super::state::ConnectionModel>,
    after: Seq<super::state::ConnectionModel>,
    terminal_id: Seq<char>,
    n: int,
)
    requires
        before.len() == after.len(),
        0 <= n <= before.len(),
        forall|j: int|
            0 <= j < before.len() ==> (#[trigger] after[j]).candidates(terminal_id)
                == before[j].candidates(terminal_id),
    ensures
        ({
            let offered = |c: super::state::ConnectionModel| c.candidates(terminal_id);
            after.take(n).flat_map(offered) == before.take(n).flat_map(offered)
        }),
    decreases n,
{
    let offered = |c: super::state::ConnectionModel| c.candidates(terminal_id);
    if n == 0 {
        assert(after.take(0) =~= before.take(0));
    } else {
        lemma_same_candidates(before, after, terminal_id, n - 1);
        before.lemma_flat_map_take_append(offered, n - 1);
        after.lemma_flat_map_take_append(offered, n - 1);
        assert(offered(after[n - 1]) == offered(before[n - 1]));
    }
}

} // verus!
