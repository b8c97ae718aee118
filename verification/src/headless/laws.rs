//! What holds of the server as a whole.

use vstd::prelude::*;

use super::dispatch::ControlMethod;
use super::state::CONTROL_CONNECTION_ID_BASE;
use crate::control::CONTROL_STREAM_PROTOCOL;

verus! {

/// An attach id names one attach of one connection.
pub proof fn attach_ids_are_unique(
    server: super::state::ServerModel,
    i: int,
    k: int,
    j: int,
    l: int,
)
    requires
        server.wf(),
        0 <= i < server.control_connections.len(),
        0 <= j < server.control_connections.len(),
        0 <= k < server.control_connections[i].attaches.len(),
        0 <= l < server.control_connections[j].attaches.len(),
        server.control_connections[i].attaches[k].attach_id
            == server.control_connections[j].attaches[l].attach_id,
    ensures
        i == j,
        k == l,
{
    let a = server.control_connections[i];
    let b = server.control_connections[j];
    assert(a.wf());
    assert(b.wf());
    assert(a.attaches[k].attach_id == a.attach_name(a.attaches[k].seq));
    assert(b.attaches[l].attach_id == b.attach_name(b.attaches[l].seq));
    crate::text::lemma_dashed_injective(
        (a.connection_id - CONTROL_CONNECTION_ID_BASE) as nat,
        a.attaches[k].seq as nat,
        (b.connection_id - CONTROL_CONNECTION_ID_BASE) as nat,
        b.attaches[l].seq as nat,
    );
    assert(a.connection_id == b.connection_id);
    if i < j {
        assert(server.control_connections[i].connection_id
            < server.control_connections[j].connection_id);
    }
    if j < i {
        assert(server.control_connections[j].connection_id
            < server.control_connections[i].connection_id);
    }
    super::preservation::lemma_attach_ids_unique(a, k, l);
}

/// Once a terminal's answering attach was picked, an attach on the terminal
/// answers exactly when it is the one picked, and its input may then carry
/// automatic replies.
pub proof fn the_picked_attach_answers(
    server: super::state::ServerModel,
    terminal_id: Seq<char>,
    i: int,
    k: int,
)
    requires
        server.wf(),
        0 <= i < server.control_connections.len(),
        0 <= k < server.control_connections[i].attaches.len(),
        server.control_connections[i].attaches[k].terminal_id == terminal_id,
    ensures
        ({
            let c = server.synced_query_authority(terminal_id).control_connections[i];
            let attach = c.attaches[k];
            &&& attach.attach_id == server.control_connections[i].attaches[k].attach_id
            &&& attach.answers_queries <==> server.query_authority(terminal_id) == Some(
                attach.attach_id,
            )
            &&& c.handle.inputs.contains_key(attach.attach_id)
            &&& c.handle.inputs[attach.attach_id].authority == attach.answers_queries
        }),
{
    let before = server.control_connections[i];
    let chosen = server.query_authority(terminal_id);
    let after = server.synced_query_authority(terminal_id).control_connections[i];
    assert(after == before.told(terminal_id, chosen, server.now));
    let attach_id = before.attaches[k].attach_id;
    assert(before.wf());
    assert(before.lists(attach_id));
    assert(before.handle.inputs.contains_key(attach_id));
    assert(super::authority::attached_to(before.attaches, terminal_id, attach_id));
}

/// At most one attach answers a terminal's queries.
pub proof fn at_most_one_attach_answers(
    server: super::state::ServerModel,
    terminal_id: Seq<char>,
    i: int,
    k: int,
    j: int,
    l: int,
)
    requires
        server.wf(),
        0 <= i < server.control_connections.len(),
        0 <= j < server.control_connections.len(),
        0 <= k < server.control_connections[i].attaches.len(),
        0 <= l < server.control_connections[j].attaches.len(),
        server.control_connections[i].attaches[k].terminal_id == terminal_id,
        server.control_connections[j].attaches[l].terminal_id == terminal_id,
        server.synced_query_authority(
            terminal_id,
        ).control_connections[i].attaches[k].answers_queries,
        server.synced_query_authority(
            terminal_id,
        ).control_connections[j].attaches[l].answers_queries,
    ensures
        i == j,
        k == l,
{
    the_picked_attach_answers(server, terminal_id, i, k);
    the_picked_attach_answers(server, terminal_id, j, l);
    attach_ids_are_unique(server, i, k, j, l);
}

/// The answering attach is the oldest protocol 1 candidate if there is one (it
/// cannot be told to stop), else the oldest candidate of the connection that
/// sizes the tab, else the oldest candidate.
pub proof fn protocol_1_answers_before_the_controller_before_the_oldest(
    server: super::state::ServerModel,
    terminal_id: Seq<char>,
    k: int,
)
    requires
        0 <= k < server.candidates(terminal_id).len(),
    ensures
        ({
            let candidates = server.candidates(terminal_id);
            let controller = match server.shell_geometry_controller_for_terminal(terminal_id) {
                Some((controller, _)) => Some(controller),
                None => None,
            };
            exists|m: int|
                {
                    &&& 0 <= m < candidates.len()
                    &&& server.query_authority(terminal_id) == Some(
                        (#[trigger] candidates[m]).attach_id,
                    )
                    &&& candidates[k].protocol <= 1 ==> candidates[m].protocol <= 1
                        && candidates[m].order <= candidates[k].order
                    &&& candidates[m].protocol > 1 && Some(candidates[k].connection_id)
                        == controller ==> Some(candidates[m].connection_id) == controller
                        && candidates[m].order <= candidates[k].order
                    &&& candidates[m].protocol > 1 && Some(candidates[m].connection_id)
                        != controller ==> candidates[m].order <= candidates[k].order
                }
        }),
{
    let candidates = server.candidates(terminal_id);
    let controller = match server.shell_geometry_controller_for_terminal(terminal_id) {
        Some((controller, _)) => Some(controller),
        None => None,
    };
    let exclusive = super::authority::AnsweringGroup::Exclusive;
    let sizing = super::authority::AnsweringGroup::Sizing { controller };
    let everyone = super::authority::AnsweringGroup::Everyone;
    let m = if exists|j: int|
        0 <= j < candidates.len() && exclusive.takes(#[trigger] candidates[j]) {
        let j = choose|j: int|
            0 <= j < candidates.len() && exclusive.takes(#[trigger] candidates[j]);
        let m = super::authority::lemma_oldest_exists(exclusive, candidates, j);
        super::authority::lemma_oldest_unique(exclusive, candidates, m);
        m
    } else if exists|j: int| 0 <= j < candidates.len() && sizing.takes(#[trigger] candidates[j]) {
        let j = choose|j: int| 0 <= j < candidates.len() && sizing.takes(#[trigger] candidates[j]);
        let m = super::authority::lemma_oldest_exists(sizing, candidates, j);
        super::authority::lemma_oldest_unique(sizing, candidates, m);
        m
    } else {
        let m = super::authority::lemma_oldest_exists(everyone, candidates, k);
        super::authority::lemma_oldest_unique(everyone, candidates, m);
        m
    };
    assert(exclusive.takes(candidates[k]) == (candidates[k].protocol <= 1));
    assert(sizing.takes(candidates[k]) == (Some(candidates[k].connection_id) == controller));
    assert(everyone.takes(candidates[k]));
    assert(server.query_authority(terminal_id) == Some(candidates[m].attach_id));
}

/// Every connection speaks a protocol that the server knows.
pub proof fn negotiated_protocols_are_known(client: Option<crate::schema::ClientModel>)
    ensures
        1 <= super::requests::negotiated(client) <= CONTROL_STREAM_PROTOCOL,
        client is None ==> super::requests::negotiated(client) == 1,
        client matches Some(client) ==> (1 <= client.protocol <= CONTROL_STREAM_PROTOCOL
            ==> super::requests::negotiated(Some(client)) == client.protocol),
{
}

/// A stream that opens gets an id that no open connection, no tab's owner and
/// no client has.
pub proof fn opened_ids_are_fresh(
    server: super::state::ServerModel,
    client: Option<crate::schema::ClientModel>,
)
    requires
        server.wf(),
        CONTROL_CONNECTION_ID_BASE + server.next_control_connection_id < u64::MAX,
    ensures
        super::state::is_control(server.opened_connection(client).connection_id),
        !server.is_open(server.opened_connection(client).connection_id),
        forall|t: Seq<char>| #[trigger]
            server.tab_geometry_controllers.contains_key(t) ==> server.tab_geometry_controllers[t]
                != server.opened_connection(client).connection_id,
{
    let id = server.opened_connection(client).connection_id;
    if server.is_open(id) {
        let i = choose|i: int|
            0 <= i < server.control_connections.len() && (
            #[trigger] server.control_connections[i]).connection_id == id;
        assert(server.control_connections[i].wf());
    }
    assert forall|t: Seq<char>| #[trigger]
        server.tab_geometry_controllers.contains_key(t) implies server.tab_geometry_controllers[t]
        != id by {
        if server.tab_geometry_controllers[t] == id {
            assert(server.is_open(id));
        }
    }
}

/// Everything derived from who sizes the tabs is as it should be: the tab
/// sets, the controllers that layouts report, and every stream's input claims.
pub open spec fn derived_is_current(server: super::state::ServerModel) -> bool {
    &&& server.control_geometry_tabs == server.control_tabs()
    &&& server.control_chromeless_tabs == server.chromeless_tabs()
    &&& server.control_tab_geometry_controllers == server.reported_controllers()
    &&& forall|i: int|
        0 <= i < server.control_connections.len() ==> (
        #[trigger] server.control_connections[i]).handle.claim_on_input == server.claiming_attaches(
            server.control_connections[i],
        )
}

/// Picking answering attaches leaves the mirrors and the input claims alone.
pub proof fn lemma_query_syncs_current(server: super::state::ServerModel, terminals: Seq<Seq<char>>)
    requires
        derived_is_current(server),
    ensures
        derived_is_current(server.synced_query_authorities(terminals)),
    decreases terminals.len(),
{
    if terminals.len() > 0 {
        let rest = server.synced_query_authorities(terminals.drop_last());
        lemma_query_syncs_current(server, terminals.drop_last());
        lemma_query_sync_current(rest, terminals.last());
    }
}

/// Picking an answering attach leaves the mirrors and the input claims alone.
pub proof fn lemma_query_sync_current(
    server: super::state::ServerModel,
    terminal_id: Seq<char>,
)
    requires
        derived_is_current(server),
    ensures
        derived_is_current(server.synced_query_authority(terminal_id)),
{
    let chosen = server.query_authority(terminal_id);
    let after = server.synced_query_authority(terminal_id);
    super::soundness::lemma_query_sync_bare(server, terminal_id);
    lemma_reports_from_bare(server, after);
    assert forall|i: int| 0 <= i < after.control_connections.len() implies (
    #[trigger] after.control_connections[i]).handle.claim_on_input == after.claiming_attaches(
        after.control_connections[i],
    ) by {
        let c = server.control_connections[i];
        assert(after.control_connections[i] == c.told(terminal_id, chosen, server.now));
        assert(c.handle.claim_on_input == server.claiming_attaches(c));
        lemma_claims_from_bare(server, after, i);
    }
}

/// What layouts report does not depend on derived state.
proof fn lemma_reports_from_bare(
    left: super::state::ServerModel,
    right: super::state::ServerModel,
)
    requires
        left.bare() == right.bare(),
    ensures
        left.reported_controllers() == right.reported_controllers(),
        left.control_tabs() == right.control_tabs(),
        left.chromeless_tabs() == right.chromeless_tabs(),
{
    super::soundness::lemma_bare_connections(left, right);
    assert(left.tab_geometry_controllers == left.bare().tab_geometry_controllers);
    assert(right.tab_geometry_controllers == right.bare().tab_geometry_controllers);
    assert forall|t: Seq<char>, id: u64| #[trigger]
        left.controller_info(t, id) == right.controller_info(t, id) by {
        assert(left.connection_index(id) == right.connection_index(id));
        super::soundness::lemma_open_connection(left, id);
        super::soundness::lemma_open_connection(right, id);
        if let Some(i) = left.connection_index(id) {
            super::soundness::lemma_bare_connection(
                left.control_connections[i],
                right.control_connections[i],
            );
        }
    }
    assert(left.reported_controllers() =~= right.reported_controllers());
    assert(left.control_tabs() =~= right.control_tabs());
    assert(left.chromeless_tabs() =~= right.chromeless_tabs());
}

/// Which attaches claim on input does not depend on derived state.
proof fn lemma_claims_from_bare(
    left: super::state::ServerModel,
    right: super::state::ServerModel,
    i: int,
)
    requires
        left.bare() == right.bare(),
        0 <= i < left.control_connections.len(),
    ensures
        left.claiming_attaches(left.control_connections[i]) == right.claiming_attaches(
            right.control_connections[i],
        ),
{
    super::soundness::lemma_bare_connections(left, right);
    let l = left.control_connections[i];
    let r = right.control_connections[i];
    super::soundness::lemma_bare_connection(l, r);
    assert(left.tab_geometry_controllers == left.bare().tab_geometry_controllers);
    assert(right.tab_geometry_controllers == right.bare().tab_geometry_controllers);
    assert(left.app == left.bare().app);
    assert(right.app == right.bare().app);
    assert forall|k: int| 0 <= k < l.attaches.len() implies #[trigger] left.claims_on_input(
        l,
        l.attaches[k],
    ) == right.claims_on_input(r, r.attaches[k]) && l.attaches[k].attach_id
        == r.attaches[k].attach_id by {
        assert(l.attaches[k].bare() == r.attaches[k].bare());
    }
    assert forall|id: Seq<char>|
        left.claiming_attaches(l).contains(id) == right.claiming_attaches(r).contains(id) by {
        if left.claiming_attaches(l).contains(id) {
            let k = choose|k: int|
                0 <= k < l.attaches.len() && (#[trigger] l.attaches[k]).attach_id == id
                    && left.claims_on_input(l, l.attaches[k]);
            assert(left.claims_on_input(l, l.attaches[k]) == right.claims_on_input(
                r,
                r.attaches[k],
            ));
            assert(r.attaches[k].attach_id == id);
        }
        if right.claiming_attaches(r).contains(id) {
            let k = choose|k: int|
                0 <= k < r.attaches.len() && (#[trigger] r.attaches[k]).attach_id == id
                    && right.claims_on_input(r, r.attaches[k]);
            assert(left.claims_on_input(l, l.attaches[k]) == right.claims_on_input(
                r,
                r.attaches[k],
            ));
            assert(l.attaches[k].attach_id == id);
        }
    }
    assert(left.claiming_attaches(l) =~= right.claiming_attaches(r));
}

/// After a sync everything derived is as it should be; in particular an
/// attach's next input claims its tab exactly when its stream stored a size
/// for the tab and does not own it.
pub proof fn syncing_makes_derived_state_current(server: super::state::ServerModel)
    ensures
        derived_is_current(server.synced_control_geometry_tabs()),
{
    let mirrored = server.mirrored();
    let claims = mirrored.with_input_claims();
    assert(mirrored.bare() == server.bare()) by {
        assert(mirrored.bare().control_connections =~= server.bare().control_connections);
    }
    lemma_reports_from_bare(server, mirrored);
    lemma_input_claims_bare(mirrored);
    lemma_reports_from_bare(mirrored, claims);
    assert forall|i: int| 0 <= i < claims.control_connections.len() implies (
    #[trigger] claims.control_connections[i]).handle.claim_on_input == claims.claiming_attaches(
        claims.control_connections[i],
    ) by {
        let c = mirrored.control_connections[i];
        assert(claims.control_connections[i] == c.with_claims(mirrored.claiming_attaches(c)));
        lemma_claims_from_bare(mirrored, claims, i);
    }
    lemma_query_syncs_current(claims, server.terminals_changing_hands());
}

pub proof fn lemma_input_claims_bare(server: super::state::ServerModel)
    ensures
        server.with_input_claims().bare() == server.bare(),
{
    let claims = server.with_input_claims();
    assert forall|i: int| 0 <= i < server.control_connections.len() implies (
    #[trigger] claims.control_connections[i]).bare() == server.control_connections[i].bare() by {
        let c = server.control_connections[i];
        let flagged = c.with_claims(server.claiming_attaches(c));
        assert(claims.control_connections[i] == flagged);
        assert(flagged.bare().attaches =~= c.bare().attaches);
        assert(flagged.bare().handle.inputs =~= c.bare().handle.inputs);
    }
    assert(claims.bare().control_connections =~= server.bare().control_connections);
}

/// Syncing twice is syncing once.
pub proof fn syncing_again_changes_nothing(server: super::state::ServerModel)
    ensures
        ({
            let once = server.synced_control_geometry_tabs();
            once.synced_control_geometry_tabs() == once
        }),
{
    let once = server.synced_control_geometry_tabs();
    syncing_makes_derived_state_current(server);
    assert(once.changed_tabs() =~= Set::empty());
    let empty = Seq::<Seq<char>>::empty();
    assert forall|t: Seq<char>|
        #![trigger empty.contains(t)]
        empty.contains(t) <==> once.changed_tabs().contains(t) by {}
    crate::find::lemma_ascending_members(once.changed_tabs(), empty);
    let mirrored = once.mirrored();
    assert(mirrored.effects =~= once.effects);
    assert(mirrored =~= once);
    let claims = once.with_input_claims();
    assert forall|i: int| 0 <= i < once.control_connections.len() implies (
    #[trigger] claims.control_connections[i]) == once.control_connections[i] by {
        let c = once.control_connections[i];
        assert(c.handle.claim_on_input == once.claiming_attaches(c));
        assert(c.with_claims(once.claiming_attaches(c)) =~= c);
    }
    assert(claims.control_connections =~= once.control_connections);
    let terminals = once.attached_terminals();
    let changing = |t: Seq<char>| once.shown_in(t, once.changed_tabs());
    lemma_nothing_passes(terminals, changing);
    assert(crate::find::distinct(Seq::<Seq<char>>::empty()) =~= Seq::empty());
    assert(once.terminals_changing_hands() =~= Seq::empty());
}

proof fn lemma_nothing_passes(s: Seq<Seq<char>>, p: spec_fn(Seq<char>) -> bool)
    requires
        forall|t: Seq<char>| !(#[trigger] p(t)),
    ensures
        s.filter(p) == Seq::<Seq<char>>::empty(),
    decreases s.len(),
{
    if s.len() > 0 {
        lemma_nothing_passes(s.drop_last(), p);
        assert(s =~= s.drop_last().push(s.last()));
        s.drop_last().lemma_filter_push(s.last(), p);
    } else {
        assert(s.filter(p) =~= Seq::empty());
    }
}

/// Listing connections, taking the session's snapshot and every request that
/// is none of the control side's leave the server alone; focus never claims a
/// tab.
pub proof fn looking_changes_nothing(
    server: super::state::ServerModel,
    id: Seq<char>,
    stream: Option<u64>,
    method: ControlMethod,
)
    requires
        method is ControlList || method is SessionSnapshot || method is TerminalInput
            || method is Other,
    ensures
        server.handled(id, stream, method).0 == server,
        method is Other ==> server.handled(id, stream, method).1
            == super::dispatch::AnswerModel::NotControl,
{
}

} // verus!
