//! A history of requests and what comes of it: the stream whose claim came
//! last inherits a tab.

use vstd::prelude::*;

use super::dispatch::ControlMethod;
use crate::schema::TerminalDetachReason;

verus! {

/// A request on a stream.
pub struct Request {
    pub id: Seq<char>,
    pub stream: Option<u64>,
    pub method: ControlMethod,
}

/// The server once requests came in, one after another.
pub open spec fn after_requests(
    server: super::state::ServerModel,
    requests: Seq<Request>,
) -> super::state::ServerModel
    decreases requests.len(),
{
    if requests.len() == 0 {
        server
    } else {
        let last = requests.last();
        after_requests(server, requests.drop_last()).handled(last.id, last.stream, last.method).0
    }
}

/// The server when the request at `k` came in.
pub open spec fn when(
    server: super::state::ServerModel,
    requests: Seq<Request>,
    k: int,
) -> super::state::ServerModel {
    after_requests(server, requests.take(k))
}

/// The counters had room for every request.
pub open spec fn had_room(server: super::state::ServerModel, requests: Seq<Request>) -> bool {
    forall|k: int|
        0 <= k < requests.len() ==> (#[trigger] when(server, requests, k)).has_room(
            requests[k].stream,
            requests[k].method,
        )
}

/// How a request moves the activity stamp: one that is answered may draw one.
proof fn lemma_stamps(
    server: super::state::ServerModel,
    id: Seq<char>,
    stream: Option<u64>,
    method: ControlMethod,
)
    requires
        server.wf(),
        server.has_room(stream, method),
    ensures
        ({
            let after = server.handled(id, stream, method).0;
            &&& server.next_activity_stamp <= after.next_activity_stamp
            &&& forall|connection_id: u64, tab_id: Seq<char>| #[trigger]
                super::succession::touches(server, id, stream, method, connection_id, tab_id)
                    ==> after.next_activity_stamp == server.next_activity_stamp + 1
        }),
{
    let after = server.handled(id, stream, method).0;
    let asking = stream->Some_0;
    let pruned = server.pruned(asking);
    super::succession::lemma_pruned_sizes(server, asking);
    match method {
        ControlMethod::ControlClose => {
            if let Some(closed) = stream {
                if server.connection_index(closed) is Some {
                    super::succession::lemma_closed_sizes(server, closed);
                }
            }
        },
        ControlMethod::TerminalAttach { params, resolved } => {
            super::succession::lemma_attached_sizes(pruned, id, asking, params, resolved@);
        },
        ControlMethod::TerminalDetach { params } => {
            super::succession::lemma_detached_sizes(pruned, id, asking, params.attach_id@);
        },
        ControlMethod::TabSetGeometry { params } => {
            if server.handled(id, stream, method).1 == super::succession::done(id) {
                let i = super::succession::lemma_set(server, id, asking, params);
            }
        },
        ControlMethod::TabClaimGeometry { params } => {
            if server.handled(id, stream, method).1 == super::succession::done(id) {
                let (i, t) = super::succession::lemma_claim(server, id, asking, params);
            }
        },
        _ => {},
    }
}

/// Stamps never run ahead: in a server that starts out so, every stored size
/// carries a stamp that was handed out, whatever requests come in.
pub proof fn stamps_stay_past(
    server: super::state::ServerModel,
    id: Seq<char>,
    stream: Option<u64>,
    method: ControlMethod,
)
    requires
        server.wf(),
        server.has_room(stream, method),
        super::succession::stamps_are_past(server),
    ensures
        super::succession::stamps_are_past(server.handled(id, stream, method).0),
{
    let after = server.handled(id, stream, method).0;
    super::preservation::sound_servers_stay_sound(server, id, stream, method);
    lemma_stamps(server, id, stream, method);
    assert forall|i: int, t: Seq<char>|
        0 <= i < after.control_connections.len() && #[trigger]
            after.control_connections[i].tab_geometry.contains_key(
            t,
        ) implies after.control_connections[i].tab_geometry[t].last_interaction
        < after.next_activity_stamp by {
        let connection_id = after.control_connections[i].connection_id;
        super::succession::lemma_size_at(after, i, t);
        lemma_size_is_past(server, connection_id, t);
        if super::succession::touches(server, id, stream, method, connection_id, t) {
            lemma_touched(server, id, method, connection_id, t);
        } else {
            super::succession::requests_change_one_size(
                server,
                id,
                stream,
                method,
                connection_id,
                t,
            );
        }
    }
}

/// No stamp was handed out in a server without connections.
pub proof fn a_fresh_server_has_no_stamps(
    client_shell_boot_id: Seq<char>,
    version: Seq<char>,
    protocol_version: u32,
    effective_size: (u16, u16),
)
    ensures
        super::succession::stamps_are_past(
            super::state::ServerModel::fresh(
                client_shell_boot_id,
                version,
                protocol_version,
                effective_size,
            ),
        ),
{
}

proof fn lemma_size_is_past(
    server: super::state::ServerModel,
    connection_id: u64,
    tab_id: Seq<char>,
)
    requires
        super::succession::stamps_are_past(server),
    ensures
        super::succession::size_of(server, connection_id, tab_id) matches Some(size)
            ==> size.last_interaction < server.next_activity_stamp,
{
    super::soundness::lemma_open_connection(server, connection_id);
    if let Some(i) = server.connection_index(connection_id) {
        assert(server.control_connections[i].tab_geometry.contains_key(tab_id)
            ==> server.control_connections[i].tab_geometry[tab_id].last_interaction
            < server.next_activity_stamp);
    }
}

/// A size that is stored or claimed keeps its stamp or gets the next one.
proof fn lemma_touched(
    server: super::state::ServerModel,
    id: Seq<char>,
    method: ControlMethod,
    connection_id: u64,
    tab_id: Seq<char>,
)
    requires
        server.wf(),
        server.has_room(Some(connection_id), method),
        super::succession::touches(server, id, Some(connection_id), method, connection_id, tab_id),
    ensures
        ({
            let after = server.handled(id, Some(connection_id), method).0;
            &&& super::succession::size_of(after, connection_id, tab_id) matches Some(size)
            &&& size.last_interaction == server.next_activity_stamp || (
            super::succession::size_of(server, connection_id, tab_id) matches Some(was)
                && was.last_interaction == size.last_interaction)
        }),
{
    let after = server.handled(id, Some(connection_id), method).0;
    super::preservation::sound_servers_stay_sound(server, id, Some(connection_id), method);
    let i = match method {
        ControlMethod::TabSetGeometry { params } => super::succession::lemma_set(
            server,
            id,
            connection_id,
            params,
        ),
        ControlMethod::TabClaimGeometry { params } => {
            let (i, t) = super::succession::lemma_claim(server, id, connection_id, params);
            super::succession::lemma_claim_about(server, id, connection_id, params);
            super::succession::lemma_one_tab(server, connection_id, params, t, tab_id);
            i
        },
        _ => 0,
    };
    assert(after.control_connections[i].connection_id == connection_id);
    super::succession::lemma_size_at(after, i, tab_id);
    super::succession::lemma_size_at(server, i, tab_id);
}

/// What holds of every server in a history.
proof fn lemma_history(server: super::state::ServerModel, requests: Seq<Request>)
    requires
        server.wf(),
        super::succession::stamps_are_past(server),
        had_room(server, requests),
    ensures
        after_requests(server, requests).wf(),
        super::succession::stamps_are_past(after_requests(server, requests)),
    decreases requests.len(),
{
    if requests.len() > 0 {
        let earlier = requests.drop_last();
        let last = requests.last();
        lemma_room_before(server, requests);
        lemma_history(server, earlier);
        let before = after_requests(server, earlier);
        super::preservation::sound_servers_stay_sound(before, last.id, last.stream, last.method);
        stamps_stay_past(before, last.id, last.stream, last.method);
    }
}

proof fn lemma_room_before(server: super::state::ServerModel, requests: Seq<Request>)
    requires
        had_room(server, requests),
        requests.len() > 0,
    ensures
        had_room(server, requests.drop_last()),
        after_requests(server, requests.drop_last()).has_room(
            requests.last().stream,
            requests.last().method,
        ),
        forall|k: int|
            0 <= k < requests.len() ==> #[trigger] when(server, requests.drop_last(), k) == when(
                server,
                requests,
                k,
            ),
{
    let earlier = requests.drop_last();
    let n = requests.len() - 1;
    assert forall|k: int| 0 <= k < requests.len() implies #[trigger] when(server, earlier, k)
        == when(server, requests, k) by {
        assert(earlier.take(k) =~= requests.take(k));
    }
    assert forall|k: int| 0 <= k < earlier.len() implies (#[trigger] when(
        server,
        earlier,
        k,
    )).has_room(earlier[k].stream, earlier[k].method) by {
        assert(when(server, earlier, k) == when(server, requests, k));
    }
    assert(requests.take(n) =~= earlier);
    assert(when(server, requests, n).has_room(requests[n].stream, requests[n].method));
}

/// Of two connections with a size for a tab, the one that claimed the tab after
/// the other's last request about it is the one that interacted with it later.
#[verifier::rlimit(40)]
#[verifier::spinoff_prover]
pub proof fn the_last_claim_is_the_latest(
    server: super::state::ServerModel,
    requests: Seq<Request>,
    k: int,
    connection_id: u64,
    other: u64,
    tab_id: Seq<char>,
)
    requires
        server.wf(),
        super::succession::stamps_are_past(server),
        had_room(server, requests),
        0 <= k < requests.len(),
        super::succession::claims(
            when(server, requests, k),
            requests[k].id,
            requests[k].stream,
            requests[k].method,
            connection_id,
            tab_id,
        ),
        other != connection_id,
        forall|m: int|
            k < m < requests.len() ==> !super::succession::touches(
                #[trigger] when(server, requests, m),
                requests[m].id,
                requests[m].stream,
                requests[m].method,
                other,
                tab_id,
            ),
        forall|m: int|
            k < m < requests.len() ==> !(requests[m].stream == Some(connection_id) && (
            #[trigger] requests[m]).method is ControlClose),
    ensures
        ({
            let now = after_requests(server, requests);
            &&& super::succession::size_of(now, connection_id, tab_id) matches Some(mine)
            &&& super::succession::size_of(now, other, tab_id) matches Some(theirs)
                ==> theirs.last_interaction < mine.last_interaction
        }),
    decreases requests.len(),
{
    let earlier = requests.drop_last();
    let last = requests.last();
    let n = requests.len() - 1;
    lemma_room_before(server, requests);
    lemma_history(server, earlier);
    let before = after_requests(server, earlier);
    assert(requests.take(n) =~= earlier);
    assert(when(server, requests, n) == before);
    if k == n {
        lemma_claim_has_room(before, last.stream, last.method);
        super::succession::a_claim_is_the_latest_interaction(
            before,
            last.id,
            last.method,
            connection_id,
            tab_id,
            other,
        );
    } else {
        assert forall|m: int| k < m < earlier.len() implies !super::succession::touches(
            #[trigger] when(server, earlier, m),
            earlier[m].id,
            earlier[m].stream,
            earlier[m].method,
            other,
            tab_id,
        ) by {
            assert(when(server, earlier, m) == when(server, requests, m));
        }
        assert forall|m: int| k < m < earlier.len() implies !(earlier[m].stream == Some(
            connection_id,
        ) && (#[trigger] earlier[m]).method is ControlClose) by {
            assert(earlier[m] == requests[m]);
        }
        assert(when(server, earlier, k) == when(server, requests, k));
        the_last_claim_is_the_latest(server, earlier, k, connection_id, other, tab_id);
        assert(!super::succession::touches(
            when(server, requests, n),
            requests[n].id,
            requests[n].stream,
            requests[n].method,
            other,
            tab_id,
        ));
        assert(requests[n] == last);
        lemma_later_stays_later(before, last, connection_id, other, tab_id);
    }
}

/// Whose interaction is later stays so until the other stores or claims.
proof fn lemma_later_stays_later(
    server: super::state::ServerModel,
    request: Request,
    connection_id: u64,
    other: u64,
    tab_id: Seq<char>,
)
    requires
        server.wf(),
        super::succession::stamps_are_past(server),
        server.has_room(request.stream, request.method),
        ({
            &&& super::succession::size_of(server, connection_id, tab_id) matches Some(mine)
            &&& super::succession::size_of(server, other, tab_id) matches Some(theirs)
                ==> theirs.last_interaction < mine.last_interaction
        }),
        !super::succession::touches(
            server,
            request.id,
            request.stream,
            request.method,
            other,
            tab_id,
        ),
        !(request.stream == Some(connection_id) && request.method is ControlClose),
    ensures
        ({
            let after = server.handled(request.id, request.stream, request.method).0;
            &&& super::succession::size_of(after, connection_id, tab_id) matches Some(mine)
            &&& super::succession::size_of(after, other, tab_id) matches Some(theirs)
                ==> theirs.last_interaction < mine.last_interaction
        }),
{
    super::succession::requests_change_one_size(
        server,
        request.id,
        request.stream,
        request.method,
        other,
        tab_id,
    );
    lemma_size_is_past(server, connection_id, tab_id);
    if super::succession::touches(
        server,
        request.id,
        request.stream,
        request.method,
        connection_id,
        tab_id,
    ) {
        lemma_touched(server, request.id, request.method, connection_id, tab_id);
    } else {
        super::succession::requests_change_one_size(
            server,
            request.id,
            request.stream,
            request.method,
            connection_id,
            tab_id,
        );
    }
}

proof fn lemma_claim_has_room(
    server: super::state::ServerModel,
    stream: Option<u64>,
    method: ControlMethod,
)
    requires
        server.has_room(stream, method),
        method is TabSetGeometry || method is TabClaimGeometry,
    ensures
        server.next_activity_stamp < u64::MAX,
{
}

/// What handing tabs over is to do at least for one of them.
proof fn lemma_handed_over_lays_out(
    server: super::state::ServerModel,
    tabs: Seq<Seq<char>>,
    tab_id: Seq<char>,
)
    requires
        server.wf(),
        tabs.contains(tab_id),
        server.app.parse_tab_id(tab_id) is Some,
        server.successor(tab_id) is Some,
    ensures
        ({
            let size = server.control_connections[server.successor(
                tab_id,
            )->Some_0].tab_geometry[tab_id];
            let after = server.handed_over(tabs);
            exists|k: int|
                server.effects.len() <= k < after.effects.len() && #[trigger] after.effects[k]
                    == super::state::EffectModel::LayOutTab {
                    target: server.app.parse_tab_id(tab_id)->Some_0,
                    cols: size.cols,
                    rows: size.rows,
                    cell_size: size.cell_size,
                }
        }),
    decreases tabs.len(),
{
    let earlier = tabs.drop_last();
    let last = tabs.last();
    let rest = server.handed_over(earlier);
    let after = server.handed_over(tabs);
    super::preservation::lemma_handed_over_wf(server, earlier);
    super::upkeep::lemma_handed_over_extends(server, earlier);
    super::ownership::lemma_successor_frames(server, rest, tab_id);
    if last == tab_id {
        let i = rest.successor(tab_id)->Some_0;
        let c = rest.control_connections[i];
        super::upkeep::lemma_geometry_sync_extends(
            rest.with_controller(tab_id, Some(c.connection_id)),
        );
        let k = after.effects.len() - 1;
        assert(after.effects[k] == after.effects.last());
    } else {
        let m = choose|m: int| 0 <= m < tabs.len() && tabs[m] == tab_id;
        assert(earlier[m] == tab_id);
        lemma_handed_over_lays_out(server, earlier, tab_id);
        let size = server.control_connections[server.successor(
            tab_id,
        )->Some_0].tab_geometry[tab_id];
        let k = choose|k: int|
            server.effects.len() <= k < rest.effects.len() && #[trigger] rest.effects[k]
                == super::state::EffectModel::LayOutTab {
                target: server.app.parse_tab_id(tab_id)->Some_0,
                cols: size.cols,
                rows: size.rows,
                cell_size: size.cell_size,
            };
        if let Some(i) = rest.successor(last) {
            let c = rest.control_connections[i];
            super::upkeep::lemma_claimed_extends(
                rest,
                c.connection_id,
                last,
                c.tab_geometry[last],
            );
        }
        assert(super::upkeep::extends(after, rest));
        assert(after.effects[k] == rest.effects[k]);
    }
}

/// When the owner of a tab closes, the tab passes to the connection that
/// interacted with it later than every other that stays, and is laid out at
/// the size that connection stored.
pub proof fn a_tab_passes_to_the_latest(
    server: super::state::ServerModel,
    id: Seq<char>,
    owner: u64,
    heir: u64,
    tab_id: Seq<char>,
)
    requires
        server.wf(),
        server.is_open(owner),
        server.tab_geometry_controllers.contains_key(tab_id),
        server.tab_geometry_controllers[tab_id] == owner,
        server.app.parse_tab_id(tab_id) is Some,
        heir != owner,
        super::succession::size_of(server, heir, tab_id) is Some,
        forall|other: u64|
            other != owner && other != heir ==> (#[trigger] super::succession::size_of(
                server,
                other,
                tab_id,
            ) matches Some(theirs) ==> theirs.last_interaction < super::succession::size_of(
                server,
                heir,
                tab_id,
            )->Some_0.last_interaction),
    ensures
        ({
            let (after, answer) = server.handled(id, Some(owner), ControlMethod::ControlClose);
            let size = super::succession::size_of(server, heir, tab_id)->Some_0;
            &&& answer == super::succession::done(id)
            &&& after.tab_geometry_controllers.contains_key(tab_id)
            &&& after.tab_geometry_controllers[tab_id] == heir
            &&& exists|k: int|
                server.effects.len() <= k < after.effects.len() && #[trigger] after.effects[k]
                    == super::state::EffectModel::LayOutTab {
                    target: server.app.parse_tab_id(tab_id)->Some_0,
                    cols: size.cols,
                    rows: size.rows,
                    cell_size: size.cell_size,
                }
        }),
{
    super::soundness::lemma_open_connection(server, owner);
    super::soundness::lemma_open_connection(server, heir);
    let rest = super::ownership::left_behind(server, owner);
    let i = server.connection_index(owner)->Some_0;
    let h = server.connection_index(heir)->Some_0;
    let at = if h < i {
        h
    } else {
        h - 1
    };
    assert(rest.control_connections[at] == server.control_connections[h]);
    assert forall|j: int|
        0 <= j < rest.control_connections.len() && (
        #[trigger] rest.control_connections[j]).holds_tab(tab_id) implies {
        let theirs = rest.control_connections[j].tab_geometry[tab_id].last_interaction;
        let ours = rest.control_connections[at].tab_geometry[tab_id].last_interaction;
        theirs < ours || (theirs == ours && j <= at)
    } by {
        let from = if j < i {
            j
        } else {
            j + 1
        };
        assert(rest.control_connections[j] == server.control_connections[from]);
        let other = server.control_connections[from].connection_id;
        super::succession::lemma_size_at(server, from, tab_id);
        super::soundness::lemma_connection_index(server, from);
        assert(super::succession::size_of(server, other, tab_id) == Some(
            server.control_connections[from].tab_geometry[tab_id],
        ));
    }
    assert(rest.is_successor(tab_id, at));
    super::release::lemma_successor_unique(rest, tab_id, at);
    super::ownership::a_closed_streams_tabs_pass_on(server, owner, tab_id);

    let c = server.control_connections[i];
    let after = server.released_connection(owner);
    let released = rest.released_attaches(c.attaches, TerminalDetachReason::Closed);
    super::release::lemma_released_attaches_frame(rest, c.attaches, TerminalDetachReason::Closed);
    super::upkeep::lemma_released_attaches_extends(
        rest,
        c.attaches,
        TerminalDetachReason::Closed,
    );
    let disowned = released.disowned(owner);
    super::preservation::lemma_disowned_wf(server, owner);
    let owned = server.owned_tabs(owner);
    assert(owned.subset_of(server.tab_geometry_controllers.dom()));
    vstd::set_lib::lemma_set_subset_finite(server.tab_geometry_controllers.dom(), owned);
    crate::find::lemma_ascending_members_exist(owned);
    let tabs = crate::find::ascending_members(owned);
    assert(owned.contains(tab_id));
    assert(tabs.contains(tab_id));
    assert(disowned.frames() == rest.frames());
    super::ownership::lemma_successor_frames(disowned, rest, tab_id);
    lemma_handed_over_lays_out(disowned, tabs, tab_id);
    let handed = disowned.handed_over(tabs);
    let size = server.control_connections[h].tab_geometry[tab_id];
    let k = choose|k: int|
        disowned.effects.len() <= k < handed.effects.len() && #[trigger] handed.effects[k]
            == super::state::EffectModel::LayOutTab {
            target: server.app.parse_tab_id(tab_id)->Some_0,
            cols: size.cols,
            rows: size.rows,
            cell_size: size.cell_size,
        };
    let synced = handed.synced_control_geometry_tabs();
    super::upkeep::lemma_geometry_sync_extends(handed);
    let terminals = crate::find::distinct(c.attached_terminals());
    let told = synced.synced_query_authorities(terminals);
    super::upkeep::lemma_query_syncs_extends(synced, terminals);
    super::upkeep::lemma_extends_transitive(told, synced, handed);
    super::upkeep::lemma_extends_transitive(after, told, handed);
    assert(after.effects[k] == handed.effects[k]);
}

proof fn lemma_untouched(
    server: super::state::ServerModel,
    requests: Seq<Request>,
    k: int,
    heir: u64,
    owner: u64,
    other: u64,
    tab_id: Seq<char>,
)
    requires
        other != heir,
        other != owner,
        forall|m: int, other: u64|
            k < m < requests.len() && other != heir && other != owner
                ==> !#[trigger] super::succession::touches(
                when(server, requests, m),
                requests[m].id,
                requests[m].stream,
                requests[m].method,
                other,
                tab_id,
            ),
    ensures
        forall|m: int|
            k < m < requests.len() ==> !super::succession::touches(
                #[trigger] when(server, requests, m),
                requests[m].id,
                requests[m].stream,
                requests[m].method,
                other,
                tab_id,
            ),
{
}

/// When the owner of a tab closes, the tab passes to the connection whose claim
/// came last among those that stay: one that claimed the tab, and after whose
/// claim no other connection but the owner stored or claimed a size for it.
pub proof fn a_tab_passes_to_the_last_claimant(
    server: super::state::ServerModel,
    requests: Seq<Request>,
    k: int,
    id: Seq<char>,
    owner: u64,
    heir: u64,
    tab_id: Seq<char>,
)
    requires
        server.wf(),
        super::succession::stamps_are_past(server),
        had_room(server, requests),
        0 <= k < requests.len(),
        super::succession::claims(
            when(server, requests, k),
            requests[k].id,
            requests[k].stream,
            requests[k].method,
            heir,
            tab_id,
        ),
        heir != owner,
        forall|m: int, other: u64|
            k < m < requests.len() && other != heir && other != owner
                ==> !#[trigger] super::succession::touches(
                when(server, requests, m),
                requests[m].id,
                requests[m].stream,
                requests[m].method,
                other,
                tab_id,
            ),
        forall|m: int|
            k < m < requests.len() ==> !(requests[m].stream == Some(heir) && (
            #[trigger] requests[m]).method is ControlClose),
        after_requests(server, requests).is_open(owner),
        after_requests(server, requests).tab_geometry_controllers.contains_key(tab_id),
        after_requests(server, requests).tab_geometry_controllers[tab_id] == owner,
        after_requests(server, requests).app.parse_tab_id(tab_id) is Some,
    ensures
        ({
            let now = after_requests(server, requests);
            let after = now.handled(id, Some(owner), ControlMethod::ControlClose).0;
            &&& after.tab_geometry_controllers.contains_key(tab_id)
            &&& after.tab_geometry_controllers[tab_id] == heir
        }),
{
    let now = after_requests(server, requests);
    lemma_history(server, requests);
    let spare: u64 = if heir != 0 && owner != 0 {
        0
    } else if heir != 1 && owner != 1 {
        1
    } else {
        2
    };
    lemma_untouched(server, requests, k, heir, owner, spare, tab_id);
    the_last_claim_is_the_latest(server, requests, k, heir, spare, tab_id);
    assert forall|other: u64| other != owner && other != heir implies (
    #[trigger] super::succession::size_of(now, other, tab_id) matches Some(theirs)
        ==> theirs.last_interaction < super::succession::size_of(
        now,
        heir,
        tab_id,
    )->Some_0.last_interaction) by {
        lemma_untouched(server, requests, k, heir, owner, other, tab_id);
        the_last_claim_is_the_latest(server, requests, k, heir, other, tab_id);
    }
    a_tab_passes_to_the_latest(now, id, owner, heir, tab_id);
}

} // verus!
