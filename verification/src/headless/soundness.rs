//! What every operation of the server keeps.

use vstd::prelude::*;

use crate::schema::TerminalDetachReason;

verus! {

impl super::state::AttachModel {
    /// The attach without what is derived from who sizes its tab.
    pub open spec fn bare(self) -> super::state::AttachModel {
        super::state::AttachModel { answers_queries: false, ..self }
    }
}

impl super::state::ConnectionModel {
    /// The connection without what is derived from who sizes the tabs.
    pub open spec fn bare(self) -> super::state::ConnectionModel {
        super::state::ConnectionModel {
            attaches: self.attaches.map_values(|a: super::state::AttachModel| a.bare()),
            handle: crate::control::HandleModel {
                inputs: Map::new(
                    |k: Seq<char>| self.handle.inputs.contains_key(k),
                    |k: Seq<char>| crate::control::InputEntry { authority: false, lost_at: None },
                ),
                claim_on_input: Set::empty(),
                ..self.handle
            },
            ..self
        }
    }

    /// What a connection keeps while attaches come and go.
    pub open spec fn frame(self) -> super::state::ConnectionModel {
        super::state::ConnectionModel {
            attaches: Seq::empty(),
            handle: crate::control::HandleModel {
                inputs: Map::empty(),
                claim_on_input: Set::empty(),
                ..self.handle
            },
            ..self
        }
    }

    /// Whether one of the connection's attaches has that id.
    pub open spec fn lists(self, attach_id: Seq<char>) -> bool {
        exists|i: int|
            0 <= i < self.attaches.len() && (#[trigger] self.attaches[i]).attach_id == attach_id
    }

    /// Whether one of the connection's attaches has that place among all
    /// attaches.
    pub open spec fn numbers(self, order: u64) -> bool {
        exists|i: int| 0 <= i < self.attaches.len() && (#[trigger] self.attaches[i]).order == order
    }

    /// The attaches are in the order they were made, each under the id that
    /// its connection and its place in that order give it, and exactly they
    /// take input; the handle agrees with the connection, and its protocol is
    /// one the server speaks.
    pub open spec fn wf(self) -> bool {
        &&& super::state::is_control(self.connection_id)
        &&& self.handle.id == self.connection_id
        &&& self.handle.protocol == self.protocol
        &&& 1 <= self.protocol <= crate::control::CONTROL_STREAM_PROTOCOL
        &&& forall|i: int, j: int|
            0 <= i < j < self.attaches.len() ==> (#[trigger] self.attaches[i]).seq < (
            #[trigger] self.attaches[j]).seq && self.attaches[i].order < self.attaches[j].order
        &&& forall|i: int|
            0 <= i < self.attaches.len() ==> {
                &&& (#[trigger] self.attaches[i]).seq < self.next_attach
                &&& self.attaches[i].attach_id == self.attach_name(self.attaches[i].seq)
            }
        &&& forall|k: Seq<char>| #[trigger]
            self.handle.inputs.contains_key(k) <==> self.lists(k)
    }

    /// The id of the connection's attach with that place in the order.
    pub open spec fn attach_name(self, seq: u64) -> Seq<char> {
        crate::text::dashed(
            (self.connection_id - super::state::CONTROL_CONNECTION_ID_BASE) as nat,
            seq as nat,
        )
    }
}

impl super::state::ServerModel {
    /// The server without what is derived from who sizes the tabs, and
    /// without effects.
    pub open spec fn bare(self) -> super::state::ServerModel {
        super::state::ServerModel {
            control_connections: self.control_connections.map_values(
                |c: super::state::ConnectionModel| c.bare(),
            ),
            control_geometry_tabs: Set::empty(),
            control_chromeless_tabs: Set::empty(),
            control_tab_geometry_controllers: Map::empty(),
            effects: Seq::empty(),
            ..self
        }
    }

    /// What the connections keep while attaches come and go.
    pub open spec fn frames(self) -> Seq<super::state::ConnectionModel> {
        self.control_connections.map_values(|c: super::state::ConnectionModel| c.frame())
    }

    /// The connections are in the order they were opened, every one sound,
    /// under ids that were handed out; no two attaches share a place among all
    /// attaches; a tab that a control connection sizes is sized by an open one.
    pub open spec fn wf(self) -> bool {
        &&& forall|i: int| 0 <= i < self.control_connections.len() ==> {
            &&& (#[trigger] self.control_connections[i]).wf()
            &&& self.control_connections[i].connection_id
                < super::state::CONTROL_CONNECTION_ID_BASE + self.next_control_connection_id
        }
        &&& forall|i: int, j: int|
            0 <= i < j < self.control_connections.len() ==> (
            #[trigger] self.control_connections[i]).connection_id < (
            #[trigger] self.control_connections[j]).connection_id
        &&& self.attaches_ordered()
        &&& self.tab_geometry_controllers.dom().finite()
        &&& forall|t: Seq<char>|
            #[trigger] self.tab_geometry_controllers.contains_key(t) && super::state::is_control(
                self.tab_geometry_controllers[t],
            ) ==> self.is_open(self.tab_geometry_controllers[t])
    }

    /// The places of attaches among all attaches were handed out, each to an
    /// attach of one connection.
    pub open spec fn attaches_ordered(self) -> bool {
        &&& forall|i: int, order: u64|
            0 <= i < self.control_connections.len() && (
            #[trigger] self.control_connections[i].numbers(order)) ==> order
                < self.next_attach_order
        &&& forall|i: int, j: int, order: u64|
            0 <= i < j < self.control_connections.len() && (
            #[trigger] self.control_connections[i].numbers(order)) ==> !(
            #[trigger] self.control_connections[j].numbers(order))
    }

    /// Whether a connection of that id is open.
    pub open spec fn is_open(self, connection_id: u64) -> bool {
        exists|i: int|
            0 <= i < self.control_connections.len() && (
            #[trigger] self.control_connections[i]).connection_id == connection_id
    }
}

/// Looking a connection up finds one exactly when it is open.
pub proof fn lemma_open_connection(server: super::state::ServerModel, connection_id: u64)
    ensures
        server.is_open(connection_id) <==> server.connection_index(connection_id) is Some,
        server.connection_index(connection_id) matches Some(i) ==> 0 <= i
            < server.control_connections.len() && server.control_connections[i].connection_id
            == connection_id && server.connection(connection_id) == Some(
            server.control_connections[i],
        ),
{
    crate::find::lemma_first_index(
        server.control_connections,
        |c: super::state::ConnectionModel| c.connection_id == connection_id,
    );
}

/// In a sound server an open connection stands at the one place its id names.
pub proof fn lemma_connection_index(server: super::state::ServerModel, i: int)
    requires
        server.wf(),
        0 <= i < server.control_connections.len(),
    ensures
        server.connection_index(server.control_connections[i].connection_id) == Some(i),
{
    lemma_open_connection(server, server.control_connections[i].connection_id);
    let k = server.connection_index(server.control_connections[i].connection_id)->Some_0;
    assert(server.control_connections[k].connection_id
        == server.control_connections[i].connection_id);
}

/// Servers with the same frames list the same connections.
pub proof fn lemma_frames(left: super::state::ServerModel, right: super::state::ServerModel)
    requires
        left.frames() == right.frames(),
    ensures
        left.control_connections.len() == right.control_connections.len(),
        forall|i: int|
            0 <= i < left.control_connections.len() ==> (
            #[trigger] left.control_connections[i]).frame()
                == right.control_connections[i].frame(),
        forall|id: u64| #[trigger] left.connection_index(id) == right.connection_index(id),
{
    let l = left.control_connections;
    let r = right.control_connections;
    assert(left.frames().len() == l.len());
    assert(right.frames().len() == r.len());
    assert forall|i: int| 0 <= i < l.len() implies (#[trigger] l[i]).frame() == r[i].frame() by {
        assert(left.frames()[i] == l[i].frame());
        assert(right.frames()[i] == r[i].frame());
    }
    assert forall|id: u64| #[trigger] left.connection_index(id) == right.connection_index(id) by {
        let p = |c: super::state::ConnectionModel| c.connection_id == id;
        assert forall|i: int| 0 <= i < l.len() implies #[trigger] p(l[i]) == p(r[i]) by {
            assert(l[i].frame() == r[i].frame());
        }
        crate::find::lemma_first_index(l, p);
        crate::find::lemma_first_index(r, p);
        match (left.connection_index(id), right.connection_index(id)) {
            (Some(i), Some(j)) => {
                assert(p(l[i]) == p(r[i]));
                assert(p(l[j]) == p(r[j]));
            },
            (Some(i), None) => {
                assert(p(l[i]) == p(r[i]));
            },
            (None, Some(j)) => {
                assert(p(l[j]) == p(r[j]));
            },
            (None, None) => {},
        }
    }
}

/// Derived state is no part of the frames.
pub proof fn lemma_bare_frames(left: super::state::ServerModel, right: super::state::ServerModel)
    requires
        left.bare() == right.bare(),
    ensures
        left.frames() == right.frames(),
        left.next_attach_order == right.next_attach_order,
{
    let l = left.control_connections;
    let r = right.control_connections;
    assert(left.next_attach_order == left.bare().next_attach_order);
    assert(right.next_attach_order == right.bare().next_attach_order);
    assert(left.bare().control_connections.len() == l.len());
    assert(right.bare().control_connections.len() == r.len());
    assert forall|i: int| 0 <= i < l.len() implies (#[trigger] l[i]).frame() == r[i].frame() by {
        assert(left.bare().control_connections[i] == l[i].bare());
        assert(right.bare().control_connections[i] == r[i].bare());
        assert(l[i].bare().frame() =~= l[i].frame());
        assert(r[i].bare().frame() =~= r[i].frame());
    }
    assert(left.frames() =~= right.frames());
}

/// Two servers that differ only in what is derived list the same connections.
pub proof fn lemma_bare_connections(
    left: super::state::ServerModel,
    right: super::state::ServerModel,
)
    requires
        left.bare() == right.bare(),
    ensures
        left.control_connections.len() == right.control_connections.len(),
        forall|i: int|
            0 <= i < left.control_connections.len() ==> {
                &&& (#[trigger] left.control_connections[i]).bare()
                    == right.control_connections[i].bare()
                &&& left.control_connections[i].connection_id
                    == right.control_connections[i].connection_id
                &&& left.control_connections[i].attaches.len()
                    == right.control_connections[i].attaches.len()
            },
        forall|id: u64| #[trigger] left.connection_index(id) == right.connection_index(id),
{
    let l = left.control_connections;
    let r = right.control_connections;
    assert(left.bare().control_connections.len() == l.len());
    assert(right.bare().control_connections.len() == r.len());
    assert forall|i: int| 0 <= i < l.len() implies {
        &&& (#[trigger] l[i]).bare() == r[i].bare()
        &&& l[i].connection_id == r[i].connection_id
        &&& l[i].attaches.len() == r[i].attaches.len()
    } by {
        assert(left.bare().control_connections[i] == l[i].bare());
        assert(right.bare().control_connections[i] == r[i].bare());
        assert(l[i].bare().attaches.len() == l[i].attaches.len());
        assert(r[i].bare().attaches.len() == r[i].attaches.len());
        assert(l[i].bare().connection_id == l[i].connection_id);
    }
    lemma_bare_frames(left, right);
    lemma_frames(left, right);
}

/// What a connection keeps when only derived state changes.
pub proof fn lemma_bare_connection(
    left: super::state::ConnectionModel,
    right: super::state::ConnectionModel,
)
    requires
        left.bare() == right.bare(),
    ensures
        left.connection_id == right.connection_id,
        left.protocol == right.protocol,
        left.next_attach == right.next_attach,
        left.client == right.client,
        left.tab_geometry == right.tab_geometry,
        left.attaches.len() == right.attaches.len(),
        forall|i: int|
            0 <= i < left.attaches.len() ==> (#[trigger] left.attaches[i]).bare()
                == right.attaches[i].bare(),
        forall|k: Seq<char>| #[trigger]
            left.handle.inputs.contains_key(k) == right.handle.inputs.contains_key(k),
        forall|order: u64|
            #![trigger left.numbers(order)]
            #![trigger right.numbers(order)]
            left.numbers(order) == right.numbers(order),
        left.wf() == right.wf(),
{
    let l = left.bare();
    let r = right.bare();
    assert(l.attaches.len() == left.attaches.len());
    assert(r.attaches.len() == right.attaches.len());
    assert forall|i: int| 0 <= i < left.attaches.len() implies (#[trigger] left.attaches[i]).bare()
        == right.attaches[i].bare() by {
        assert(l.attaches[i] == left.attaches[i].bare());
        assert(r.attaches[i] == right.attaches[i].bare());
    }
    assert forall|k: Seq<char>| #[trigger]
        left.handle.inputs.contains_key(k) == right.handle.inputs.contains_key(k) by {
        assert(l.handle.inputs.contains_key(k) == left.handle.inputs.contains_key(k));
        assert(r.handle.inputs.contains_key(k) == right.handle.inputs.contains_key(k));
    }
    assert forall|k: Seq<char>| #[trigger] left.lists(k) == right.lists(k) by {
        if left.lists(k) {
            let i = choose|i: int|
                0 <= i < left.attaches.len() && (#[trigger] left.attaches[i]).attach_id == k;
            assert(left.attaches[i].bare() == right.attaches[i].bare());
            assert(right.attaches[i].attach_id == k);
        }
        if right.lists(k) {
            let i = choose|i: int|
                0 <= i < right.attaches.len() && (#[trigger] right.attaches[i]).attach_id == k;
            assert(left.attaches[i].bare() == right.attaches[i].bare());
            assert(left.attaches[i].attach_id == k);
        }
    }
    assert forall|order: u64|
        #![trigger left.numbers(order)]
        #![trigger right.numbers(order)]
        left.numbers(order) == right.numbers(order) by {
        if left.numbers(order) {
            let i = choose|i: int|
                0 <= i < left.attaches.len() && (#[trigger] left.attaches[i]).order == order;
            assert(left.attaches[i].bare() == right.attaches[i].bare());
            assert(right.attaches[i].order == order);
        }
        if right.numbers(order) {
            let i = choose|i: int|
                0 <= i < right.attaches.len() && (#[trigger] right.attaches[i]).order == order;
            assert(left.attaches[i].bare() == right.attaches[i].bare());
            assert(left.attaches[i].order == order);
        }
    }
    if left.wf() {
        lemma_bare_connection_wf(left, right);
    }
    if right.wf() {
        lemma_bare_connection_wf(right, left);
    }
}

proof fn lemma_bare_connection_wf(
    left: super::state::ConnectionModel,
    right: super::state::ConnectionModel,
)
    requires
        left.bare() == right.bare(),
        left.attaches.len() == right.attaches.len(),
        forall|i: int|
            0 <= i < left.attaches.len() ==> (#[trigger] left.attaches[i]).bare()
                == right.attaches[i].bare(),
        forall|k: Seq<char>| #[trigger]
            left.handle.inputs.contains_key(k) == right.handle.inputs.contains_key(k),
        forall|k: Seq<char>| #[trigger] left.lists(k) == right.lists(k),
        left.wf(),
    ensures
        right.wf(),
{
    assert(left.handle.id == left.bare().handle.id);
    assert(right.handle.id == right.bare().handle.id);
    assert forall|i: int, j: int| 0 <= i < j < right.attaches.len() implies (
    #[trigger] right.attaches[i]).seq < (#[trigger] right.attaches[j]).seq
        && right.attaches[i].order < right.attaches[j].order by {
        assert(left.attaches[i].bare() == right.attaches[i].bare());
        assert(left.attaches[j].bare() == right.attaches[j].bare());
        assert(left.attaches[i].seq < left.attaches[j].seq);
    }
    assert forall|i: int| 0 <= i < right.attaches.len() implies {
        &&& (#[trigger] right.attaches[i]).seq < right.next_attach
        &&& right.attaches[i].attach_id == right.attach_name(right.attaches[i].seq)
    } by {
        assert(left.attaches[i].bare() == right.attaches[i].bare());
    }
    assert forall|k: Seq<char>| #[trigger]
        right.handle.inputs.contains_key(k) <==> right.lists(k) by {
        assert(left.handle.inputs.contains_key(k) <==> left.lists(k));
    }
}

/// Soundness does not depend on what is derived.
pub proof fn lemma_bare_wf(left: super::state::ServerModel, right: super::state::ServerModel)
    requires
        left.bare() == right.bare(),
        left.wf(),
    ensures
        right.wf(),
{
    lemma_bare_connections(left, right);
    lemma_bare_frames(left, right);
    let l = left.control_connections;
    let r = right.control_connections;
    assert(left.next_control_connection_id == left.bare().next_control_connection_id);
    assert(left.tab_geometry_controllers == left.bare().tab_geometry_controllers);
    assert(right.tab_geometry_controllers == right.bare().tab_geometry_controllers);
    assert forall|i: int| 0 <= i < r.len() implies {
        &&& (#[trigger] r[i]).wf()
        &&& r[i].connection_id < super::state::CONTROL_CONNECTION_ID_BASE
            + right.next_control_connection_id
    } by {
        assert(l[i].wf());
        lemma_bare_connection(l[i], r[i]);
    }
    assert forall|i: int, j: int| 0 <= i < j < r.len() implies (#[trigger] r[i]).connection_id < (
    #[trigger] r[j]).connection_id by {
        assert(l[i].connection_id < l[j].connection_id);
    }
    assert forall|i: int, order: u64| 0 <= i < r.len() && (#[trigger] r[i].numbers(
        order,
    )) implies order < right.next_attach_order by {
        lemma_bare_connection(l[i], r[i]);
        assert(l[i].numbers(order));
    }
    assert forall|i: int, j: int, order: u64| 0 <= i < j < r.len() && (#[trigger] r[i].numbers(
        order,
    )) implies !(#[trigger] r[j].numbers(order)) by {
        lemma_bare_connection(l[i], r[i]);
        lemma_bare_connection(l[j], r[j]);
        assert(l[i].numbers(order));
    }
    assert forall|t: Seq<char>| #[trigger]
        right.tab_geometry_controllers.contains_key(t) && super::state::is_control(
            right.tab_geometry_controllers[t],
        ) implies right.is_open(right.tab_geometry_controllers[t]) by {
        let id = right.tab_geometry_controllers[t];
        assert(left.tab_geometry_controllers.contains_key(t));
        assert(left.is_open(id));
        lemma_open_connection(left, id);
        lemma_open_connection(right, id);
        assert(left.connection_index(id) == right.connection_index(id));
    }
}

/// Picking an answering attach changes derived state only.
pub proof fn lemma_query_sync_bare(server: super::state::ServerModel, terminal_id: Seq<char>)
    ensures
        server.synced_query_authority(terminal_id).bare() == server.bare(),
{
    let chosen = server.query_authority(terminal_id);
    let synced = server.synced_query_authority(terminal_id);
    let connections = server.control_connections;
    assert forall|i: int| 0 <= i < connections.len() implies (
    #[trigger] synced.control_connections[i]).bare() == connections[i].bare() by {
        let c = connections[i];
        let told = c.told(terminal_id, chosen, server.now);
        assert(synced.control_connections[i] == told);
        assert(told.bare().attaches =~= c.bare().attaches);
        assert(told.bare().handle.inputs =~= c.bare().handle.inputs);
    }
    assert(synced.bare().control_connections =~= server.bare().control_connections);
}

/// Picking answering attaches changes derived state only.
pub proof fn lemma_query_syncs_bare(
    server: super::state::ServerModel,
    terminals: Seq<Seq<char>>,
)
    ensures
        server.synced_query_authorities(terminals).bare() == server.bare(),
    decreases terminals.len(),
{
    if terminals.len() > 0 {
        lemma_query_syncs_bare(server, terminals.drop_last());
        lemma_query_sync_bare(
            server.synced_query_authorities(terminals.drop_last()),
            terminals.last(),
        );
    }
}

/// Bringing derived state up to date changes derived state only.
pub proof fn lemma_geometry_sync_bare(server: super::state::ServerModel)
    ensures
        server.synced_control_geometry_tabs().bare() == server.bare(),
{
    let mirrored = server.mirrored();
    let claims = mirrored.with_input_claims();
    let connections = server.control_connections;
    assert forall|i: int| 0 <= i < connections.len() implies (
    #[trigger] claims.control_connections[i]).bare() == connections[i].bare() by {
        let c = connections[i];
        let flagged = c.with_claims(mirrored.claiming_attaches(c));
        assert(claims.control_connections[i] == flagged);
        assert(flagged.bare().attaches =~= c.bare().attaches);
        assert(flagged.bare().handle.inputs =~= c.bare().handle.inputs);
    }
    assert(claims.bare().control_connections =~= server.bare().control_connections);
    assert(claims.bare() == server.bare());
    lemma_query_syncs_bare(claims, server.terminals_changing_hands());
}

/// A claim changes one tab's owner, and derived state.
pub proof fn lemma_claimed_bare(
    server: super::state::ServerModel,
    connection_id: u64,
    tab_id: Seq<char>,
    geometry: super::state::ControlTabGeometry,
)
    ensures
        server.claimed(connection_id, tab_id, geometry).bare() == (
        if server.app.parse_tab_id(tab_id) is Some {
            server.with_controller(tab_id, Some(connection_id)).bare()
        } else {
            server.bare()
        }),
{
    if server.app.parse_tab_id(tab_id) is Some {
        lemma_geometry_sync_bare(server.with_controller(tab_id, Some(connection_id)));
    }
}

/// Forgetting attaches whose terminal went away keeps the frames.
pub proof fn lemma_pruned_frames(server: super::state::ServerModel, connection_id: u64)
    ensures
        server.pruned(connection_id).frames() == server.frames(),
        server.pruned(connection_id).next_attach_order == server.next_attach_order,
{
    lemma_open_connection(server, connection_id);
    if let Some(i) = server.connection_index(connection_id) {
        let c = server.control_connections[i];
        if c.attaches.filter(server.gone()).len() > 0 {
            let without = server.with_connection(i, c.without(server.gone()));
            lemma_without_frames(server, i, server.gone());
            lemma_geometry_sync_bare(without);
            lemma_bare_frames(without.synced_control_geometry_tabs(), without);
        }
    }
}

/// Taking attaches out of a connection keeps the frames.
pub proof fn lemma_without_frames(
    server: super::state::ServerModel,
    i: int,
    gone: spec_fn(super::state::AttachModel) -> bool,
)
    requires
        0 <= i < server.control_connections.len(),
    ensures
        server.with_connection(i, server.control_connections[i].without(gone)).frames()
            == server.frames(),
{
    let c = server.control_connections[i];
    assert(c.without(gone).frame() =~= c.frame());
    assert(server.with_connection(i, c.without(gone)).frames() =~= server.frames());
}

/// Evicting attaches keeps the frames.
pub proof fn lemma_evicted_frames(
    server: super::state::ServerModel,
    terminal_id: Seq<char>,
    reason: TerminalDetachReason,
    scope: super::state::EvictScope,
)
    ensures
        server.evicted(terminal_id, reason, scope).frames() == server.frames(),
        server.evicted(terminal_id, reason, scope).next_attach_order == server.next_attach_order,
{
    let connections = server.control_connections.map_values(
        |c: super::state::ConnectionModel| c.without(c.evictees(terminal_id, scope)),
    );
    let without = server.with_connections(connections);
    assert forall|i: int| 0 <= i < connections.len() implies (#[trigger] connections[i]).frame()
        == server.control_connections[i].frame() by {
        let c = server.control_connections[i];
        assert(c.without(c.evictees(terminal_id, scope)).frame() =~= c.frame());
    }
    assert(without.frames() =~= server.frames());
    let leavers = server.control_connections.flat_map(
        |c: super::state::ConnectionModel| c.attaches.filter(c.evictees(terminal_id, scope)),
    );
    let released = without.released_attaches(leavers, reason);
    super::release::lemma_released_attaches_frame(without, leavers, reason);
    let synced = released.synced_query_authority(terminal_id);
    lemma_query_sync_bare(released, terminal_id);
    lemma_bare_frames(synced, released);
    lemma_geometry_sync_bare(synced);
    lemma_bare_frames(synced.synced_control_geometry_tabs(), synced);
}

} // verus!
