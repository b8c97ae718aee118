//! Ending attaches and connections, and handing tabs over to who remains.

use vstd::prelude::*;

use super::state::{
    ControlAttach, ControlConnectionState, ControlEffect, ControlTabGeometry, EvictScope,
    HeadlessServer,
};
use crate::schema::{TerminalAttachGeometry, TerminalDetachReason};
use crate::text::{holds_text, same_text};

verus! {

/// Whether one of the attaches that `gone` takes has that id.
pub open spec fn among(
    attaches: Seq<super::state::AttachModel>,
    gone: spec_fn(super::state::AttachModel) -> bool,
    attach_id: Seq<char>,
) -> bool {
    exists|i: int|
        0 <= i < attaches.len() && (#[trigger] attaches[i]).attach_id == attach_id && gone(
            attaches[i],
        )
}

/// The input entries without those of the attaches that `gone` takes.
pub open spec fn without_inputs(
    inputs: Map<Seq<char>, crate::control::InputEntry>,
    attaches: Seq<super::state::AttachModel>,
    gone: spec_fn(super::state::AttachModel) -> bool,
) -> Map<Seq<char>, crate::control::InputEntry> {
    Map::new(
        |k: Seq<char>| inputs.contains_key(k) && !among(attaches, gone, k),
        |k: Seq<char>| inputs[k],
    )
}

impl super::state::ConnectionModel {
    /// The connection without the attaches that `gone` takes.
    pub open spec fn without(
        self,
        gone: spec_fn(super::state::AttachModel) -> bool,
    ) -> super::state::ConnectionModel {
        super::state::ConnectionModel {
            attaches: self.attaches.filter(|a: super::state::AttachModel| !gone(a)),
            handle: crate::control::HandleModel {
                inputs: without_inputs(self.handle.inputs, self.attaches, gone),
                ..self.handle
            },
            ..self
        }
    }

    /// The attaches of this connection that a takeover of a terminal evicts.
    pub open spec fn evictees(
        self,
        terminal_id: Seq<char>,
        scope: EvictScope,
    ) -> spec_fn(super::state::AttachModel) -> bool {
        |a: super::state::AttachModel|
            a.terminal_id == terminal_id && scope.covers(a.geometry, self.protocol)
    }
}

impl super::state::ServerModel {
    /// What ending an attach takes outside: its tap goes, and a terminal it
    /// sized is handed back to whoever sizes its tab.
    pub open spec fn release_effects(
        self,
        attach: super::state::AttachModel,
        reason: TerminalDetachReason,
    ) -> Seq<super::state::EffectModel> {
        let t = attach.terminal_id;
        let detach = if self.app.running(t) {
            seq![
                super::state::EffectModel::DetachRaw {
                    terminal_id: t,
                    attach_id: attach.attach_id,
                    reason,
                },
            ]
        } else {
            Seq::empty()
        };
        let hand_back = if attach.geometry == TerminalAttachGeometry::Terminal {
            match self.shell_geometry_controller_for_terminal(t) {
                Some((controller_id, target)) => seq![
                    super::state::EffectModel::RestoreShellTab { controller_id, target },
                ],
                None => seq![super::state::EffectModel::ResizeForOnlyShellClient],
            }
        } else {
            Seq::empty()
        };
        detach + hand_back
    }

    /// The server once an attach ended that is no longer listed.
    pub open spec fn released_attach(
        self,
        attach: super::state::AttachModel,
        reason: TerminalDetachReason,
    ) -> super::state::ServerModel {
        super::state::ServerModel {
            direct_attach_resize_locks: if attach.geometry == TerminalAttachGeometry::Terminal
                && self.app.registered(attach.terminal_id) {
                self.direct_attach_resize_locks.remove(attach.terminal_id)
            } else {
                self.direct_attach_resize_locks
            },
            effects: self.effects + self.release_effects(attach, reason),
            ..self
        }
    }

    /// The server once attaches ended, one after another, that are no longer
    /// listed.
    pub open spec fn released_attaches(
        self,
        attaches: Seq<super::state::AttachModel>,
        reason: TerminalDetachReason,
    ) -> super::state::ServerModel
        decreases attaches.len(),
    {
        if attaches.len() == 0 {
            self
        } else {
            self.released_attaches(attaches.drop_last(), reason).released_attach(
                attaches.last(),
                reason,
            )
        }
    }

    /// The server once a takeover evicted what `scope` covers from a terminal.
    pub open spec fn evicted(
        self,
        terminal_id: Seq<char>,
        reason: TerminalDetachReason,
        scope: EvictScope,
    ) -> super::state::ServerModel {
        self.with_connections(
            self.control_connections.map_values(
                |c: super::state::ConnectionModel| c.without(c.evictees(terminal_id, scope)),
            ),
        ).released_attaches(
            self.control_connections.flat_map(
                |c: super::state::ConnectionModel|
                    c.attaches.filter(c.evictees(terminal_id, scope)),
            ),
            reason,
        ).synced_query_authority(terminal_id).synced_control_geometry_tabs()
    }

    /// Attaches whose terminal went away.
    pub open spec fn gone(self) -> spec_fn(super::state::AttachModel) -> bool {
        |a: super::state::AttachModel| !self.app.running(a.terminal_id)
    }

    /// The server without the connection's attaches whose terminal went away.
    pub open spec fn pruned(self, connection_id: u64) -> super::state::ServerModel {
        match self.connection_index(connection_id) {
            Some(i) => {
                let c = self.control_connections[i];
                if c.attaches.filter(self.gone()).len() == 0 {
                    self
                } else {
                    self.with_connection(i, c.without(self.gone())).synced_control_geometry_tabs()
                }
            },
            None => self,
        }
    }

    /// The tabs that an id sizes.
    pub open spec fn owned_tabs(self, id: u64) -> Set<Seq<char>> {
        Set::new(
            |t: Seq<char>|
                self.tab_geometry_controllers.contains_key(t) && self.tab_geometry_controllers[t]
                    == id,
        )
    }

    /// The server where an id sizes no tab.
    pub open spec fn disowned(self, id: u64) -> super::state::ServerModel {
        super::state::ServerModel {
            tab_geometry_controllers: self.tab_geometry_controllers.remove_keys(
                self.owned_tabs(id),
            ),
            ..self
        }
    }

    /// Whether the connection at `i` is the one that last interacted with the
    /// tab, of those that stored a size for it (the newest on a tie).
    pub open spec fn is_successor(self, tab_id: Seq<char>, i: int) -> bool {
        let connections = self.control_connections;
        &&& 0 <= i < connections.len()
        &&& connections[i].holds_tab(tab_id)
        &&& forall|j: int|
            0 <= j < connections.len() && (#[trigger] connections[j]).holds_tab(tab_id) ==> {
                let theirs = connections[j].tab_geometry[tab_id].last_interaction;
                let ours = connections[i].tab_geometry[tab_id].last_interaction;
                theirs < ours || (theirs == ours && j <= i)
            }
    }

    /// The connection that last interacted with the tab, of those that stored
    /// a size for it.
    pub open spec fn successor(self, tab_id: Seq<char>) -> Option<int> {
        if exists|i: int| self.is_successor(tab_id, i) {
            Some(choose|i: int| self.is_successor(tab_id, i))
        } else {
            None
        }
    }

    /// The server once a tab passed to its successor.
    pub open spec fn handed_over_tab(self, tab_id: Seq<char>) -> super::state::ServerModel {
        match self.successor(tab_id) {
            Some(i) => self.claimed(
                self.control_connections[i].connection_id,
                tab_id,
                self.control_connections[i].tab_geometry[tab_id],
            ),
            None => self,
        }
    }

    /// The server once tabs passed to their successors, one after another.
    pub open spec fn handed_over(self, tabs: Seq<Seq<char>>) -> super::state::ServerModel
        decreases tabs.len(),
    {
        if tabs.len() == 0 {
            self
        } else {
            self.handed_over(tabs.drop_last()).handed_over_tab(tabs.last())
        }
    }

    /// The server once a connection ended: its attaches go, the tabs it owned
    /// pass to the connection that last interacted with them, and everything
    /// derived is brought up to date.
    pub open spec fn released_connection(self, connection_id: u64) -> super::state::ServerModel {
        match self.connection_index(connection_id) {
            Some(i) => {
                let c = self.control_connections[i];
                self.with_connections(self.control_connections.remove(i)).released_attaches(
                    c.attaches,
                    TerminalDetachReason::Closed,
                ).disowned(connection_id).handed_over(
                    crate::find::ascending_members(self.owned_tabs(connection_id)),
                ).synced_control_geometry_tabs().synced_query_authorities(
                    crate::find::distinct(c.attached_terminals()),
                ).with_effect(super::state::EffectModel::RederiveShellGeometry).with_effect(
                    super::state::EffectModel::StreamClosed { connection_id },
                )
            },
            None => self,
        }
    }
}

/// There is one successor at most.
pub proof fn lemma_successor_unique(server: super::state::ServerModel, tab_id: Seq<char>, i: int)
    requires
        server.is_successor(tab_id, i),
    ensures
        server.successor(tab_id) == Some(i),
{
    let j = choose|j: int| server.is_successor(tab_id, j);
    assert(server.is_successor(tab_id, j));
    assert(server.control_connections[i].holds_tab(tab_id));
    assert(server.control_connections[j].holds_tab(tab_id));
}

/// Ending attaches leaves everything but locks and effects alone.
pub proof fn lemma_released_attaches_frame(
    server: super::state::ServerModel,
    attaches: Seq<super::state::AttachModel>,
    reason: TerminalDetachReason,
)
    ensures
        server.released_attaches(attaches, reason) == (super::state::ServerModel {
            direct_attach_resize_locks: server.released_attaches(
                attaches,
                reason,
            ).direct_attach_resize_locks,
            effects: server.released_attaches(attaches, reason).effects,
            ..server
        }),
    decreases attaches.len(),
{
    if attaches.len() > 0 {
        lemma_released_attaches_frame(server, attaches.drop_last(), reason);
    }
}

impl ControlConnectionState {
    /// Takes the flagged attaches out, with their input entries.
    pub(super) fn remove_attaches(
        &mut self,
        flags: &Vec<bool>,
        Ghost(gone): Ghost<spec_fn(super::state::AttachModel) -> bool>,
    ) -> (removed: Vec<ControlAttach>)
        requires
            flags@.len() == old(self)@.attaches.len(),
            forall|i: int|
                0 <= i < flags@.len() ==> #[trigger] flags@[i] == gone(old(self)@.attaches[i]),
        ensures
            final(self)@ == old(self)@.without(gone),
            super::state::attach_views(removed@) == old(self)@.attaches.filter(gone),
    {
        let ghost start = self@;
        let ghost attaches = start.attaches;
        let ghost stays = |a: super::state::AttachModel| !gone(a);
        let mut removed: Vec<ControlAttach> = Vec::new();
        let mut kept: usize = 0;
        let mut i: usize = 0;
        proof {
            assert(attaches.take(0).filter(stays) =~= Seq::empty());
            assert(attaches.take(0).filter(gone) =~= Seq::empty());
            assert(super::state::attach_views(removed@) =~= Seq::empty());
            assert(self@.attaches =~= attaches.take(0).filter(stays) + attaches.skip(0));
            assert(without_inputs(start.handle.inputs, attaches.take(0), gone)
                =~= start.handle.inputs);
        }
        while i < flags.len()
            invariant
                0 <= i <= flags.len(),
                start == old(self)@,
                attaches == start.attaches,
                stays == (|a: super::state::AttachModel| !gone(a)),
                flags@.len() == attaches.len(),
                forall|k: int| 0 <= k < flags@.len() ==> #[trigger] flags@[k] == gone(attaches[k]),
                self@ == (super::state::ConnectionModel {
                    attaches: self@.attaches,
                    handle: self@.handle,
                    ..start
                }),
                self@.handle == (crate::control::HandleModel {
                    inputs: without_inputs(start.handle.inputs, attaches.take(i as int), gone),
                    ..start.handle
                }),
                self@.attaches == attaches.take(i as int).filter(stays) + attaches.skip(i as int),
                kept == attaches.take(i as int).filter(stays).len(),
                super::state::attach_views(removed@) == attaches.take(i as int).filter(gone),
            decreases flags.len() - i,
        {
            let ghost taken = attaches.take(i as int);
            let ghost current = attaches[i as int];
            let ghost stayed = taken.filter(stays);
            let ghost mid = self@;
            proof {
                assert(attaches.take(i + 1) =~= taken.push(current));
                taken.lemma_filter_push(current, stays);
                taken.lemma_filter_push(current, gone);
                assert(attaches.skip(i as int) =~= seq![current] + attaches.skip(i + 1));
                assert(self@.attaches[kept as int] == current);
                assert(self.attaches@.len() == self@.attaches.len());
                assert(self.attaches@[kept as int]@ == current);
                lemma_among_push(taken, current, gone);
            }
            if flags[i] {
                let attach = self.attaches.remove(kept);
                self.handle.unregister_input(attach.attach_id.as_str());
                let ghost before = super::state::attach_views(removed@);
                removed.push(attach);
                proof {
                    assert(attach@ == current);
                    assert(super::state::attach_views(removed@) =~= before.push(current));
                    assert(self@.attaches =~= mid.attaches.remove(kept as int));
                    assert(self@.attaches =~= stayed + attaches.skip(i + 1));
                    assert(self@.handle.inputs =~= without_inputs(
                        start.handle.inputs,
                        taken.push(current),
                        gone,
                    ));
                }
            } else {
                kept += 1;
                proof {
                    assert(stayed.push(current) + attaches.skip(i + 1) =~= stayed + attaches.skip(
                        i as int,
                    ));
                    assert(self@.handle.inputs =~= without_inputs(
                        start.handle.inputs,
                        taken.push(current),
                        gone,
                    ));
                }
            }
            i += 1;
        }
        proof {
            assert(attaches.take(attaches.len() as int) =~= attaches);
            assert(attaches.filter(stays) + attaches.skip(attaches.len() as int)
                =~= attaches.filter(stays));
        }
        removed
    }
}

proof fn lemma_among_push(
    taken: Seq<super::state::AttachModel>,
    current: super::state::AttachModel,
    gone: spec_fn(super::state::AttachModel) -> bool,
)
    ensures
        forall|k: Seq<char>| #[trigger]
            among(taken.push(current), gone, k) == (among(taken, gone, k) || (gone(current)
                && current.attach_id == k)),
{
    assert forall|k: Seq<char>| #[trigger]
        among(taken.push(current), gone, k) == (among(taken, gone, k) || (gone(current)
            && current.attach_id == k)) by {
        let pushed = taken.push(current);
        if among(taken, gone, k) {
            let j = choose|j: int|
                0 <= j < taken.len() && (#[trigger] taken[j]).attach_id == k && gone(taken[j]);
            assert(pushed[j] == taken[j]);
        }
        if gone(current) && current.attach_id == k {
            assert(pushed[taken.len() as int] == current);
        }
        if among(pushed, gone, k) {
            let j = choose|j: int|
                0 <= j < pushed.len() && (#[trigger] pushed[j]).attach_id == k && gone(pushed[j]);
            if j < taken.len() {
                assert(taken[j] == pushed[j]);
            }
        }
    }
}

impl HeadlessServer {
    /// Ends an attach that is no longer listed: its tap goes, and a terminal
    /// it sized is handed back to whoever sizes its tab.
    pub fn release_control_attach(&mut self, attach: &ControlAttach, reason: TerminalDetachReason)
        ensures
            final(self)@ == old(self)@.released_attach(attach@, reason),
    {
        let ghost start = self@;
        let ghost t = attach.terminal_id@;
        if self.app.control_runtime(attach.terminal_id.as_str()).is_some() {
            self.push_effect(
                ControlEffect::DetachRaw {
                    terminal_id: attach.terminal_id.clone(),
                    attach_id: attach.attach_id.clone(),
                    reason,
                },
            );
        }
        if attach.geometry == TerminalAttachGeometry::Terminal {
            if self.app.registered(attach.terminal_id.as_str()) {
                self.direct_attach_resize_locks.remove(attach.terminal_id.as_str());
            }
            assert(self@.shell_geometry_controller_for_terminal(t)
                == start.shell_geometry_controller_for_terminal(t));
            if let Some((controller_id, target)) = self.shell_geometry_controller_for_terminal(
                attach.terminal_id.as_str(),
            ) {
                self.push_effect(ControlEffect::RestoreShellTab { controller_id, target });
            } else {
                self.push_effect(ControlEffect::ResizeForOnlyShellClient);
            }
        }
        assert(self@.effects =~= start.effects + start.release_effects(attach@, reason));
    }

    /// Ends attaches, one after another, that are no longer listed.
    pub fn release_control_attaches(
        &mut self,
        attaches: &Vec<ControlAttach>,
        reason: TerminalDetachReason,
    )
        ensures
            final(self)@ == old(self)@.released_attaches(
                super::state::attach_views(attaches@),
                reason,
            ),
    {
        let ghost views = super::state::attach_views(attaches@);
        let mut i: usize = 0;
        assert(views.take(0) =~= Seq::empty());
        while i < attaches.len()
            invariant
                0 <= i <= attaches.len(),
                views == super::state::attach_views(attaches@),
                self@ == old(self)@.released_attaches(views.take(i as int), reason),
            decreases attaches.len() - i,
        {
            self.release_control_attach(&attaches[i], reason);
            proof {
                assert(views.take(i + 1).drop_last() =~= views.take(i as int));
                assert(views.take(i + 1).last() == attaches@[i as int]@);
            }
            i += 1;
        }
        assert(views.take(views.len() as int) =~= views);
    }

    /// Forgets attaches whose terminal went away; the pane already sent
    /// `terminal.detached` when its runtime dropped.
    pub fn prune_closed_control_attaches(&mut self, connection_id: u64)
        ensures
            final(self)@ == old(self)@.pruned(connection_id),
    {
        let index: usize = match self.connection_index(connection_id) {
            Some(index) => index,
            None => {
                return ;
            },
        };
        let ghost start = self@;
        let ghost connection = start.control_connections[index as int];
        let ghost gone = start.gone();
        assert(connection == self.control_connections@[index as int]@);
        let mut flags: Vec<bool> = Vec::new();
        let mut any = false;
        let mut i: usize = 0;
        assert(connection.attaches.take(0).filter(gone) =~= Seq::empty());
        while i < self.control_connections[index].attaches.len()
            invariant
                index < self.control_connections@.len(),
                0 <= i <= connection.attaches.len(),
                *self == *old(self),
                start == self@,
                gone == start.gone(),
                connection == self.control_connections@[index as int]@,
                flags@.len() == i,
                forall|k: int|
                    0 <= k < i ==> #[trigger] flags@[k] == gone(connection.attaches[k]),
                any == (connection.attaches.take(i as int).filter(gone).len() > 0),
            decreases connection.attaches.len() - i,
        {
            let ghost current = connection.attaches[i as int];
            let missing = self.app.control_runtime(
                self.control_connections[index].attaches[i].terminal_id.as_str(),
            ).is_none();
            proof {
                let taken = connection.attaches.take(i as int);
                assert(connection.attaches.take(i + 1) =~= taken.push(current));
                taken.lemma_filter_push(current, gone);
                assert(missing == gone(current));
            }
            flags.push(missing);
            if missing {
                any = true;
            }
            i += 1;
        }
        assert(connection.attaches.take(connection.attaches.len() as int) =~= connection.attaches);
        if !any {
            return ;
        }
        let _ = self.control_connections[index].remove_attaches(&flags, Ghost(gone));
        assert(self@.control_connections =~= start.control_connections.update(
            index as int,
            connection.without(gone),
        ));
        self.sync_control_geometry_tabs();
    }

    /// Flags the attaches of the connection at `index` that a takeover of a
    /// terminal evicts.
    fn eviction_flags(&self, index: usize, terminal_id: &str, scope: EvictScope) -> (flags: Vec<bool>)
        requires
            index < self.control_connections@.len(),
        ensures
            flags@.len() == self.control_connections@[index as int]@.attaches.len(),
            forall|k: int|
                0 <= k < flags@.len() ==> #[trigger] flags@[k] == (
                self.control_connections@[index as int]@.evictees(terminal_id@, scope))(
                    self.control_connections@[index as int]@.attaches[k],
                ),
    {
        let state = &self.control_connections[index];
        let ghost evicted = state@.evictees(terminal_id@, scope);
        let mut flags: Vec<bool> = Vec::new();
        let mut i: usize = 0;
        while i < state.attaches.len()
            invariant
                0 <= i <= state.attaches.len(),
                evicted == state@.evictees(terminal_id@, scope),
                flags@.len() == i,
                forall|k: int| 0 <= k < i ==> #[trigger] flags@[k] == evicted(state@.attaches[k]),
            decreases state.attaches.len() - i,
        {
            let attach = &state.attaches[i];
            assert(state@.attaches[i as int] == attach@);
            flags.push(
                same_text(attach.terminal_id.as_str(), terminal_id) && scope.evicts(
                    attach.geometry,
                    state.protocol,
                ),
            );
            i += 1;
        }
        flags
    }

    /// Detaches control attaches on a terminal for a takeover, within
    /// `scope`.
    pub fn detach_control_attaches_for_terminal(
        &mut self,
        terminal_id: &str,
        reason: TerminalDetachReason,
        scope: EvictScope,
    )
        ensures
            final(self)@ == old(self)@.evicted(terminal_id@, reason, scope),
    {
        let ghost start = self@;
        let ghost connections = start.control_connections;
        let ghost leavers = |c: super::state::ConnectionModel|
            c.attaches.filter(c.evictees(terminal_id@, scope));
        let mut removed: Vec<ControlAttach> = Vec::new();
        let mut i: usize = 0;
        proof {
            assert(connections.take(0).flat_map(leavers) =~= Seq::empty());
            assert(super::state::attach_views(removed@) =~= Seq::empty());
        }
        while i < self.control_connections.len()
            invariant
                0 <= i <= self.control_connections.len(),
                start == old(self)@,
                connections == start.control_connections,
                self.control_connections.len() == connections.len(),
                leavers == (|c: super::state::ConnectionModel|
                    c.attaches.filter(c.evictees(terminal_id@, scope))),
                self@ == start.with_connections(self@.control_connections),
                super::state::attach_views(removed@) == connections.take(i as int).flat_map(leavers),
                forall|k: int|
                    0 <= k < i ==> #[trigger] self@.control_connections[k]
                        == connections[k].without(connections[k].evictees(terminal_id@, scope)),
                forall|k: int|
                    i <= k < connections.len() ==> #[trigger] self@.control_connections[k]
                        == connections[k],
            decreases self.control_connections.len() - i,
        {
            let ghost before = self@.control_connections;
            let ghost current = connections[i as int];
            let ghost evicted = current.evictees(terminal_id@, scope);
            assert(before[i as int] == current);
            let flags = self.eviction_flags(i, terminal_id, scope);
            let mut leaving = self.control_connections[i].remove_attaches(&flags, Ghost(evicted));
            proof {
                assert(self@.control_connections =~= before.update(
                    i as int,
                    current.without(evicted),
                ));
                connections.lemma_flat_map_take_append(leavers, i as int);
            }
            let ghost gathered = super::state::attach_views(removed@);
            let ghost added = super::state::attach_views(leaving@);
            removed.append(&mut leaving);
            assert(super::state::attach_views(removed@) =~= gathered + added);
            i += 1;
        }
        proof {
            assert(connections.take(connections.len() as int) =~= connections);
            assert(self@.control_connections =~= connections.map_values(
                |c: super::state::ConnectionModel| c.without(c.evictees(terminal_id@, scope)),
            ));
        }
        self.release_control_attaches(&removed, reason);
        self.sync_query_authority(terminal_id);
        self.sync_control_geometry_tabs();
    }

    /// The connection that last interacted with the tab, of those that stored
    /// a size for it, and that size.
    fn successor(&self, tab_id: &str) -> (successor: Option<(u64, ControlTabGeometry)>)
        ensures
            match successor {
                Some((connection_id, geometry)) => {
                    &&& self@.successor(tab_id@) matches Some(i)
                    &&& self@.control_connections[i].connection_id == connection_id
                    &&& self@.control_connections[i].tab_geometry[tab_id@] == geometry
                },
                None => self@.successor(tab_id@) is None,
            },
    {
        let ghost connections = self@.control_connections;
        let mut best: Option<(u64, ControlTabGeometry)> = None;
        let ghost mut at: int = 0;
        let mut i: usize = 0;
        while i < self.control_connections.len()
            invariant
                0 <= i <= self.control_connections.len(),
                connections == self@.control_connections,
                match best {
                    Some((connection_id, geometry)) => {
                        &&& 0 <= at < i
                        &&& connections[at].holds_tab(tab_id@)
                        &&& connections[at].connection_id == connection_id
                        &&& connections[at].tab_geometry[tab_id@] == geometry
                        &&& forall|j: int|
                            0 <= j < i && (#[trigger] connections[j]).holds_tab(tab_id@) ==> {
                                let theirs = connections[j].tab_geometry[tab_id@].last_interaction;
                                theirs < geometry.last_interaction || (theirs
                                    == geometry.last_interaction && j <= at)
                            }
                    },
                    None => forall|j: int|
                        0 <= j < i ==> !(#[trigger] connections[j]).holds_tab(tab_id@),
                },
            decreases self.control_connections.len() - i,
        {
            let state = &self.control_connections[i];
            assert(connections[i as int] == state@);
            if let Some(geometry) = state.tab_geometry.get(tab_id) {
                let later = match best {
                    Some((_, latest)) => geometry.last_interaction >= latest.last_interaction,
                    None => true,
                };
                if later {
                    best = Some((state.connection_id, *geometry));
                    proof {
                        at = i as int;
                    }
                }
            }
            i += 1;
        }
        proof {
            match best {
                Some(_) => {
                    assert(self@.is_successor(tab_id@, at));
                    lemma_successor_unique(self@, tab_id@, at);
                },
                None => {
                    assert forall|j: int| !self@.is_successor(tab_id@, j) by {}
                },
            }
        }
        best
    }

    /// The tabs that an id sizes, in the order of their ids.
    fn owned_tabs(&self, id: u64) -> (tabs: Vec<String>)
        ensures
            crate::text::text_views(tabs@) == crate::find::ascending_members(self@.owned_tabs(id)),
            forall|t: Seq<char>|
                crate::text::text_views(tabs@).contains(t) <==> #[trigger] self@.owned_tabs(
                    id,
                ).contains(t),
    {
        let keys = self.tab_geometry_controllers.keys();
        let ghost names = crate::text::text_views(keys@);
        let mut owned = crate::table::TextSet::new();
        let mut i: usize = 0;
        while i < keys.len()
            invariant
                0 <= i <= keys.len(),
                names == crate::text::text_views(keys@),
                forall|t: Seq<char>| #[trigger]
                    owned@.contains(t) <==> names.take(i as int).contains(t)
                        && self@.owned_tabs(id).contains(t),
            decreases keys.len() - i,
        {
            proof {
                crate::find::lemma_take_push(names, i as int);
                assert(names[i as int] == keys@[i as int]@);
            }
            if let Some(controller) = self.controller(keys[i].as_str()) {
                if controller == id {
                    owned.insert(keys[i].clone());
                }
            }
            i += 1;
        }
        let tabs = owned.sorted();
        proof {
            assert(names.take(names.len() as int) =~= names);
            let listed = crate::text::text_views(tabs@);
            assert forall|t: Seq<char>|
                #![trigger listed.contains(t)]
                listed.contains(t) <==> self@.owned_tabs(id).contains(t) by {
                assert(listed.contains(t) <==> owned@.contains(t));
                assert(names.contains(t) <==> self@.tab_geometry_controllers.contains_key(t));
            }
            crate::find::lemma_ascending_members(self@.owned_tabs(id), listed);
        }
        tabs
    }

    /// Takes every tab away from an id.
    fn disown(&mut self, id: u64, tabs: &Vec<String>)
        requires
            crate::text::text_views(tabs@) == crate::find::ascending_members(
                old(self)@.owned_tabs(id),
            ),
            forall|t: Seq<char>|
                crate::text::text_views(tabs@).contains(t) <==> #[trigger] old(self)@.owned_tabs(
                    id,
                ).contains(t),
        ensures
            final(self)@ == old(self)@.disowned(id),
    {
        let ghost start = self@;
        let ghost names = crate::text::text_views(tabs@);
        let mut i: usize = 0;
        while i < tabs.len()
            invariant
                0 <= i <= tabs.len(),
                start == old(self)@,
                names == crate::text::text_views(tabs@),
                self@ == (super::state::ServerModel {
                    tab_geometry_controllers: self@.tab_geometry_controllers,
                    ..start
                }),
                forall|t: Seq<char>| #[trigger]
                    self@.tab_geometry_controllers.dom().contains(t) <==> (
                    start.tab_geometry_controllers.dom().contains(t) && !names.take(
                        i as int,
                    ).contains(t)),
                forall|t: Seq<char>|
                    self@.tab_geometry_controllers.dom().contains(t)
                        ==> #[trigger] self@.tab_geometry_controllers[t]
                        == start.tab_geometry_controllers[t],
            decreases tabs.len() - i,
        {
            proof {
                crate::find::lemma_take_push(names, i as int);
                assert(names[i as int] == tabs@[i as int]@);
            }
            self.tab_geometry_controllers.remove(tabs[i].as_str());
            i += 1;
        }
        proof {
            assert(names.take(names.len() as int) =~= names);
            assert(self@.tab_geometry_controllers =~= start.disowned(
                id,
            ).tab_geometry_controllers) by {
                assert forall|t: Seq<char>| #[trigger]
                    self@.tab_geometry_controllers.dom().contains(t) == start.disowned(
                        id,
                    ).tab_geometry_controllers.dom().contains(t) by {
                    assert(names.contains(t) <==> start.owned_tabs(id).contains(t));
                }
            }
        }
    }

    /// Passes tabs to their successors, one after another.
    fn hand_over(&mut self, tabs: &Vec<String>)
        ensures
            final(self)@ == old(self)@.handed_over(crate::text::text_views(tabs@)),
    {
        let ghost names = crate::text::text_views(tabs@);
        let mut i: usize = 0;
        assert(names.take(0) =~= Seq::empty());
        while i < tabs.len()
            invariant
                0 <= i <= tabs.len(),
                names == crate::text::text_views(tabs@),
                self@ == old(self)@.handed_over(names.take(i as int)),
            decreases tabs.len() - i,
        {
            if let Some((successor_id, geometry)) = self.successor(tabs[i].as_str()) {
                self.claim_control_tab_geometry(successor_id, tabs[i].as_str(), geometry);
            }
            proof {
                assert(names.take(i + 1).drop_last() =~= names.take(i as int));
                assert(names.take(i + 1).last() == tabs@[i as int]@);
            }
            i += 1;
        }
        assert(names.take(names.len() as int) =~= names);
    }

    /// Drops every attach and geometry claim of a control connection. Tabs
    /// it owned pass to the connection that last interacted with them, else
    /// back to the shell client rules.
    pub fn release_control_connection(&mut self, connection_id: u64)
        ensures
            final(self)@ == old(self)@.released_connection(connection_id),
    {
        let index: usize = match self.connection_index(connection_id) {
            Some(index) => index,
            None => {
                return ;
            },
        };
        let ghost start = self@;
        let ghost connection = start.control_connections[index as int];
        assert(connection == self.control_connections@[index as int]@);
        let state = self.control_connections.remove(index);
        assert(self@.control_connections =~= start.control_connections.remove(index as int));
        let terminals = distinct_terminals(&state);
        self.release_control_attaches(&state.attaches, TerminalDetachReason::Closed);
        proof {
            lemma_released_attaches_frame(
                start.with_connections(start.control_connections.remove(index as int)),
                connection.attaches,
                TerminalDetachReason::Closed,
            );
            assert(self@.owned_tabs(connection_id) =~= start.owned_tabs(connection_id));
        }
        let owned = self.owned_tabs(connection_id);
        self.disown(connection_id, &owned);
        self.hand_over(&owned);
        self.sync_control_geometry_tabs();
        self.sync_query_authorities(&terminals);
        // Always re-derive geometry: terminal-sized attaches released above
        // need their tabs back even when this stream held no tab claims.
        self.push_effect(ControlEffect::RederiveShellGeometry);
        self.push_effect(ControlEffect::StreamClosed { connection_id });
    }
}

/// The terminals of a connection's attaches, each once.
fn distinct_terminals(state: &ControlConnectionState) -> (terminals: Vec<String>)
    ensures
        crate::text::text_views(terminals@) == crate::find::distinct(state@.attached_terminals()),
{
    let ghost names = state@.attached_terminals();
    let mut terminals: Vec<String> = Vec::new();
    let mut i: usize = 0;
    proof {
        assert(names.take(0) =~= Seq::empty());
        assert(crate::text::text_views(terminals@) =~= Seq::empty());
    }
    while i < state.attaches.len()
        invariant
            0 <= i <= state.attaches.len(),
            names == state@.attached_terminals(),
            crate::text::text_views(terminals@) == crate::find::distinct(names.take(i as int)),
        decreases state.attaches.len() - i,
    {
        let terminal_id = &state.attaches[i].terminal_id;
        proof {
            assert(names.take(i + 1).drop_last() =~= names.take(i as int));
            assert(names.take(i + 1).last() == terminal_id@);
        }
        if !holds_text(&terminals, terminal_id.as_str()) {
            let ghost before = crate::text::text_views(terminals@);
            terminals.push(terminal_id.clone());
            assert(crate::text::text_views(terminals@) =~= before.push(terminal_id@));
        }
        i += 1;
    }
    assert(names.take(names.len() as int) =~= names);
    terminals
}

} // verus!
