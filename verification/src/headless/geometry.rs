//! Tab geometry: who sizes a tab, and everything derived from that.

use vstd::prelude::*;

use super::app::TabSurfaceTarget;
use super::state::{
    is_control_connection_id, ControlEffect, ControlTabGeometry, HeadlessServer, HostCellSize,
};
use crate::schema::{GeometryController, GeometryControllerKind, Rect, TabChrome};
use crate::table::{TextSet, TextTable};
use crate::text::holds_text;

verus! {

/// What a map holds for a key.
pub open spec fn lookup<V>(map: Map<Seq<char>, V>, key: Seq<char>) -> Option<V> {
    if map.contains_key(key) {
        Some(map[key])
    } else {
        None
    }
}

impl super::state::ConnectionModel {
    /// The terminals of the connection's attaches.
    pub open spec fn attached_terminals(self) -> Seq<Seq<char>> {
        self.attaches.map_values(|a: super::state::AttachModel| a.terminal_id)
    }

    /// The connection with other attaches claiming on input.
    pub open spec fn with_claims(self, attach_ids: Set<Seq<char>>) -> super::state::ConnectionModel {
        super::state::ConnectionModel {
            handle: crate::control::HandleModel { claim_on_input: attach_ids, ..self.handle },
            ..self
        }
    }
}

impl super::state::ServerModel {
    /// What a layout reports about the tab's controller.
    pub open spec fn controller_info(self, tab_id: Seq<char>, controller: u64) -> GeometryController {
        if super::state::is_control(controller) {
            GeometryController {
                kind: GeometryControllerKind::Control,
                connection_id: Some(controller),
                chrome: match self.connection(controller) {
                    Some(c) => if c.holds_tab(tab_id) {
                        c.tab_geometry[tab_id].chrome
                    } else {
                        TabChrome::Server
                    },
                    None => TabChrome::Server,
                },
            }
        } else {
            GeometryController {
                kind: GeometryControllerKind::Client,
                connection_id: Some(controller),
                chrome: TabChrome::Server,
            }
        }
    }

    /// The controller every controlled tab reports.
    pub open spec fn reported_controllers(self) -> Map<Seq<char>, GeometryController> {
        Map::new(
            |t: Seq<char>| self.tab_geometry_controllers.contains_key(t),
            |t: Seq<char>| self.controller_info(t, self.tab_geometry_controllers[t]),
        )
    }

    /// Tabs that a control connection sizes.
    pub open spec fn control_tabs(self) -> Set<Seq<char>> {
        Set::new(
            |t: Seq<char>|
                self.tab_geometry_controllers.contains_key(t) && super::state::is_control(
                    self.tab_geometry_controllers[t],
                ),
        )
    }

    /// Tabs that a control connection sizes without chrome.
    pub open spec fn chromeless_tabs(self) -> Set<Seq<char>> {
        Set::new(
            |t: Seq<char>|
                self.control_tabs().contains(t) && self.reported_controllers()[t].chrome
                    == TabChrome::Bare,
        )
    }

    /// Tabs whose reported controller is out of date.
    pub open spec fn changed_tabs(self) -> Set<Seq<char>> {
        Set::new(
            |t: Seq<char>|
                lookup(self.reported_controllers(), t) != lookup(
                    self.control_tab_geometry_controllers,
                    t,
                ),
        )
    }

    /// The announcement of a tab's new controller.
    pub open spec fn change_event(self, tab_id: Seq<char>) -> super::state::EffectModel {
        super::state::EffectModel::GeometryChanged {
            tab_id,
            controller: match lookup(self.reported_controllers(), tab_id) {
                Some(controller) => controller,
                None => GeometryController::none(),
            },
            previous: lookup(self.control_tab_geometry_controllers, tab_id),
        }
    }

    /// The server with what layouts report brought up to date and every
    /// change announced, in the order of tab ids.
    pub open spec fn mirrored(self) -> super::state::ServerModel {
        super::state::ServerModel {
            control_geometry_tabs: self.control_tabs(),
            control_chromeless_tabs: self.chromeless_tabs(),
            control_tab_geometry_controllers: self.reported_controllers(),
            effects: self.effects + crate::find::ascending_members(self.changed_tabs()).map_values(
                |t: Seq<char>| self.change_event(t),
            ),
            ..self
        }
    }

    /// Whether an attach's next input claims its tab: the connection stored a
    /// size for the tab and does not own it.
    pub open spec fn claims_on_input(
        self,
        connection: super::state::ConnectionModel,
        attach: super::state::AttachModel,
    ) -> bool {
        match self.app.tab_of_terminal(attach.terminal_id) {
            Some(tab_id) => connection.holds_tab(tab_id) && self.controller(tab_id) != Some(
                connection.connection_id,
            ),
            None => false,
        }
    }

    /// The attaches of a connection whose next input claims their tab.
    pub open spec fn claiming_attaches(
        self,
        connection: super::state::ConnectionModel,
    ) -> Set<Seq<char>> {
        Set::new(
            |id: Seq<char>|
                exists|i: int|
                    0 <= i < connection.attaches.len() && (#[trigger] connection.attaches[i]).attach_id
                        == id && self.claims_on_input(connection, connection.attaches[i]),
        )
    }

    /// The server with every stream's input claims brought up to date.
    pub open spec fn with_input_claims(self) -> super::state::ServerModel {
        self.with_connections(
            self.control_connections.map_values(
                |c: super::state::ConnectionModel| c.with_claims(self.claiming_attaches(c)),
            ),
        )
    }

    /// The terminals of all attaches, oldest attach first.
    pub open spec fn attached_terminals(self) -> Seq<Seq<char>> {
        self.control_connections.flat_map(
            |c: super::state::ConnectionModel| c.attached_terminals(),
        )
    }

    /// Whether a terminal is shown in one of the tabs.
    pub open spec fn shown_in(self, terminal_id: Seq<char>, tabs: Set<Seq<char>>) -> bool {
        self.app.tab_of_terminal(terminal_id) matches Some(tab_id) && tabs.contains(tab_id)
    }

    /// Attached terminals on tabs whose reported controller is out of date.
    pub open spec fn terminals_changing_hands(self) -> Seq<Seq<char>> {
        crate::find::distinct(
            self.attached_terminals().filter(
                |t: Seq<char>| self.shown_in(t, self.changed_tabs()),
            ),
        )
    }

    /// The server with everything derived from `tab_geometry_controllers`
    /// brought up to date.
    pub open spec fn synced_control_geometry_tabs(self) -> super::state::ServerModel {
        self.mirrored().with_input_claims().synced_query_authorities(
            self.terminals_changing_hands(),
        )
    }

    /// The server with another controller, or none, on a tab.
    pub open spec fn with_controller(
        self,
        tab_id: Seq<char>,
        controller: Option<u64>,
    ) -> super::state::ServerModel {
        super::state::ServerModel {
            tab_geometry_controllers: match controller {
                Some(controller) => self.tab_geometry_controllers.insert(tab_id, controller),
                None => self.tab_geometry_controllers.remove(tab_id),
            },
            ..self
        }
    }

    /// The server once a connection took a tab at a size.
    pub open spec fn claimed(
        self,
        connection_id: u64,
        tab_id: Seq<char>,
        geometry: ControlTabGeometry,
    ) -> super::state::ServerModel {
        match self.app.parse_tab_id(tab_id) {
            Some(target) => self.with_controller(
                tab_id,
                Some(connection_id),
            ).synced_control_geometry_tabs().with_effect(
                super::state::EffectModel::LayOutTab {
                    target,
                    cols: geometry.cols,
                    rows: geometry.rows,
                    cell_size: geometry.cell_size,
                },
            ),
            None => self,
        }
    }

    /// The size a control connection asked for on a tab, as far as the id
    /// names one.
    pub open spec fn control_tab_geometry_for_target(
        self,
        controller_id: u64,
        target: TabSurfaceTarget,
    ) -> Option<(u16, u16, HostCellSize)> {
        match (self.app.tab_id_for_target(target), self.connection(controller_id)) {
            (Some(tab_id), Some(c)) => if super::state::is_control(controller_id) && c.holds_tab(
                tab_id,
            ) {
                let geometry = c.tab_geometry[tab_id];
                Some((geometry.cols, geometry.rows, geometry.cell_size))
            } else {
                None
            },
            _ => None,
        }
    }

    /// The size a tab is laid out in right now: its control owner's stored
    /// size, else its owning shell client's, else the size every tab gets.
    pub open spec fn current_tab_size(self, target: TabSurfaceTarget) -> (u16, u16) {
        match self.app.tab_id_for_target(target) {
            Some(tab_id) => match self.controller(tab_id) {
                Some(controller) => match self.control_tab_geometry_for_target(controller, target) {
                    Some((cols, rows, _)) => (cols, rows),
                    None => if self.clients.contains_key(controller) {
                        self.clients[controller]
                    } else {
                        self.effective_size
                    },
                },
                None => self.effective_size,
            },
            None => self.effective_size,
        }
    }

    /// The area a tab is laid out in right now.
    pub open spec fn current_tab_area(self, target: TabSurfaceTarget) -> Rect {
        let size = self.current_tab_size(target);
        Rect { x: 0, y: 0, width: size.0, height: size.1 }
    }

    /// Control connections that own a tab.
    pub open spec fn claiming_connections(self) -> Set<u64> {
        Set::new(
            |id: u64|
                super::state::is_control(id) && exists|t: Seq<char>| #[trigger]
                    self.tab_geometry_controllers.contains_key(t)
                        && self.tab_geometry_controllers[t] == id,
        )
    }

    /// The server without stored sizes for tabs outside `keep`.
    pub open spec fn pruned_tab_geometry(self, keep: Set<Seq<char>>) -> super::state::ServerModel {
        self.with_connections(
            self.control_connections.map_values(
                |c: super::state::ConnectionModel|
                    super::state::ConnectionModel {
                        tab_geometry: c.tab_geometry.restrict(keep),
                        ..c
                    },
            ),
        )
    }
}

fn differs(left: Option<&GeometryController>, right: Option<&GeometryController>) -> (different: bool)
    ensures
        different == (left != right),
{
    match (left, right) {
        (Some(left), Some(right)) => *left != *right,
        (None, None) => false,
        _ => true,
    }
}

impl HeadlessServer {
    fn controller_info(&self, tab_id: &str, controller: u64) -> (info: GeometryController)
        ensures
            info == self@.controller_info(tab_id@, controller),
    {
        if !is_control_connection_id(controller) {
            return GeometryController {
                kind: GeometryControllerKind::Client,
                connection_id: Some(controller),
                chrome: TabChrome::Server,
            };
        }
        let chrome: TabChrome = match self.connection_index(controller) {
            Some(i) => {
                assert(self@.control_connections[i as int] == self.control_connections@[i as int]@);
                match self.control_connections[i].tab_geometry.get(tab_id) {
                    Some(geometry) => geometry.chrome,
                    None => TabChrome::Server,
                }
            },
            None => TabChrome::Server,
        };
        GeometryController {
            kind: GeometryControllerKind::Control,
            connection_id: Some(controller),
            chrome,
        }
    }

    /// Brings what layouts report up to date, announces every change in the
    /// order of tab ids, and hands out the tabs that changed.
    fn mirror_controllers(&mut self) -> (changed: TextSet)
        ensures
            final(self)@ == old(self)@.mirrored(),
            changed@ == old(self)@.changed_tabs(),
    {
        let ghost start = self@;
        let ghost reported = start.reported_controllers();
        let keys = self.tab_geometry_controllers.keys();
        let ghost names = crate::text::text_views(keys@);
        let mut control_tabs = TextSet::new();
        let mut chromeless = TextSet::new();
        let mut controllers: TextTable<GeometryController> = TextTable::new();
        let mut i: usize = 0;
        while i < keys.len()
            invariant
                0 <= i <= keys.len(),
                *self == *old(self),
                start == self@,
                reported == start.reported_controllers(),
                names == crate::text::text_views(keys@),
                forall|key: Seq<char>|
                    names.contains(key) <==> #[trigger] start.tab_geometry_controllers.contains_key(
                        key,
                    ),
                forall|t: Seq<char>| #[trigger]
                    controllers@.contains_key(t) <==> names.take(i as int).contains(t),
                forall|t: Seq<char>| #[trigger]
                    controllers@.contains_key(t) ==> controllers@[t] == reported[t],
                forall|t: Seq<char>| #[trigger]
                    control_tabs@.contains(t) <==> names.take(i as int).contains(t)
                        && start.control_tabs().contains(t),
                forall|t: Seq<char>| #[trigger]
                    chromeless@.contains(t) <==> names.take(i as int).contains(t)
                        && start.chromeless_tabs().contains(t),
            decreases keys.len() - i,
        {
            let tab_id = &keys[i];
            let ghost taken = names.take(i as int);
            proof {
                assert(names[i as int] == tab_id@);
                assert(names.contains(tab_id@));
                assert(names.take(i + 1) =~= taken.push(tab_id@));
                assert forall|t: Seq<char>| #[trigger] taken.push(tab_id@).contains(t) <==> (
                taken.contains(t) || t == tab_id@) by {
                    if taken.contains(t) {
                        let k = choose|k: int| 0 <= k < taken.len() && taken[k] == t;
                        assert(taken.push(tab_id@)[k] == t);
                    }
                    assert(taken.push(tab_id@)[taken.len() as int] == tab_id@);
                }
            }
            if let Some(controller) = self.controller(tab_id.as_str()) {
                let info = self.controller_info(tab_id.as_str(), controller);
                proof {
                    assert(reported.contains_key(tab_id@));
                    assert(info == reported[tab_id@]);
                }
                if is_control_connection_id(controller) {
                    control_tabs.insert(tab_id.clone());
                    if info.chrome == TabChrome::Bare {
                        chromeless.insert(tab_id.clone());
                    }
                }
                controllers.insert(tab_id.clone(), info);
            }
            i += 1;
        }
        proof {
            assert(names.take(names.len() as int) =~= names);
            assert(controllers@ =~= reported) by {
                assert forall|t: Seq<char>| #[trigger]
                    controllers@.dom().contains(t) == reported.dom().contains(t) by {
                    assert(controllers@.contains_key(t) <==> names.contains(t));
                    assert(start.tab_geometry_controllers.contains_key(t) <==> names.contains(t));
                }
                assert forall|t: Seq<char>| controllers@.dom().contains(t) implies #[trigger]
                    controllers@[t] == reported[t] by {
                    assert(controllers@.contains_key(t));
                }
            }
            assert(control_tabs@ =~= start.control_tabs()) by {
                assert forall|t: Seq<char>| #[trigger]
                    control_tabs@.contains(t) <==> start.control_tabs().contains(t) by {
                    assert(start.tab_geometry_controllers.contains_key(t) <==> names.contains(t));
                }
            }
            assert(chromeless@ =~= start.chromeless_tabs()) by {
                assert forall|t: Seq<char>| #[trigger]
                    chromeless@.contains(t) <==> start.chromeless_tabs().contains(t) by {
                    assert(start.tab_geometry_controllers.contains_key(t) <==> names.contains(t));
                }
            }
        }

        let changed = self.changed_against(&controllers);
        let order = changed.sorted();
        let ghost list = crate::text::text_views(order@);
        let ghost event = |t: Seq<char>| start.change_event(t);
        proof {
            crate::find::lemma_ascending_members(start.changed_tabs(), list);
            assert(list.take(0).map_values(event) =~= Seq::empty());
            assert(start.effects + Seq::<super::state::EffectModel>::empty() =~= start.effects);
        }
        let mut j: usize = 0;
        while j < order.len()
            invariant
                0 <= j <= order.len(),
                start == old(self)@,
                list == crate::text::text_views(order@),
                event == (|t: Seq<char>| start.change_event(t)),
                controllers@ == start.reported_controllers(),
                self@ == start.with_effects(list.take(j as int).map_values(event)),
            decreases order.len() - j,
        {
            let tab_id = &order[j];
            let controller: GeometryController = match controllers.get(tab_id.as_str()) {
                Some(info) => *info,
                None => GeometryController::default(),
            };
            let previous: Option<GeometryController> =
                match self.control_tab_geometry_controllers.get(tab_id.as_str()) {
                Some(info) => Some(*info),
                None => None,
            };
            self.push_effect(
                ControlEffect::GeometryChanged { tab_id: tab_id.clone(), controller, previous },
            );
            proof {
                let taken = list.take(j as int);
                assert(list[j as int] == tab_id@);
                assert(list.take(j + 1) =~= taken.push(tab_id@));
                assert(taken.push(tab_id@).map_values(event) =~= taken.map_values(event).push(
                    event(tab_id@),
                ));
                assert((start.effects + taken.map_values(event)).push(event(tab_id@))
                    =~= start.effects + taken.map_values(event).push(event(tab_id@)));
            }
            j += 1;
        }
        assert(list.take(list.len() as int) =~= list);
        self.control_geometry_tabs = control_tabs;
        self.control_chromeless_tabs = chromeless;
        self.control_tab_geometry_controllers = controllers;
        changed
    }

    /// The tabs whose reported controller is not the one in `controllers`.
    fn changed_against(&self, controllers: &TextTable<GeometryController>) -> (changed: TextSet)
        requires
            controllers@ == self@.reported_controllers(),
        ensures
            changed@ == self@.changed_tabs(),
    {
        let ghost reported = self@.reported_controllers();
        let ghost previous = self@.control_tab_geometry_controllers;
        let mut changed = TextSet::new();
        let new_keys = controllers.keys();
        let ghost new_names = crate::text::text_views(new_keys@);
        let mut i: usize = 0;
        while i < new_keys.len()
            invariant
                0 <= i <= new_keys.len(),
                new_names == crate::text::text_views(new_keys@),
                controllers@ == reported,
                reported == self@.reported_controllers(),
                previous == self@.control_tab_geometry_controllers,
                forall|t: Seq<char>| #[trigger]
                    changed@.contains(t) <==> new_names.take(i as int).contains(t) && lookup(
                        reported,
                        t,
                    ) != lookup(previous, t),
            decreases new_keys.len() - i,
        {
            let tab_id = &new_keys[i];
            proof {
                crate::find::lemma_take_push(new_names, i as int);
                assert(new_names[i as int] == tab_id@);
            }
            if differs(
                controllers.get(tab_id.as_str()),
                self.control_tab_geometry_controllers.get(tab_id.as_str()),
            ) {
                changed.insert(tab_id.clone());
            }
            i += 1;
        }
        assert(new_names.take(new_names.len() as int) =~= new_names);
        let old_keys = self.control_tab_geometry_controllers.keys();
        let ghost old_names = crate::text::text_views(old_keys@);
        let mut j: usize = 0;
        while j < old_keys.len()
            invariant
                0 <= j <= old_keys.len(),
                old_names == crate::text::text_views(old_keys@),
                controllers@ == reported,
                reported == self@.reported_controllers(),
                previous == self@.control_tab_geometry_controllers,
                forall|t: Seq<char>| #[trigger]
                    changed@.contains(t) <==> (new_names.contains(t) || old_names.take(
                        j as int,
                    ).contains(t)) && lookup(reported, t) != lookup(previous, t),
            decreases old_keys.len() - j,
        {
            let tab_id = &old_keys[j];
            proof {
                crate::find::lemma_take_push(old_names, j as int);
                assert(old_names[j as int] == tab_id@);
            }
            if differs(
                controllers.get(tab_id.as_str()),
                self.control_tab_geometry_controllers.get(tab_id.as_str()),
            ) {
                changed.insert(tab_id.clone());
            }
            j += 1;
        }
        proof {
            assert(old_names.take(old_names.len() as int) =~= old_names);
            assert forall|t: Seq<char>| #[trigger]
                changed@.contains(t) <==> self@.changed_tabs().contains(t) by {
                assert(new_names.contains(t) <==> controllers@.contains_key(t));
                assert(old_names.contains(t) <==> previous.contains_key(t));
            }
            assert(changed@ =~= self@.changed_tabs());
        }
        changed
    }

    /// The attaches of the connection at `index` whose next input claims
    /// their tab.
    fn claiming_attaches(&self, index: usize) -> (attach_ids: TextSet)
        requires
            index < self.control_connections@.len(),
        ensures
            attach_ids@ == self@.claiming_attaches(self.control_connections@[index as int]@),
    {
        let state = &self.control_connections[index];
        let ghost connection = state@;
        let mut attach_ids = TextSet::new();
        let mut i: usize = 0;
        while i < state.attaches.len()
            invariant
                0 <= i <= state.attaches.len(),
                connection == state@,
                forall|id: Seq<char>| #[trigger]
                    attach_ids@.contains(id) <==> exists|k: int|
                        0 <= k < i && (#[trigger] connection.attaches[k]).attach_id == id
                            && self@.claims_on_input(connection, connection.attaches[k]),
            decreases state.attaches.len() - i,
        {
            let attach = &state.attaches[i];
            assert(connection.attaches[i as int] == attach@);
            let claims = match self.app.tab_of_terminal(attach.terminal_id.as_str()) {
                Some(tab_id) => {
                    let owns = match self.controller(tab_id.as_str()) {
                        Some(controller) => controller == state.connection_id,
                        None => false,
                    };
                    state.holds_tab(tab_id.as_str()) && !owns
                },
                None => false,
            };
            assert(claims == self@.claims_on_input(connection, attach@));
            let ghost before = attach_ids@;
            if claims {
                attach_ids.insert(attach.attach_id.clone());
            }
            proof {
                assert forall|id: Seq<char>| #[trigger]
                    attach_ids@.contains(id) <==> exists|k: int|
                        0 <= k < i + 1 && (#[trigger] connection.attaches[k]).attach_id == id
                            && self@.claims_on_input(connection, connection.attaches[k]) by {
                    if attach_ids@.contains(id) {
                        if before.contains(id) {
                            let k = choose|k: int|
                                0 <= k < i && (#[trigger] connection.attaches[k]).attach_id == id
                                    && self@.claims_on_input(connection, connection.attaches[k]);
                            assert(connection.attaches[k].attach_id == id);
                        } else {
                            assert(connection.attaches[i as int].attach_id == id);
                        }
                    }
                    if exists|k: int|
                        0 <= k < i + 1 && (#[trigger] connection.attaches[k]).attach_id == id
                            && self@.claims_on_input(connection, connection.attaches[k]) {
                        let k = choose|k: int|
                            0 <= k < i + 1 && (#[trigger] connection.attaches[k]).attach_id == id
                                && self@.claims_on_input(connection, connection.attaches[k]);
                        if k < i {
                            assert(before.contains(id));
                        }
                    }
                }
            }
            i += 1;
        }
        assert(attach_ids@ =~= self@.claiming_attaches(connection));
        attach_ids
    }

    /// Brings every stream's input claims up to date.
    fn sync_input_claims(&mut self)
        ensures
            final(self)@ == old(self)@.with_input_claims(),
    {
        let ghost start = self@;
        let ghost connections = start.control_connections;
        let mut i: usize = 0;
        while i < self.control_connections.len()
            invariant
                0 <= i <= self.control_connections.len(),
                start == old(self)@,
                connections == start.control_connections,
                self.control_connections.len() == connections.len(),
                self@ == start.with_connections(self@.control_connections),
                forall|k: int|
                    0 <= k < i ==> #[trigger] self@.control_connections[k]
                        == connections[k].with_claims(start.claiming_attaches(connections[k])),
                forall|k: int|
                    i <= k < connections.len() ==> #[trigger] self@.control_connections[k]
                        == connections[k],
            decreases self.control_connections.len() - i,
        {
            let ghost before = self@.control_connections;
            assert(before[i as int] == connections[i as int]);
            let attach_ids = self.claiming_attaches(i);
            proof {
                assert(self@.claiming_attaches(connections[i as int])
                    =~= start.claiming_attaches(connections[i as int])) by {
                    assert forall|a: super::state::AttachModel| #[trigger]
                        self@.claims_on_input(connections[i as int], a) == start.claims_on_input(
                            connections[i as int],
                            a,
                        ) by {}
                }
            }
            self.control_connections[i].handle.set_claim_on_input(attach_ids);
            assert(self@.control_connections =~= before.update(
                i as int,
                connections[i as int].with_claims(start.claiming_attaches(connections[i as int])),
            ));
            i += 1;
        }
        assert(self@.control_connections =~= start.with_input_claims().control_connections);
    }

    /// The terminals of all attaches, oldest attach first.
    fn attached_terminals(&self) -> (terminals: Vec<String>)
        ensures
            crate::text::text_views(terminals@) == self@.attached_terminals(),
    {
        let ghost of = |c: super::state::ConnectionModel| c.attached_terminals();
        let ghost connections = self@.control_connections;
        let mut terminals: Vec<String> = Vec::new();
        let mut i: usize = 0;
        proof {
            assert(connections.take(0).flat_map(of) =~= Seq::empty());
            assert(crate::text::text_views(terminals@) =~= Seq::empty());
        }
        while i < self.control_connections.len()
            invariant
                0 <= i <= self.control_connections.len(),
                connections == self@.control_connections,
                of == (|c: super::state::ConnectionModel| c.attached_terminals()),
                crate::text::text_views(terminals@) == connections.take(i as int).flat_map(of),
            decreases self.control_connections.len() - i,
        {
            let state = &self.control_connections[i];
            assert(state@ == connections[i as int]);
            let ghost before = crate::text::text_views(terminals@);
            let mut j: usize = 0;
            while j < state.attaches.len()
                invariant
                    0 <= j <= state.attaches.len(),
                    crate::text::text_views(terminals@) =~= before
                        + state@.attached_terminals().take(j as int),
                decreases state.attaches.len() - j,
            {
                let ghost so_far = crate::text::text_views(terminals@);
                terminals.push(state.attaches[j].terminal_id.clone());
                proof {
                    assert(crate::text::text_views(terminals@) =~= so_far.push(
                        state@.attached_terminals()[j as int],
                    ));
                    assert(state@.attached_terminals().take(j + 1)
                        =~= state@.attached_terminals().take(j as int).push(
                        state@.attached_terminals()[j as int],
                    ));
                }
                j += 1;
            }
            proof {
                assert(state@.attached_terminals().take(state.attaches.len() as int)
                    =~= state@.attached_terminals());
                connections.lemma_flat_map_take_append(of, i as int);
            }
            i += 1;
        }
        assert(connections.take(connections.len() as int) =~= connections);
        terminals
    }

    /// Attached terminals shown in one of the tabs, each once.
    fn terminals_shown_in(&self, tabs: &TextSet) -> (terminals: Vec<String>)
        ensures
            crate::text::text_views(terminals@) == crate::find::distinct(
                self@.attached_terminals().filter(|t: Seq<char>| self@.shown_in(t, tabs@)),
            ),
    {
        let all = self.attached_terminals();
        let ghost names = self@.attached_terminals();
        let ghost shown = |t: Seq<char>| self@.shown_in(t, tabs@);
        let mut terminals: Vec<String> = Vec::new();
        let mut i: usize = 0;
        proof {
            assert(names.take(0).filter(shown) =~= Seq::empty());
            assert(crate::text::text_views(terminals@) =~= Seq::empty());
        }
        while i < all.len()
            invariant
                0 <= i <= all.len(),
                names == crate::text::text_views(all@),
                shown == (|t: Seq<char>| self@.shown_in(t, tabs@)),
                crate::text::text_views(terminals@) == crate::find::distinct(
                    names.take(i as int).filter(shown),
                ),
            decreases all.len() - i,
        {
            let terminal_id = &all[i];
            let ghost taken = names.take(i as int);
            proof {
                assert(names[i as int] == terminal_id@);
                assert(names.take(i + 1) =~= taken.push(terminal_id@));
                taken.lemma_filter_push(terminal_id@, shown);
            }
            let in_tabs = match self.app.tab_of_terminal(terminal_id.as_str()) {
                Some(tab_id) => tabs.contains(tab_id.as_str()),
                None => false,
            };
            assert(in_tabs == shown(terminal_id@));
            if in_tabs {
                proof {
                    let kept = taken.filter(shown);
                    assert(kept.push(terminal_id@).drop_last() =~= kept);
                }
                if !holds_text(&terminals, terminal_id.as_str()) {
                    let ghost before = crate::text::text_views(terminals@);
                    terminals.push(terminal_id.clone());
                    assert(crate::text::text_views(terminals@) =~= before.push(terminal_id@));
                }
            }
            i += 1;
        }
        assert(names.take(names.len() as int) =~= names);
        terminals
    }

    /// Picks the answering attach of each terminal anew.
    pub fn sync_query_authorities(&mut self, terminals: &Vec<String>)
        ensures
            final(self)@ == old(self)@.synced_query_authorities(
                crate::text::text_views(terminals@),
            ),
    {
        let ghost names = crate::text::text_views(terminals@);
        let mut i: usize = 0;
        assert(names.take(0) =~= Seq::empty());
        while i < terminals.len()
            invariant
                0 <= i <= terminals.len(),
                names == crate::text::text_views(terminals@),
                self@ == old(self)@.synced_query_authorities(names.take(i as int)),
            decreases terminals.len() - i,
        {
            self.sync_query_authority(terminals[i].as_str());
            proof {
                assert(names.take(i + 1).drop_last() =~= names.take(i as int));
                assert(names.take(i + 1).last() == terminals@[i as int]@);
            }
            i += 1;
        }
        assert(names.take(names.len() as int) =~= names);
    }

    /// Mirrors `tab_geometry_controllers` into everything derived from it:
    /// the control-owned and chromeless tab sets, the controller each layout
    /// reports (announcing changes), the input-claim flags of every stream,
    /// and query authority on tabs that changed hands. Runs after every change
    /// of `tab_geometry_controllers`.
    pub fn sync_control_geometry_tabs(&mut self)
        ensures
            final(self)@ == old(self)@.synced_control_geometry_tabs(),
    {
        let ghost start = self@;
        let changed = self.mirror_controllers();
        self.sync_input_claims();
        let terminals = self.terminals_shown_in(&changed);
        proof {
            lemma_claims_keep_terminals(start.mirrored());
            assert((|t: Seq<char>| self@.shown_in(t, changed@)) =~= (|t: Seq<char>|
                start.shown_in(t, start.changed_tabs())));
        }
        self.sync_query_authorities(&terminals);
    }

    /// The one write path for `tab_geometry_controllers`.
    pub fn set_tab_geometry_controller(&mut self, tab_id: &str, controller: Option<u64>)
        ensures
            final(self)@ == old(self)@.with_controller(
                tab_id@,
                controller,
            ).synced_control_geometry_tabs(),
    {
        match controller {
            Some(controller) => {
                self.tab_geometry_controllers.insert(tab_id.to_owned(), controller);
            },
            None => {
                self.tab_geometry_controllers.remove(tab_id);
            },
        }
        self.sync_control_geometry_tabs();
    }

    /// Makes a control connection the tab's geometry controller and lays
    /// the tab out at its stored size.
    pub fn claim_control_tab_geometry(
        &mut self,
        connection_id: u64,
        tab_id: &str,
        geometry: ControlTabGeometry,
    )
        ensures
            final(self)@ == old(self)@.claimed(connection_id, tab_id@, geometry),
    {
        let target: TabSurfaceTarget = match self.app.parse_tab_id(tab_id) {
            Some(target) => target,
            None => {
                return ;
            },
        };
        self.set_tab_geometry_controller(tab_id, Some(connection_id));
        self.apply_control_tab_geometry(target, geometry.cols, geometry.rows, geometry.cell_size);
    }

    /// Lays a tab out at a size a control connection asked for.
    pub fn apply_control_tab_geometry(
        &mut self,
        target: TabSurfaceTarget,
        cols: u16,
        rows: u16,
        cell_size: HostCellSize,
    )
        ensures
            final(self)@ == old(self)@.with_effect(
                super::state::EffectModel::LayOutTab { target, cols, rows, cell_size },
            ),
    {
        self.push_effect(ControlEffect::LayOutTab { target, cols, rows, cell_size });
    }
}

proof fn lemma_claims_keep_terminals(server: super::state::ServerModel)
    ensures
        server.with_input_claims().attached_terminals() == server.attached_terminals(),
{
    let of = |c: super::state::ConnectionModel| c.attached_terminals();
    let before = server.control_connections;
    let after = server.with_input_claims().control_connections;
    assert(before.map_values(of) =~= after.map_values(of)) by {
        assert forall|i: int| 0 <= i < before.len() implies of(#[trigger] before[i]) == of(after[i]) by {
            assert(after[i] == before[i].with_claims(server.claiming_attaches(before[i])));
        }
    }
}

} // verus!
