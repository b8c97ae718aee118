//! Tab layouts: the areas tabs are laid out in, and the boundary that keeps
//! layout records and terminal output in order.

use vstd::prelude::*;

use super::app::{PaneFacts, TabSurfaceTarget};
use super::state::{is_control_connection_id, ControlEffect, HeadlessServer, HostCellSize};
use crate::schema::{PaneLayoutSnapshot, Rect};
use crate::table::TextSet;

verus! {

broadcast use vstd::std_specs::hash::group_hash_axioms;

/// One step of laying tabs out behind a boundary.
#[derive(Debug, Clone, Copy, PartialEq, Eq, Structural)]
pub enum BoundaryStep {
    /// Hold the pane's content lock from here on.
    Hold { pane: PaneFacts },
    /// Send the tab's layout for the new area to every control stream.
    PushLayout { target: TabSurfaceTarget },
    /// Resize the terminals.
    Resize,
    /// Let every held lock go.
    Release,
}

impl super::state::ServerModel {
    /// The locks a boundary around the tabs holds.
    pub open spec fn boundary_holds(self, targets: Seq<TabSurfaceTarget>) -> Seq<BoundaryStep> {
        targets.flat_map(|t: TabSurfaceTarget| self.app.lockable_panes(t)).map_values(
            |p: PaneFacts| BoundaryStep::Hold { pane: p },
        )
    }

    /// The steps that lay the tabs out: every pane's content lock is held
    /// while the layout records go out and the terminals are resized. A server
    /// without control streams just resizes.
    pub open spec fn tab_layout_boundary(self, targets: Seq<TabSurfaceTarget>) -> Seq<BoundaryStep> {
        if self.control_connections.len() == 0 {
            seq![BoundaryStep::Resize]
        } else {
            self.boundary_holds(targets) + targets.map_values(
                |t: TabSurfaceTarget| BoundaryStep::PushLayout { target: t },
            ) + seq![BoundaryStep::Resize, BoundaryStep::Release]
        }
    }

    /// The ids of the open connections, oldest first.
    pub open spec fn control_connection_ids(self) -> Seq<u64> {
        self.control_connections.map_values(|c: super::state::ConnectionModel| c.connection_id)
    }

    /// Every tab with the area it is laid out in right now.
    pub open spec fn session_layouts(self) -> Seq<(TabSurfaceTarget, Rect)> {
        self.app.all_tab_targets().map_values(
            |t: TabSurfaceTarget| (t, self.current_tab_area(t)),
        )
    }
}

impl HeadlessServer {
    /// Size a control connection asked for on a tab, when it controls it.
    pub fn control_tab_geometry_for_target(
        &self,
        controller_id: u64,
        target: TabSurfaceTarget,
    ) -> (size: Option<(u16, u16, HostCellSize)>)
        ensures
            size == self@.control_tab_geometry_for_target(controller_id, target),
    {
        if !is_control_connection_id(controller_id) {
            return None;
        }
        let tab_id = match self.app.tab_id_for_target(target) {
            Some(tab_id) => tab_id,
            None => {
                return None;
            },
        };
        match self.connection_index(controller_id) {
            Some(i) => {
                assert(self@.control_connections[i as int] == self.control_connections@[i as int]@);
                self.control_connections[i].tab_geometry(tab_id.as_str())
            },
            None => None,
        }
    }

    /// The area a tab is laid out in right now: its control owner's stored
    /// size, else its owning shell client's, else the size every tab gets
    /// from the foreground client or the headless default.
    pub fn current_tab_area(&self, target: TabSurfaceTarget) -> (area: Rect)
        ensures
            area == self@.current_tab_area(target),
    {
        if let Some(tab_id) = self.app.tab_id_for_target(target) {
            if let Some(controller) = self.controller(tab_id.as_str()) {
                if let Some((cols, rows, _)) = self.control_tab_geometry_for_target(
                    controller,
                    target,
                ) {
                    return Rect::sized(cols, rows);
                }
                if let Some(size) = self.clients.get(&controller) {
                    return Rect::sized(size.0, size.1);
                }
            }
        }
        Rect::sized(self.effective_size.0, self.effective_size.1)
    }

    /// Every tab, workspace by workspace.
    pub fn all_tab_targets(&self) -> (targets: Vec<TabSurfaceTarget>)
        ensures
            targets@ == self@.app.all_tab_targets(),
    {
        self.app.all_tab_targets()
    }

    /// The tabs a stream bootstraps from, each with the area its `tab.layout`
    /// records carry rather than the area of some view.
    pub fn control_session_snapshot(&self) -> (layouts: Vec<(TabSurfaceTarget, Rect)>)
        ensures
            layouts@ == self@.session_layouts(),
    {
        let targets = self.all_tab_targets();
        let ghost laid_out = |t: TabSurfaceTarget| (t, self@.current_tab_area(t));
        let mut layouts: Vec<(TabSurfaceTarget, Rect)> = Vec::new();
        let mut i: usize = 0;
        while i < targets.len()
            invariant
                0 <= i <= targets.len(),
                laid_out == (|t: TabSurfaceTarget| (t, self@.current_tab_area(t))),
                layouts@ =~= targets@.take(i as int).map_values(laid_out),
            decreases targets.len() - i,
        {
            layouts.push((targets[i], self.current_tab_area(targets[i])));
            assert(targets@.take(i + 1) =~= targets@.take(i as int).push(targets@[i as int]));
            i += 1;
        }
        assert(targets@.take(targets@.len() as int) =~= targets@);
        layouts
    }

    /// The steps that lay `targets` out behind one boundary: every pane's
    /// content lock is held while the `tab.layout` records go out and the
    /// terminals are resized, so no PTY read can publish old-size output after
    /// the record or new-size output before it. Shell-only servers just
    /// resize.
    pub fn with_tab_layout_boundary(&self, targets: &Vec<TabSurfaceTarget>) -> (steps: Vec<
        BoundaryStep,
    >)
        ensures
            steps@ == self@.tab_layout_boundary(targets@),
    {
        let mut steps: Vec<BoundaryStep> = Vec::new();
        if self.control_connections.len() == 0 {
            steps.push(BoundaryStep::Resize);
            assert(steps@ =~= seq![BoundaryStep::Resize]);
            return steps;
        }
        let ghost hold = |p: PaneFacts| BoundaryStep::Hold { pane: p };
        let ghost panes_of = |t: TabSurfaceTarget| self@.app.lockable_panes(t);
        let mut i: usize = 0;
        proof {
            assert(targets@.take(0).flat_map(panes_of) =~= Seq::empty());
            assert(steps@ =~= targets@.take(0).flat_map(panes_of).map_values(hold));
        }
        while i < targets.len()
            invariant
                0 <= i <= targets.len(),
                hold == (|p: PaneFacts| BoundaryStep::Hold { pane: p }),
                panes_of == (|t: TabSurfaceTarget| self@.app.lockable_panes(t)),
                steps@ == targets@.take(i as int).flat_map(panes_of).map_values(hold),
            decreases targets.len() - i,
        {
            let target: TabSurfaceTarget = targets[i];
            let ghost before = steps@;
            let ghost lockable = |p: PaneFacts| p.target == target && p.runtime;
            let panes = &self.app.panes;
            let mut j: usize = 0;
            assert(panes@.take(0).filter(lockable) =~= Seq::empty());
            while j < panes.len()
                invariant
                    0 <= j <= panes.len(),
                    lockable == (|p: PaneFacts| p.target == target && p.runtime),
                    hold == (|p: PaneFacts| BoundaryStep::Hold { pane: p }),
                    steps@ =~= before + panes@.take(j as int).filter(lockable).map_values(hold),
                decreases panes.len() - j,
            {
                let pane: PaneFacts = panes[j];
                proof {
                    assert(panes@.take(j + 1) =~= panes@.take(j as int).push(pane));
                    panes@.take(j as int).lemma_filter_push(pane, lockable);
                }
                if pane.runtime && pane.target == target {
                    steps.push(BoundaryStep::Hold { pane });
                }
                j += 1;
            }
            proof {
                assert(panes@.take(panes@.len() as int) =~= panes@);
                targets@.lemma_flat_map_take_append(panes_of, i as int);
                let holds = targets@.take(i as int).flat_map(panes_of);
                assert((holds + panes_of(target)).map_values(hold) =~= holds.map_values(hold)
                    + panes_of(target).map_values(hold));
            }
            i += 1;
        }
        assert(targets@.take(targets@.len() as int) =~= targets@);
        let ghost holds = steps@;
        let ghost push_layout = |t: TabSurfaceTarget| BoundaryStep::PushLayout { target: t };
        let mut k: usize = 0;
        while k < targets.len()
            invariant
                0 <= k <= targets.len(),
                push_layout == (|t: TabSurfaceTarget| BoundaryStep::PushLayout { target: t }),
                steps@ =~= holds + targets@.take(k as int).map_values(push_layout),
            decreases targets.len() - k,
        {
            steps.push(BoundaryStep::PushLayout { target: targets[k] });
            assert(targets@.take(k + 1) =~= targets@.take(k as int).push(targets@[k as int]));
            k += 1;
        }
        assert(targets@.take(targets@.len() as int) =~= targets@);
        steps.push(BoundaryStep::Resize);
        steps.push(BoundaryStep::Release);
        assert(steps@ =~= self@.tab_layout_boundary(targets@));
        steps
    }

    /// Sends a `tab.layout` record for a tab about to be laid out to every
    /// control stream; a tab without a layout sends none. The record travels
    /// the same ordered lane as raw output.
    pub fn push_control_tab_layout(&mut self, layout: Option<PaneLayoutSnapshot>)
        ensures
            final(self)@ == (match layout {
                Some(layout) => old(self)@.with_effect(
                    super::state::EffectModel::PushLayout {
                        connections: old(self)@.control_connection_ids(),
                        layout,
                    },
                ),
                None => old(self)@,
            }),
    {
        if let Some(layout) = layout {
            let connections = self.control_connection_ids();
            self.push_effect(ControlEffect::PushLayout { connections, layout });
        }
    }

    /// Whether a connection stored a size for the tab, owner or not.
    pub fn control_connection_holds_tab(&self, controller_id: u64, tab_id: &str) -> (holds: bool)
        ensures
            holds == (self@.connection(controller_id) matches Some(c) && c.holds_tab(tab_id@)),
    {
        match self.connection_index(controller_id) {
            Some(i) => {
                assert(self@.control_connections[i as int] == self.control_connections@[i as int]@);
                self.control_connections[i].holds_tab(tab_id)
            },
            None => false,
        }
    }

    /// How many control connections own a tab's geometry, for the
    /// single-client fast path.
    pub fn control_connections_with_tab_claims(&self) -> (count: usize)
        ensures
            self@.claiming_connections().finite(),
            count == self@.claiming_connections().len(),
    {
        let keys = self.tab_geometry_controllers.keys();
        let ghost names = crate::text::text_views(keys@);
        let ghost controllers = self@.tab_geometry_controllers;
        let mut owners: Vec<u64> = Vec::new();
        let mut i: usize = 0;
        while i < keys.len()
            invariant
                0 <= i <= keys.len(),
                names == crate::text::text_views(keys@),
                controllers == self@.tab_geometry_controllers,
                forall|key: Seq<char>|
                    names.contains(key) <==> #[trigger] controllers.contains_key(key),
                owners@.no_duplicates(),
                forall|id: u64| #[trigger]
                    owners@.contains(id) <==> super::state::is_control(id) && exists|k: int|
                        0 <= k < i && controllers[#[trigger] names[k]] == id,
            decreases keys.len() - i,
        {
            let ghost before = owners@;
            proof {
                assert(names[i as int] == keys@[i as int]@);
                assert(names.contains(names[i as int]));
                assert(controllers.contains_key(names[i as int]));
            }
            if let Some(controller) = self.controller(keys[i].as_str()) {
                assert(controller == controllers[names[i as int]]);
                let mut known = false;
                let mut j: usize = 0;
                while j < owners.len()
                    invariant
                        0 <= j <= owners.len(),
                        owners@ == before,
                        known == exists|k: int| 0 <= k < j && owners@[k] == controller,
                    decreases owners.len() - j,
                {
                    if owners[j] == controller {
                        known = true;
                    }
                    j += 1;
                }
                assert(known == before.contains(controller));
                if is_control_connection_id(controller) && !known {
                    owners.push(controller);
                }
                proof {
                    assert forall|id: u64| #[trigger]
                        owners@.contains(id) <==> super::state::is_control(id) && exists|k: int|
                            0 <= k < i + 1 && controllers[#[trigger] names[k]] == id by {
                        if before.contains(id) {
                            let k = choose|k: int|
                                0 <= k < i && controllers[#[trigger] names[k]] == id;
                            assert(controllers[names[k]] == id);
                            let m = choose|m: int| 0 <= m < before.len() && before[m] == id;
                            assert(owners@[m] == id);
                        }
                        if super::state::is_control(id) && id == controller {
                            assert(controllers[names[i as int]] == id);
                            if !known {
                                assert(owners@[before.len() as int] == id);
                            }
                        }
                        if owners@.contains(id) && id != controller {
                            let m = choose|m: int| 0 <= m < owners@.len() && owners@[m] == id;
                            assert(before[m] == id);
                            assert(before.contains(id));
                        }
                        if super::state::is_control(id) && exists|k: int|
                            0 <= k < i + 1 && controllers[#[trigger] names[k]] == id {
                            let k = choose|k: int|
                                0 <= k < i + 1 && controllers[#[trigger] names[k]] == id;
                            if k < i {
                                assert(before.contains(id));
                            }
                        }
                    }
                }
            }
            i += 1;
        }
        proof {
            let set = self@.claiming_connections();
            assert forall|id: u64| #[trigger] owners@.to_set().contains(id) <==> set.contains(id) by {
                assert(owners@.to_set().contains(id) <==> owners@.contains(id));
                if set.contains(id) {
                    let t = choose|t: Seq<char>| #[trigger]
                        controllers.contains_key(t) && controllers[t] == id;
                    assert(names.contains(t));
                    let k = choose|k: int| 0 <= k < names.len() && names[k] == t;
                    assert(controllers[names[k]] == id);
                }
                if owners@.contains(id) {
                    let k = choose|k: int|
                        0 <= k < names.len() && controllers[#[trigger] names[k]] == id;
                    assert(names.contains(names[k]));
                    assert(controllers.contains_key(names[k]));
                }
            }
            assert(owners@.to_set() =~= set);
            owners@.unique_seq_to_set();
            vstd::seq_lib::seq_to_set_is_finite(owners@);
        }
        owners.len()
    }

    /// The ids of the open connections, oldest first.
    pub fn control_connection_ids(&self) -> (ids: Vec<u64>)
        ensures
            ids@ == self@.control_connection_ids(),
    {
        let mut ids: Vec<u64> = Vec::new();
        let mut i: usize = 0;
        while i < self.control_connections.len()
            invariant
                0 <= i <= self.control_connections.len(),
                ids@ =~= self@.control_connection_ids().take(i as int),
            decreases self.control_connections.len() - i,
        {
            ids.push(self.control_connections[i].connection_id);
            i += 1;
        }
        assert(ids@ =~= self@.control_connection_ids());
        ids
    }

    /// Drops stored sizes for tabs that no longer exist, those outside `keep`.
    pub fn prune_control_tab_geometry(&mut self, keep: &TextSet)
        ensures
            final(self)@ == old(self)@.pruned_tab_geometry(keep@),
    {
        let ghost start = self@;
        let ghost connections = start.control_connections;
        let mut i: usize = 0;
        while i < self.control_connections.len()
            invariant
                0 <= i <= self.control_connections.len(),
                start == old(self)@,
                connections == start.control_connections,
                self.control_connections.len() == connections.len(),
                self@ == start.with_connections(self@.control_connections),
                forall|k: int|
                    0 <= k < i ==> #[trigger] self@.control_connections[k]
                        == start.pruned_tab_geometry(keep@).control_connections[k],
                forall|k: int|
                    i <= k < connections.len() ==> #[trigger] self@.control_connections[k]
                        == connections[k],
            decreases self.control_connections.len() - i,
        {
            let ghost before = self@.control_connections;
            assert(before[i as int] == connections[i as int]);
            let tabs = self.control_connections[i].tab_geometry.keys();
            let ghost names = crate::text::text_views(tabs@);
            let ghost stored = connections[i as int].tab_geometry;
            let mut j: usize = 0;
            while j < tabs.len()
                invariant
                    0 <= j <= tabs.len(),
                    names == crate::text::text_views(tabs@),
                    i < self.control_connections.len(),
                    self.control_connections.len() == connections.len(),
                    self@ == start.with_connections(self@.control_connections),
                    self@.control_connections == before.update(
                        i as int,
                        super::state::ConnectionModel {
                            tab_geometry: self@.control_connections[i as int].tab_geometry,
                            ..connections[i as int]
                        },
                    ),
                    before.len() == connections.len(),
                    before[i as int] == connections[i as int],
                    stored == connections[i as int].tab_geometry,
                    forall|t: Seq<char>| #[trigger]
                        self@.control_connections[i as int].tab_geometry.dom().contains(t) <==> (
                        stored.dom().contains(t) && (keep@.contains(t) || !names.take(
                            j as int,
                        ).contains(t))),
                    forall|t: Seq<char>|
                        self@.control_connections[i as int].tab_geometry.dom().contains(t)
                            ==> #[trigger] self@.control_connections[i as int].tab_geometry[t]
                            == stored[t],
                decreases tabs.len() - j,
            {
                let tab_id = &tabs[j];
                let ghost mid = self@.control_connections;
                proof {
                    assert(names[j as int] == tab_id@);
                    crate::find::lemma_take_push(names, j as int);
                }
                if !keep.contains(tab_id.as_str()) {
                    self.control_connections[i].tab_geometry.remove(tab_id.as_str());
                    assert(self@.control_connections =~= mid.update(
                        i as int,
                        super::state::ConnectionModel {
                            tab_geometry: mid[i as int].tab_geometry.remove(tab_id@),
                            ..mid[i as int]
                        },
                    ));
                    assert(self@.control_connections =~= before.update(
                        i as int,
                        super::state::ConnectionModel {
                            tab_geometry: self@.control_connections[i as int].tab_geometry,
                            ..connections[i as int]
                        },
                    ));
                }
                j += 1;
            }
            proof {
                assert(names.take(names.len() as int) =~= names);
                assert forall|t: Seq<char>| #[trigger] stored.dom().contains(t) implies names.contains(
                    t,
                ) by {
                    assert(stored.contains_key(t));
                }
                assert(self@.control_connections[i as int].tab_geometry =~= stored.restrict(keep@));
            }
            i += 1;
        }
        assert(self@.control_connections =~= start.pruned_tab_geometry(keep@).control_connections);
    }
}

} // verus!
