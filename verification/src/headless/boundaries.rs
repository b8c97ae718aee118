//! How layouts are kept in order with the output drawn for them.

use vstd::prelude::*;

use super::app::{PaneFacts, TabSurfaceTarget};
use super::dispatch::ControlMethod;
use super::layout::BoundaryStep;

verus! {

/// Whether a pane has content to be locked for a layout of one of the tabs.
pub open spec fn is_laid_out(pane: PaneFacts, targets: Seq<TabSurfaceTarget>) -> bool {
    pane.runtime && exists|k: int| 0 <= k < targets.len() && #[trigger] targets[k] == pane.target
}

/// Laying tabs out while streams are open first locks the content of every pane
/// of those tabs that runs, and of no other; then tells of every tab's layout in
/// the order given; then resizes; and lets the locks go last. Without open
/// streams it just resizes.
pub proof fn layouts_are_told_while_the_panes_are_held(
    server: super::state::ServerModel,
    targets: Seq<TabSurfaceTarget>,
) -> (held: int)
    ensures
        ({
            let steps = server.tab_layout_boundary(targets);
            let n = targets.len() as int;
            &&& server.control_connections.len() == 0 ==> steps.len() == 1
                && steps[0] == BoundaryStep::Resize
            &&& server.control_connections.len() > 0 ==> {
                &&& held >= 0
                &&& steps.len() == held + n + 2
                &&& forall|p: int|
                    0 <= p < held ==> (#[trigger] steps[p]) is Hold && is_laid_out(
                        steps[p]->Hold_pane,
                        targets,
                    ) && server.app.panes.contains(steps[p]->Hold_pane)
                &&& forall|m: int|
                    0 <= m < server.app.panes.len() && is_laid_out(
                        #[trigger] server.app.panes[m],
                        targets,
                    ) ==> exists|p: int|
                        0 <= p < held && #[trigger] steps[p] == (BoundaryStep::Hold {
                            pane: server.app.panes[m],
                        })
                &&& forall|k: int|
                    0 <= k < n ==> #[trigger] steps[held + k] == (BoundaryStep::PushLayout {
                        target: targets[k],
                    })
                &&& steps[held + n] == BoundaryStep::Resize
                &&& steps[held + n + 1] == BoundaryStep::Release
            }
        }),
{
    let step = |t: TabSurfaceTarget| server.app.lockable_panes(t);
    let panes = targets.flat_map(step);
    let held = panes.len() as int;
    let steps = server.tab_layout_boundary(targets);
    if server.control_connections.len() > 0 {
        assert(server.boundary_holds(targets).len() == held);
        assert forall|p: int| 0 <= p < held implies (#[trigger] steps[p]) is Hold && is_laid_out(
            steps[p]->Hold_pane,
            targets,
        ) && server.app.panes.contains(steps[p]->Hold_pane) by {
            let pane = panes[p];
            assert(steps[p] == BoundaryStep::Hold { pane });
            assert(panes.contains(pane));
            let k = crate::find::lemma_flat_map_origin(targets, step, pane);
            let t = targets[k];
            let wanted = |q: PaneFacts| q.target == t && q.runtime;
            let piece = server.app.panes.filter(wanted);
            assert(step(t) == piece);
            let at = choose|at: int| 0 <= at < piece.len() && piece[at] == pane;
            server.app.panes.lemma_filter_pred(wanted, at);
            crate::find::lemma_filter_origin(server.app.panes, wanted, at);
            assert(targets[k] == pane.target);
        }
        assert forall|m: int|
            0 <= m < server.app.panes.len() && is_laid_out(
                #[trigger] server.app.panes[m],
                targets,
            ) implies exists|p: int|
            0 <= p < held && #[trigger] steps[p] == (BoundaryStep::Hold {
                pane: server.app.panes[m],
            }) by {
            let pane = server.app.panes[m];
            let k = choose|k: int| 0 <= k < targets.len() && #[trigger] targets[k] == pane.target;
            let t = targets[k];
            let wanted = |q: PaneFacts| q.target == t && q.runtime;
            server.app.panes.lemma_filter_contains(wanted, m);
            assert(step(t).contains(pane));
            crate::find::lemma_flat_map_contains(targets, step, k, pane);
            let p = choose|p: int| 0 <= p < panes.len() && panes[p] == pane;
            assert(steps[p] == BoundaryStep::Hold { pane });
        }
    }
    held
}

/// The tabs of all workspaces are there, each once, workspace by workspace.
proof fn lemma_targets(workspaces: Seq<usize>)
    requires
        workspaces.len() <= usize::MAX,
    ensures
        ({
            let targets = super::app::targets_of(workspaces);
            &&& forall|k: int| 0 <= k < targets.len() ==> {
                &&& (#[trigger] targets[k]).workspace_index < workspaces.len()
                &&& targets[k].tab_index < workspaces[targets[k].workspace_index as int]
            }
            &&& forall|w: int, j: int|
                #![trigger targets.contains(TabSurfaceTarget { workspace_index: w as usize, tab_index: j as usize })]
                0 <= w < workspaces.len() && 0 <= j < workspaces[w]
                    ==> targets.contains(
                    TabSurfaceTarget { workspace_index: w as usize, tab_index: j as usize },
                )
        }),
    decreases workspaces.len(),
{
    let targets = super::app::targets_of(workspaces);
    if workspaces.len() > 0 {
        let rest = workspaces.drop_last();
        let n = workspaces.len() - 1;
        let last = super::app::workspace_targets(n, workspaces.last() as nat);
        lemma_targets(rest);
        let before = super::app::targets_of(rest);
        assert forall|k: int| 0 <= k < targets.len() implies {
            &&& (#[trigger] targets[k]).workspace_index < workspaces.len()
            &&& targets[k].tab_index < workspaces[targets[k].workspace_index as int]
        } by {
            if k < before.len() {
                assert(targets[k] == before[k]);
                assert(rest[before[k].workspace_index as int]
                    == workspaces[before[k].workspace_index as int]);
            } else {
                assert(targets[k] == last[k - before.len()]);
            }
        }
        assert forall|w: int, j: int|
            #![trigger targets.contains(TabSurfaceTarget { workspace_index: w as usize, tab_index: j as usize })]
            0 <= w < workspaces.len() && 0 <= j
                < workspaces[w] implies targets.contains(
            TabSurfaceTarget { workspace_index: w as usize, tab_index: j as usize },
        ) by {
            let target = TabSurfaceTarget { workspace_index: w as usize, tab_index: j as usize };
            if w < n {
                assert(rest[w] == workspaces[w]);
                assert(before.contains(target));
                let k = choose|k: int| 0 <= k < before.len() && before[k] == target;
                assert(targets[k] == target);
            } else {
                assert(last[j] == target);
                assert(targets[before.len() + j] == target);
            }
        }
    }
}

/// A session snapshot for an open stream tells of every tab of every workspace,
/// with the area it is laid out in, and of no other tab.
pub proof fn sessions_tell_of_every_tab(
    server: super::state::ServerModel,
    id: Seq<char>,
    connection_id: u64,
    w: usize,
    j: usize,
)
    requires
        connection_id != 0,
        server.app.workspaces.len() <= usize::MAX,
    ensures
        ({
            let outcome = server.handled(id, Some(connection_id), ControlMethod::SessionSnapshot);
            let layouts = outcome.1->SessionSnapshot_layouts;
            let target = TabSurfaceTarget { workspace_index: w, tab_index: j };
            &&& outcome.0 == server
            &&& outcome.1 is SessionSnapshot
            &&& outcome.1->SessionSnapshot_id == id
            &&& w < server.app.workspaces.len() && j < server.app.workspaces[w as int]
                <==> layouts.contains((target, server.current_tab_area(target)))
            &&& forall|k: int|
                0 <= k < layouts.len() ==> (#[trigger] layouts[k]).1 == server.current_tab_area(
                    layouts[k].0,
                )
        }),
{
    let targets = super::app::targets_of(server.app.workspaces);
    let layouts = server.session_layouts();
    let target = TabSurfaceTarget { workspace_index: w, tab_index: j };
    lemma_targets(server.app.workspaces);
    if w < server.app.workspaces.len() && j < server.app.workspaces[w as int] {
        assert(targets.contains(
            TabSurfaceTarget { workspace_index: w as int as usize, tab_index: j as int as usize },
        ));
        let k = choose|k: int| 0 <= k < targets.len() && targets[k] == target;
        assert(layouts[k] == (target, server.current_tab_area(target)));
    }
    if layouts.contains((target, server.current_tab_area(target))) {
        let k = choose|k: int|
            0 <= k < layouts.len() && layouts[k] == (target, server.current_tab_area(target));
        assert(targets[k] == target);
    }
}

/// Beyond the streams a request is none of control's business: a session
/// snapshot without an open stream, and any other method.
pub proof fn other_requests_are_left_alone(
    server: super::state::ServerModel,
    id: Seq<char>,
    stream: Option<u64>,
    method: ControlMethod,
)
    requires
        method is Other || (method is SessionSnapshot && (stream is None || stream == Some(0u64))),
    ensures
        server.handled(id, stream, method) == (server, super::dispatch::AnswerModel::NotControl),
{
}

/// The open streams are told of in the order they were opened.
pub proof fn streams_are_told_of_in_order(server: super::state::ServerModel, i: int)
    requires
        0 <= i < server.control_connections.len(),
    ensures
        server.control_connection_ids().len() == server.control_connections.len(),
        server.control_connection_ids()[i] == server.control_connections[i].connection_id,
{
}

} // verus!
