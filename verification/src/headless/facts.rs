//! What the application's facts say of terminals and tabs.

use vstd::prelude::*;

use super::app::{RuntimeSource, TabSurfaceTarget};

verus! {

/// Whether the facts at `k` are those that count for a terminal.
pub open spec fn counts_for(app: super::app::AppModel, terminal_id: Seq<char>, k: int) -> bool {
    &&& 0 <= k < app.terminals.len()
    &&& app.terminals[k].terminal_id == terminal_id
    &&& forall|i: int| 0 <= i < k ==> (#[trigger] app.terminals[i]).terminal_id != terminal_id
}

/// A terminal runs if its pane or the registry leads to a runtime, the pane
/// first. It can be locked if it is registered. It is in the tab that shows it.
pub proof fn terminals_are_as_the_facts_say(
    app: super::app::AppModel,
    terminal_id: Seq<char>,
    k: int,
)
    requires
        counts_for(app, terminal_id, k),
    ensures
        ({
            let facts = app.terminals[k];
            &&& app.running(terminal_id) <==> facts.pane_runtime || facts.registry_runtime
            &&& facts.pane_runtime ==> app.control_runtime(terminal_id) == Some(RuntimeSource::Pane)
            &&& facts.registry_runtime && !facts.pane_runtime ==> app.control_runtime(terminal_id)
                == Some(RuntimeSource::Registry)
            &&& app.registered(terminal_id) == facts.registered
            &&& app.pane_id(terminal_id) == facts.pane_id
            &&& app.tab_target_for_terminal(terminal_id) == facts.tab
            &&& facts.tab is None ==> app.tab_of_terminal(terminal_id) is None
            &&& facts.tab is Some ==> app.tab_of_terminal(terminal_id) == app.tab_id_for_target(
                facts.tab->Some_0,
            )
        }),
{
    let wanted = |t: super::app::TerminalModel| t.terminal_id == terminal_id;
    crate::find::lemma_first_index(app.terminals, wanted);
    assert(wanted(app.terminals[k]));
}

/// A terminal that the facts do not know neither runs nor is shown anywhere.
pub proof fn unknown_terminals_do_not_run(app: super::app::AppModel, terminal_id: Seq<char>)
    requires
        forall|i: int|
            0 <= i < app.terminals.len() ==> (#[trigger] app.terminals[i]).terminal_id
                != terminal_id,
    ensures
        !app.running(terminal_id),
        !app.registered(terminal_id),
        app.pane_id(terminal_id) is None,
        app.tab_of_terminal(terminal_id) is None,
{
    let wanted = |t: super::app::TerminalModel| t.terminal_id == terminal_id;
    crate::find::lemma_first_index(app.terminals, wanted);
}

/// Ids and places of tabs that the facts pair once lead to each other, and those
/// that the facts do not know lead nowhere.
pub proof fn tabs_are_where_their_ids_say(
    app: super::app::AppModel,
    tab_id: Seq<char>,
    target: TabSurfaceTarget,
    k: int,
)
    ensures
        0 <= k < app.tabs.len() && app.tabs[k].tab_id == tab_id && app.tabs[k].target == target && (
        forall|i: int|
            0 <= i < k ==> (#[trigger] app.tabs[i]).tab_id != tab_id && app.tabs[i].target
                != target) ==> app.parse_tab_id(tab_id) == Some(target) && app.tab_id_for_target(
            target,
        ) == Some(tab_id),
        (forall|i: int| 0 <= i < app.tabs.len() ==> (#[trigger] app.tabs[i]).tab_id != tab_id)
            ==> app.parse_tab_id(tab_id) is None,
        (forall|i: int| 0 <= i < app.tabs.len() ==> (#[trigger] app.tabs[i]).target != target)
            ==> app.tab_id_for_target(target) is None,
{
    let named = |t: super::app::TabModel| t.tab_id == tab_id;
    let placed = |t: super::app::TabModel| t.target == target;
    crate::find::lemma_first_index(app.tabs, named);
    crate::find::lemma_first_index(app.tabs, placed);
    if 0 <= k < app.tabs.len() && app.tabs[k].tab_id == tab_id && app.tabs[k].target == target {
        assert(named(app.tabs[k]));
        assert(placed(app.tabs[k]));
    }
}

} // verus!
