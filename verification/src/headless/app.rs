//! What the server's logic reads of the application: terminals, tabs and
//! panes as plain facts.

use vstd::prelude::*;

use crate::text::{clone_optional, holds_text, same_text};

verus! {

/// A tab by position.
#[derive(Debug, Clone, Copy, PartialEq, Eq, Structural)]
pub struct TabSurfaceTarget {
    pub workspace_index: usize,
    pub tab_index: usize,
}

/// Where a terminal's runtime was found.
#[derive(Debug, Clone, Copy, PartialEq, Eq, Structural)]
pub enum RuntimeSource {
    /// Through the pane that shows the terminal.
    Pane,
    /// In the terminal registry, as popup terminals are.
    Registry,
}

/// What the application knows of one terminal.
#[derive(Debug, Clone)]
pub struct TerminalFacts {
    pub terminal_id: String,
    /// Public id of the pane that shows the terminal.
    pub pane_id: Option<String>,
    /// The pane path leads to a runtime.
    pub pane_runtime: bool,
    /// The terminal registry holds a runtime.
    pub registry_runtime: bool,
    /// The id names a terminal that resize locks can be put on.
    pub registered: bool,
    /// The tab that shows the terminal.
    pub tab: Option<TabSurfaceTarget>,
}

/// What the application knows of one tab id.
#[derive(Debug, Clone)]
pub struct TabFacts {
    pub tab_id: String,
    pub target: TabSurfaceTarget,
}

/// What the application knows of one pane.
#[derive(Debug, Clone, Copy, PartialEq, Eq, Structural)]
pub struct PaneFacts {
    pub target: TabSurfaceTarget,
    pub pane: u64,
    /// The pane has a runtime whose content can be locked.
    pub runtime: bool,
}

/// The application's facts. The first entry for an id or a target counts.
#[derive(Debug, Clone)]
pub struct AppView {
    pub terminals: Vec<TerminalFacts>,
    pub tabs: Vec<TabFacts>,
    pub panes: Vec<PaneFacts>,
    /// Terminals with an alternate-screen read in progress.
    pub pending_alt_screen_reads: Vec<String>,
    /// How many tabs each workspace has.
    pub workspaces: Vec<usize>,
}

/// A terminal's facts, as contracts see them.
#[verifier::ext_equal]
pub struct TerminalModel {
    pub terminal_id: Seq<char>,
    pub pane_id: Option<Seq<char>>,
    pub pane_runtime: bool,
    pub registry_runtime: bool,
    pub registered: bool,
    pub tab: Option<TabSurfaceTarget>,
}

/// A tab's facts, as contracts see them.
#[verifier::ext_equal]
pub struct TabModel {
    pub tab_id: Seq<char>,
    pub target: TabSurfaceTarget,
}

/// The application's facts, as contracts see them.
#[verifier::ext_equal]
pub struct AppModel {
    pub terminals: Seq<TerminalModel>,
    pub tabs: Seq<TabModel>,
    pub panes: Seq<PaneFacts>,
    pub pending_alt_screen_reads: Seq<Seq<char>>,
    pub workspaces: Seq<usize>,
}

impl View for TerminalFacts {
    type V = TerminalModel;

    open spec fn view(&self) -> TerminalModel {
        TerminalModel {
            terminal_id: self.terminal_id@,
            pane_id: crate::text::optional_text(self.pane_id),
            pane_runtime: self.pane_runtime,
            registry_runtime: self.registry_runtime,
            registered: self.registered,
            tab: self.tab,
        }
    }
}

impl View for TabFacts {
    type V = TabModel;

    open spec fn view(&self) -> TabModel {
        TabModel { tab_id: self.tab_id@, target: self.target }
    }
}

impl View for AppView {
    type V = AppModel;

    open spec fn view(&self) -> AppModel {
        AppModel {
            terminals: Seq::new(self.terminals@.len(), |i: int| self.terminals@[i]@),
            tabs: Seq::new(self.tabs@.len(), |i: int| self.tabs@[i]@),
            panes: self.panes@,
            pending_alt_screen_reads: crate::text::text_views(self.pending_alt_screen_reads@),
            workspaces: self.workspaces@,
        }
    }
}

impl AppModel {
    /// The facts of a terminal.
    pub open spec fn terminal(self, terminal_id: Seq<char>) -> Option<TerminalModel> {
        crate::find::first_where(self.terminals, |t: TerminalModel| t.terminal_id == terminal_id)
    }

    /// Where a terminal's runtime is: the pane path first, then the registry.
    pub open spec fn control_runtime(self, terminal_id: Seq<char>) -> Option<RuntimeSource> {
        match self.terminal(terminal_id) {
            Some(t) => if t.pane_runtime {
                Some(RuntimeSource::Pane)
            } else if t.registry_runtime {
                Some(RuntimeSource::Registry)
            } else {
                None
            },
            None => None,
        }
    }

    /// Whether a terminal has a runtime.
    pub open spec fn running(self, terminal_id: Seq<char>) -> bool {
        self.control_runtime(terminal_id) is Some
    }

    /// Whether resize locks can be put on a terminal.
    pub open spec fn registered(self, terminal_id: Seq<char>) -> bool {
        self.terminal(terminal_id) matches Some(t) && t.registered
    }

    /// The pane that shows a terminal.
    pub open spec fn pane_id(self, terminal_id: Seq<char>) -> Option<Seq<char>> {
        match self.terminal(terminal_id) {
            Some(t) => t.pane_id,
            None => None,
        }
    }

    /// The tab that shows a terminal, by position.
    pub open spec fn tab_target_for_terminal(self, terminal_id: Seq<char>) -> Option<
        TabSurfaceTarget,
    > {
        match self.terminal(terminal_id) {
            Some(t) => t.tab,
            None => None,
        }
    }

    /// The id of a tab.
    pub open spec fn tab_id_for_target(self, target: TabSurfaceTarget) -> Option<Seq<char>> {
        match crate::find::first_where(self.tabs, |t: TabModel| t.target == target) {
            Some(t) => Some(t.tab_id),
            None => None,
        }
    }

    /// The tab that an id names.
    pub open spec fn parse_tab_id(self, tab_id: Seq<char>) -> Option<TabSurfaceTarget> {
        match crate::find::first_where(self.tabs, |t: TabModel| t.tab_id == tab_id) {
            Some(t) => Some(t.target),
            None => None,
        }
    }

    /// The id of the tab that shows a terminal.
    pub open spec fn tab_of_terminal(self, terminal_id: Seq<char>) -> Option<Seq<char>> {
        match self.tab_target_for_terminal(terminal_id) {
            Some(target) => self.tab_id_for_target(target),
            None => None,
        }
    }

    /// Every tab, workspace by workspace.
    pub open spec fn all_tab_targets(self) -> Seq<TabSurfaceTarget> {
        targets_of(self.workspaces)
    }

    /// The panes of a tab whose content can be locked.
    pub open spec fn lockable_panes(self, target: TabSurfaceTarget) -> Seq<PaneFacts> {
        self.panes.filter(|p: PaneFacts| p.target == target && p.runtime)
    }
}

/// The tabs of one workspace.
pub open spec fn workspace_targets(workspace_index: int, tabs: nat) -> Seq<TabSurfaceTarget> {
    Seq::new(
        tabs,
        |i: int|
            TabSurfaceTarget { workspace_index: workspace_index as usize, tab_index: i as usize },
    )
}

/// The tabs of a list of workspaces, given how many each has.
pub open spec fn targets_of(workspaces: Seq<usize>) -> Seq<TabSurfaceTarget>
    decreases workspaces.len(),
{
    if workspaces.len() == 0 {
        Seq::empty()
    } else {
        targets_of(workspaces.drop_last()) + workspace_targets(
            workspaces.len() - 1,
            workspaces.last() as nat,
        )
    }
}

impl AppView {
    /// An application with nothing in it.
    pub fn new() -> (app: Self)
        ensures
            app@ == (AppModel {
                terminals: Seq::empty(),
                tabs: Seq::empty(),
                panes: Seq::empty(),
                pending_alt_screen_reads: Seq::empty(),
                workspaces: Seq::empty(),
            }),
    {
        let app = AppView {
            terminals: Vec::new(),
            tabs: Vec::new(),
            panes: Vec::new(),
            pending_alt_screen_reads: Vec::new(),
            workspaces: Vec::new(),
        };
        assert(app@.terminals =~= Seq::empty());
        assert(app@.tabs =~= Seq::empty());
        assert(app@.pending_alt_screen_reads =~= Seq::empty());
        app
    }

    fn terminal(&self, terminal_id: &str) -> (facts: Option<&TerminalFacts>)
        ensures
            facts is Some <==> self@.terminal(terminal_id@) is Some,
            facts matches Some(facts) ==> self@.terminal(terminal_id@) == Some(facts@),
    {
        let ghost wanted = |t: TerminalModel| t.terminal_id == terminal_id@;
        let mut i: usize = 0;
        while i < self.terminals.len()
            invariant
                0 <= i <= self.terminals.len(),
                wanted == (|t: TerminalModel| t.terminal_id == terminal_id@),
                forall|k: int| 0 <= k < i ==> !wanted(#[trigger] self@.terminals[k]),
            decreases self.terminals.len() - i,
        {
            if same_text(self.terminals[i].terminal_id.as_str(), terminal_id) {
                proof {
                    crate::find::lemma_first_index(self@.terminals, wanted);
                    assert(wanted(self@.terminals[i as int]));
                }
                return Some(&self.terminals[i]);
            }
            i += 1;
        }
        proof {
            crate::find::lemma_first_index(self@.terminals, wanted);
        }
        None
    }

    /// Resolves a terminal id to its runtime through the pane path first;
    /// popup terminals fall back to the terminal registry.
    pub fn control_runtime(&self, terminal_id: &str) -> (source: Option<RuntimeSource>)
        ensures
            source == self@.control_runtime(terminal_id@),
    {
        match self.terminal(terminal_id) {
            Some(facts) => if facts.pane_runtime {
                Some(RuntimeSource::Pane)
            } else if facts.registry_runtime {
                Some(RuntimeSource::Registry)
            } else {
                None
            },
            None => None,
        }
    }

    /// Whether resize locks can be put on a terminal.
    pub fn registered(&self, terminal_id: &str) -> (registered: bool)
        ensures
            registered == self@.registered(terminal_id@),
    {
        match self.terminal(terminal_id) {
            Some(facts) => facts.registered,
            None => false,
        }
    }

    /// The public id of the pane that shows a terminal.
    pub fn pane_id(&self, terminal_id: &str) -> (pane_id: Option<String>)
        ensures
            crate::text::optional_text(pane_id) == self@.pane_id(terminal_id@),
    {
        match self.terminal(terminal_id) {
            Some(facts) => clone_optional(&facts.pane_id),
            None => None,
        }
    }

    /// The tab that shows a terminal.
    pub fn tab_target_for_terminal(&self, terminal_id: &str) -> (target: Option<TabSurfaceTarget>)
        ensures
            target == self@.tab_target_for_terminal(terminal_id@),
    {
        match self.terminal(terminal_id) {
            Some(facts) => facts.tab,
            None => None,
        }
    }

    /// The id of a tab.
    pub fn tab_id_for_target(&self, target: TabSurfaceTarget) -> (tab_id: Option<String>)
        ensures
            crate::text::optional_text(tab_id) == self@.tab_id_for_target(target),
    {
        let ghost wanted = |t: TabModel| t.target == target;
        let mut i: usize = 0;
        while i < self.tabs.len()
            invariant
                0 <= i <= self.tabs.len(),
                wanted == (|t: TabModel| t.target == target),
                forall|k: int| 0 <= k < i ==> !wanted(#[trigger] self@.tabs[k]),
            decreases self.tabs.len() - i,
        {
            if self.tabs[i].target == target {
                proof {
                    crate::find::lemma_first_index(self@.tabs, wanted);
                    assert(wanted(self@.tabs[i as int]));
                }
                return Some(self.tabs[i].tab_id.clone());
            }
            i += 1;
        }
        proof {
            crate::find::lemma_first_index(self@.tabs, wanted);
        }
        None
    }

    /// The tab that an id names.
    pub fn parse_tab_id(&self, tab_id: &str) -> (target: Option<TabSurfaceTarget>)
        ensures
            target == self@.parse_tab_id(tab_id@),
    {
        let ghost wanted = |t: TabModel| t.tab_id == tab_id@;
        let mut i: usize = 0;
        while i < self.tabs.len()
            invariant
                0 <= i <= self.tabs.len(),
                wanted == (|t: TabModel| t.tab_id == tab_id@),
                forall|k: int| 0 <= k < i ==> !wanted(#[trigger] self@.tabs[k]),
            decreases self.tabs.len() - i,
        {
            if same_text(self.tabs[i].tab_id.as_str(), tab_id) {
                proof {
                    crate::find::lemma_first_index(self@.tabs, wanted);
                    assert(wanted(self@.tabs[i as int]));
                }
                return Some(self.tabs[i].target);
            }
            i += 1;
        }
        proof {
            crate::find::lemma_first_index(self@.tabs, wanted);
        }
        None
    }

    /// The id of the tab that shows a terminal.
    pub fn tab_of_terminal(&self, terminal_id: &str) -> (tab_id: Option<String>)
        ensures
            crate::text::optional_text(tab_id) == self@.tab_of_terminal(terminal_id@),
    {
        match self.tab_target_for_terminal(terminal_id) {
            Some(target) => self.tab_id_for_target(target),
            None => None,
        }
    }

    /// Whether a terminal has an alternate-screen read in progress.
    pub fn read_in_progress(&self, terminal_id: &str) -> (busy: bool)
        ensures
            busy == self@.pending_alt_screen_reads.contains(terminal_id@),
    {
        holds_text(&self.pending_alt_screen_reads, terminal_id)
    }

    /// Every tab, workspace by workspace.
    pub fn all_tab_targets(&self) -> (targets: Vec<TabSurfaceTarget>)
        ensures
            targets@ == self@.all_tab_targets(),
    {
        let mut targets: Vec<TabSurfaceTarget> = Vec::new();
        let mut workspace_index: usize = 0;
        assert(self.workspaces@.take(0) =~= Seq::empty());
        while workspace_index < self.workspaces.len()
            invariant
                0 <= workspace_index <= self.workspaces.len(),
                targets@ == targets_of(self.workspaces@.take(workspace_index as int)),
            decreases self.workspaces.len() - workspace_index,
        {
            let tabs: usize = self.workspaces[workspace_index];
            let ghost before = targets@;
            let mut tab_index: usize = 0;
            while tab_index < tabs
                invariant
                    0 <= tab_index <= tabs,
                    targets@ =~= before + workspace_targets(
                        workspace_index as int,
                        tab_index as nat,
                    ),
                decreases tabs - tab_index,
            {
                targets.push(TabSurfaceTarget { workspace_index, tab_index });
                tab_index += 1;
            }
            proof {
                let taken = self.workspaces@.take(workspace_index + 1);
                assert(taken.drop_last() =~= self.workspaces@.take(workspace_index as int));
            }
            workspace_index += 1;
        }
        assert(self.workspaces@.take(self.workspaces.len() as int) =~= self.workspaces@);
        targets
    }
}

} // verus!
