//! The dashboard's state and the decisions behind it: which view shows, what is selected,
//! what a key press does, and the text the views show.
use vstd::prelude::*;
use crate::config::{TriggerConfig, WorkflowConfig};
use crate::engine::{NodeResult, NodeStatus, RunStatus, WorkflowRun};
use crate::sort::{lemma_insert_at, lemma_sorted_by_perm, lemma_sorted_by_sorted, sorted_by, total_preorder};
use crate::text::{decimal, format_u64};

verus! {

/// How serious a log line is.
#[derive(Debug, Clone, Copy, PartialEq, Eq, Structural)]
pub enum LogLevel {
    Info,
    Error,
    Warning,
}

/// One log line. The time is nanoseconds since the Unix epoch.
#[derive(Debug, Clone)]
pub struct LogEntry {
    pub timestamp: i64,
    pub level: LogLevel,
    pub message: String,
}

/// Which panel of the node detail view has focus.
#[derive(Debug, Clone, Copy, PartialEq, Eq, Structural)]
pub enum NodeDetailPanel {
    NodeList,
    NodeContent,
}

/// Which screen shows.
#[derive(Debug, Clone, Copy, PartialEq, Eq, Structural)]
pub enum AppView {
    Workflows,
    Logs,
    Description,
    Help,
    NodeDetail,
}

/// Which panel of the workflows screen has focus.
#[derive(Debug, Clone, Copy, PartialEq, Eq, Structural)]
pub enum FocusedPanel {
    Workflows,
    Runs,
    NodeResults,
}

/// A key press, as far as the dashboard tells keys apart.
#[derive(Debug, Clone, Copy, PartialEq, Eq, Structural)]
pub enum Key {
    Char(char),
    Esc,
    Enter,
    Tab,
    Left,
    Right,
    Up,
    Down,
    PageUp,
    PageDown,
    Home,
    End,
    Other,
}

/// What the dashboard knows about the current selection when a key arrives.
#[derive(Debug, Clone, Copy, PartialEq, Eq, Structural)]
pub struct SelectionInfo {
    /// How many workflows are listed.
    pub workflow_count: usize,
    /// How many runs (and scheduled runs) the selected workflow lists.
    pub run_count: usize,
    /// How many node results the selected run has, when the selected entry is an actual run.
    pub selected_run_nodes: Option<usize>,
}

/// What the dashboard does after a key, besides the change of state.
#[derive(Debug, Clone, Copy, PartialEq, Eq, Structural)]
pub enum KeyOutcome {
    /// Redraw and wait for the next key.
    Continue,
    /// Leave the dashboard.
    Quit,
    /// Run the selected workflow.
    Trigger,
    /// Open the selected workflow's file in an editor.
    Edit,
    /// Enable or disable the selected workflow.
    ToggleEnabled,
}

/// The dashboard's selection, scroll positions and screen.
#[derive(Debug, Clone, Copy, PartialEq, Eq, Structural)]
pub struct UiState {
    pub selected_workflow: usize,
    pub selected_run: usize,
    pub detail_scroll: u16,
    pub focused_panel: FocusedPanel,
    pub current_view: AppView,
    pub log_scroll: u16,
    pub selected_node: usize,
    pub node_detail_focused_panel: NodeDetailPanel,
}

/// The other node detail panel.
pub open spec fn other_panel(p: NodeDetailPanel) -> NodeDetailPanel {
    match p {
        NodeDetailPanel::NodeList => NodeDetailPanel::NodeContent,
        NodeDetailPanel::NodeContent => NodeDetailPanel::NodeList,
    }
}

/// The next panel to the right (wrapping).
pub open spec fn next_focus(p: FocusedPanel) -> FocusedPanel {
    match p {
        FocusedPanel::Workflows => FocusedPanel::Runs,
        FocusedPanel::Runs => FocusedPanel::NodeResults,
        FocusedPanel::NodeResults => FocusedPanel::Workflows,
    }
}

/// The next panel to the left (wrapping).
pub open spec fn prev_focus(p: FocusedPanel) -> FocusedPanel {
    match p {
        FocusedPanel::Workflows => FocusedPanel::NodeResults,
        FocusedPanel::Runs => FocusedPanel::Workflows,
        FocusedPanel::NodeResults => FocusedPanel::Runs,
    }
}

/// The view scrolls its detail text (description, help, node detail).
pub open spec fn scrolls_detail(v: AppView) -> bool {
    v == AppView::Description || v == AppView::Help || v == AppView::NodeDetail
}

/// Down (or `j`).
pub open spec fn moved_down(s: UiState, info: SelectionInfo) -> UiState {
    if s.current_view == AppView::Logs {
        UiState { log_scroll: s.log_scroll.saturating_add(1), ..s }
    } else if s.current_view == AppView::Description || s.current_view == AppView::Help {
        UiState { detail_scroll: s.detail_scroll.saturating_add(1), ..s }
    } else if s.current_view == AppView::NodeDetail {
        match s.node_detail_focused_panel {
            NodeDetailPanel::NodeList => match info.selected_run_nodes {
                Some(n) => if s.selected_node + 1 < n {
                    UiState { selected_node: (s.selected_node + 1) as usize, detail_scroll: 0, ..s }
                } else {
                    s
                },
                None => s,
            },
            NodeDetailPanel::NodeContent => UiState { detail_scroll: s.detail_scroll.saturating_add(1), ..s },
        }
    } else {
        match s.focused_panel {
            FocusedPanel::Workflows => if s.selected_workflow + 1 < info.workflow_count {
                UiState { selected_workflow: (s.selected_workflow + 1) as usize, selected_run: 0, detail_scroll: 0, ..s }
            } else {
                s
            },
            FocusedPanel::Runs => if s.selected_run + 1 < info.run_count {
                UiState { selected_run: (s.selected_run + 1) as usize, detail_scroll: 0, ..s }
            } else {
                s
            },
            FocusedPanel::NodeResults => UiState { detail_scroll: s.detail_scroll.saturating_add(3), ..s },
        }
    }
}

/// Up (or `k`).
pub open spec fn moved_up(s: UiState) -> UiState {
    if s.current_view == AppView::Logs {
        UiState { log_scroll: s.log_scroll.saturating_sub(1), ..s }
    } else if s.current_view == AppView::Description || s.current_view == AppView::Help {
        UiState { detail_scroll: s.detail_scroll.saturating_sub(1), ..s }
    } else if s.current_view == AppView::NodeDetail {
        match s.node_detail_focused_panel {
            NodeDetailPanel::NodeList => if s.selected_node > 0 {
                UiState { selected_node: (s.selected_node - 1) as usize, detail_scroll: 0, ..s }
            } else {
                s
            },
            NodeDetailPanel::NodeContent => UiState { detail_scroll: s.detail_scroll.saturating_sub(1), ..s },
        }
    } else {
        match s.focused_panel {
            FocusedPanel::Workflows => if s.selected_workflow > 0 {
                UiState { selected_workflow: (s.selected_workflow - 1) as usize, selected_run: 0, detail_scroll: 0, ..s }
            } else {
                s
            },
            FocusedPanel::Runs => if s.selected_run > 0 {
                UiState { selected_run: (s.selected_run - 1) as usize, detail_scroll: 0, ..s }
            } else {
                s
            },
            FocusedPanel::NodeResults => UiState { detail_scroll: s.detail_scroll.saturating_sub(3), ..s },
        }
    }
}

/// What a key does: the new state and what else to do.
pub open spec fn after_key(s: UiState, key: Key, info: SelectionInfo) -> (UiState, KeyOutcome) {
    match key {
        Key::Char('q') => (s, KeyOutcome::Quit),
        Key::Char('l') => if s.current_view == AppView::Workflows {
            (UiState { current_view: AppView::Logs, detail_scroll: 0, log_scroll: 0, ..s }, KeyOutcome::Continue)
        } else {
            (s, KeyOutcome::Continue)
        },
        Key::Char('w') => if s.current_view != AppView::Workflows {
            (
                UiState {
                    current_view: AppView::Workflows,
                    detail_scroll: 0,
                    log_scroll: 0,
                    selected_node: 0,
                    node_detail_focused_panel: NodeDetailPanel::NodeList,
                    ..s
                },
                KeyOutcome::Continue,
            )
        } else {
            (s, KeyOutcome::Continue)
        },
        Key::Char('?') => (UiState { current_view: AppView::Help, detail_scroll: 0, ..s }, KeyOutcome::Continue),
        Key::Char('d') => if s.current_view == AppView::Workflows {
            (UiState { current_view: AppView::Description, detail_scroll: 0, ..s }, KeyOutcome::Continue)
        } else {
            (s, KeyOutcome::Continue)
        },
        Key::Char('t') => if s.current_view == AppView::Workflows {
            (s, KeyOutcome::Trigger)
        } else {
            (s, KeyOutcome::Continue)
        },
        Key::Char('e') => if s.current_view == AppView::Workflows {
            (s, KeyOutcome::Edit)
        } else {
            (s, KeyOutcome::Continue)
        },
        Key::Esc => if s.current_view == AppView::NodeDetail {
            (
                UiState {
                    current_view: AppView::Workflows,
                    detail_scroll: 0,
                    selected_node: 0,
                    node_detail_focused_panel: NodeDetailPanel::NodeList,
                    ..s
                },
                KeyOutcome::Continue,
            )
        } else if s.current_view == AppView::Logs || s.current_view == AppView::Description
            || s.current_view == AppView::Help {
            (UiState { current_view: AppView::Workflows, detail_scroll: 0, log_scroll: 0, ..s }, KeyOutcome::Continue)
        } else {
            (s, KeyOutcome::Continue)
        },
        Key::Char(' ') | Key::Enter => if s.current_view == AppView::Workflows {
            if s.focused_panel == FocusedPanel::Workflows {
                (s, KeyOutcome::ToggleEnabled)
            } else {
                match info.selected_run_nodes {
                    Some(n) => if n > 0 {
                        (
                            UiState {
                                selected_node: 0,
                                current_view: AppView::NodeDetail,
                                detail_scroll: 0,
                                node_detail_focused_panel: NodeDetailPanel::NodeList,
                                ..s
                            },
                            KeyOutcome::Continue,
                        )
                    } else {
                        (s, KeyOutcome::Continue)
                    },
                    None => (s, KeyOutcome::Continue),
                }
            }
        } else {
            (s, KeyOutcome::Continue)
        },
        Key::Tab | Key::Right => if s.current_view == AppView::NodeDetail {
            (UiState { node_detail_focused_panel: other_panel(s.node_detail_focused_panel), ..s }, KeyOutcome::Continue)
        } else {
            (UiState { focused_panel: next_focus(s.focused_panel), detail_scroll: 0, ..s }, KeyOutcome::Continue)
        },
        Key::Left => if s.current_view == AppView::NodeDetail {
            (UiState { node_detail_focused_panel: other_panel(s.node_detail_focused_panel), ..s }, KeyOutcome::Continue)
        } else {
            (UiState { focused_panel: prev_focus(s.focused_panel), detail_scroll: 0, ..s }, KeyOutcome::Continue)
        },
        Key::Down | Key::Char('j') => (moved_down(s, info), KeyOutcome::Continue),
        Key::Up | Key::Char('k') => (moved_up(s), KeyOutcome::Continue),
        Key::PageDown => if s.current_view == AppView::Logs {
            (UiState { log_scroll: s.log_scroll.saturating_add(10), ..s }, KeyOutcome::Continue)
        } else if scrolls_detail(s.current_view) || s.focused_panel == FocusedPanel::NodeResults {
            (UiState { detail_scroll: s.detail_scroll.saturating_add(10), ..s }, KeyOutcome::Continue)
        } else {
            (s, KeyOutcome::Continue)
        },
        Key::PageUp => if s.current_view == AppView::Logs {
            (UiState { log_scroll: s.log_scroll.saturating_sub(10), ..s }, KeyOutcome::Continue)
        } else if scrolls_detail(s.current_view) || s.focused_panel == FocusedPanel::NodeResults {
            (UiState { detail_scroll: s.detail_scroll.saturating_sub(10), ..s }, KeyOutcome::Continue)
        } else {
            (s, KeyOutcome::Continue)
        },
        Key::Home => if scrolls_detail(s.current_view) {
            (UiState { detail_scroll: 0, ..s }, KeyOutcome::Continue)
        } else if s.current_view == AppView::Logs {
            (UiState { log_scroll: 0, ..s }, KeyOutcome::Continue)
        } else {
            (s, KeyOutcome::Continue)
        },
        Key::End => if scrolls_detail(s.current_view) {
            (UiState { detail_scroll: 1000, ..s }, KeyOutcome::Continue)
        } else if s.current_view == AppView::Logs {
            (UiState { log_scroll: 1000, ..s }, KeyOutcome::Continue)
        } else {
            (s, KeyOutcome::Continue)
        },
        _ => (s, KeyOutcome::Continue),
    }
}

/// Each selection is within its list, or the first entry (of a list that may be empty).
pub open spec fn selection_valid(s: UiState, info: SelectionInfo) -> bool {
    &&& s.selected_workflow < info.workflow_count || s.selected_workflow == 0
    &&& s.selected_run < info.run_count || s.selected_run == 0
    &&& info.selected_run_nodes matches Some(n) ==> (s.selected_node < n || s.selected_node == 0)
}

/// No key moves a selection out of its list: a selection within its list (or at the first
/// entry) stays so after any key.
pub proof fn lemma_selection_stays_valid(s: UiState, key: Key, info: SelectionInfo)
    requires
        selection_valid(s, info),
    ensures
        selection_valid(after_key(s, key, info).0, info),
{
    match key {
        Key::Down => {
            assert(after_key(s, key, info).0 == moved_down(s, info));
        },
        Key::Char('j') => {
            assert(after_key(s, key, info).0 == moved_down(s, info));
        },
        Key::Up => {
            assert(after_key(s, key, info).0 == moved_up(s));
        },
        Key::Char('k') => {
            assert(after_key(s, key, info).0 == moved_up(s));
        },
        _ => {},
    }
}

/// Whether a dashboard connected to a running service looks again whether that engine still
/// runs (to take it over when it stopped): every two seconds.
pub fn engine_check_due(service_mode: bool, millis_since_check: u64) -> (b: bool)
    ensures
        b == (service_mode && millis_since_check >= 2000),
{
    service_mode && millis_since_check >= 2000
}

/// The state after the keys `keys`, taken in order, the lists' lengths staying `info`.
pub open spec fn after_keys(s: UiState, keys: Seq<Key>, info: SelectionInfo) -> UiState
    decreases keys.len(),
{
    if keys.len() == 0 {
        s
    } else {
        after_keys(after_key(s, keys[0], info).0, keys.drop_first(), info)
    }
}

/// However many keys arrive, while the lists keep their lengths every selection stays within
/// its list (or at its first entry): Down moves on only when there is an entry below, Up
/// only when there is one above.
pub proof fn lemma_selection_stays_valid_over_keys(s: UiState, keys: Seq<Key>, info: SelectionInfo)
    requires
        selection_valid(s, info),
    ensures
        selection_valid(after_keys(s, keys, info), info),
    decreases keys.len(),
{
    if keys.len() > 0 {
        lemma_selection_stays_valid(s, keys[0], info);
        lemma_selection_stays_valid_over_keys(after_key(s, keys[0], info).0, keys.drop_first(), info);
    }
}

/// The place of a panel from left to right.
pub open spec fn panel_index(p: FocusedPanel) -> int {
    match p {
        FocusedPanel::Workflows => 0,
        FocusedPanel::Runs => 1,
        FocusedPanel::NodeResults => 2,
    }
}

/// Tab, Right or Left.
pub open spec fn is_turn(k: Key) -> bool {
    k is Tab || k is Right || k is Left
}

/// The steps to the right that the keys make: one for each Tab or Right, less one for each
/// Left.
pub open spec fn turns(keys: Seq<Key>) -> int
    decreases keys.len(),
{
    if keys.len() == 0 {
        0
    } else {
        (if keys[0] is Left { -1int } else { 1int }) + turns(keys.drop_first())
    }
}

/// Outside the node detail screen, any sequence of Tab, Right and Left keys leaves the
/// screen as it is and moves the focus around the three panels, one step right for each Tab
/// or Right and one step left for each Left; so Tab then Left, or three Tabs, come back.
pub proof fn lemma_panel_turns(s: UiState, keys: Seq<Key>, info: SelectionInfo)
    requires
        s.current_view != AppView::NodeDetail,
        forall|k: int| 0 <= k < keys.len() ==> is_turn(#[trigger] keys[k]),
    ensures
        after_keys(s, keys, info).current_view == s.current_view,
        panel_index(after_keys(s, keys, info).focused_panel) == (panel_index(s.focused_panel) + turns(keys)) % 3,
    decreases keys.len(),
{
    if keys.len() > 0 {
        let s1 = after_key(s, keys[0], info).0;
        let d: int = if keys[0] is Left { -1int } else { 1int };
        assert(is_turn(keys[0]));
        assert(panel_index(s1.focused_panel) == (panel_index(s.focused_panel) + d) % 3);
        assert forall|k: int| 0 <= k < keys.drop_first().len() implies is_turn(#[trigger] keys.drop_first()[k]) by {
            assert(keys.drop_first()[k] == keys[k + 1]);
        }
        lemma_panel_turns(s1, keys.drop_first(), info);
        let p = panel_index(s.focused_panel);
        let t = turns(keys.drop_first());
        assert(((p + d) % 3 + t) % 3 == (p + d + t) % 3) by {
            vstd::arithmetic::div_mod::lemma_add_mod_noop(p + d, t, 3);
            vstd::arithmetic::div_mod::lemma_mod_twice(t, 3);
            vstd::arithmetic::div_mod::lemma_add_mod_noop((p + d) % 3, t, 3);
        }
    } else {
        assert(panel_index(s.focused_panel) % 3 == panel_index(s.focused_panel));
    }
}

/// Esc, or `w`, on any screen but the workflows screen goes back to the workflows screen.
pub proof fn lemma_back_to_workflows(s: UiState, info: SelectionInfo)
    requires
        s.current_view != AppView::Workflows,
    ensures
        after_key(s, Key::Esc, info) == (
            UiState {
                current_view: AppView::Workflows,
                detail_scroll: 0,
                log_scroll: if s.current_view == AppView::NodeDetail { s.log_scroll } else { 0 },
                selected_node: if s.current_view == AppView::NodeDetail { 0 } else { s.selected_node },
                node_detail_focused_panel: if s.current_view == AppView::NodeDetail {
                    NodeDetailPanel::NodeList
                } else {
                    s.node_detail_focused_panel
                },
                ..s
            },
            KeyOutcome::Continue,
        ),
        after_key(s, Key::Char('w'), info).0.current_view == AppView::Workflows,
        after_key(s, Key::Char('w'), info).1 == KeyOutcome::Continue,
{
}

/// `q` leaves the dashboard from any screen and changes nothing.
pub proof fn lemma_quit_anywhere(s: UiState, info: SelectionInfo)
    ensures
        after_key(s, Key::Char('q'), info) == (s, KeyOutcome::Quit),
{
}

/// Outside the node detail screen, Tab pressed three times brings the focus back to the panel
/// it started on; Tab then Left (Shift-Tab's direction) does too.
pub proof fn lemma_tab_cycles(s: UiState, info: SelectionInfo)
    requires
        s.current_view != AppView::NodeDetail,
    ensures
        after_key(after_key(after_key(s, Key::Tab, info).0, Key::Tab, info).0, Key::Tab, info).0.focused_panel
            == s.focused_panel,
        after_key(after_key(s, Key::Tab, info).0, Key::Left, info).0.focused_panel == s.focused_panel,
{
}

/// On the workflows list, Down then Up comes back to the same workflow when there was one
/// below to move to.
pub proof fn lemma_down_then_up(s: UiState, info: SelectionInfo)
    requires
        s.current_view == AppView::Workflows,
        s.focused_panel == FocusedPanel::Workflows,
        s.selected_workflow + 1 < info.workflow_count,
    ensures
        after_key(after_key(s, Key::Down, info).0, Key::Up, info).0.selected_workflow == s.selected_workflow,
{
}

fn other_panel_of(p: NodeDetailPanel) -> (r: NodeDetailPanel)
    ensures
        r == other_panel(p),
{
    match p {
        NodeDetailPanel::NodeList => NodeDetailPanel::NodeContent,
        NodeDetailPanel::NodeContent => NodeDetailPanel::NodeList,
    }
}

impl UiState {
    /// The dashboard as it opens: the workflows screen, first workflow, nothing scrolled.
    pub fn new() -> (s: Self)
        ensures
            s.current_view == AppView::Workflows,
            s.focused_panel == FocusedPanel::Workflows,
            s.selected_workflow == 0 && s.selected_run == 0 && s.selected_node == 0,
            s.detail_scroll == 0 && s.log_scroll == 0,
            s.node_detail_focused_panel == NodeDetailPanel::NodeList,
    {
        UiState {
            selected_workflow: 0,
            selected_run: 0,
            detail_scroll: 0,
            focused_panel: FocusedPanel::Workflows,
            current_view: AppView::Workflows,
            log_scroll: 0,
            selected_node: 0,
            node_detail_focused_panel: NodeDetailPanel::NodeList,
        }
    }

    fn move_down(&mut self, info: SelectionInfo)
        ensures
            *final(self) == moved_down(*old(self), info),
    {
        if self.current_view == AppView::Logs {
            self.log_scroll = self.log_scroll.saturating_add(1);
        } else if self.current_view == AppView::Description || self.current_view == AppView::Help {
            self.detail_scroll = self.detail_scroll.saturating_add(1);
        } else if self.current_view == AppView::NodeDetail {
            match self.node_detail_focused_panel {
                NodeDetailPanel::NodeList => {
                    match info.selected_run_nodes {
                        Some(n) => {
                            if n > 0 && self.selected_node < n - 1 {
                                self.selected_node = self.selected_node + 1;
                                self.detail_scroll = 0;
                            }
                        },
                        None => {},
                    }
                },
                NodeDetailPanel::NodeContent => {
                    self.detail_scroll = self.detail_scroll.saturating_add(1);
                },
            }
        } else {
            match self.focused_panel {
                FocusedPanel::Workflows => {
                    if info.workflow_count > 0 && self.selected_workflow < info.workflow_count - 1 {
                        self.selected_workflow = self.selected_workflow + 1;
                        self.selected_run = 0;
                        self.detail_scroll = 0;
                    }
                },
                FocusedPanel::Runs => {
                    if info.run_count > 0 && self.selected_run < info.run_count - 1 {
                        self.selected_run = self.selected_run + 1;
                        self.detail_scroll = 0;
                    }
                },
                FocusedPanel::NodeResults => {
                    self.detail_scroll = self.detail_scroll.saturating_add(3);
                },
            }
        }
    }

    fn move_up(&mut self)
        ensures
            *final(self) == moved_up(*old(self)),
    {
        if self.current_view == AppView::Logs {
            self.log_scroll = self.log_scroll.saturating_sub(1);
        } else if self.current_view == AppView::Description || self.current_view == AppView::Help {
            self.detail_scroll = self.detail_scroll.saturating_sub(1);
        } else if self.current_view == AppView::NodeDetail {
            match self.node_detail_focused_panel {
                NodeDetailPanel::NodeList => {
                    if self.selected_node > 0 {
                        self.selected_node = self.selected_node - 1;
                        self.detail_scroll = 0;
                    }
                },
                NodeDetailPanel::NodeContent => {
                    self.detail_scroll = self.detail_scroll.saturating_sub(1);
                },
            }
        } else {
            match self.focused_panel {
                FocusedPanel::Workflows => {
                    if self.selected_workflow > 0 {
                        self.selected_workflow = self.selected_workflow - 1;
                        self.selected_run = 0;
                        self.detail_scroll = 0;
                    }
                },
                FocusedPanel::Runs => {
                    if self.selected_run > 0 {
                        self.selected_run = self.selected_run - 1;
                        self.detail_scroll = 0;
                    }
                },
                FocusedPanel::NodeResults => {
                    self.detail_scroll = self.detail_scroll.saturating_sub(3);
                },
            }
        }
    }

    /// Applies a key press; says what else the dashboard must do.
    pub fn handle_key(&mut self, key: Key, info: SelectionInfo) -> (outcome: KeyOutcome)
        ensures
            (*final(self), outcome) == after_key(*old(self), key, info),
    {
        let view = self.current_view;
        match key {
            Key::Char('q') => KeyOutcome::Quit,
            Key::Char('l') => {
                if view == AppView::Workflows {
                    self.current_view = AppView::Logs;
                    self.detail_scroll = 0;
                    self.log_scroll = 0;
                }
                KeyOutcome::Continue
            },
            Key::Char('w') => {
                if view != AppView::Workflows {
                    self.current_view = AppView::Workflows;
                    self.detail_scroll = 0;
                    self.log_scroll = 0;
                    self.selected_node = 0;
                    self.node_detail_focused_panel = NodeDetailPanel::NodeList;
                }
                KeyOutcome::Continue
            },
            Key::Char('?') => {
                self.current_view = AppView::Help;
                self.detail_scroll = 0;
                KeyOutcome::Continue
            },
            Key::Char('d') => {
                if view == AppView::Workflows {
                    self.current_view = AppView::Description;
                    self.detail_scroll = 0;
                }
                KeyOutcome::Continue
            },
            Key::Char('t') => if view == AppView::Workflows {
                KeyOutcome::Trigger
            } else {
                KeyOutcome::Continue
            },
            Key::Char('e') => if view == AppView::Workflows {
                KeyOutcome::Edit
            } else {
                KeyOutcome::Continue
            },
            Key::Esc => {
                if view == AppView::NodeDetail {
                    self.current_view = AppView::Workflows;
                    self.detail_scroll = 0;
                    self.selected_node = 0;
                    self.node_detail_focused_panel = NodeDetailPanel::NodeList;
                } else if view == AppView::Logs || view == AppView::Description || view == AppView::Help {
                    self.current_view = AppView::Workflows;
                    self.detail_scroll = 0;
                    self.log_scroll = 0;
                }
                KeyOutcome::Continue
            },
            Key::Char(' ') | Key::Enter => {
                if view == AppView::Workflows {
                    if self.focused_panel == FocusedPanel::Workflows {
                        return KeyOutcome::ToggleEnabled;
                    }
                    match info.selected_run_nodes {
                        Some(n) => {
                            if n > 0 {
                                self.selected_node = 0;
                                self.current_view = AppView::NodeDetail;
                                self.detail_scroll = 0;
                                self.node_detail_focused_panel = NodeDetailPanel::NodeList;
                            }
                        },
                        None => {},
                    }
                }
                KeyOutcome::Continue
            },
            Key::Tab | Key::Right => {
                if view == AppView::NodeDetail {
                    self.node_detail_focused_panel = other_panel_of(self.node_detail_focused_panel);
                } else {
                    self.focused_panel = match self.focused_panel {
                        FocusedPanel::Workflows => FocusedPanel::Runs,
                        FocusedPanel::Runs => FocusedPanel::NodeResults,
                        FocusedPanel::NodeResults => FocusedPanel::Workflows,
                    };
                    self.detail_scroll = 0;
                }
                KeyOutcome::Continue
            },
            Key::Left => {
                if view == AppView::NodeDetail {
                    self.node_detail_focused_panel = other_panel_of(self.node_detail_focused_panel);
                } else {
                    self.focused_panel = match self.focused_panel {
                        FocusedPanel::Workflows => FocusedPanel::NodeResults,
                        FocusedPanel::Runs => FocusedPanel::Workflows,
                        FocusedPanel::NodeResults => FocusedPanel::Runs,
                    };
                    self.detail_scroll = 0;
                }
                KeyOutcome::Continue
            },
            Key::Down | Key::Char('j') => {
                self.move_down(info);
                KeyOutcome::Continue
            },
            Key::Up | Key::Char('k') => {
                self.move_up();
                KeyOutcome::Continue
            },
            Key::PageDown => {
                if view == AppView::Logs {
                    self.log_scroll = self.log_scroll.saturating_add(10);
                } else if view == AppView::Description || view == AppView::Help || view == AppView::NodeDetail
                    || self.focused_panel == FocusedPanel::NodeResults {
                    self.detail_scroll = self.detail_scroll.saturating_add(10);
                }
                KeyOutcome::Continue
            },
            Key::PageUp => {
                if view == AppView::Logs {
                    self.log_scroll = self.log_scroll.saturating_sub(10);
                } else if view == AppView::Description || view == AppView::Help || view == AppView::NodeDetail
                    || self.focused_panel == FocusedPanel::NodeResults {
                    self.detail_scroll = self.detail_scroll.saturating_sub(10);
                }
                KeyOutcome::Continue
            },
            Key::Home => {
                if view == AppView::Description || view == AppView::Help || view == AppView::NodeDetail {
                    self.detail_scroll = 0;
                } else if view == AppView::Logs {
                    self.log_scroll = 0;
                }
                KeyOutcome::Continue
            },
            Key::End => {
                if view == AppView::Description || view == AppView::Help || view == AppView::NodeDetail {
                    self.detail_scroll = 1000;
                } else if view == AppView::Logs {
                    self.log_scroll = 1000;
                }
                KeyOutcome::Continue
            },
            _ => KeyOutcome::Continue,
        }
    }
}

/// An entry of the runs list: a run (by its index among the runs) or the next scheduled time.
#[derive(Debug, Clone)]
pub enum RunOrScheduled {
    ActualRun(usize),
    ScheduledRun { workflow_name: String, next_run: i64 },
}

/// Run indices ordered most recent first.
pub open spec fn recent_index(runs: Seq<WorkflowRun>) -> spec_fn(usize, usize) -> bool {
    |a: usize, b: usize| runs[a as int].started_at >= runs[b as int].started_at
}

/// The indices of the runs of the workflow `name`, in order.
pub open spec fn runs_named(runs: Seq<WorkflowRun>, name: Seq<char>) -> Seq<usize>
    decreases runs.len(),
{
    if runs.len() == 0 {
        seq![]
    } else if runs.last().workflow_name@ == name {
        runs_named(runs.drop_last(), name).push((runs.len() - 1) as usize)
    } else {
        runs_named(runs.drop_last(), name)
    }
}

/// The runs list of a workflow: its next scheduled time first (if any), then its runs,
/// most recent first (runs started together keep their order).
pub open spec fn runs_list(
    runs: Seq<WorkflowRun>,
    name: Seq<char>,
    next_run: Option<i64>,
    r: Seq<RunOrScheduled>,
) -> bool {
    let actual = sorted_by(runs_named(runs, name), recent_index(runs));
    let offset: int = if next_run is Some { 1 } else { 0 };
    &&& r.len() == actual.len() + offset
    &&& next_run matches Some(t) ==> (r[0] matches RunOrScheduled::ScheduledRun { workflow_name, next_run: n }
        && workflow_name@ == name && n == t)
    &&& forall|k: int| 0 <= k < actual.len() ==> r[k + offset] == RunOrScheduled::ActualRun(#[trigger] actual[k])
}

proof fn lemma_runs_named_take(runs: Seq<WorkflowRun>, name: Seq<char>, i: int)
    requires
        0 <= i < runs.len(),
    ensures
        runs_named(runs.take(i + 1), name) == if runs[i].workflow_name@ == name {
            runs_named(runs.take(i), name).push(i as usize)
        } else {
            runs_named(runs.take(i), name)
        },
{
    assert(runs.take(i + 1).drop_last() == runs.take(i));
    assert(runs.take(i + 1).last() == runs[i]);
}

/// The members of `runs_named`: each a run of the workflow, and every such run among them.
pub open spec fn named_members(runs: Seq<WorkflowRun>, name: Seq<char>, named: Seq<usize>) -> bool {
    &&& forall|i: int| 0 <= i < named.len() ==> (#[trigger] named[i] as int) < runs.len()
        && runs[named[i] as int].workflow_name@ == name
    &&& forall|k: int| 0 <= k < runs.len() && #[trigger] runs[k].workflow_name@ == name
        ==> named.contains(k as usize)
}

proof fn lemma_runs_named_members(runs: Seq<WorkflowRun>, name: Seq<char>)
    requires
        runs.len() <= usize::MAX,
    ensures
        named_members(runs, name, runs_named(runs, name)),
    decreases runs.len(),
{
    if runs.len() > 0 {
        let d = runs.drop_last();
        let rn = runs_named(d, name);
        lemma_runs_named_members(d, name);
        let last = (runs.len() - 1) as usize;
        if runs.last().workflow_name@ == name {
            let all = rn.push(last);
            assert(runs_named(runs, name) == all);
            assert forall|i: int| 0 <= i < all.len() implies (#[trigger] all[i] as int) < runs.len()
                && runs[all[i] as int].workflow_name@ == name by {
                if i < rn.len() {
                    assert(all[i] == rn[i]);
                    assert(d[rn[i] as int] == runs[rn[i] as int]);
                }
            }
            assert forall|k: int| 0 <= k < runs.len() && #[trigger] runs[k].workflow_name@ == name
                implies all.contains(k as usize) by {
                if k < runs.len() - 1 {
                    assert(d[k] == runs[k]);
                    assert(d[k].workflow_name@ == name);
                    let i = choose|i: int| 0 <= i < rn.len() && rn[i] == k as usize;
                    assert(all[i] == k as usize);
                } else {
                    assert(all[rn.len() as int] == last);
                }
            }
        } else {
            assert(runs_named(runs, name) == rn);
            assert forall|i: int| 0 <= i < rn.len() implies (#[trigger] rn[i] as int) < runs.len()
                && runs[rn[i] as int].workflow_name@ == name by {
                assert(d[rn[i] as int] == runs[rn[i] as int]);
            }
            assert forall|k: int| 0 <= k < runs.len() && #[trigger] runs[k].workflow_name@ == name
                implies rn.contains(k as usize) by {
                assert(k < runs.len() - 1);
                assert(d[k] == runs[k]);
                assert(d[k].workflow_name@ == name);
            }
        }
    }
}

/// In a workflow's runs list, after the scheduled time (if any), every entry is a run of
/// that workflow, every run of that workflow is listed, and the runs come most recent first.
pub proof fn lemma_runs_list_order(
    runs: Seq<WorkflowRun>,
    name: Seq<char>,
    next_run: Option<i64>,
    r: Seq<RunOrScheduled>,
)
    requires
        runs.len() <= usize::MAX,
        runs_list(runs, name, next_run, r),
    ensures
        ({
            let off: int = if next_run is Some { 1 } else { 0 };
            &&& forall|i: int| off <= i < r.len() ==> (#[trigger] r[i] matches RunOrScheduled::ActualRun(k)
                && (k as int) < runs.len() && runs[k as int].workflow_name@ == name)
            &&& forall|k: int| 0 <= k < runs.len() && #[trigger] runs[k].workflow_name@ == name
                ==> exists|i: int| off <= i < r.len() && r[i] == RunOrScheduled::ActualRun(k as usize)
            &&& forall|i: int, j: int| off <= i < j < r.len() ==> (#[trigger] r[i] matches RunOrScheduled::ActualRun(a)
                && #[trigger] r[j] matches RunOrScheduled::ActualRun(b)
                && runs[a as int].started_at >= runs[b as int].started_at)
        }),
{
    let le = recent_index(runs);
    let named = runs_named(runs, name);
    let actual = sorted_by(named, le);
    let off: int = if next_run is Some { 1 } else { 0 };
    assert(total_preorder(le));
    lemma_sorted_by_sorted(named, le);
    lemma_sorted_by_perm(named, le);
    lemma_runs_named_members(runs, name);
    assert forall|i: int| off <= i < r.len() implies (#[trigger] r[i] matches RunOrScheduled::ActualRun(k)
        && (k as int) < runs.len() && runs[k as int].workflow_name@ == name) by {
        let m = i - off;
        assert(r[m + off] == RunOrScheduled::ActualRun(actual[m]));
        assert(m + off == i);
        assert(actual.to_multiset().count(actual[m]) > 0) by {
            broadcast use vstd::seq_lib::group_to_multiset_ensures;
            assert(actual.contains(actual[m]));
        }
        assert(named.contains(actual[m])) by {
            broadcast use vstd::seq_lib::group_to_multiset_ensures;
        }
    }
    assert forall|k: int| 0 <= k < runs.len() && #[trigger] runs[k].workflow_name@ == name
        implies exists|i: int| off <= i < r.len() && r[i] == RunOrScheduled::ActualRun(k as usize) by {
        assert(named.contains(k as usize));
        assert(actual.contains(k as usize)) by {
            broadcast use vstd::seq_lib::group_to_multiset_ensures;
            assert(named.to_multiset().count(k as usize) > 0);
        }
        let m = choose|m: int| 0 <= m < actual.len() && actual[m] == k as usize;
        assert(r[m + off] == RunOrScheduled::ActualRun(actual[m]));
    }
    assert forall|i: int, j: int| off <= i < j < r.len() implies (#[trigger] r[i] matches RunOrScheduled::ActualRun(a)
        && #[trigger] r[j] matches RunOrScheduled::ActualRun(b)
        && runs[a as int].started_at >= runs[b as int].started_at) by {
        assert(r[(i - off) + off] == RunOrScheduled::ActualRun(actual[i - off]));
        assert(r[(j - off) + off] == RunOrScheduled::ActualRun(actual[j - off]));
        assert(le(actual[i - off], actual[j - off]));
    }
}

/// The runs list of the workflow `name`.
pub fn runs_for_workflow(runs: &[WorkflowRun], name: &str, next_run: Option<i64>) -> (r: Vec<RunOrScheduled>)
    requires
        runs@.len() <= usize::MAX,
    ensures
        runs_list(runs@, name@, next_run, r@),
{
    let mut matching: Vec<usize> = Vec::new();
    let mut i: usize = 0;
    assert(runs@.take(0) =~= Seq::<WorkflowRun>::empty());
    while i < runs.len()
        invariant
            i <= runs@.len(),
            matching@ == runs_named(runs@.take(i as int), name@),
            forall|m: int| 0 <= m < matching@.len() ==> (#[trigger] matching@[m] as int) < i,
        decreases runs@.len() - i,
    {
        proof {
            lemma_runs_named_take(runs@, name@, i as int);
        }
        if crate::text::same_text(runs[i].workflow_name.as_str(), name) {
            matching.push(i);
        }
        i += 1;
    }
    assert(runs@.take(i as int) == runs@);
    let ghost le = recent_index(runs@);
    let ghost all = matching@;
    let mut sorted: Vec<usize> = Vec::new();
    let mut k: usize = 0;
    assert(all.take(0) =~= Seq::<usize>::empty());
    while k < matching.len()
        invariant
            all == matching@,
            le == recent_index(runs@),
            k <= all.len(),
            forall|m: int| 0 <= m < all.len() ==> (#[trigger] all[m] as int) < runs@.len(),
            sorted@ == sorted_by(all.take(k as int), le),
            forall|m: int| 0 <= m < sorted@.len() ==> (#[trigger] sorted@[m] as int) < runs@.len(),
        decreases all.len() - k,
    {
        let x = matching[k];
        let mut j: usize = sorted.len();
        while j > 0 && !(runs[sorted[j - 1]].started_at >= runs[x].started_at)
            invariant
                j <= sorted@.len(),
                le == recent_index(runs@),
                (x as int) < runs@.len(),
                forall|m: int| 0 <= m < sorted@.len() ==> (#[trigger] sorted@[m] as int) < runs@.len(),
                forall|m: int| j <= m < sorted@.len() ==> !le(#[trigger] sorted@[m], x),
            decreases j,
        {
            j -= 1;
        }
        proof {
            lemma_insert_at(sorted@, x, le, j as int);
            assert(all.take(k + 1).drop_last() == all.take(k as int));
            assert(all.take(k + 1).last() == x);
        }
        sorted.insert(j, x);
        k += 1;
    }
    assert(all.take(k as int) == all);
    let mut r: Vec<RunOrScheduled> = Vec::new();
    match next_run {
        Some(t) => {
            r.push(RunOrScheduled::ScheduledRun { workflow_name: name.to_string(), next_run: t });
        },
        None => {},
    }
    let offset = r.len();
    let mut m: usize = 0;
    while m < sorted.len()
        invariant
            offset == (if next_run is Some { 1usize } else { 0usize }),
            m <= sorted@.len(),
            r@.len() == offset + m,
            next_run matches Some(t) ==> (r@[0] matches RunOrScheduled::ScheduledRun { workflow_name, next_run: n }
                && workflow_name@ == name@ && n == t),
            forall|q: int| 0 <= q < m ==> #[trigger] r@[q + offset] == RunOrScheduled::ActualRun(sorted@[q]),
        decreases sorted@.len() - m,
    {
        r.push(RunOrScheduled::ActualRun(sorted[m]));
        m += 1;
    }
    r
}

/// The log lines kept of a workflow: the last thousand.
pub open spec fn kept_logs(logs: Seq<LogEntry>) -> Seq<LogEntry> {
    if logs.len() > 1000 {
        logs.skip(logs.len() - 1000)
    } else {
        logs
    }
}

/// Adds a log line to a workflow's lines, dropping the oldest beyond a thousand.
pub fn push_log(logs: &mut Vec<LogEntry>, entry: LogEntry)
    ensures
        final(logs)@ == kept_logs(old(logs)@.push(entry)),
{
    let ghost pushed = logs@.push(entry);
    logs.push(entry);
    let n = logs.len();
    assert(pushed.len() == n);
    let mut dropped: usize = 0;
    assert(logs@ == pushed.skip(0));
    while logs.len() > 1000
        invariant
            pushed.len() == dropped + logs@.len(),
            pushed.len() <= usize::MAX,
            logs@ == pushed.skip(dropped as int),
            pushed.len() > 1000 ==> logs@.len() >= 1000,
            pushed.len() <= 1000 ==> dropped == 0,
        decreases logs@.len(),
    {
        logs.remove(0);
        dropped += 1;
        assert(logs@ =~= pushed.skip(dropped as int));
    }
    assert(logs@ =~= kept_logs(pushed));
}

/// A workflow keeps at most a thousand log lines, and the line added last is the newest kept.
pub proof fn lemma_logs_bounded(logs: Seq<LogEntry>, entry: LogEntry)
    ensures
        kept_logs(logs.push(entry)).len() <= 1000,
        kept_logs(logs.push(entry)).last() == entry,
        logs.len() < 1000 ==> kept_logs(logs.push(entry)) == logs.push(entry),
{
}

/// What `t` does for the workflow at `selected` among `workflows` (the workflow files in
/// order of loading).
#[derive(Debug, Clone, Copy, PartialEq, Eq, Structural)]
pub enum TriggerChoice {
    /// No workflow is there: say so.
    NothingSelected,
    /// The workflow is disabled: say so and do not run it.
    Disabled,
    /// Run it.
    Run,
}

/// `NothingSelected` when `selected` is past the list, `Disabled` for a disabled workflow,
/// else `Run`.
pub fn trigger_choice(workflows: &[WorkflowConfig], selected: usize) -> (r: TriggerChoice)
    ensures
        r == if selected >= workflows@.len() {
            TriggerChoice::NothingSelected
        } else if !workflows@[selected as int].enabled {
            TriggerChoice::Disabled
        } else {
            TriggerChoice::Run
        },
{
    if selected >= workflows.len() {
        TriggerChoice::NothingSelected
    } else if !workflows[selected].enabled {
        TriggerChoice::Disabled
    } else {
        TriggerChoice::Run
    }
}

fn cat(a: &str, b: &str) -> (r: String)
    ensures
        r@ == a@ + b@,
{
    let mut r = a.to_string();
    r.append(b);
    r
}

/// `Manually triggered workflow: <name>`
pub fn manual_trigger_message(name: &str) -> (m: String)
    ensures
        m@ == "Manually triggered workflow: "@ + name@,
{
    cat("Manually triggered workflow: ", name)
}

/// `Workflow '<name>' is disabled`
pub fn disabled_message(name: &str) -> (m: String)
    ensures
        m@ == "Workflow '"@ + name@ + "' is disabled"@,
{
    let a = cat("Workflow '", name);
    cat(a.as_str(), "' is disabled")
}

/// `Workflow <name> disabled` after disabling an enabled workflow, `... enabled` otherwise.
pub fn toggled_message(name: &str, was_enabled: bool) -> (m: String)
    ensures
        m@ == "Workflow "@ + name@ + " "@ + if was_enabled { "disabled"@ } else { "enabled"@ },
{
    let a = cat("Workflow ", name);
    let b = cat(a.as_str(), " ");
    cat(b.as_str(), if was_enabled { "disabled" } else { "enabled" })
}

/// Who started a run.
#[derive(Debug, Clone, Copy, PartialEq, Eq, Structural)]
pub enum RunOrigin {
    Manual,
    Cron,
}

/// The log line written when a run of `name` ends: a completion note, a failure, or the
/// error that stopped it (`error`); none for a run still marked running.
pub open spec fn outcome_log(origin: RunOrigin, name: Seq<char>, outcome: Result<RunStatus, Seq<char>>) -> Option<(LogLevel, Seq<char>)> {
    match (origin, outcome) {
        (RunOrigin::Manual, Ok(RunStatus::Success)) => Some((LogLevel::Info, "Manual workflow completed successfully: "@ + name)),
        (RunOrigin::Manual, Ok(RunStatus::Failed)) => Some((LogLevel::Error, "✗ Manual workflow failed: "@ + name)),
        (RunOrigin::Manual, Err(e)) => Some((LogLevel::Error, "✗ Error running manual workflow "@ + name + ": "@ + e)),
        (RunOrigin::Cron, Ok(RunStatus::Success)) => Some((LogLevel::Info, "Cron workflow completed: "@ + name)),
        (RunOrigin::Cron, Ok(RunStatus::Failed)) => Some((LogLevel::Error, "Cron workflow failed: "@ + name)),
        (RunOrigin::Cron, Err(e)) => Some((LogLevel::Error, "Cron workflow error "@ + name + ": "@ + e)),
        (_, Ok(RunStatus::Running)) => None,
    }
}

/// The log line written when a run of `name` ends, as `outcome_log` gives it.
pub fn run_outcome_log(origin: RunOrigin, name: &str, outcome: &Result<RunStatus, String>) -> (r: Option<(LogLevel, String)>)
    ensures
        match (r, outcome_log(origin, name@, match outcome {
            Ok(s) => Ok(*s),
            Err(e) => Err(e@),
        })) {
            (Some((l, m)), Some((l2, m2))) => l == l2 && m@ == m2,
            (None, None) => true,
            _ => false,
        },
{
    match (origin, outcome) {
        (RunOrigin::Manual, Ok(RunStatus::Success)) => Some((LogLevel::Info, cat("Manual workflow completed successfully: ", name))),
        (RunOrigin::Manual, Ok(RunStatus::Failed)) => Some((LogLevel::Error, cat("✗ Manual workflow failed: ", name))),
        (RunOrigin::Manual, Err(e)) => {
            let a = cat("✗ Error running manual workflow ", name);
            let b = cat(a.as_str(), ": ");
            Some((LogLevel::Error, cat(b.as_str(), e.as_str())))
        },
        (RunOrigin::Cron, Ok(RunStatus::Success)) => Some((LogLevel::Info, cat("Cron workflow completed: ", name))),
        (RunOrigin::Cron, Ok(RunStatus::Failed)) => Some((LogLevel::Error, cat("Cron workflow failed: ", name))),
        (RunOrigin::Cron, Err(e)) => {
            let a = cat("Cron workflow error ", name);
            let b = cat(a.as_str(), ": ");
            Some((LogLevel::Error, cat(b.as_str(), e.as_str())))
        },
        (_, Ok(RunStatus::Running)) => None,
    }
}

/// The name whose logs the logs screen shows: the selected workflow's, or `System`.
pub fn logs_owner(workflows: &[WorkflowConfig], selected: usize) -> (r: String)
    ensures
        r@ == if selected < workflows@.len() { workflows@[selected as int].name@ } else { "System"@ },
{
    if selected < workflows.len() {
        workflows[selected].name.clone()
    } else {
        "System".to_string()
    }
}

} // verus!
