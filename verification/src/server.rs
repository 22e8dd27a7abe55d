//! The state manager: how each command changes the state and what has to be done outside.
use vstd::prelude::*;
use vstd::string::StringExecFns;
use crate::aerospace::{
    opt_monitor_view, opt_window_view, AerospaceMonitor, AerospaceMonitorView, AerospaceWindow,
    AerospaceWindowView,
};
use crate::bits::{has_bit, lemma_and_single_bit, mask_of, NUM_TAGS};
use crate::ipc::{InternalCommand, StateEvent, StateEventView};
use crate::query::{query_spec, QueryResponse, QueryResponseView};
use crate::sync::{
    opt_monitor_list_view, opt_window_list_view, opt_workspace_view, sync_step, visible_view,
};
use crate::state::{
    add_by_mask, find_monitor_spec, held_elsewhere, lemma_monitors_view_insert, lemma_tags_fit_insert, other_than,
    assign_window_spec, push_to_tag, remember_window_spec, restore_last_spec, select_tag_spec, set_selection_spec,
    tags_fit, toggle_tag_spec, without_window, fresh_monitor, initial_state_view, Monitor,
    MonitorId, MonitorView, State, StateView, WindowId,
};
use crate::text::{decimal, hidden_workspace_name, hidden_workspace_of, text_eq, u32_to_decimal};
use crate::ids::{in_order, lemma_in_order, sorted_keys, strictly_sorted};
use vstd::std_specs::bits::u32_trailing_zeros;

verus! {

/// Put window `window_id` on `workspace`.
pub struct WindowPlacement {
    pub window_id: u32,
    pub workspace: String,
}

impl View for WindowPlacement {
    type V = (u32, Seq<char>);

    open spec fn view(&self) -> (u32, Seq<char>) {
        (self.window_id, self.workspace@)
    }
}

/// How to bring AeroSpace in line with a monitor: the placements in order (first those that
/// hide windows, then those that show them), then focusing the visible workspace.
pub struct SyncPlan {
    pub placements: Vec<WindowPlacement>,
    pub focus_workspace: String,
}

#[verifier::ext_equal]
pub struct SyncPlanView {
    pub placements: Seq<(u32, Seq<char>)>,
    pub focus_workspace: Seq<char>,
}

pub open spec fn placements_view(ps: Seq<WindowPlacement>) -> Seq<(u32, Seq<char>)> {
    ps.map_values(|p: WindowPlacement| p@)
}

impl View for SyncPlan {
    type V = SyncPlanView;

    open spec fn view(&self) -> SyncPlanView {
        SyncPlanView {
            placements: placements_view(self.placements@),
            focus_workspace: self.focus_workspace@,
        }
    }
}

/// Something the state manager asks the outside world to do, in the order given.
pub enum Action {
    /// Send the event to every subscriber.
    Broadcast(StateEvent),
    /// Carry out the plan for a monitor.
    SyncMonitor(SyncPlan),
    /// Move a window to another monitor's visible workspace, then focus the window.
    MoveWindowToMonitor(WindowPlacement),
    /// Focus a workspace.
    FocusWorkspace(String),
    /// Line the workspaces up with these monitors.
    InitializeMonitors(Vec<AerospaceMonitor>),
    /// Answer the query that asked.
    Respond(QueryResponse),
}

pub enum ActionView {
    Broadcast(StateEventView),
    SyncMonitor(SyncPlanView),
    MoveWindowToMonitor((u32, Seq<char>)),
    FocusWorkspace(Seq<char>),
    InitializeMonitors(Seq<AerospaceMonitorView>),
    Respond(QueryResponseView),
}

impl View for Action {
    type V = ActionView;

    open spec fn view(&self) -> ActionView {
        match self {
            Action::Broadcast(e) => ActionView::Broadcast(e@),
            Action::SyncMonitor(p) => ActionView::SyncMonitor(p@),
            Action::MoveWindowToMonitor(p) => ActionView::MoveWindowToMonitor(p@),
            Action::FocusWorkspace(w) => ActionView::FocusWorkspace(w@),
            Action::InitializeMonitors(ms) => ActionView::InitializeMonitors(
                ms@.map_values(|m: AerospaceMonitor| m@),
            ),
            Action::Respond(q) => ActionView::Respond(q@),
        }
    }
}

pub open spec fn actions_view(acts: Seq<Action>) -> Seq<ActionView> {
    acts.map_values(|a: Action| a@)
}

// ---------------------------------------------------------------------------
// Model
// ---------------------------------------------------------------------------
/// Every tag past the ones a mask can name (from 32 on) is empty.
pub open spec fn tags_past_mask_empty(tags: Seq<Seq<WindowId>>) -> bool {
    forall|i: int| NUM_TAGS <= i < tags.len() ==> #[trigger] tags[i].len() == 0
}

/// The tags that hold at least one window.
pub open spec fn occupied_mask(tags: Seq<Seq<WindowId>>) -> u32 {
    mask_of(tags.map_values(|t: Seq<WindowId>| t.len() > 0))
}

/// The tags that hold window `w`.
pub open spec fn window_mask(tags: Seq<Seq<WindowId>>, w: WindowId) -> u32 {
    mask_of(tags.map_values(|t: Seq<WindowId>| t.contains(w)))
}

/// The event announcing the monitor stored under `key`.
pub open spec fn state_change_event(m: MonitorView, key: MonitorId) -> StateEventView {
    StateEventView {
        event: "state_change"@,
        monitor_id: key,
        selected_tags: m.selected_tags,
        occupied_tags: occupied_mask(m.tags),
    }
}

/// Placements that park the windows of the tags not shown in `selected`, tag by tag.
pub open spec fn hide_moves(tags: Seq<Seq<WindowId>>, selected: u32) -> Seq<(u32, Seq<char>)>
    decreases tags.len(),
{
    if tags.len() == 0 {
        Seq::empty()
    } else {
        hide_moves(tags.drop_last(), selected) + if has_bit(selected, tags.len() - 1) {
            Seq::empty()
        } else {
            tags.last().map_values(|w: WindowId| (w, hidden_workspace_of(w)))
        }
    }
}

/// Placements that bring the windows of the tags shown in `selected` to `visible`, tag by tag.
pub open spec fn show_moves(tags: Seq<Seq<WindowId>>, selected: u32, visible: Seq<char>) -> Seq<(u32, Seq<char>)>
    decreases tags.len(),
{
    if tags.len() == 0 {
        Seq::empty()
    } else {
        show_moves(tags.drop_last(), selected, visible) + if has_bit(selected, tags.len() - 1) {
            tags.last().map_values(|w: WindowId| (w, visible))
        } else {
            Seq::empty()
        }
    }
}

/// The plan that makes AeroSpace show a monitor as the state says.
pub open spec fn sync_plan_spec(m: MonitorView) -> SyncPlanView {
    SyncPlanView {
        placements: hide_moves(m.tags, m.selected_tags) + show_moves(m.tags, m.selected_tags, m.visible_workspace),
        focus_workspace: m.visible_workspace,
    }
}

/// Announcing the monitor stored under `key`, if there is one.
pub open spec fn broadcast_spec(ms: Map<MonitorId, MonitorView>, key: MonitorId) -> Seq<ActionView> {
    if ms.dom().contains(key) {
        seq![ActionView::Broadcast(state_change_event(ms[key], key))]
    } else {
        Seq::empty()
    }
}

/// Storing `m` under `key`, then announcing it and bringing AeroSpace in line with it.
pub open spec fn update_and_announce(s: StateView, key: MonitorId, m: MonitorView) -> (StateView, Seq<ActionView>) {
    (
        StateView { monitors: s.monitors.insert(key, m), ..s },
        seq![ActionView::Broadcast(state_change_event(m, key)), ActionView::SyncMonitor(sync_plan_spec(m))],
    )
}

pub open spec fn tag_view_step(s: StateView, focused: Option<AerospaceMonitorView>, tag: u8) -> (StateView, Seq<ActionView>) {
    match focused {
        Some(fm) if s.monitors.dom().contains(fm.monitor_id) => update_and_announce(
            s,
            fm.monitor_id,
            select_tag_spec(s.monitors[fm.monitor_id], tag),
        ),
        _ => (s, Seq::empty()),
    }
}

pub open spec fn tag_toggle_step(s: StateView, focused: Option<AerospaceMonitorView>, tag: u8) -> (StateView, Seq<ActionView>) {
    match focused {
        Some(fm) if s.monitors.dom().contains(fm.monitor_id) => update_and_announce(
            s,
            fm.monitor_id,
            toggle_tag_spec(s.monitors[fm.monitor_id], tag),
        ),
        _ => (s, Seq::empty()),
    }
}

pub open spec fn tag_last_step(s: StateView, focused: Option<AerospaceMonitorView>) -> (StateView, Seq<ActionView>) {
    match focused {
        Some(fm) if s.monitors.dom().contains(fm.monitor_id) => update_and_announce(
            s,
            fm.monitor_id,
            restore_last_spec(s.monitors[fm.monitor_id]),
        ),
        _ => (s, Seq::empty()),
    }
}

/// The monitor a command names, else the focused one.
pub open spec fn named_or_focused(named: Option<MonitorId>, focused: Option<AerospaceMonitorView>) -> Option<MonitorId> {
    match named {
        Some(id) => Some(id),
        None => match focused {
            Some(fm) => Some(fm.monitor_id),
            None => None,
        },
    }
}

pub open spec fn tag_set_step(s: StateView, focused: Option<AerospaceMonitorView>, mask: u32, named: Option<MonitorId>) -> (StateView, Seq<ActionView>) {
    match named_or_focused(named, focused) {
        Some(key) if s.monitors.dom().contains(key) => update_and_announce(
            s,
            key,
            set_selection_spec(s.monitors[key], mask),
        ),
        _ => (s, Seq::empty()),
    }
}

// ---------------------------------------------------------------------------
// Pieces
// ---------------------------------------------------------------------------
/// The mask of the monitor's tags that hold at least one window.
pub fn calculate_occupied_tags(monitor: &Monitor) -> (r: u32)
    requires
        tags_past_mask_empty(monitor@.tags),
    ensures
        r == occupied_mask(monitor@.tags),
{
    let ghost flags = monitor@.tags.map_values(|t: Seq<WindowId>| t.len() > 0);
    let mut occupied: u32 = 0;
    let mut i: usize = 0;
    while i < monitor.tags.len()
        invariant
            i <= monitor.tags@.len(),
            tags_past_mask_empty(monitor@.tags),
            flags.len() == monitor.tags@.len(),
            forall|j: int| 0 <= j < flags.len() ==> flags[j] == (monitor@.tags[j].len() > 0),
            occupied == mask_of(flags.take(i as int)),
        decreases monitor.tags@.len() - i,
    {
        proof {
            assert(flags.take(i + 1).drop_last() =~= flags.take(i as int));
            assert(flags.take(i + 1).last() == flags[i as int]);
            assert(monitor@.tags[i as int] == monitor.tags@[i as int]@);
        }
        if monitor.tags[i].window_ids.len() > 0 {
            assert(i < 32);
            occupied = occupied | (1u32 << i as u32);
        }
        i = i + 1;
    }
    assert(flags.take(i as int) =~= flags);
    occupied
}

/// The tags of a monitor that hold window `w`.
pub fn window_tag_mask(monitor: &Monitor, w: WindowId) -> (r: u32)
    requires
        monitor.tags@.len() <= NUM_TAGS,
    ensures
        r == window_mask(monitor@.tags, w),
{
    let ghost flags = monitor@.tags.map_values(|t: Seq<WindowId>| t.contains(w));
    let mut mask: u32 = 0;
    let mut i: usize = 0;
    while i < monitor.tags.len()
        invariant
            i <= monitor.tags@.len() <= NUM_TAGS,
            flags.len() == monitor.tags@.len(),
            forall|j: int| 0 <= j < flags.len() ==> flags[j] == monitor@.tags[j].contains(w),
            mask == mask_of(flags.take(i as int)),
        decreases monitor.tags@.len() - i,
    {
        proof {
            assert(flags.take(i + 1).drop_last() =~= flags.take(i as int));
            assert(flags.take(i + 1).last() == flags[i as int]);
            assert(monitor@.tags[i as int] == monitor.tags@[i as int]@);
        }
        if monitor.tags[i].contains(w) {
            mask = mask | (1u32 << i as u32);
        }
        i = i + 1;
    }
    assert(flags.take(i as int) =~= flags);
    mask
}

/// The event announcing `monitor`, stored under `key`.
pub fn state_event_for(monitor: &Monitor, key: MonitorId) -> (r: StateEvent)
    requires
        tags_past_mask_empty(monitor@.tags),
    ensures
        r@ == state_change_event(monitor@, key),
{
    StateEvent {
        event: String::from_str("state_change"),
        monitor_id: key,
        selected_tags: monitor.selected_tags,
        occupied_tags: calculate_occupied_tags(monitor),
    }
}

/// The event announcing the monitor stored under `monitor_id`, if there is one.
pub fn broadcast_state_change(state: &State, monitor_id: MonitorId) -> (r: Option<StateEvent>)
    requires
        tags_fit(state@.monitors),
    ensures
        match r {
            Some(e) => state@.monitors.dom().contains(monitor_id) && e@ == state_change_event(
                state@.monitors[monitor_id],
                monitor_id,
            ),
            None => !state@.monitors.dom().contains(monitor_id),
        },
{
    match state.monitors.get(&monitor_id) {
        Some(m) => {
            assert(state@.monitors.dom().contains(monitor_id));
            Some(state_event_for(m, monitor_id))
        },
        None => None,
    }
}

/// Appends the actions announcing the monitor stored under `key`, if there is one.
pub(crate) fn push_broadcast(state: &State, key: MonitorId, out: &mut Vec<Action>)
    requires
        tags_fit(state@.monitors),
    ensures
        actions_view(final(out)@) == actions_view(old(out)@) + broadcast_spec(state@.monitors, key),
{
    if let Some(e) = broadcast_state_change(state, key) {
        out.push(Action::Broadcast(e));
        assert(actions_view(out@) =~= actions_view(old(out)@) + broadcast_spec(state@.monitors, key));
    } else {
        assert(actions_view(out@) =~= actions_view(old(out)@) + broadcast_spec(state@.monitors, key));
    }
}

/// The placements that park the windows of one tag on their hidden workspaces, or bring them to
/// `visible`, appended to `out`.
fn push_tag_placements(ids: &Vec<WindowId>, hide: bool, visible: &String, out: &mut Vec<WindowPlacement>)
    ensures
        placements_view(final(out)@) == placements_view(old(out)@) + if hide {
            ids@.map_values(|w: WindowId| (w, hidden_workspace_of(w)))
        } else {
            ids@.map_values(|w: WindowId| (w, visible@))
        },
{
    let ghost target = if hide {
        ids@.map_values(|w: WindowId| (w, hidden_workspace_of(w)))
    } else {
        ids@.map_values(|w: WindowId| (w, visible@))
    };
    let mut j: usize = 0;
    while j < ids.len()
        invariant
            j <= ids@.len(),
            target.len() == ids@.len(),
            hide ==> target == ids@.map_values(|w: WindowId| (w, hidden_workspace_of(w))),
            !hide ==> target == ids@.map_values(|w: WindowId| (w, visible@)),
            placements_view(out@) == placements_view(old(out)@) + target.take(j as int),
        decreases ids@.len() - j,
    {
        let w = ids[j];
        let ws = if hide { hidden_workspace_name(w) } else { visible.clone() };
        let ghost prev = out@;
        let p = WindowPlacement { window_id: w, workspace: ws };
        assert(p@ == target[j as int]);
        out.push(p);
        proof {
            assert(placements_view(out@) =~= placements_view(prev).push(p@));
            assert(target.take(j + 1) =~= target.take(j as int).push(target[j as int]));
            assert(placements_view(out@) =~= placements_view(old(out)@) + target.take(j + 1));
        }
        j = j + 1;
    }
    assert(target.take(j as int) =~= target);
}

/// The plan that brings AeroSpace in line with `monitor`: windows of hidden tags to their hidden
/// workspaces, windows of shown tags to the visible workspace, then focus on it.
pub fn plan_monitor_sync(monitor: &Monitor) -> (r: SyncPlan)
    requires
        monitor.tags@.len() <= NUM_TAGS,
    ensures
        r@ == sync_plan_spec(monitor@),
{
    let ghost tags = monitor@.tags;
    let sel = monitor.selected_tags;
    let mut placements: Vec<WindowPlacement> = Vec::new();
    let mut i: usize = 0;
    while i < monitor.tags.len()
        invariant
            i <= monitor.tags@.len() <= NUM_TAGS,
            tags == monitor@.tags,
            sel == monitor.selected_tags,
            placements_view(placements@) == hide_moves(tags.take(i as int), sel),
        decreases monitor.tags@.len() - i,
    {
        proof {
            lemma_and_single_bit(sel, i as u32);
            assert(tags.take(i + 1).drop_last() =~= tags.take(i as int));
            assert(tags.take(i + 1).last() == tags[i as int]);
            assert(tags[i as int] == monitor.tags@[i as int]@);
        }
        let hide = (sel & (1u32 << i as u32)) == 0;
        if hide {
            push_tag_placements(&monitor.tags[i].window_ids, true, &monitor.visible_workspace, &mut placements);
        }
        i = i + 1;
    }
    assert(tags.take(i as int) =~= tags);
    let ghost hidden_part = placements_view(placements@);
    let mut i: usize = 0;
    while i < monitor.tags.len()
        invariant
            i <= monitor.tags@.len() <= NUM_TAGS,
            tags == monitor@.tags,
            sel == monitor.selected_tags,
            hidden_part == hide_moves(tags, sel),
            placements_view(placements@) == hidden_part + show_moves(tags.take(i as int), sel, monitor.visible_workspace@),
        decreases monitor.tags@.len() - i,
    {
        proof {
            lemma_and_single_bit(sel, i as u32);
            assert(tags.take(i + 1).drop_last() =~= tags.take(i as int));
            assert(tags.take(i + 1).last() == tags[i as int]);
            assert(tags[i as int] == monitor.tags@[i as int]@);
        }
        let show = (sel & (1u32 << i as u32)) != 0;
        if show {
            let ghost before = placements_view(placements@);
            push_tag_placements(&monitor.tags[i].window_ids, false, &monitor.visible_workspace, &mut placements);
            assert(placements_view(placements@) =~= hidden_part + show_moves(tags.take(i + 1), sel, monitor.visible_workspace@));
        } else {
            assert(placements_view(placements@) =~= hidden_part + show_moves(tags.take(i + 1), sel, monitor.visible_workspace@));
        }
        i = i + 1;
    }
    assert(tags.take(i as int) =~= tags);
    SyncPlan { placements, focus_workspace: monitor.visible_workspace.clone() }
}

/// Appends the announcement of the monitor stored under `key` and the plan that brings
/// AeroSpace in line with it.
pub(crate) fn push_announcement(state: &State, key: MonitorId, out: &mut Vec<Action>)
    requires
        tags_fit(state@.monitors),
        state@.monitors.dom().contains(key),
    ensures
        actions_view(final(out)@) == actions_view(old(out)@) + seq![
            ActionView::Broadcast(state_change_event(state@.monitors[key], key)),
            ActionView::SyncMonitor(sync_plan_spec(state@.monitors[key])),
        ],
{
    let m = state.monitors.get(&key).unwrap();
    assert(m@ == state@.monitors[key]);
    let e = state_event_for(m, key);
    let plan = plan_monitor_sync(m);
    out.push(Action::Broadcast(e));
    out.push(Action::SyncMonitor(plan));
    assert(actions_view(out@) =~= actions_view(old(out)@) + seq![
        ActionView::Broadcast(state_change_event(state@.monitors[key], key)),
        ActionView::SyncMonitor(sync_plan_spec(state@.monitors[key])),
    ]);
}

/// How a selection change is carried out on a monitor.
pub enum SelectionChange {
    Select(u8),
    Toggle(u8),
    RestoreLast,
    SetMask(u32),
}

pub open spec fn selection_change_spec(m: MonitorView, c: SelectionChange) -> MonitorView {
    match c {
        SelectionChange::Select(t) => select_tag_spec(m, t),
        SelectionChange::Toggle(t) => toggle_tag_spec(m, t),
        SelectionChange::RestoreLast => restore_last_spec(m),
        SelectionChange::SetMask(mask) => set_selection_spec(m, mask),
    }
}

impl State {
    /// Changes the selection of the monitor stored under `key`, then announces it and plans its
    /// sync; nothing happens when there is no such monitor.
    pub(crate) fn change_selection(&mut self, key: MonitorId, change: SelectionChange) -> (r: Vec<Action>)
        requires
            tags_fit(old(self)@.monitors),
        ensures
            tags_fit(final(self)@.monitors),
            (final(self)@, actions_view(r@)) == if old(self)@.monitors.dom().contains(key) {
                update_and_announce(old(self)@, key, selection_change_spec(old(self)@.monitors[key], change))
            } else {
                (old(self)@, Seq::<ActionView>::empty())
            },
    {
        let mut out: Vec<Action> = Vec::new();
        let ghost old_ms = self.monitors@;
        let found = match self.get_monitor_mut(key) {
            Some(m) => {
                match change {
                    SelectionChange::Select(t) => m.select_tag(t),
                    SelectionChange::Toggle(t) => m.toggle_tag(t),
                    SelectionChange::RestoreLast => m.restore_last_tags(),
                    SelectionChange::SetMask(mask) => {
                        m.previous_tags = m.selected_tags;
                        m.selected_tags = mask;
                    },
                }
                true
            },
            None => false,
        };
        if found {
            proof {
                lemma_monitors_view_insert(old_ms, key, self.monitors@[key]);
                assert(self.monitors@ == old_ms.insert(key, self.monitors@[key]));
                assert(self@.monitors =~= old(self)@.monitors.insert(key, selection_change_spec(old(self)@.monitors[key], change)));
            }
            push_announcement(self, key, &mut out);
        } else {
            assert(self@ =~= old(self)@);
            assert(actions_view(out@) =~= Seq::<ActionView>::empty());
        }
        out
    }

    /// Shows exactly tag `tag` on the focused monitor.
    pub fn handle_tag_view(&mut self, focused: Option<AerospaceMonitor>, tag: u8) -> (r: Vec<Action>)
        requires
            tags_fit(old(self)@.monitors),
        ensures
            tags_fit(final(self)@.monitors),
            (final(self)@, actions_view(r@)) == tag_view_step(old(self)@, opt_monitor_view(focused), tag),
    {
        match focused {
            Some(fm) => self.change_selection(fm.monitor_id, SelectionChange::Select(tag)),
            None => {
                let out: Vec<Action> = Vec::new();
                assert(actions_view(out@) =~= Seq::<ActionView>::empty());
                out
            },
        }
    }

    /// Flips whether tag `tag` is shown on the focused monitor.
    pub fn handle_tag_toggle(&mut self, focused: Option<AerospaceMonitor>, tag: u8) -> (r: Vec<Action>)
        requires
            tags_fit(old(self)@.monitors),
        ensures
            tags_fit(final(self)@.monitors),
            (final(self)@, actions_view(r@)) == tag_toggle_step(old(self)@, opt_monitor_view(focused), tag),
    {
        match focused {
            Some(fm) => self.change_selection(fm.monitor_id, SelectionChange::Toggle(tag)),
            None => {
                let out: Vec<Action> = Vec::new();
                assert(actions_view(out@) =~= Seq::<ActionView>::empty());
                out
            },
        }
    }

    /// Brings back the previous selection of the focused monitor.
    pub fn handle_tag_last(&mut self, focused: Option<AerospaceMonitor>) -> (r: Vec<Action>)
        requires
            tags_fit(old(self)@.monitors),
        ensures
            tags_fit(final(self)@.monitors),
            (final(self)@, actions_view(r@)) == tag_last_step(old(self)@, opt_monitor_view(focused)),
    {
        match focused {
            Some(fm) => self.change_selection(fm.monitor_id, SelectionChange::RestoreLast),
            None => {
                let out: Vec<Action> = Vec::new();
                assert(actions_view(out@) =~= Seq::<ActionView>::empty());
                out
            },
        }
    }

    /// Sets the selection of the named monitor (else the focused one) to `mask`.
    pub fn handle_tag_set(&mut self, focused: Option<AerospaceMonitor>, mask: u32, monitor_id: Option<MonitorId>) -> (r: Vec<Action>)
        requires
            tags_fit(old(self)@.monitors),
        ensures
            tags_fit(final(self)@.monitors),
            (final(self)@, actions_view(r@)) == tag_set_step(old(self)@, opt_monitor_view(focused), mask, monitor_id),
    {
        let target = match monitor_id {
            Some(id) => Some(id),
            None => match focused {
                Some(fm) => Some(fm.monitor_id),
                None => None,
            },
        };
        match target {
            Some(key) => self.change_selection(key, SelectionChange::SetMask(mask)),
            None => {
                let out: Vec<Action> = Vec::new();
                assert(actions_view(out@) =~= Seq::<ActionView>::empty());
                out
            },
        }
    }
}

/// The monitor that holds window `w`, else the focused one.
pub open spec fn monitor_for_window(s: StateView, w: WindowId, focused: Option<AerospaceMonitorView>) -> Option<MonitorId> {
    match find_monitor_spec(s.monitors, w) {
        Some(id) => Some(id),
        None => match focused {
            Some(fm) => Some(fm.monitor_id),
            None => None,
        },
    }
}

/// Moving the window to tag `tag` alone on its monitor.
pub open spec fn window_move_step(s: StateView, window: Option<AerospaceWindowView>, focused: Option<AerospaceMonitorView>, tag: u8) -> (StateView, Seq<ActionView>) {
    match window {
        Some(w) => match monitor_for_window(s, w.window_id, focused) {
            Some(key) if s.monitors.dom().contains(key) => {
                let m = s.monitors[key];
                let moved = MonitorView { tags: push_to_tag(without_window(m.tags, w.window_id), tag as int, w.window_id), ..m };
                let (s2, acts) = update_and_announce(s, key, moved);
                (StateView { windows: remember_window_spec(s.windows, w), ..s2 }, acts)
            },
            _ => (s, Seq::empty()),
        },
        None => (s, Seq::empty()),
    }
}

/// The window a command names, else the focused one.
pub open spec fn named_or_focused_window(named: Option<WindowId>, window: Option<AerospaceWindowView>) -> Option<WindowId> {
    match named {
        Some(id) => Some(id),
        None => match window {
            Some(w) => Some(w.window_id),
            None => None,
        },
    }
}

/// Giving the window exactly the tags of `mask` on its monitor.
pub open spec fn window_set_step(s: StateView, window: Option<AerospaceWindowView>, focused: Option<AerospaceMonitorView>, mask: u32, named: Option<WindowId>) -> (StateView, Seq<ActionView>) {
    match named_or_focused_window(named, window) {
        Some(wid) => match monitor_for_window(s, wid, focused) {
            Some(key) if s.monitors.dom().contains(key) => {
                let m = s.monitors[key];
                let set = MonitorView { tags: add_by_mask(without_window(m.tags, wid), mask, wid), ..m };
                let (s2, acts) = update_and_announce(s, key, set);
                let windows = match window {
                    Some(w) if w.window_id == wid => remember_window_spec(s.windows, w),
                    _ => s.windows,
                };
                (StateView { windows, ..s2 }, acts)
            },
            _ => (s, Seq::empty()),
        },
        None => (s, Seq::empty()),
    }
}

/// The tags after flipping whether tag `tag` holds `w`, or `None` when nothing changes: there is
/// no such tag, or it is the only tag that holds `w`.
pub open spec fn toggled_tags(tags: Seq<Seq<WindowId>>, tag: int, w: WindowId) -> Option<Seq<Seq<WindowId>>> {
    if !(0 <= tag < tags.len()) {
        None
    } else if !tags[tag].contains(w) {
        Some(tags.update(tag, tags[tag].push(w)))
    } else if held_elsewhere(tags, tag, w) {
        Some(tags.update(tag, tags[tag].filter(other_than(w))))
    } else {
        None
    }
}

/// Flipping whether tag `tag` holds the window, never taking its last tag away.
pub open spec fn window_toggle_step(s: StateView, window: Option<AerospaceWindowView>, focused: Option<AerospaceMonitorView>, tag: u8) -> (StateView, Seq<ActionView>) {
    match window {
        Some(w) => match monitor_for_window(s, w.window_id, focused) {
            Some(key) if s.monitors.dom().contains(key) => {
                let m = s.monitors[key];
                match toggled_tags(m.tags, tag as int, w.window_id) {
                    Some(t) => {
                        let (s2, acts) = update_and_announce(s, key, MonitorView { tags: t, ..m });
                        (StateView { windows: remember_window_spec(s.windows, w), ..s2 }, acts)
                    },
                    None => (s, Seq::empty()),
                }
            },
            _ => (s, Seq::empty()),
        },
        None => (s, Seq::empty()),
    }
}

impl State {
    /// The monitor that holds window `w`, else the focused one.
    fn monitor_for_window(&self, w: WindowId, focused: &Option<AerospaceMonitor>) -> (r: Option<MonitorId>)
        ensures
            r == monitor_for_window(self@, w, opt_monitor_view(*focused)),
    {
        match self.find_monitor_by_window(w) {
            Some(id) => Some(id),
            None => match focused {
                Some(fm) => Some(fm.monitor_id),
                None => None,
            },
        }
    }

    /// Moves the focused window to tag `tag` alone, on the monitor that holds it (else the
    /// focused monitor).
    pub fn handle_window_move(&mut self, window: Option<AerospaceWindow>, focused: Option<AerospaceMonitor>, tag: u8) -> (r: Vec<Action>)
        requires
            tags_fit(old(self)@.monitors),
        ensures
            tags_fit(final(self)@.monitors),
            (final(self)@, actions_view(r@)) == window_move_step(old(self)@, opt_window_view(window), opt_monitor_view(focused), tag),
    {
        let mut out: Vec<Action> = Vec::new();
        assert(actions_view(out@) =~= Seq::<ActionView>::empty());
        let w = match window {
            Some(w) => w,
            None => return out,
        };
        let key = match self.monitor_for_window(w.window_id, &focused) {
            Some(k) => k,
            None => return out,
        };
        let ghost old_ms = self.monitors@;
        let found = match self.get_monitor_mut(key) {
            Some(m) => {
                m.remove_window_everywhere(w.window_id);
                m.push_window(tag as usize, w.window_id);
                true
            },
            None => false,
        };
        if !found {
            assert(self@ =~= old(self)@);
            return out;
        }
        proof {
            lemma_monitors_view_insert(old_ms, key, self.monitors@[key]);
            assert(old(self)@.monitors.dom().contains(key));
            lemma_tags_fit_insert(old(self)@.monitors, key, self.monitors@[key]@);
        }
        let ghost mid = self@;
        push_announcement(self, key, &mut out);
        self.remember_window(&w);
        proof {
            let m = old(self)@.monitors[key];
            let moved = MonitorView { tags: push_to_tag(without_window(m.tags, w.window_id), tag as int, w.window_id), ..m };
            assert(mid.monitors =~= old(self)@.monitors.insert(key, moved));
            assert(self@ =~= window_move_step(old(self)@, opt_window_view(window), opt_monitor_view(focused), tag).0);
        }
        out
    }

    /// Gives the named window (else the focused one) exactly the tags of `mask` on the monitor
    /// that holds it (else the focused monitor).
    pub fn handle_window_set(&mut self, window: Option<AerospaceWindow>, focused: Option<AerospaceMonitor>, mask: u32, window_id: Option<WindowId>) -> (r: Vec<Action>)
        requires
            tags_fit(old(self)@.monitors),
        ensures
            tags_fit(final(self)@.monitors),
            (final(self)@, actions_view(r@)) == window_set_step(old(self)@, opt_window_view(window), opt_monitor_view(focused), mask, window_id),
    {
        let mut out: Vec<Action> = Vec::new();
        assert(actions_view(out@) =~= Seq::<ActionView>::empty());
        let wid = match window_id {
            Some(id) => id,
            None => match &window {
                Some(w) => w.window_id,
                None => return out,
            },
        };
        let key = match self.monitor_for_window(wid, &focused) {
            Some(k) => k,
            None => return out,
        };
        let ghost old_ms = self.monitors@;
        let found = match self.get_monitor_mut(key) {
            Some(m) => {
                assert(old(self)@.monitors.dom().contains(key));
                assert(old(self)@.monitors[key] == m@);
                assert(old(self)@.monitors[key].tags.len() <= NUM_TAGS);
                m.remove_window_everywhere(wid);
                assert(m@.tags.len() == m.tags@.len());
                m.add_by_mask(mask, wid);
                true
            },
            None => false,
        };
        if !found {
            assert(self@ =~= old(self)@);
            return out;
        }
        proof {
            lemma_monitors_view_insert(old_ms, key, self.monitors@[key]);
            assert(old(self)@.monitors.dom().contains(key));
            lemma_tags_fit_insert(old(self)@.monitors, key, self.monitors@[key]@);
        }
        let ghost mid = self@;
        push_announcement(self, key, &mut out);
        if let Some(w) = &window {
            if w.window_id == wid {
                self.remember_window(w);
            }
        }
        proof {
            let m = old(self)@.monitors[key];
            let set = MonitorView { tags: add_by_mask(without_window(m.tags, wid), mask, wid), ..m };
            assert(mid.monitors =~= old(self)@.monitors.insert(key, set));
            assert(self@ =~= window_set_step(old(self)@, opt_window_view(window), opt_monitor_view(focused), mask, window_id).0);
        }
        out
    }

    /// Flips whether tag `tag` holds the focused window on its monitor, unless that would take
    /// the window's last tag away.
    pub fn handle_window_toggle(&mut self, window: Option<AerospaceWindow>, focused: Option<AerospaceMonitor>, tag: u8) -> (r: Vec<Action>)
        requires
            tags_fit(old(self)@.monitors),
        ensures
            tags_fit(final(self)@.monitors),
            (final(self)@, actions_view(r@)) == window_toggle_step(old(self)@, opt_window_view(window), opt_monitor_view(focused), tag),
    {
        let mut out: Vec<Action> = Vec::new();
        assert(actions_view(out@) =~= Seq::<ActionView>::empty());
        let w = match window {
            Some(w) => w,
            None => return out,
        };
        let key = match self.monitor_for_window(w.window_id, &focused) {
            Some(k) => k,
            None => return out,
        };
        let ghost old_ms = self.monitors@;
        let tag_idx = tag as usize;
        let changed = match self.get_monitor_mut(key) {
            Some(m) => {
                if tag_idx < m.tags.len() {
                    if !m.tag_holds(tag_idx, w.window_id) {
                        m.push_window(tag_idx, w.window_id);
                        true
                    } else if m.held_elsewhere(tag_idx, w.window_id) {
                        m.remove_from_tag(tag_idx, w.window_id);
                        true
                    } else {
                        false
                    }
                } else {
                    false
                }
            },
            None => false,
        };
        if !changed {
            assert(self.monitors@ =~= old_ms);
            assert(self@ =~= old(self)@);
            return out;
        }
        proof {
            lemma_monitors_view_insert(old_ms, key, self.monitors@[key]);
            assert(old(self)@.monitors.dom().contains(key));
            lemma_tags_fit_insert(old(self)@.monitors, key, self.monitors@[key]@);
        }
        let ghost mid = self@;
        push_announcement(self, key, &mut out);
        self.remember_window(&w);
        proof {
            let m = old(self)@.monitors[key];
            let t = toggled_tags(m.tags, tag as int, w.window_id).unwrap();
            assert(mid.monitors =~= old(self)@.monitors.insert(key, MonitorView { tags: t, ..m }));
            assert(self@ =~= window_toggle_step(old(self)@, opt_window_view(window), opt_monitor_view(focused), tag).0);
        }
        out
    }
}

/// Where `x` stands in `s`.
pub open spec fn index_of(s: Seq<u32>, x: u32) -> int {
    choose|i: int| 0 <= i < s.len() && s[i] == x
}

/// The place of the neighbouring monitor among `n` monitors: for `next` the one after (the first
/// after the last), for `prev` the one before (the last before the first), else the same place.
pub open spec fn neighbour_index(idx: int, n: int, target: Seq<char>) -> int {
    if target == "next"@ {
        if idx + 1 == n { 0 } else { idx + 1 }
    } else if target == "prev"@ {
        if idx == 0 { n - 1 } else { idx - 1 }
    } else {
        idx
    }
}

/// The lowest tag shown on a monitor (32 when none is).
pub open spec fn lowest_selected_tag(m: MonitorView) -> u8 {
    u32_trailing_zeros(m.selected_tags) as u8
}

/// Moving the focused window from the focused monitor to the neighbouring one (in ascending
/// order of ids), onto that monitor's lowest shown tag.
pub open spec fn window_move_monitor_step(s: StateView, window: Option<AerospaceWindowView>, focused: Option<AerospaceMonitorView>, target: Seq<char>) -> (StateView, Seq<ActionView>) {
    match (window, focused) {
        (Some(w), Some(cm)) if s.monitors.dom().contains(cm.monitor_id) => {
            let ids = in_order(s.monitors.dom());
            let next = ids[neighbour_index(index_of(ids, cm.monitor_id), ids.len() as int, target)];
            if next == cm.monitor_id {
                (s, Seq::empty())
            } else {
                let cur = s.monitors[cm.monitor_id];
                let ms1 = s.monitors.insert(cm.monitor_id, MonitorView { tags: without_window(cur.tags, w.window_id), ..cur });
                let nm = ms1[next];
                let ms2 = assign_window_spec(ms1, w.window_id, lowest_selected_tag(nm), next);
                let moves = if nm.visible_workspace.len() > 0 {
                    seq![ActionView::MoveWindowToMonitor((w.window_id, nm.visible_workspace))]
                } else {
                    Seq::empty()
                };
                (
                    StateView { monitors: ms2, ..s },
                    broadcast_spec(ms1, cm.monitor_id) + broadcast_spec(ms2, next) + moves,
                )
            }
        },
        _ => (s, Seq::empty()),
    }
}

impl State {
    /// Moves the focused window from the focused monitor to the next or previous monitor
    /// (`target` is `next` or `prev`; anything else moves nothing), onto its lowest shown tag.
    pub fn handle_window_move_monitor(&mut self, window: Option<AerospaceWindow>, focused: Option<AerospaceMonitor>, target: String) -> (r: Vec<Action>)
        requires
            tags_fit(old(self)@.monitors),
        ensures
            tags_fit(final(self)@.monitors),
            (final(self)@, actions_view(r@)) == window_move_monitor_step(old(self)@, opt_window_view(window), opt_monitor_view(focused), target@),
    {
        let mut out: Vec<Action> = Vec::new();
        assert(actions_view(out@) =~= Seq::<ActionView>::empty());
        let w = match window {
            Some(w) => w,
            None => return out,
        };
        let cm = match focused {
            Some(m) => m,
            None => return out,
        };
        let cur_id = cm.monitor_id;
        let ids = self.sorted_monitor_ids();
        proof {
            lemma_in_order(ids@, self@.monitors.dom());
        }
        let mut idx: usize = 0;
        while idx < ids.len() && ids[idx] != cur_id
            invariant
                idx <= ids@.len(),
                forall|j: int| 0 <= j < idx ==> ids@[j] != cur_id,
            decreases ids@.len() - idx,
        {
            idx = idx + 1;
        }
        if idx == ids.len() {
            proof {
                if self@.monitors.dom().contains(cur_id) {
                    assert(ids@.contains(cur_id));
                }
            }
            return out;
        }
        let n = ids.len();
        proof {
            assert(ids@.contains(cur_id));
            let c = index_of(ids@, cur_id);
            assert(0 <= c < ids@.len() && ids@[c] == cur_id);
            if c < idx as int {
                assert(ids@[c] < ids@[idx as int]);
            } else if c > idx as int {
                assert(ids@[idx as int] < ids@[c]);
            }
            assert(c == idx as int);
            reveal_strlit("next");
            reveal_strlit("prev");
        }
        let is_next = text_eq(target.as_str(), "next");
        let is_prev = text_eq(target.as_str(), "prev");
        let next_idx = if is_next {
            if idx + 1 == n { 0 } else { idx + 1 }
        } else if is_prev {
            if idx == 0 { n - 1 } else { idx - 1 }
        } else {
            idx
        };
        assert(next_idx as int == neighbour_index(idx as int, n as int, target@));
        let next_id = ids[next_idx];
        if next_id == cur_id {
            return out;
        }
        assert(self@.monitors.dom().contains(next_id)) by {
            assert(ids@.contains(next_id));
        }
        let ghost s0 = self@;
        let ghost old_ms = self.monitors@;
        // Take the window off the monitor it is on.
        match self.get_monitor_mut(cur_id) {
            Some(m) => {
                m.remove_window_everywhere(w.window_id);
            },
            None => {},
        }
        proof {
            lemma_monitors_view_insert(old_ms, cur_id, self.monitors@[cur_id]);
            lemma_tags_fit_insert(s0.monitors, cur_id, self.monitors@[cur_id]@);
            let cur = s0.monitors[cur_id];
            assert(self@.monitors =~= s0.monitors.insert(cur_id, MonitorView { tags: without_window(cur.tags, w.window_id), ..cur }));
        }
        let ghost s1 = self@;
        push_broadcast(self, cur_id, &mut out);
        // Put it on the lowest shown tag of the neighbour.
        let (target_tag, target_workspace) = {
            let m = self.monitors.get(&next_id).unwrap();
            assert(m@ == s1.monitors[next_id]);
            ((m.selected_tags.trailing_zeros()) as u8, m.visible_workspace.clone())
        };
        self.assign_window(w.window_id, target_tag, next_id);
        proof {
            let nm = s1.monitors[next_id];
            assert(nm.tags.len() <= NUM_TAGS);
            lemma_tags_fit_insert(s1.monitors, next_id, MonitorView { tags: push_to_tag(nm.tags, target_tag as int, w.window_id), ..nm });
        }
        push_broadcast(self, next_id, &mut out);
        if !target_workspace.as_str().is_empty() {
            let ghost before = out@;
            out.push(Action::MoveWindowToMonitor(WindowPlacement { window_id: w.window_id, workspace: target_workspace }));
            assert(actions_view(out@) =~= actions_view(before).push(ActionView::MoveWindowToMonitor((w.window_id, s1.monitors[next_id].visible_workspace))));
        }
        proof {
            let ids_s = in_order(s0.monitors.dom());
            assert(ids_s == ids@);
            let r = window_move_monitor_step(s0, opt_window_view(Some(w)), opt_monitor_view(Some(cm)), target@);
            assert(self@ =~= r.0);
            assert(actions_view(out@) =~= r.1);
        }
        out
    }
}

/// What the state manager does with a command.
pub open spec fn internal_step(s: StateView, cmd: InternalCommand) -> (StateView, Seq<ActionView>) {
    match cmd {
        InternalCommand::TagView(fm, t) => tag_view_step(s, opt_monitor_view(fm), t),
        InternalCommand::TagToggle(fm, t) => tag_toggle_step(s, opt_monitor_view(fm), t),
        InternalCommand::TagLast(fm) => tag_last_step(s, opt_monitor_view(fm)),
        InternalCommand::TagSet(fm, mask, id) => tag_set_step(s, opt_monitor_view(fm), mask, id),
        InternalCommand::WindowMove(fw, fm, t) => window_move_step(s, opt_window_view(fw), opt_monitor_view(fm), t),
        InternalCommand::WindowToggle(fw, fm, t) => window_toggle_step(s, opt_window_view(fw), opt_monitor_view(fm), t),
        InternalCommand::WindowMoveMonitor(fw, fm, target) => window_move_monitor_step(s, opt_window_view(fw), opt_monitor_view(fm), target@),
        InternalCommand::WindowSet(fw, fm, mask, id) => window_set_step(s, opt_window_view(fw), opt_monitor_view(fm), mask, id),
        InternalCommand::Query(fw, fm, target) => (
            s,
            seq![ActionView::Respond(query_spec(s, opt_window_view(fw), opt_monitor_view(fm), target))],
        ),
        InternalCommand::Sync(wl, ml, vis, ws, fw, fm) => sync_step(
            s,
            opt_window_list_view(wl),
            opt_monitor_list_view(ml),
            visible_view(vis@),
            opt_workspace_view(ws),
            opt_window_view(fw),
            opt_monitor_view(fm),
        ),
    }
}

/// Carries out a command on the state; returns what has to be done outside, in order.
pub fn handle_internal_command(state: &mut State, cmd: InternalCommand) -> (r: Vec<Action>)
    requires
        tags_fit(old(state)@.monitors),
    ensures
        tags_fit(final(state)@.monitors),
        (final(state)@, actions_view(r@)) == internal_step(old(state)@, cmd),
{
    match cmd {
        InternalCommand::TagView(fm, t) => state.handle_tag_view(fm, t),
        InternalCommand::TagToggle(fm, t) => state.handle_tag_toggle(fm, t),
        InternalCommand::TagLast(fm) => state.handle_tag_last(fm),
        InternalCommand::TagSet(fm, mask, id) => state.handle_tag_set(fm, mask, id),
        InternalCommand::WindowMove(fw, fm, t) => state.handle_window_move(fw, fm, t),
        InternalCommand::WindowToggle(fw, fm, t) => state.handle_window_toggle(fw, fm, t),
        InternalCommand::WindowMoveMonitor(fw, fm, target) => state.handle_window_move_monitor(fw, fm, target),
        InternalCommand::WindowSet(fw, fm, mask, id) => state.handle_window_set(fw, fm, mask, id),
        InternalCommand::Query(fw, fm, target) => {
            let answer = state.answer_query(&fw, &fm, &target);
            let mut out: Vec<Action> = Vec::new();
            out.push(Action::Respond(answer));
            assert(actions_view(out@) =~= seq![ActionView::Respond(query_spec(old(state)@, opt_window_view(fw), opt_monitor_view(fm), target))]);
            out
        },
        InternalCommand::Sync(wl, ml, vis, ws, fw, fm) => state.handle_sync(wl, ml, vis, ws, fw, fm),
    }
}

/// The monitors the server starts with: each listed monitor on the workspace named after it.
pub open spec fn initial_monitors(list: Seq<AerospaceMonitorView>) -> Map<MonitorId, MonitorView>
    decreases list.len(),
{
    if list.len() == 0 {
        Map::empty()
    } else {
        let m = list.last();
        initial_monitors(list.drop_last()).insert(
            m.monitor_id,
            fresh_monitor(m.monitor_id, m.monitor_name, decimal(m.monitor_id as nat)),
        )
    }
}

/// The state the server starts from, given the monitors AeroSpace lists.
pub fn initial_state(monitors: &Vec<AerospaceMonitor>) -> (r: State)
    ensures
        r@ == (StateView { monitors: initial_monitors(monitors@.map_values(|m: AerospaceMonitor| m@)), ..initial_state_view() }),
        tags_fit(r@.monitors),
{
    let ghost list = monitors@.map_values(|m: AerospaceMonitor| m@);
    let mut state = State::new();
    let mut i: usize = 0;
    while i < monitors.len()
        invariant
            i <= monitors@.len(),
            list == monitors@.map_values(|m: AerospaceMonitor| m@),
            state@ == (StateView { monitors: initial_monitors(list.take(i as int)), ..initial_state_view() }),
            tags_fit(state@.monitors),
        decreases monitors@.len() - i,
    {
        let m = &monitors[i];
        let ghost old_ms = state.monitors@;
        let fresh = Monitor::new(m.monitor_id, m.monitor_name.clone(), u32_to_decimal(m.monitor_id));
        state.monitors.insert(m.monitor_id, fresh);
        proof {
            lemma_monitors_view_insert(old_ms, m.monitor_id, fresh);
            assert(list.take(i + 1).drop_last() =~= list.take(i as int));
            assert(list.take(i + 1).last() == m@);
            assert(state@ =~= (StateView { monitors: initial_monitors(list.take(i + 1)), ..initial_state_view() }));
        }
        i = i + 1;
    }
    assert(list.take(i as int) =~= list);
    state
}

/// The events a new subscriber gets first: one per monitor, in ascending order of the ids the
/// monitors are stored under, each carrying the monitor's own id.
pub open spec fn snapshot_spec(ms: Map<MonitorId, MonitorView>) -> Seq<StateEventView> {
    in_order(ms.dom()).map_values(|k: MonitorId| state_change_event(ms[k], ms[k].id))
}

impl State {
    /// The events a new subscriber gets first (see `snapshot_spec`).
    pub fn snapshot_events(&self) -> (r: Vec<StateEvent>)
        requires
            tags_fit(self@.monitors),
        ensures
            r@.map_values(|e: StateEvent| e@) == snapshot_spec(self@.monitors),
    {
        let ids = sorted_keys(&self.monitors);
        proof {
            assert(self@.monitors.dom() =~= self.monitors@.dom());
            lemma_in_order(ids@, self@.monitors.dom());
        }
        let ghost target = snapshot_spec(self@.monitors);
        let mut out: Vec<StateEvent> = Vec::new();
        let mut i: usize = 0;
        while i < ids.len()
            invariant
                i <= ids@.len(),
                tags_fit(self@.monitors),
                in_order(self@.monitors.dom()) == ids@,
                target == snapshot_spec(self@.monitors),
                forall|k: MonitorId| self@.monitors.dom().contains(k) <==> ids@.contains(k),
                out@.map_values(|e: StateEvent| e@) == target.take(i as int),
            decreases ids@.len() - i,
        {
            let k = ids[i];
            assert(ids@.contains(k));
            let m = self.monitors.get(&k).unwrap();
            assert(m@ == self@.monitors[k]);
            let e = state_event_for(m, m.id);
            let ghost prev = out@;
            out.push(e);
            proof {
                assert(out@.map_values(|e: StateEvent| e@) =~= prev.map_values(|e: StateEvent| e@).push(e@));
                assert(target.take(i + 1) =~= target.take(i as int).push(target[i as int]));
            }
            i = i + 1;
        }
        assert(target.take(i as int) =~= target);
        out
    }
}

} // verus!
