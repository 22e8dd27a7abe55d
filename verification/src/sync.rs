//! Bringing the state in line with what AeroSpace reports: monitors that came and went, windows
//! that closed or appeared, and focus stuck on a hidden workspace.
use std::collections::HashMap;
use vstd::prelude::*;
use crate::aerospace::{
    duplicate_monitors, opt_monitor_view, opt_window_view, AerospaceMonitor, AerospaceMonitorView,
    AerospaceWindow, AerospaceWindowView, AerospaceWorkspace, AerospaceWorkspaceView,
};
use crate::ids::{in_order, insert_sorted, lemma_in_order, lists_in_order, sorted_keys, strictly_sorted};
use crate::server::{
    broadcast_spec, lowest_selected_tag, plan_monitor_sync, push_broadcast, sync_plan_spec,
    update_and_announce, Action, ActionView, SelectionChange, actions_view,
};
use crate::state::{
    fresh_monitor, lemma_monitors_view_insert, lemma_monitors_view_remove, lemma_tags_fit_insert,
    assign_window_spec, first_holder_key, holding, holds_window, key_where, select_tag_spec, lemma_min_key, lemma_windows_view_insert,
    lemma_windows_view_remove, min_key_where, monitors_view, tags_fit, tags_view, window_info_of,
    Monitor, MonitorId, MonitorView, State, StateView, Tag, WindowId, WindowInfo, WindowInfoView,
};
use crate::bits::NUM_TAGS;
use crate::text::{decimal, is_hidden_name, is_hidden_workspace, u32_to_decimal};

verus! {

// ---------------------------------------------------------------------------
// Monitors AeroSpace reports
// ---------------------------------------------------------------------------
pub open spec fn visible_view(visible: Map<u32, String>) -> Map<u32, Seq<char>> {
    visible.map_values(|s: String| s@)
}

/// The visible workspace AeroSpace reported for monitor `id`, else the monitor's own number.
pub open spec fn reported_visible(visible: Map<u32, Seq<char>>, id: MonitorId) -> Seq<char> {
    if visible.dom().contains(id) {
        visible[id]
    } else {
        decimal(id as nat)
    }
}

/// Taking one reported monitor into account: a known monitor follows its visible workspace
/// unless that is a hidden one; an unknown monitor is added, on its own number's workspace if
/// the reported one is hidden.
pub open spec fn reconcile_one(ms: Map<MonitorId, MonitorView>, m: AerospaceMonitorView, visible: Map<u32, Seq<char>>) -> Map<MonitorId, MonitorView> {
    let id = m.monitor_id;
    let ws = reported_visible(visible, id);
    if ms.dom().contains(id) {
        let cur = ms[id];
        if cur.visible_workspace != ws && !is_hidden_name(ws) {
            ms.insert(id, MonitorView { visible_workspace: ws, ..cur })
        } else {
            ms
        }
    } else {
        ms.insert(id, fresh_monitor(id, m.monitor_name, if is_hidden_name(ws) { decimal(id as nat) } else { ws }))
    }
}

/// Taking the reported monitors into account one after another.
pub open spec fn reconcile_monitors(ms: Map<MonitorId, MonitorView>, list: Seq<AerospaceMonitorView>, visible: Map<u32, Seq<char>>) -> Map<MonitorId, MonitorView>
    decreases list.len(),
{
    if list.len() == 0 {
        ms
    } else {
        reconcile_one(reconcile_monitors(ms, list.drop_last(), visible), list.last(), visible)
    }
}

/// Some reported monitor is not known yet.
pub open spec fn reports_new_monitor(ms: Map<MonitorId, MonitorView>, list: Seq<AerospaceMonitorView>) -> bool {
    exists|i: int| 0 <= i < list.len() && !ms.dom().contains(#[trigger] list[i].monitor_id)
}

pub open spec fn monitor_list_view(list: Seq<AerospaceMonitor>) -> Seq<AerospaceMonitorView> {
    list.map_values(|m: AerospaceMonitor| m@)
}

impl State {
    /// Takes the reported monitors into account; tells whether one of them was not known.
    pub fn reconcile_monitors(&mut self, monitors: &Vec<AerospaceMonitor>, visible: &HashMap<u32, String>) -> (r: bool)
        requires
            tags_fit(old(self)@.monitors),
        ensures
            tags_fit(final(self)@.monitors),
            final(self)@ == (StateView {
                monitors: reconcile_monitors(old(self)@.monitors, monitor_list_view(monitors@), visible_view(visible@)),
                ..old(self)@
            }),
            r == reports_new_monitor(old(self)@.monitors, monitor_list_view(monitors@)),
    {
        let ghost list = monitor_list_view(monitors@);
        let ghost vis = visible_view(visible@);
        let mut detected = false;
        let mut i: usize = 0;
        while i < monitors.len()
            invariant
                i <= monitors@.len(),
                list == monitor_list_view(monitors@),
                vis == visible_view(visible@),
                tags_fit(self@.monitors),
                self@ == (StateView { monitors: reconcile_monitors(old(self)@.monitors, list.take(i as int), vis), ..old(self)@ }),
                detected == reports_new_monitor(old(self)@.monitors, list.take(i as int)),
                forall|j: int| 0 <= j < i ==> self@.monitors.dom().contains(#[trigger] list[j].monitor_id),
                forall|k: MonitorId| old(self)@.monitors.dom().contains(k) ==> self@.monitors.dom().contains(k),
                forall|k: MonitorId| self@.monitors.dom().contains(k) ==> (old(self)@.monitors.dom().contains(k) || exists|j: int| 0 <= j < i && #[trigger] list[j].monitor_id == k),
            decreases monitors@.len() - i,
        {
            let m = &monitors[i];
            let id = m.monitor_id;
            let ghost before = self@;
            proof {
                assert(list.take(i + 1).drop_last() =~= list.take(i as int));
                assert(list.take(i + 1).last() == m@);
            }
            let ws = match visible.get(&id) {
                Some(s) => s.clone(),
                None => u32_to_decimal(id),
            };
            assert(ws@ == reported_visible(vis, id));
            let hidden = is_hidden_workspace(ws.as_str());
            let ghost old_ms = self.monitors@;
            let known = match self.get_monitor_mut(id) {
                Some(cur) => {
                    if !(cur.visible_workspace == ws) && !hidden {
                        cur.visible_workspace = ws.clone();
                    }
                    true
                },
                None => false,
            };
            if known {
                proof {
                    lemma_monitors_view_insert(old_ms, id, self.monitors@[id]);
                    assert(self@.monitors =~= reconcile_one(before.monitors, m@, vis));
                }
            } else {
                let initial_ws = if hidden { u32_to_decimal(id) } else { ws };
                let fresh = Monitor::new(id, m.monitor_name.clone(), initial_ws);
                self.monitors.insert(id, fresh);
                detected = true;
                proof {
                    lemma_monitors_view_insert(old_ms, id, fresh);
                    assert(self@.monitors =~= reconcile_one(before.monitors, m@, vis));
                }
            }
            proof {
                assert(self@ =~= (StateView { monitors: reconcile_monitors(old(self)@.monitors, list.take(i + 1), vis), ..old(self)@ }));
                if !known {
                    assert(!old(self)@.monitors.dom().contains(id));
                    assert(list.take(i + 1)[i as int].monitor_id == id);
                }
                assert(detected == reports_new_monitor(old(self)@.monitors, list.take(i + 1))) by {
                    if reports_new_monitor(old(self)@.monitors, list.take(i + 1)) && !reports_new_monitor(old(self)@.monitors, list.take(i as int)) {
                        let j = choose|j: int| 0 <= j < i + 1 && !old(self)@.monitors.dom().contains(#[trigger] list.take(i + 1)[j].monitor_id);
                        if j < i {
                            assert(list.take(i as int)[j] == list.take(i + 1)[j]);
                        } else {
                            if before.monitors.dom().contains(id) {
                                let j2 = choose|j2: int| 0 <= j2 < i && #[trigger] list[j2].monitor_id == id;
                                assert(list.take(i as int)[j2].monitor_id == id);
                            }
                        }
                    }
                    if reports_new_monitor(old(self)@.monitors, list.take(i as int)) {
                        let j = choose|j: int| 0 <= j < i && !old(self)@.monitors.dom().contains(#[trigger] list.take(i as int)[j].monitor_id);
                        assert(list.take(i as int)[j] == list.take(i + 1)[j]);
                    }
                }
                assert forall|k: MonitorId| self@.monitors.dom().contains(k) implies (old(self)@.monitors.dom().contains(k) || exists|j: int| 0 <= j < i + 1 && #[trigger] list[j].monitor_id == k) by {
                    if k != id {
                        assert(before.monitors.dom().contains(k));
                        if !old(self)@.monitors.dom().contains(k) {
                            let j = choose|j: int| 0 <= j < i && #[trigger] list[j].monitor_id == k;
                            assert(0 <= j < i + 1 && list[j].monitor_id == k);
                        }
                    } else {
                        assert(list[i as int].monitor_id == k);
                    }
                }
            }
            i = i + 1;
        }
        assert(list.take(i as int) =~= list);
        detected
    }
}

// ---------------------------------------------------------------------------
// Monitors that went away
// ---------------------------------------------------------------------------
/// The ids of the reported monitors.
pub open spec fn reported_ids(list: Seq<AerospaceMonitorView>) -> Set<MonitorId> {
    Set::new(|k: MonitorId| exists|i: int| 0 <= i < list.len() && #[trigger] list[i].monitor_id == k)
}

/// The predicate "not among the reported monitors".
pub open spec fn unreported(list: Seq<AerospaceMonitorView>) -> spec_fn(MonitorId) -> bool {
    |k: MonitorId| !reported_ids(list).contains(k)
}

/// The known monitors that AeroSpace no longer reports.
pub open spec fn removed_ids(ms: Map<MonitorId, MonitorView>, list: Seq<AerospaceMonitorView>) -> Set<MonitorId> {
    ms.dom().filter(unreported(list))
}

/// The smallest reported id.
pub open spec fn min_reported_id(list: Seq<AerospaceMonitorView>) -> MonitorId
    decreases list.len(),
{
    if list.len() <= 1 {
        list[0].monitor_id
    } else {
        let rest = min_reported_id(list.drop_last());
        if list.last().monitor_id < rest {
            list.last().monitor_id
        } else {
            rest
        }
    }
}

/// The lists one after the other.
pub open spec fn concat(ss: Seq<Seq<WindowId>>) -> Seq<WindowId>
    decreases ss.len(),
{
    if ss.len() == 0 {
        Seq::empty()
    } else {
        concat(ss.drop_last()) + ss.last()
    }
}

/// The windows of the monitors stored under `keys`, monitor by monitor, tag by tag.
pub open spec fn windows_of_monitors(ms: Map<MonitorId, MonitorView>, keys: Seq<MonitorId>) -> Seq<WindowId> {
    concat(keys.map_values(|k: MonitorId| concat(ms[k].tags)))
}

/// `ws` appended to tag `i`, if there is such a tag.
pub open spec fn append_to_tag(tags: Seq<Seq<WindowId>>, i: int, ws: Seq<WindowId>) -> Seq<Seq<WindowId>> {
    if 0 <= i < tags.len() {
        tags.update(i, tags[i] + ws)
    } else {
        tags
    }
}

/// Dropping the monitors AeroSpace no longer reports. Their windows go, in ascending order of
/// the dropped monitors' ids, onto the lowest shown tag of the reported monitor with the smallest
/// id, which is then marked changed and brought in line; without any reported monitor, all
/// monitors are dropped.
pub open spec fn rescue_step(ms: Map<MonitorId, MonitorView>, list: Seq<AerospaceMonitorView>) -> (Map<MonitorId, MonitorView>, Set<MonitorId>, Seq<ActionView>) {
    let removed = removed_ids(ms, list);
    if removed == Set::<MonitorId>::empty() {
        (ms, Set::empty(), Seq::empty())
    } else if list.len() == 0 {
        (Map::empty(), Set::empty(), Seq::empty())
    } else {
        let rescue = min_reported_id(list);
        let ms1 = ms.remove_keys(removed);
        let rescued = windows_of_monitors(ms, in_order(removed));
        if rescued.len() == 0 || !ms1.dom().contains(rescue) {
            (ms1, Set::empty(), Seq::empty())
        } else {
            let rm = ms1[rescue];
            let rm2 = MonitorView { tags: append_to_tag(rm.tags, lowest_selected_tag(rm) as int, rescued), ..rm };
            (ms1.insert(rescue, rm2), set![rescue], seq![ActionView::SyncMonitor(sync_plan_spec(rm2))])
        }
    }
}

/// The first `n` elements of `s`, as a set.
pub open spec fn first_of(s: Seq<MonitorId>, n: int) -> Set<MonitorId> {
    Set::new(|x: MonitorId| exists|j: int| 0 <= j < n && s[j] == x)
}

/// Whether monitor `k` is among the reported ones.
fn reports_monitor(list: &Vec<AerospaceMonitor>, k: MonitorId) -> (r: bool)
    ensures
        r == reported_ids(monitor_list_view(list@)).contains(k),
{
    let ghost l = monitor_list_view(list@);
    let mut i: usize = 0;
    while i < list.len()
        invariant
            i <= list@.len(),
            l == monitor_list_view(list@),
            forall|j: int| 0 <= j < i ==> (#[trigger] l[j]).monitor_id != k,
        decreases list@.len() - i,
    {
        if list[i].monitor_id == k {
            assert(l[i as int].monitor_id == k);
            return true;
        }
        i = i + 1;
    }
    false
}

/// The smallest id of a non-empty list of monitors.
fn min_monitor_id(list: &Vec<AerospaceMonitor>) -> (r: MonitorId)
    requires
        list@.len() > 0,
    ensures
        r == min_reported_id(monitor_list_view(list@)),
{
    let ghost l = monitor_list_view(list@);
    let mut best = list[0].monitor_id;
    let mut i: usize = 1;
    while i < list.len()
        invariant
            1 <= i <= list@.len(),
            l == monitor_list_view(list@),
            best == min_reported_id(l.take(i as int)),
        decreases list@.len() - i,
    {
        proof {
            assert(l.take(i + 1).drop_last() =~= l.take(i as int));
            assert(l.take(i + 1).last() == l[i as int]);
        }
        if list[i].monitor_id < best {
            best = list[i].monitor_id;
        }
        i = i + 1;
    }
    assert(l.take(i as int) =~= l);
    best
}

/// Appends a copy of `src` to `dst`.
fn extend_ids(dst: &mut Vec<WindowId>, src: &Vec<WindowId>)
    ensures
        final(dst)@ == old(dst)@ + src@,
{
    let mut j: usize = 0;
    while j < src.len()
        invariant
            j <= src@.len(),
            dst@ == old(dst)@ + src@.take(j as int),
        decreases src@.len() - j,
    {
        dst.push(src[j]);
        assert(src@.take(j + 1) =~= src@.take(j as int).push(src@[j as int]));
        assert(dst@ =~= old(dst)@ + src@.take(j + 1));
        j = j + 1;
    }
    assert(src@.take(j as int) =~= src@);
}

/// All windows of a monitor, tag by tag.
fn monitor_windows(m: &Monitor) -> (r: Vec<WindowId>)
    ensures
        r@ == concat(m@.tags),
{
    let ghost tags = m@.tags;
    let mut out: Vec<WindowId> = Vec::new();
    let mut i: usize = 0;
    while i < m.tags.len()
        invariant
            i <= m.tags@.len(),
            tags == m@.tags,
            out@ == concat(tags.take(i as int)),
        decreases m.tags@.len() - i,
    {
        proof {
            assert(tags.take(i + 1).drop_last() =~= tags.take(i as int));
            assert(tags.take(i + 1).last() == m.tags@[i as int]@);
        }
        extend_ids(&mut out, &m.tags[i].window_ids);
        i = i + 1;
    }
    assert(tags.take(i as int) =~= tags);
    out
}

impl Monitor {
    /// Appends `ws` to tag `tag`, if the monitor has that tag.
    pub fn append_to_tag(&mut self, tag: usize, ws: &Vec<WindowId>)
        ensures
            final(self)@ == (MonitorView { tags: append_to_tag(old(self)@.tags, tag as int, ws@), ..old(self)@ }),
    {
        if tag < self.tags.len() {
            extend_ids(&mut self.tags[tag].window_ids, ws);
            assert(tags_view(self.tags@) =~= append_to_tag(tags_view(old(self).tags@), tag as int, ws@));
        }
    }
}

impl State {
    /// Drops the monitors AeroSpace no longer reports and moves their windows to the reported
    /// monitor with the smallest id; returns the monitors changed and the plans to carry out.
    pub fn rescue_windows(&mut self, monitors: &Vec<AerospaceMonitor>) -> (r: (Vec<MonitorId>, Vec<Action>))
        requires
            tags_fit(old(self)@.monitors),
        ensures
            tags_fit(final(self)@.monitors),
            ({
                let (ms, changed, acts) = rescue_step(old(self)@.monitors, monitor_list_view(monitors@));
                &&& final(self)@ == (StateView { monitors: ms, ..old(self)@ })
                &&& lists_in_order(r.0@, changed)
                &&& actions_view(r.1@) == acts
            }),
    {
        let ghost list = monitor_list_view(monitors@);
        let ghost ms0 = old(self)@.monitors;
        let ghost removed_set = removed_ids(ms0, list);
        let mut changed: Vec<MonitorId> = Vec::new();
        let mut acts: Vec<Action> = Vec::new();
        assert(actions_view(acts@) =~= Seq::<ActionView>::empty());
        // The known monitors that are no longer reported, in ascending order.
        let ids = self.sorted_monitor_ids();
        let mut removed: Vec<MonitorId> = Vec::new();
        let mut i: usize = 0;
        while i < ids.len()
            invariant
                i <= ids@.len(),
                lists_in_order(ids@, ms0.dom()),
                list == monitor_list_view(monitors@),
                self@.monitors == ms0,
                strictly_sorted(removed@),
                forall|k: MonitorId| removed@.contains(k) <==> (exists|j: int| 0 <= j < i && #[trigger] ids@[j] == k && !reported_ids(list).contains(k)),
                forall|k: MonitorId| removed@.contains(k) ==> (exists|j: int| 0 <= j < i && #[trigger] ids@[j] == k),
            decreases ids@.len() - i,
        {
            let k = ids[i];
            if !reports_monitor(monitors, k) {
                let ghost before = removed@;
                removed.push(k);
                proof {
                    assert forall|a: int, b: int| 0 <= a < b < removed@.len() implies removed@[a] < removed@[b] by {
                        if b == removed@.len() - 1 && a < b {
                            assert(before.contains(before[a]));
                            let j = choose|j: int| 0 <= j < i && #[trigger] ids@[j] == before[a];
                            assert(ids@[j] < ids@[i as int]);
                        }
                    }
                    assert forall|x: MonitorId| removed@.contains(x) <==> (exists|j: int| 0 <= j < i + 1 && #[trigger] ids@[j] == x && !reported_ids(list).contains(x)) by {
                        if removed@.contains(x) {
                            let q = choose|q: int| 0 <= q < removed@.len() && removed@[q] == x;
                            if q < before.len() {
                                assert(before[q] == x);
                                assert(before.contains(x));
                                let j = choose|j: int| 0 <= j < i && #[trigger] ids@[j] == x && !reported_ids(list).contains(x);
                                assert(0 <= j < i + 1 && ids@[j] == x && !reported_ids(list).contains(x));
                            } else {
                                assert(ids@[i as int] == x);
                                assert(0 <= i < i + 1 && ids@[i as int] == x && !reported_ids(list).contains(x));
                            }
                        }
                        if exists|j: int| 0 <= j < i + 1 && #[trigger] ids@[j] == x && !reported_ids(list).contains(x) {
                            let j = choose|j: int| 0 <= j < i + 1 && #[trigger] ids@[j] == x && !reported_ids(list).contains(x);
                            if j < i {
                                assert(0 <= j < i && ids@[j] == x && !reported_ids(list).contains(x));
                                assert(before.contains(x));
                                let q = choose|q: int| 0 <= q < before.len() && before[q] == x;
                                assert(removed@[q] == x);
                            } else {
                                assert(removed@[before.len() as int] == x);
                            }
                        }
                    }
                    assert forall|x: MonitorId| removed@.contains(x) implies (exists|j: int| 0 <= j < i + 1 && #[trigger] ids@[j] == x) by {
                        let q = choose|q: int| 0 <= q < removed@.len() && removed@[q] == x;
                        if q < before.len() {
                            assert(before.contains(x));
                            let j = choose|j: int| 0 <= j < i && #[trigger] ids@[j] == x;
                            assert(0 <= j < i + 1);
                        } else {
                            assert(ids@[i as int] == x);
                        }
                    }
                }
            }
            i = i + 1;
        }
        proof {
            assert forall|k: MonitorId| removed_set.contains(k) <==> removed@.contains(k) by {
                if removed_set.contains(k) {
                    assert(ids@.contains(k));
                    let j = choose|j: int| 0 <= j < ids@.len() && ids@[j] == k;
                    assert(ids@[j] == k && !reported_ids(list).contains(k));
                }
                if removed@.contains(k) {
                    let j = choose|j: int| 0 <= j < ids@.len() && #[trigger] ids@[j] == k && !reported_ids(list).contains(k);
                    assert(ids@.contains(k));
                }
            }
            assert(lists_in_order(removed@, removed_set));
            lemma_in_order(removed@, removed_set);
        }
        if removed.len() == 0 {
            proof {
                assert(removed_set =~= Set::<MonitorId>::empty());
                assert(changed@.len() == 0);
            }
            return (changed, acts);
        }
        assert(removed_set != Set::<MonitorId>::empty()) by {
            assert(removed_set.contains(removed@[0]));
        }
        if monitors.len() == 0 {
            self.monitors.clear();
            proof {
                assert(self@.monitors =~= Map::<MonitorId, MonitorView>::empty());
                assert(self@ =~= (StateView { monitors: Map::empty(), ..old(self)@ }));
            }
            return (changed, acts);
        }
        let rescue = min_monitor_id(monitors);
        // Take the dropped monitors out, collecting their windows.
        let mut rescued: Vec<WindowId> = Vec::new();
        let mut i: usize = 0;
        while i < removed.len()
            invariant
                i <= removed@.len(),
                lists_in_order(removed@, removed_set),
                removed_set == removed_ids(ms0, list),
                tags_fit(self@.monitors),
                self@ == (StateView { monitors: ms0.remove_keys(first_of(removed@, i as int)), ..old(self)@ }),
                rescued@ == windows_of_monitors(ms0, removed@.take(i as int)),
            decreases removed@.len() - i,
        {
            let k = removed[i];
            let ghost before = self@;
            let ghost old_ms = self.monitors@;
            proof {
                assert(removed@.contains(k));
                assert(removed_set.contains(k));
                assert(!first_of(removed@, i as int).contains(k)) by {
                    if first_of(removed@, i as int).contains(k) {
                        let q = choose|q: int| 0 <= q < i && removed@[q] == k;
                        assert(removed@[q] < removed@[i as int]);
                    }
                }
                assert(before.monitors.dom().contains(k));
            }
            let m = self.monitors.remove(&k).unwrap();
            proof {
                lemma_monitors_view_remove(old_ms, k);
                assert(m@ == ms0[k]);
            }
            let ws = monitor_windows(&m);
            extend_ids(&mut rescued, &ws);
            proof {
                assert forall|x: MonitorId| first_of(removed@, i + 1).contains(x) <==> first_of(removed@, i as int).insert(k).contains(x) by {
                    if first_of(removed@, i + 1).contains(x) {
                        let q = choose|q: int| 0 <= q < i + 1 && removed@[q] == x;
                        if q < i {
                            assert(first_of(removed@, i as int).contains(x));
                        }
                    }
                    if first_of(removed@, i as int).contains(x) {
                        let q = choose|q: int| 0 <= q < i && removed@[q] == x;
                        assert(0 <= q < i + 1 && removed@[q] == x);
                    }
                    if x == k {
                        assert(0 <= i < i + 1 && removed@[i as int] == x);
                    }
                }
                assert(first_of(removed@, i + 1) =~= first_of(removed@, i as int).insert(k));
                assert(self@ =~= (StateView { monitors: ms0.remove_keys(first_of(removed@, i + 1)), ..old(self)@ }));
                let f = |k: MonitorId| concat(ms0[k].tags);
                assert(removed@.take(i + 1).map_values(f).drop_last() =~= removed@.take(i as int).map_values(f));
            }
            i = i + 1;
        }
        proof {
            assert(removed@.take(i as int) =~= removed@);
            assert forall|x: MonitorId| first_of(removed@, i as int).contains(x) <==> removed_set.contains(x) by {
                if removed_set.contains(x) {
                    assert(removed@.contains(x));
                    let q = choose|q: int| 0 <= q < removed@.len() && removed@[q] == x;
                    assert(0 <= q < i && removed@[q] == x);
                }
                if first_of(removed@, i as int).contains(x) {
                    let q = choose|q: int| 0 <= q < i && removed@[q] == x;
                    assert(removed@.contains(x));
                }
            }
            assert(first_of(removed@, i as int) =~= removed_set);
        }
        let ghost ms1 = self@.monitors;
        if rescued.len() == 0 {
            return (changed, acts);
        }
        let ghost old_ms = self.monitors@;
        match self.get_monitor_mut(rescue) {
            Some(m) => {
                let target = (m.selected_tags.trailing_zeros()) as u8;
                m.append_to_tag(target as usize, &rescued);
            },
            None => {
                return (changed, acts);
            },
        }
        proof {
            lemma_monitors_view_insert(old_ms, rescue, self.monitors@[rescue]);
            assert(ms1.dom().contains(rescue));
            assert(ms1[rescue].tags.len() <= NUM_TAGS);
            lemma_tags_fit_insert(ms1, rescue, self.monitors@[rescue]@);
            let rm = ms1[rescue];
            assert(self@.monitors =~= ms1.insert(rescue, MonitorView { tags: append_to_tag(rm.tags, lowest_selected_tag(rm) as int, rescued@), ..rm }));
        }
        let m = self.monitors.get(&rescue).unwrap();
        assert(m@ == self@.monitors[rescue]);
        let plan = plan_monitor_sync(m);
        acts.push(Action::SyncMonitor(plan));
        changed.push(rescue);
        proof {
            assert(actions_view(acts@) =~= seq![ActionView::SyncMonitor(sync_plan_spec(self@.monitors[rescue]))]);
            assert(changed@[0] == rescue);
            assert(changed@.contains(rescue));
            assert forall|k: MonitorId| set![rescue].contains(k) <==> changed@.contains(k) by {
                if changed@.contains(k) {
                    let q = choose|q: int| 0 <= q < changed@.len() && changed@[q] == k;
                }
            }
        }
        (changed, acts)
    }
}

// ---------------------------------------------------------------------------
// Windows that closed
// ---------------------------------------------------------------------------
pub open spec fn window_list_view(list: Seq<AerospaceWindow>) -> Seq<AerospaceWindowView> {
    list.map_values(|w: AerospaceWindow| w@)
}

/// The ids of the reported windows.
pub open spec fn reported_window_ids(list: Seq<AerospaceWindowView>) -> Set<WindowId> {
    Set::new(|k: WindowId| exists|i: int| 0 <= i < list.len() && #[trigger] list[i].window_id == k)
}

/// The predicate "not among the reported windows".
pub open spec fn unreported_window(list: Seq<AerospaceWindowView>) -> spec_fn(WindowId) -> bool {
    |k: WindowId| !reported_window_ids(list).contains(k)
}

/// The known windows that AeroSpace no longer reports.
pub open spec fn stale_ids(ws: Map<WindowId, WindowInfoView>, list: Seq<AerospaceWindowView>) -> Set<WindowId> {
    ws.dom().filter(unreported_window(list))
}

/// The predicate "not in `gone`".
pub open spec fn kept_by(gone: Set<WindowId>) -> spec_fn(WindowId) -> bool {
    |x: WindowId| !gone.contains(x)
}

/// Every tag without the windows in `gone`.
pub open spec fn drop_windows(tags: Seq<Seq<WindowId>>, gone: Set<WindowId>) -> Seq<Seq<WindowId>> {
    tags.map_values(|t: Seq<WindowId>| t.filter(kept_by(gone)))
}

/// Some tag holds a window in `gone`.
pub open spec fn holds_any(tags: Seq<Seq<WindowId>>, gone: Set<WindowId>) -> bool {
    exists|i: int, x: WindowId| 0 <= i < tags.len() && #[trigger] tags[i].contains(x) && gone.contains(x)
}

/// The monitors without the windows in `gone`.
pub open spec fn drop_windows_everywhere(ms: Map<MonitorId, MonitorView>, gone: Set<WindowId>) -> Map<MonitorId, MonitorView> {
    ms.map_values(|m: MonitorView| MonitorView { tags: drop_windows(m.tags, gone), ..m })
}

/// The ids of the monitors that held a window in `gone`.
pub open spec fn monitors_holding_any(ms: Map<MonitorId, MonitorView>, gone: Set<WindowId>) -> Set<MonitorId> {
    Set::new(|id: MonitorId| exists|k: MonitorId| #[trigger] ms.dom().contains(k) && ms[k].id == id && holds_any(ms[k].tags, gone))
}

/// Whether `x` is in the list.
fn ids_contain(v: &Vec<WindowId>, x: WindowId) -> (r: bool)
    ensures
        r == v@.contains(x),
{
    let mut i: usize = 0;
    while i < v.len()
        invariant
            i <= v@.len(),
            forall|j: int| 0 <= j < i ==> v@[j] != x,
        decreases v@.len() - i,
    {
        if v[i] == x {
            return true;
        }
        i = i + 1;
    }
    false
}

/// Whether window `k` is among the reported ones.
fn reports_window(list: &Vec<AerospaceWindow>, k: WindowId) -> (r: bool)
    ensures
        r == reported_window_ids(window_list_view(list@)).contains(k),
{
    let ghost l = window_list_view(list@);
    let mut i: usize = 0;
    while i < list.len()
        invariant
            i <= list@.len(),
            l == window_list_view(list@),
            forall|j: int| 0 <= j < i ==> (#[trigger] l[j]).window_id != k,
        decreases list@.len() - i,
    {
        if list[i].window_id == k {
            assert(l[i as int].window_id == k);
            return true;
        }
        i = i + 1;
    }
    false
}

impl Tag {
    /// Takes the windows listed in `gone` out of the tag, keeping the others in order; tells
    /// whether the tag held any of them.
    pub fn remove_windows(&mut self, gone: &Vec<WindowId>) -> (r: bool)
        ensures
            final(self)@ == old(self)@.filter(kept_by(gone@.to_set())),
            r == exists|x: WindowId| old(self)@.contains(x) && gone@.contains(x),
    {
        let ghost orig = self.window_ids@;
        let ghost keep = kept_by(gone@.to_set());
        let mut out: Vec<WindowId> = Vec::new();
        let mut any = false;
        let mut i: usize = 0;
        while i < self.window_ids.len()
            invariant
                self.window_ids@ == orig,
                keep == kept_by(gone@.to_set()),
                i <= orig.len(),
                out@ == orig.take(i as int).filter(keep),
                any == exists|j: int| 0 <= j < i && gone@.contains(#[trigger] orig[j]),
            decreases orig.len() - i,
        {
            let x = self.window_ids[i];
            proof {
                reveal(Seq::filter);
                assert(orig.take(i + 1).drop_last() =~= orig.take(i as int));
                assert(orig.take(i + 1).last() == x);
            }
            let g = ids_contain(gone, x);
            proof {
                assert(g == gone@.to_set().contains(x));
            }
            if !g {
                out.push(x);
            } else {
                any = true;
            }
            i = i + 1;
        }
        assert(orig.take(orig.len() as int) =~= orig);
        proof {
            if any {
                let j = choose|j: int| 0 <= j < orig.len() && gone@.contains(#[trigger] orig[j]);
                assert(orig.contains(orig[j]));
            }
            if exists|x: WindowId| orig.contains(x) && gone@.contains(x) {
                let x = choose|x: WindowId| orig.contains(x) && gone@.contains(x);
                let j = choose|j: int| 0 <= j < orig.len() && orig[j] == x;
                assert(gone@.contains(orig[j]));
            }
        }
        self.window_ids = out;
        any
    }
}

impl Monitor {
    /// Takes the windows listed in `gone` out of every tag; tells whether any tag held one.
    pub fn remove_windows(&mut self, gone: &Vec<WindowId>) -> (r: bool)
        ensures
            final(self)@ == (MonitorView { tags: drop_windows(old(self)@.tags, gone@.to_set()), ..old(self)@ }),
            r == holds_any(old(self)@.tags, gone@.to_set()),
    {
        let ghost orig = tags_view(self.tags@);
        let ghost gs = gone@.to_set();
        let mut any = false;
        let mut i: usize = 0;
        while i < self.tags.len()
            invariant
                i <= self.tags.len(),
                gs == gone@.to_set(),
                self.tags@.len() == orig.len(),
                self.id == old(self).id,
                self.name == old(self).name,
                self.selected_tags == old(self).selected_tags,
                self.previous_tags == old(self).previous_tags,
                self.visible_workspace == old(self).visible_workspace,
                forall|j: int| 0 <= j < i ==> #[trigger] tags_view(self.tags@)[j] == orig[j].filter(kept_by(gs)),
                forall|j: int| i <= j < orig.len() ==> #[trigger] tags_view(self.tags@)[j] == orig[j],
                any == exists|j: int, x: WindowId| 0 <= j < i && #[trigger] orig[j].contains(x) && gs.contains(x),
            decreases self.tags.len() - i,
        {
            let ghost before = self.tags@;
            assert(tags_view(before)[i as int] == orig[i as int]);
            let held = self.tags[i].remove_windows(gone);
            proof {
                assert forall|j: int| 0 <= j <= i implies #[trigger] tags_view(self.tags@)[j] == orig[j].filter(kept_by(gs)) by {
                    if j < i {
                        assert(self.tags@[j] == before[j]);
                        assert(tags_view(before)[j] == orig[j].filter(kept_by(gs)));
                    }
                }
                assert forall|j: int| i < j < orig.len() implies #[trigger] tags_view(self.tags@)[j] == orig[j] by {
                    assert(self.tags@[j] == before[j]);
                    assert(tags_view(before)[j] == orig[j]);
                }
                if held {
                    let x = choose|x: WindowId| orig[i as int].contains(x) && gone@.contains(x);
                    assert(orig[i as int].contains(x) && gs.contains(x));
                }
                if exists|j: int, x: WindowId| 0 <= j < i + 1 && #[trigger] orig[j].contains(x) && gs.contains(x) {
                    let (j, x) = choose|j: int, x: WindowId| 0 <= j < i + 1 && #[trigger] orig[j].contains(x) && gs.contains(x);
                    if j == i {
                        assert(gone@.contains(x));
                    }
                }
            }
            any = any || held;
            i = i + 1;
        }
        assert(tags_view(self.tags@) =~= drop_windows(orig, gs));
        any
    }
}

impl State {
    /// Takes the windows listed in `gone` off the monitor stored under `k`; its id is added to
    /// `changed` if it held one.
    fn drop_from_monitor(&mut self, k: MonitorId, gone: &Vec<WindowId>, changed: &mut Vec<MonitorId>)
        requires
            tags_fit(old(self)@.monitors),
            old(self)@.monitors.dom().contains(k),
            strictly_sorted(old(changed)@),
        ensures
            tags_fit(final(self)@.monitors),
            final(self)@ == (StateView {
                monitors: old(self)@.monitors.insert(k, MonitorView {
                    tags: drop_windows(old(self)@.monitors[k].tags, gone@.to_set()),
                    ..old(self)@.monitors[k]
                }),
                ..old(self)@
            }),
            strictly_sorted(final(changed)@),
            forall|x: MonitorId| final(changed)@.contains(x) <==> (old(changed)@.contains(x) || (
                holds_any(old(self)@.monitors[k].tags, gone@.to_set()) && x == old(self)@.monitors[k].id)),
    {
        let ghost old_ms = self.monitors@;
        let mut mid: MonitorId = 0;
        let mut held = false;
        match self.get_monitor_mut(k) {
            Some(m) => {
                held = m.remove_windows(gone);
                mid = m.id;
            },
            None => {},
        }
        proof {
            lemma_monitors_view_insert(old_ms, k, self.monitors@[k]);
            lemma_tags_fit_insert(old(self)@.monitors, k, self.monitors@[k]@);
            assert(self@ =~= (StateView {
                monitors: old(self)@.monitors.insert(k, MonitorView {
                    tags: drop_windows(old(self)@.monitors[k].tags, gone@.to_set()),
                    ..old(self)@.monitors[k]
                }),
                ..old(self)@
            }));
        }
        if held {
            if !ids_contain(changed, mid) {
                insert_sorted(changed, mid);
            }
        }
    }

    #[verifier::spinoff_prover]
    #[verifier::rlimit(50)]
    /// Forgets the windows AeroSpace no longer reports and takes them off every monitor; the ids
    /// of the monitors that held one are added to `changed`.
    pub fn drop_closed_windows(&mut self, windows: &Vec<AerospaceWindow>, changed: &mut Vec<MonitorId>)
        requires
            tags_fit(old(self)@.monitors),
            strictly_sorted(old(changed)@),
        ensures
            tags_fit(final(self)@.monitors),
            ({
                let gone = stale_ids(old(self)@.windows, window_list_view(windows@));
                &&& final(self)@ == (StateView {
                    windows: old(self)@.windows.remove_keys(gone),
                    monitors: drop_windows_everywhere(old(self)@.monitors, gone),
                    ..old(self)@
                })
                &&& strictly_sorted(final(changed)@)
                &&& forall|x: MonitorId| final(changed)@.contains(x) <==> (old(changed)@.contains(x)
                    || monitors_holding_any(old(self)@.monitors, gone).contains(x))
            }),
    {
        let ghost list = window_list_view(windows@);
        let ghost s0 = self@;
        let ghost gone = stale_ids(s0.windows, list);
        let wkeys = sorted_keys(&self.windows);
        let mut stale: Vec<WindowId> = Vec::new();
        let mut i: usize = 0;
        while i < wkeys.len()
            invariant
                i <= wkeys@.len(),
                list == window_list_view(windows@),
                forall|x: WindowId| stale@.contains(x) <==> (exists|j: int| 0 <= j < i && #[trigger] wkeys@[j] == x && !reported_window_ids(list).contains(x)),
            decreases wkeys@.len() - i,
        {
            let k = wkeys[i];
            let ghost before = stale@;
            if !reports_window(windows, k) {
                stale.push(k);
            }
            proof {
                assert forall|x: WindowId| stale@.contains(x) <==> (exists|j: int| 0 <= j < i + 1 && #[trigger] wkeys@[j] == x && !reported_window_ids(list).contains(x)) by {
                    if stale@.contains(x) {
                        let q = choose|q: int| 0 <= q < stale@.len() && stale@[q] == x;
                        if q < before.len() {
                            assert(before[q] == x);
                            assert(before.contains(x));
                            let j = choose|j: int| 0 <= j < i && #[trigger] wkeys@[j] == x && !reported_window_ids(list).contains(x);
                            assert(0 <= j < i + 1 && wkeys@[j] == x);
                        } else {
                            assert(0 <= i < i + 1 && wkeys@[i as int] == x);
                        }
                    }
                    if exists|j: int| 0 <= j < i + 1 && #[trigger] wkeys@[j] == x && !reported_window_ids(list).contains(x) {
                        let j = choose|j: int| 0 <= j < i + 1 && #[trigger] wkeys@[j] == x && !reported_window_ids(list).contains(x);
                        if j < i {
                            assert(0 <= j < i && wkeys@[j] == x && !reported_window_ids(list).contains(x));
                            assert(before.contains(x));
                            let q = choose|q: int| 0 <= q < before.len() && before[q] == x;
                            assert(stale@[q] == x);
                        } else {
                            assert(stale@[before.len() as int] == x);
                        }
                    }
                }
            }
            i = i + 1;
        }
        proof {
            assert forall|x: WindowId| stale@.to_set().contains(x) <==> gone.contains(x) by {
                if gone.contains(x) {
                    assert(self.windows@.dom().contains(x));
                    assert(wkeys@.contains(x));
                    let j = choose|j: int| 0 <= j < wkeys@.len() && wkeys@[j] == x;
                    assert(0 <= j < i && wkeys@[j] == x && !reported_window_ids(list).contains(x));
                }
                if stale@.contains(x) {
                    let j = choose|j: int| 0 <= j < i && #[trigger] wkeys@[j] == x && !reported_window_ids(list).contains(x);
                    assert(wkeys@.contains(x));
                    assert(s0.windows.dom().contains(x));
                }
            }
            assert(stale@.to_set() =~= gone);
        }
        // Forget the closed windows.
        let mut i: usize = 0;
        while i < stale.len()
            invariant
                i <= stale@.len(),
                self@ == (StateView { windows: s0.windows.remove_keys(first_of(stale@, i as int)), ..s0 }),
            decreases stale@.len() - i,
        {
            let ghost old_ws = self.windows@;
            let k = stale[i];
            self.windows.remove(&k);
            proof {
                lemma_windows_view_remove(old_ws, k);
                assert(first_of(stale@, i + 1) =~= first_of(stale@, i as int).insert(k)) by {
                    assert forall|x: WindowId| first_of(stale@, i + 1).contains(x) <==> first_of(stale@, i as int).insert(k).contains(x) by {
                        if first_of(stale@, i + 1).contains(x) {
                            let q = choose|q: int| 0 <= q < i + 1 && stale@[q] == x;
                            if q < i {
                                assert(first_of(stale@, i as int).contains(x));
                            }
                        }
                        if first_of(stale@, i as int).contains(x) {
                            let q = choose|q: int| 0 <= q < i && stale@[q] == x;
                            assert(0 <= q < i + 1 && stale@[q] == x);
                        }
                        if x == k {
                            assert(0 <= i < i + 1 && stale@[i as int] == x);
                        }
                    }
                }
                assert(self@.windows =~= s0.windows.remove_keys(first_of(stale@, i + 1)));
            }
            i = i + 1;
        }
        proof {
            assert forall|x: WindowId| first_of(stale@, i as int).contains(x) <==> gone.contains(x) by {
                if gone.contains(x) {
                    assert(stale@.to_set().contains(x));
                    let q = choose|q: int| 0 <= q < stale@.len() && stale@[q] == x;
                    assert(0 <= q < i && stale@[q] == x);
                }
                if first_of(stale@, i as int).contains(x) {
                    let q = choose|q: int| 0 <= q < i && stale@[q] == x;
                    assert(stale@.contains(x));
                    assert(stale@.to_set().contains(x));
                }
            }
            assert(first_of(stale@, i as int) =~= gone);
        }
        let ghost s1 = self@;
        // Take them off every monitor.
        let ids = self.sorted_monitor_ids();
        let mut i: usize = 0;
        while i < ids.len()
            invariant
                i <= ids@.len(),
                lists_in_order(ids@, s0.monitors.dom()),
                stale@.to_set() == gone,
                strictly_sorted(changed@),
                tags_fit(self@.monitors),
                self@.windows == s1.windows,
                self@.hidden_workspace == s0.hidden_workspace,
                self@.focused_monitor_id == s0.focused_monitor_id,
                self@.monitors.dom() == s0.monitors.dom(),
                forall|k: MonitorId| #[trigger] s0.monitors.dom().contains(k) ==> self@.monitors[k] == if first_of(ids@, i as int).contains(k) {
                    MonitorView { tags: drop_windows(s0.monitors[k].tags, gone), ..s0.monitors[k] }
                } else {
                    s0.monitors[k]
                },
                forall|x: MonitorId| changed@.contains(x) <==> (old(changed)@.contains(x) || exists|k: MonitorId| #[trigger] first_of(ids@, i as int).contains(k) && s0.monitors[k].id == x && holds_any(s0.monitors[k].tags, gone)),
            decreases ids@.len() - i,
        {
            let k = ids[i];
            assert(ids@.contains(k));
            assert(!first_of(ids@, i as int).contains(k)) by {
                if first_of(ids@, i as int).contains(k) {
                    let q = choose|q: int| 0 <= q < i && ids@[q] == k;
                    assert(ids@[q] < ids@[i as int]);
                }
            }
            let ghost before = self@;
            let ghost ch_before = changed@;
            assert(before.monitors[k] == s0.monitors[k]);
            self.drop_from_monitor(k, &stale, changed);
            let ghost held = holds_any(s0.monitors[k].tags, gone);
            let ghost mid = s0.monitors[k].id;
            assert(forall|x: MonitorId| changed@.contains(x) <==> (ch_before.contains(x) || (held && x == mid)));
            proof {
                assert(first_of(ids@, i + 1) =~= first_of(ids@, i as int).insert(k)) by {
                    assert forall|x: MonitorId| first_of(ids@, i + 1).contains(x) <==> first_of(ids@, i as int).insert(k).contains(x) by {
                        if first_of(ids@, i + 1).contains(x) {
                            let q = choose|q: int| 0 <= q < i + 1 && ids@[q] == x;
                            if q < i {
                                assert(first_of(ids@, i as int).contains(x));
                            }
                        }
                        if first_of(ids@, i as int).contains(x) {
                            let q = choose|q: int| 0 <= q < i && ids@[q] == x;
                            assert(0 <= q < i + 1 && ids@[q] == x);
                        }
                        if x == k {
                            assert(0 <= i < i + 1 && ids@[i as int] == x);
                        }
                    }
                }
                assert forall|x: MonitorId| changed@.contains(x) <==> (old(changed)@.contains(x) || exists|kk: MonitorId| #[trigger] first_of(ids@, i + 1).contains(kk) && s0.monitors[kk].id == x && holds_any(s0.monitors[kk].tags, gone)) by {
                    if exists|kk: MonitorId| #[trigger] first_of(ids@, i + 1).contains(kk) && s0.monitors[kk].id == x && holds_any(s0.monitors[kk].tags, gone) {
                        let kk = choose|kk: MonitorId| #[trigger] first_of(ids@, i + 1).contains(kk) && s0.monitors[kk].id == x && holds_any(s0.monitors[kk].tags, gone);
                        if kk != k {
                            assert(first_of(ids@, i as int).contains(kk));
                            assert(ch_before.contains(x));
                        } else {
                            assert(held && x == mid);
                        }
                    }
                    if changed@.contains(x) && !old(changed)@.contains(x) {
                        if ch_before.contains(x) {
                            let kk = choose|kk: MonitorId| #[trigger] first_of(ids@, i as int).contains(kk) && s0.monitors[kk].id == x && holds_any(s0.monitors[kk].tags, gone);
                            assert(first_of(ids@, i + 1).contains(kk));
                        } else {
                            assert(first_of(ids@, i + 1).contains(k));
                        }
                    }
                }
            }
            i = i + 1;
        }
        proof {
            assert forall|k: MonitorId| first_of(ids@, i as int).contains(k) <==> s0.monitors.dom().contains(k) by {
                if s0.monitors.dom().contains(k) {
                    assert(ids@.contains(k));
                    let q = choose|q: int| 0 <= q < ids@.len() && ids@[q] == k;
                    assert(0 <= q < i && ids@[q] == k);
                }
                if first_of(ids@, i as int).contains(k) {
                    let q = choose|q: int| 0 <= q < i && ids@[q] == k;
                    assert(ids@.contains(k));
                }
            }
            assert(self@.monitors =~= drop_windows_everywhere(s0.monitors, gone));
            assert forall|x: MonitorId| changed@.contains(x) <==> (old(changed)@.contains(x) || monitors_holding_any(s0.monitors, gone).contains(x)) by {
                if monitors_holding_any(s0.monitors, gone).contains(x) {
                    let kk = choose|kk: MonitorId| #[trigger] s0.monitors.dom().contains(kk) && s0.monitors[kk].id == x && holds_any(s0.monitors[kk].tags, gone);
                    assert(first_of(ids@, i as int).contains(kk));
                }
                if !old(changed)@.contains(x) && changed@.contains(x) {
                    let kk = choose|kk: MonitorId| #[trigger] first_of(ids@, i as int).contains(kk) && s0.monitors[kk].id == x && holds_any(s0.monitors[kk].tags, gone);
                    assert(s0.monitors.dom().contains(kk));
                }
            }
        }
    }
}

// ---------------------------------------------------------------------------
// Windows that appeared
// ---------------------------------------------------------------------------
/// The predicate "shows workspace `ws`".
pub open spec fn showing(ws: Seq<char>) -> spec_fn(MonitorView) -> bool {
    |m: MonitorView| m.visible_workspace == ws
}

/// The id of the monitor (the one with the smallest key) that shows workspace `ws`.
pub open spec fn monitor_showing(ms: Map<MonitorId, MonitorView>, ws: Seq<char>) -> Option<MonitorId> {
    match min_key_where(ms, showing(ws)) {
        Some(k) => Some(ms[k].id),
        None => None,
    }
}

/// The monitor a new window goes to: the one showing its workspace; a window on no workspace
/// goes to the focused monitor.
pub open spec fn assigned_monitor(ms: Map<MonitorId, MonitorView>, w: AerospaceWindowView, focused: Option<MonitorId>) -> Option<MonitorId> {
    match w.workspace {
        Some(ws) => monitor_showing(ms, ws),
        None => focused,
    }
}

/// Windows, monitors and the ids of the monitors changed so far.
#[verifier::ext_equal]
pub struct Placed {
    pub windows: Map<WindowId, WindowInfoView>,
    pub monitors: Map<MonitorId, MonitorView>,
    pub changed: Set<MonitorId>,
}

/// Taking one reported window into account: an unknown window that can be given a monitor is
/// remembered and, if that monitor is known, put on its lowest shown tag.
pub open spec fn place_window(p: Placed, w: AerospaceWindowView, focused: Option<MonitorId>) -> Placed {
    if p.windows.dom().contains(w.window_id) {
        p
    } else {
        match assigned_monitor(p.monitors, w, focused) {
            None => p,
            Some(mid) => if p.monitors.dom().contains(mid) {
                Placed {
                    windows: p.windows.insert(w.window_id, window_info_of(w)),
                    monitors: assign_window_spec(p.monitors, w.window_id, lowest_selected_tag(p.monitors[mid]), mid),
                    changed: p.changed.insert(mid),
                }
            } else {
                Placed { windows: p.windows.insert(w.window_id, window_info_of(w)), ..p }
            },
        }
    }
}

/// Taking the reported windows into account one after another.
pub open spec fn place_windows(p: Placed, list: Seq<AerospaceWindowView>, focused: Option<MonitorId>) -> Placed
    decreases list.len(),
{
    if list.len() == 0 {
        p
    } else {
        place_window(place_windows(p, list.drop_last(), focused), list.last(), focused)
    }
}

impl State {
    /// The id of the monitor (the one with the smallest key) that shows workspace `ws`.
    #[verifier::spinoff_prover]
    pub fn monitor_showing(&self, ws: &String) -> (r: Option<MonitorId>)
        ensures
            r == monitor_showing(self@.monitors, ws@),
    {
        let ids = self.sorted_monitor_ids();
        let ghost ms = self@.monitors;
        let mut i: usize = 0;
        while i < ids.len()
            invariant
                i <= ids.len(),
                ms == self@.monitors,
                lists_in_order(ids@, ms.dom()),
                forall|j: int| 0 <= j < i ==> !key_where(ms, showing(ws@), #[trigger] ids@[j]),
            decreases ids.len() - i,
        {
            let k = ids[i];
            assert(ids@.contains(k));
            let m = self.monitors.get(&k).unwrap();
            assert(m@ == ms[k]);
            let same = m.visible_workspace == *ws;
            assert(same == (ms[k].visible_workspace == ws@));
            if same {
                proof {
                    assert(key_where(ms, showing(ws@), k));
                    assert forall|j: MonitorId| key_where(ms, showing(ws@), j) implies k <= j by {
                        assert(ids@.contains(j));
                        let q = choose|q: int| 0 <= q < ids@.len() && ids@[q] == j;
                        if q < i {
                        } else if q > i {
                        }
                    }
                    lemma_min_key(ms, showing(ws@), k);
                }
                return Some(m.id);
            }
            i = i + 1;
        }
        proof {
            assert forall|k: MonitorId| !key_where(ms, showing(ws@), k) by {
                if key_where(ms, showing(ws@), k) {
                    assert(ids@.contains(k));
                    let q = choose|q: int| 0 <= q < ids@.len() && ids@[q] == k;
                }
            }
        }
        None
    }

    /// Takes one reported window into account (see `place_window`): an unknown window that can
    /// be given a monitor is remembered and, if that monitor is known, put on its lowest shown
    /// tag, the monitor's id being added to `changed`.
    #[verifier::spinoff_prover]
    #[verifier::rlimit(30)]
    fn place_one_window(&mut self, w: &AerospaceWindow, focused: Option<MonitorId>, changed: &mut Vec<MonitorId>)
        requires
            tags_fit(old(self)@.monitors),
            strictly_sorted(old(changed)@),
        ensures
            tags_fit(final(self)@.monitors),
            strictly_sorted(final(changed)@),
            ({
                let p = place_window(
                    Placed { windows: old(self)@.windows, monitors: old(self)@.monitors, changed: old(changed)@.to_set() },
                    w@,
                    focused,
                );
                &&& final(self)@ == (StateView { windows: p.windows, monitors: p.monitors, ..old(self)@ })
                &&& final(changed)@.to_set() == p.changed
            }),
    {
        let ghost before = self@;
        let ghost ch_before = changed@;
        let ghost p_in = Placed { windows: before.windows, monitors: before.monitors, changed: ch_before.to_set() };
        if !self.windows.contains_key(&w.window_id) {
            let assigned = match &w.workspace {
                Some(ws) => self.monitor_showing(ws),
                None => focused,
            };
            if let Some(mid) = assigned {
                let ghost old_ms = self.monitors@;
                let mut known = false;
                match self.get_monitor_mut(mid) {
                    Some(m) => {
                        let target = (m.selected_tags.trailing_zeros()) as u8;
                        m.push_window(target as usize, w.window_id);
                        known = true;
                    },
                    None => {},
                }
                if known {
                    proof {
                        lemma_monitors_view_insert(old_ms, mid, self.monitors@[mid]);
                        assert(before.monitors.dom().contains(mid));
                        assert(before.monitors[mid].tags.len() <= NUM_TAGS);
                        lemma_tags_fit_insert(before.monitors, mid, self.monitors@[mid]@);
                        assert(self@.monitors =~= assign_window_spec(before.monitors, w.window_id, lowest_selected_tag(before.monitors[mid]), mid));
                    }
                    if !ids_contain(changed, mid) {
                        insert_sorted(changed, mid);
                    }
                    proof {
                        assert(changed@.to_set() =~= ch_before.to_set().insert(mid));
                    }
                } else {
                    assert(self@ =~= before);
                    assert(changed@ == ch_before);
                }
                let info = WindowInfo {
                    id: w.window_id,
                    app_name: w.app_name.clone(),
                    title: w.window_title.clone(),
                };
                let ghost old_ws = self.windows@;
                self.windows.insert(w.window_id, info);
                proof {
                    lemma_windows_view_insert(old_ws, w.window_id, info);
                    assert(info@ == window_info_of(w@));
                    let p = place_window(p_in, w@, focused);
                    assert(self@ =~= (StateView { windows: p.windows, monitors: p.monitors, ..before }));
                }
            } else {
                proof {
                    let p = place_window(p_in, w@, focused);
                    assert(p == p_in);
                    assert(self@ =~= (StateView { windows: p.windows, monitors: p.monitors, ..before }));
                }
            }
        } else {
            proof {
                let p = place_window(p_in, w@, focused);
                assert(p == p_in);
                assert(self@ =~= (StateView { windows: p.windows, monitors: p.monitors, ..before }));
            }
        }
    }

    /// Remembers the reported windows that are not known yet and puts each on the lowest shown
    /// tag of the monitor showing its workspace (a window on no workspace: the focused monitor);
    /// the ids of the monitors that got a window are added to `changed`.
    pub fn place_new_windows(&mut self, windows: &Vec<AerospaceWindow>, focused: Option<MonitorId>, changed: &mut Vec<MonitorId>)
        requires
            tags_fit(old(self)@.monitors),
            strictly_sorted(old(changed)@),
        ensures
            tags_fit(final(self)@.monitors),
            strictly_sorted(final(changed)@),
            ({
                let p = place_windows(
                    Placed { windows: old(self)@.windows, monitors: old(self)@.monitors, changed: old(changed)@.to_set() },
                    window_list_view(windows@),
                    focused,
                );
                &&& final(self)@ == (StateView { windows: p.windows, monitors: p.monitors, ..old(self)@ })
                &&& final(changed)@.to_set() == p.changed
            }),
    {
        let ghost list = window_list_view(windows@);
        let ghost p0 = Placed { windows: old(self)@.windows, monitors: old(self)@.monitors, changed: old(changed)@.to_set() };
        let mut i: usize = 0;
        while i < windows.len()
            invariant
                i <= windows@.len(),
                list == window_list_view(windows@),
                tags_fit(self@.monitors),
                strictly_sorted(changed@),
                ({
                    let p = place_windows(p0, list.take(i as int), focused);
                    &&& self@ == (StateView { windows: p.windows, monitors: p.monitors, ..old(self)@ })
                    &&& changed@.to_set() == p.changed
                }),
            decreases windows@.len() - i,
        {
            let w = &windows[i];
            proof {
                assert(list.take(i + 1).drop_last() =~= list.take(i as int));
                assert(list.take(i + 1).last() == w@);
                let p = place_windows(p0, list.take(i as int), focused);
                assert(Placed { windows: self@.windows, monitors: self@.monitors, changed: changed@.to_set() } =~= p);
            }
            self.place_one_window(w, focused, changed);
            i = i + 1;
        }
        assert(list.take(i as int) =~= list);
    }
}

// ---------------------------------------------------------------------------
// Focus stuck on a hidden workspace
// ---------------------------------------------------------------------------
/// The first tag that holds `w`.
pub open spec fn first_tag_holding(tags: Seq<Seq<WindowId>>, w: WindowId) -> int {
    choose|i: int| 0 <= i < tags.len() && tags[i].contains(w) && forall|j: int| 0 <= j < i ==> !tags[j].contains(w)
}

/// When AeroSpace focuses a hidden workspace, the monitor (with the smallest key) holding the
/// focused window switches to the window's first tag; a different focused monitor gets its
/// visible workspace focused back.
pub open spec fn focus_rescue_step(s: StateView, workspace: Option<AerospaceWorkspaceView>, window: Option<AerospaceWindowView>, focused: Option<AerospaceMonitorView>) -> (StateView, Seq<ActionView>) {
    match (workspace, window) {
        (Some(fws), Some(w)) if is_hidden_name(fws.workspace) => match first_holder_key(s.monitors, w.window_id) {
            Some(k) => {
                let mid = s.monitors[k].id;
                let tag = first_tag_holding(s.monitors[k].tags, w.window_id) as u8;
                let (s2, acts) = if s.monitors.dom().contains(mid) {
                    update_and_announce(s, mid, select_tag_spec(s.monitors[mid], tag))
                } else {
                    (s, Seq::empty())
                };
                let restore = match focused {
                    Some(cm) if cm.monitor_id != mid && s2.monitors.dom().contains(cm.monitor_id) => seq![
                        ActionView::FocusWorkspace(s2.monitors[cm.monitor_id].visible_workspace),
                    ],
                    _ => Seq::empty(),
                };
                (s2, acts + restore)
            },
            None => (s, Seq::empty()),
        },
        _ => (s, Seq::empty()),
    }
}

/// Announcing the monitors stored under `ids`, one after another.
pub open spec fn broadcast_all(ms: Map<MonitorId, MonitorView>, ids: Seq<MonitorId>) -> Seq<ActionView>
    decreases ids.len(),
{
    if ids.len() == 0 {
        Seq::empty()
    } else {
        broadcast_all(ms, ids.drop_last()) + broadcast_spec(ms, ids.last())
    }
}

/// The first steps of bringing the state in line with what AeroSpace reports: the reported
/// monitors are taken into account (and, if one was new, the workspaces are lined up again); the
/// monitors no longer reported are dropped and their windows rescued; closed windows are
/// forgotten; new windows are placed. Gives the state, the actions so far and the ids of the
/// monitors changed.
pub open spec fn sync_core(
    s: StateView,
    wl: Seq<AerospaceWindowView>,
    ml: Seq<AerospaceMonitorView>,
    visible: Map<u32, Seq<char>>,
    focused_id: Option<MonitorId>,
) -> (StateView, Seq<ActionView>, Set<MonitorId>) {
    let ms1 = reconcile_monitors(s.monitors, ml, visible);
    let init = if reports_new_monitor(s.monitors, ml) {
        seq![ActionView::InitializeMonitors(ml)]
    } else {
        Seq::empty()
    };
    let (ms2, changed2, acts2) = rescue_step(ms1, ml);
    let gone = stale_ids(s.windows, wl);
    let p3 = Placed {
        windows: s.windows.remove_keys(gone),
        monitors: drop_windows_everywhere(ms2, gone),
        changed: changed2 + monitors_holding_any(ms2, gone),
    };
    let p4 = place_windows(p3, wl, focused_id);
    (StateView { windows: p4.windows, monitors: p4.monitors, ..s }, init + acts2, p4.changed)
}

/// Bringing the state in line with what AeroSpace reports. Nothing happens unless both the
/// windows and the monitors could be listed. After `sync_core`, every changed monitor is
/// announced, in ascending order of ids, and focus stuck on a hidden workspace is brought back.
pub open spec fn sync_step(
    s: StateView,
    windows: Option<Seq<AerospaceWindowView>>,
    monitors: Option<Seq<AerospaceMonitorView>>,
    visible: Map<u32, Seq<char>>,
    workspace: Option<AerospaceWorkspaceView>,
    window: Option<AerospaceWindowView>,
    focused: Option<AerospaceMonitorView>,
) -> (StateView, Seq<ActionView>) {
    match (windows, monitors) {
        (Some(wl), Some(ml)) => {
            let focused_id = match focused {
                Some(fm) => Some(fm.monitor_id),
                None => None,
            };
            let (s4, acts, changed) = sync_core(s, wl, ml, visible, focused_id);
            let acts5 = broadcast_all(s4.monitors, in_order(changed));
            let (s6, acts6) = focus_rescue_step(s4, workspace, window, focused);
            (s6, acts + acts5 + acts6)
        },
        _ => (s, Seq::empty()),
    }
}

pub open spec fn opt_window_list_view(l: Option<Vec<AerospaceWindow>>) -> Option<Seq<AerospaceWindowView>> {
    match l {
        Some(v) => Some(window_list_view(v@)),
        None => None,
    }
}

pub open spec fn opt_monitor_list_view(l: Option<Vec<AerospaceMonitor>>) -> Option<Seq<AerospaceMonitorView>> {
    match l {
        Some(v) => Some(monitor_list_view(v@)),
        None => None,
    }
}

pub open spec fn opt_workspace_view(w: Option<AerospaceWorkspace>) -> Option<AerospaceWorkspaceView> {
    match w {
        Some(x) => Some(x@),
        None => None,
    }
}

impl Monitor {
    /// The first tag that holds `w`, which some tag does.
    pub fn first_tag_holding(&self, w: WindowId) -> (r: usize)
        requires
            holds_window(self@.tags, w),
        ensures
            r as int == first_tag_holding(self@.tags, w),
            r < self@.tags.len(),
    {
        let ghost tags = self@.tags;
        let mut i: usize = 0;
        while i < self.tags.len()
            invariant
                i <= self.tags@.len(),
                tags == self@.tags,
                holds_window(tags, w),
                forall|j: int| 0 <= j < i ==> !(#[trigger] tags[j]).contains(w),
            decreases self.tags@.len() - i,
        {
            if self.tags[i].contains(w) {
                proof {
                    assert(tags[i as int].contains(w));
                    let c = first_tag_holding(tags, w);
                    assert(0 <= i < tags.len() && tags[i as int].contains(w) && forall|j: int| 0 <= j < i ==> !tags[j].contains(w));
                    assert(0 <= c < tags.len() && tags[c].contains(w) && forall|j: int| 0 <= j < c ==> !tags[j].contains(w));
                    if c < i {
                    } else if c > i {
                    }
                }
                return i;
            }
            i = i + 1;
        }
        proof {
            let j = choose|j: int| 0 <= j < tags.len() && #[trigger] tags[j].contains(w);
        }
        0
    }
}

impl State {
    /// Brings focus back from a hidden workspace: shows the focused window's first tag on the
    /// monitor that holds it, and focuses a different focused monitor's visible workspace again.
    #[verifier::spinoff_prover]
    #[verifier::rlimit(100)]
    pub fn rescue_focus(&mut self, workspace: &Option<AerospaceWorkspace>, window: &Option<AerospaceWindow>, focused: &Option<AerospaceMonitor>) -> (r: Vec<Action>)
        requires
            tags_fit(old(self)@.monitors),
        ensures
            tags_fit(final(self)@.monitors),
            (final(self)@, actions_view(r@)) == focus_rescue_step(old(self)@, opt_workspace_view(*workspace), opt_window_view(*window), opt_monitor_view(*focused)),
    {
        let mut out: Vec<Action> = Vec::new();
        assert(actions_view(out@) =~= Seq::<ActionView>::empty());
        let fws = match workspace {
            Some(x) => x,
            None => return out,
        };
        let w = match window {
            Some(x) => x,
            None => return out,
        };
        if !is_hidden_workspace(fws.workspace.as_str()) {
            return out;
        }
        let k = match self.first_holder(w.window_id) {
            Some(k) => k,
            None => return out,
        };
        let (mid, tag) = {
            assert(self.monitors@.dom().contains(k));
            let m = self.monitors.get(&k).unwrap();
            assert(m@ == self@.monitors[k]);
            (m.id, m.first_tag_holding(w.window_id))
        };
        let ghost s0 = self@;
        let mut acts = self.change_selection(mid, SelectionChange::Select(tag as u8));
        let ghost s2 = self@;
        if let Some(cm) = focused {
            if cm.monitor_id != mid {
                match self.monitors.get(&cm.monitor_id) {
                    Some(wrong) => {
                        assert(self@.monitors.dom().contains(cm.monitor_id));
                        assert(wrong@ == self@.monitors[cm.monitor_id]);
                        let ghost before = acts@;
                        acts.push(Action::FocusWorkspace(wrong.visible_workspace.clone()));
                        assert(actions_view(acts@) =~= actions_view(before) + seq![
                            ActionView::FocusWorkspace(s2.monitors[cm.monitor_id].visible_workspace),
                        ]);
                    },
                    None => {
                        assert(actions_view(acts@) =~= actions_view(acts@) + Seq::<ActionView>::empty());
                    },
                }
            } else {
                assert(actions_view(acts@) =~= actions_view(acts@) + Seq::<ActionView>::empty());
            }
        } else {
            assert(actions_view(acts@) =~= actions_view(acts@) + Seq::<ActionView>::empty());
        }
        acts
    }

    /// The first steps of a sync (see `sync_core`); returns the actions so far and the ids of
    /// the changed monitors in ascending order.
    #[verifier::spinoff_prover]
    #[verifier::rlimit(50)]
    pub fn sync_core(
        &mut self,
        wl: &Vec<AerospaceWindow>,
        ml: &Vec<AerospaceMonitor>,
        visible: &HashMap<u32, String>,
        focused_id: Option<MonitorId>,
    ) -> (r: (Vec<Action>, Vec<MonitorId>))
        requires
            tags_fit(old(self)@.monitors),
        ensures
            tags_fit(final(self)@.monitors),
            ({
                let (s4, acts, changed) = sync_core(old(self)@, window_list_view(wl@), monitor_list_view(ml@), visible_view(visible@), focused_id);
                &&& final(self)@ == s4
                &&& actions_view(r.0@) == acts
                &&& lists_in_order(r.1@, changed)
            }),
    {
        let mut out: Vec<Action> = Vec::new();
        let ghost s0 = self@;
        let new_monitor = self.reconcile_monitors(ml, visible);
        if new_monitor {
            out.push(Action::InitializeMonitors(duplicate_monitors(ml)));
        }
        assert(actions_view(out@) =~= if reports_new_monitor(s0.monitors, monitor_list_view(ml@)) {
            seq![ActionView::InitializeMonitors(monitor_list_view(ml@))]
        } else {
            Seq::empty()
        });
        let ghost init = actions_view(out@);
        let ghost s1 = self@;
        let (mut changed, mut rescue_acts) = self.rescue_windows(ml);
        let ghost acts2 = actions_view(rescue_acts@);
        let ghost changed2 = changed@.to_set();
        let ghost before2 = out@;
        out.append(&mut rescue_acts);
        assert(actions_view(out@) =~= init + acts2) by {
            assert(out@ =~= before2 + rescue_acts@.take(0) + (out@.skip(before2.len() as int)));
        }
        let ghost s2 = self@;
        proof {
            assert(forall|x: MonitorId| changed@.contains(x) <==> changed2.contains(x));
        }
        self.drop_closed_windows(wl, &mut changed);
        let ghost gone = stale_ids(s2.windows, window_list_view(wl@));
        proof {
            assert(changed@.to_set() =~= changed2 + monitors_holding_any(s2.monitors, gone));
        }
        let ghost s3 = self@;
        let ghost changed3 = changed@.to_set();
        self.place_new_windows(wl, focused_id, &mut changed);
        proof {
            lemma_in_order(changed@, changed@.to_set());
            let wlv = window_list_view(wl@);
            let mlv = monitor_list_view(ml@);
            let vis = visible_view(visible@);
            let ms1 = reconcile_monitors(s0.monitors, mlv, vis);
            assert(s1.monitors == ms1);
            assert(s2.windows == s0.windows);
            let (ms2, ch2, a2) = rescue_step(ms1, mlv);
            assert(s2.monitors == ms2);
            assert(changed2 == ch2);
            assert(acts2 == a2);
            let p3 = Placed {
                windows: s0.windows.remove_keys(gone),
                monitors: drop_windows_everywhere(ms2, gone),
                changed: ch2 + monitors_holding_any(ms2, gone),
            };
            assert(gone == stale_ids(s0.windows, wlv));
            assert(s3.windows == p3.windows);
            assert(s3.monitors == p3.monitors);
            assert(changed3 == p3.changed);
            let p4 = place_windows(p3, wlv, focused_id);
            assert(self@ == (StateView { windows: p4.windows, monitors: p4.monitors, ..s0 }));
            assert(changed@.to_set() == p4.changed);
            let core = sync_core(s0, wlv, mlv, vis, focused_id);
            assert(self@ == core.0);
            assert(actions_view(out@) == core.1);
            assert(lists_in_order(changed@, core.2));
        }
        (out, changed)
    }

    /// Brings the state in line with what AeroSpace reports (see `sync_step`).
    #[verifier::spinoff_prover]
    #[verifier::rlimit(50)]
    pub fn handle_sync(
        &mut self,
        windows: Option<Vec<AerospaceWindow>>,
        monitors: Option<Vec<AerospaceMonitor>>,
        visible: HashMap<u32, String>,
        workspace: Option<AerospaceWorkspace>,
        window: Option<AerospaceWindow>,
        focused: Option<AerospaceMonitor>,
    ) -> (r: Vec<Action>)
        requires
            tags_fit(old(self)@.monitors),
        ensures
            tags_fit(final(self)@.monitors),
            (final(self)@, actions_view(r@)) == sync_step(
                old(self)@,
                opt_window_list_view(windows),
                opt_monitor_list_view(monitors),
                visible_view(visible@),
                opt_workspace_view(workspace),
                opt_window_view(window),
                opt_monitor_view(focused),
            ),
    {
        let wl = match windows {
            Some(v) => v,
            None => {
                let out: Vec<Action> = Vec::new();
                assert(actions_view(out@) =~= Seq::<ActionView>::empty());
                return out;
            },
        };
        let ml = match monitors {
            Some(v) => v,
            None => {
                let out: Vec<Action> = Vec::new();
                assert(actions_view(out@) =~= Seq::<ActionView>::empty());
                return out;
            },
        };
        let ghost s0 = self@;
        let focused_id = match &focused {
            Some(fm) => Some(fm.monitor_id),
            None => None,
        };
        let (mut out, changed) = self.sync_core(&wl, &ml, &visible, focused_id);
        let ghost core = sync_core(s0, window_list_view(wl@), monitor_list_view(ml@), visible_view(visible@), focused_id);
        let ghost s4 = self@;
        let ghost before5 = actions_view(out@);
        proof {
            lemma_in_order(changed@, core.2);
        }
        let mut i: usize = 0;
        while i < changed.len()
            invariant
                i <= changed@.len(),
                self@ == s4,
                tags_fit(self@.monitors),
                actions_view(out@) == before5 + broadcast_all(s4.monitors, changed@.take(i as int)),
            decreases changed@.len() - i,
        {
            push_broadcast(self, changed[i], &mut out);
            proof {
                assert(changed@.take(i + 1).drop_last() =~= changed@.take(i as int));
                assert(actions_view(out@) =~= before5 + broadcast_all(s4.monitors, changed@.take(i + 1)));
            }
            i = i + 1;
        }
        assert(changed@.take(i as int) =~= changed@);
        let ghost before6 = actions_view(out@);
        let mut focus_acts = self.rescue_focus(&workspace, &window, &focused);
        let ghost acts6 = actions_view(focus_acts@);
        let ghost pre = out@;
        let ghost fa = focus_acts@;
        out.append(&mut focus_acts);
        proof {
            assert(out@ == pre + fa);
            assert(actions_view(out@) =~= before6 + acts6);
        }
        out
    }
}

} // verus!
