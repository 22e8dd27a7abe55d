//! Properties of keeping the server's monitors and windows in line with what AeroSpace reports.
use vstd::prelude::*;
use crate::aerospace::{AerospaceMonitorView, AerospaceWindowView, AerospaceWorkspaceView};
use crate::server::initial_monitors;
use crate::state::{assign_window_spec, holds_window, MonitorId, MonitorView, StateView, WindowId};
use crate::text::{decimal, is_hidden_name, lemma_decimal_not_hidden};
use crate::ids::{in_order, lemma_in_order_lists};
use crate::server::lowest_selected_tag;
use crate::sync::{
    append_to_tag, concat, drop_windows_everywhere, min_reported_id, windows_of_monitors, focus_rescue_step, place_window, place_windows, reconcile_monitors,
    reconcile_one, removed_ids, reported_ids, reported_window_ids, rescue_step, stale_ids,
    sync_step, Placed,
};

verus! {

broadcast use vstd::seq_lib::group_filter_ensures;

/// No tag of the list holds a window in `gone`.
pub open spec fn tags_clear_of(tags: Seq<Seq<WindowId>>, gone: Set<WindowId>) -> bool {
    forall|i: int, x: WindowId| 0 <= i < tags.len() && #[trigger] tags[i].contains(x) ==> !gone.contains(x)
}

/// No tag of any monitor holds a window in `gone`.
pub open spec fn monitors_clear_of(ms: Map<MonitorId, MonitorView>, gone: Set<WindowId>) -> bool {
    forall|k: MonitorId| #[trigger] ms.dom().contains(k) ==> tags_clear_of(ms[k].tags, gone)
}

proof fn lemma_reported_ids_last(list: Seq<AerospaceMonitorView>)
    requires
        list.len() > 0,
    ensures
        reported_ids(list) == reported_ids(list.drop_last()).insert(list.last().monitor_id),
{
    let r = list.drop_last();
    assert forall|k: MonitorId| reported_ids(list).contains(k) <==> reported_ids(r).insert(list.last().monitor_id).contains(k) by {
        if reported_ids(list).contains(k) {
            let i = choose|i: int| 0 <= i < list.len() && #[trigger] list[i].monitor_id == k;
            if i < r.len() {
                assert(r[i] == list[i]);
            }
        }
        if reported_ids(r).contains(k) {
            let i = choose|i: int| 0 <= i < r.len() && #[trigger] r[i].monitor_id == k;
            assert(list[i] == r[i]);
        }
        if k == list.last().monitor_id {
            assert(list[list.len() - 1].monitor_id == k);
        }
    }
    assert(reported_ids(list) =~= reported_ids(r).insert(list.last().monitor_id));
}

proof fn lemma_reported_window_ids_last(list: Seq<AerospaceWindowView>)
    requires
        list.len() > 0,
    ensures
        reported_window_ids(list) == reported_window_ids(list.drop_last()).insert(list.last().window_id),
{
    let r = list.drop_last();
    assert forall|k: WindowId| reported_window_ids(list).contains(k) <==> reported_window_ids(r).insert(list.last().window_id).contains(k) by {
        if reported_window_ids(list).contains(k) {
            let i = choose|i: int| 0 <= i < list.len() && #[trigger] list[i].window_id == k;
            if i < r.len() {
                assert(r[i] == list[i]);
            }
        }
        if reported_window_ids(r).contains(k) {
            let i = choose|i: int| 0 <= i < r.len() && #[trigger] r[i].window_id == k;
            assert(list[i] == r[i]);
        }
        if k == list.last().window_id {
            assert(list[list.len() - 1].window_id == k);
        }
    }
    assert(reported_window_ids(list) =~= reported_window_ids(r).insert(list.last().window_id));
}

/// Taking the reported monitors into account adds exactly the reported ids to the keys.
proof fn lemma_reconcile_keys(ms: Map<MonitorId, MonitorView>, list: Seq<AerospaceMonitorView>, visible: Map<u32, Seq<char>>)
    ensures
        reconcile_monitors(ms, list, visible).dom() == ms.dom() + reported_ids(list),
    decreases list.len(),
{
    if list.len() == 0 {
        assert(reported_ids(list) =~= Set::<MonitorId>::empty());
        assert(ms.dom() + reported_ids(list) =~= ms.dom());
    } else {
        lemma_reconcile_keys(ms, list.drop_last(), visible);
        lemma_reported_ids_last(list);
        let prev = reconcile_monitors(ms, list.drop_last(), visible);
        assert(reconcile_one(prev, list.last(), visible).dom() =~= prev.dom().insert(list.last().monitor_id));
        assert(reconcile_monitors(ms, list, visible).dom() =~= ms.dom() + reported_ids(list));
    }
}

/// Dropping the monitors no longer reported leaves exactly the reported ones.
proof fn lemma_rescue_keys(ms: Map<MonitorId, MonitorView>, list: Seq<AerospaceMonitorView>)
    requires
        reported_ids(list).subset_of(ms.dom()),
    ensures
        rescue_step(ms, list).0.dom() == reported_ids(list),
{
    let removed = removed_ids(ms, list);
    if removed == Set::<MonitorId>::empty() {
        assert forall|k: MonitorId| ms.dom().contains(k) implies reported_ids(list).contains(k) by {
            if !reported_ids(list).contains(k) {
                assert(removed.contains(k));
            }
        }
        assert(ms.dom() =~= reported_ids(list));
    } else if list.len() == 0 {
        assert(reported_ids(list) =~= Set::<MonitorId>::empty());
        assert(Map::<MonitorId, MonitorView>::empty().dom() =~= reported_ids(list));
    } else {
        let ms1 = ms.remove_keys(removed);
        assert(ms1.dom() =~= reported_ids(list));
        let rescue = crate::sync::min_reported_id(list);
        if ms1.dom().contains(rescue) {
            let rm = ms1[rescue];
            assert forall|v: MonitorView| #[trigger] ms1.insert(rescue, v).dom() == ms1.dom() by {
                assert(ms1.insert(rescue, v).dom() =~= ms1.dom());
            }
        }
    }
}

proof fn lemma_assign_keys(ms: Map<MonitorId, MonitorView>, w: WindowId, tag: u8, mid: MonitorId)
    ensures
        assign_window_spec(ms, w, tag, mid).dom() == ms.dom(),
{
    if ms.dom().contains(mid) {
        let m = ms[mid];
        assert(assign_window_spec(ms, w, tag, mid).dom() =~= ms.dom());
    }
}

/// Placing new windows keeps the monitors' keys.
proof fn lemma_place_windows_keys(p: Placed, list: Seq<AerospaceWindowView>, focused: Option<MonitorId>)
    ensures
        place_windows(p, list, focused).monitors.dom() == p.monitors.dom(),
    decreases list.len(),
{
    if list.len() > 0 {
        lemma_place_windows_keys(p, list.drop_last(), focused);
        let q = place_windows(p, list.drop_last(), focused);
        let w = list.last();
        match crate::sync::assigned_monitor(q.monitors, w, focused) {
            Some(mid) => lemma_assign_keys(q.monitors, w.window_id, crate::server::lowest_selected_tag(q.monitors[mid]), mid),
            None => {},
        }
    }
}

/// Placing new windows only remembers reported windows, and forgets none.
proof fn lemma_place_windows_windows(p: Placed, list: Seq<AerospaceWindowView>, focused: Option<MonitorId>)
    ensures
        forall|x: WindowId| #[trigger] place_windows(p, list, focused).windows.dom().contains(x)
            ==> p.windows.dom().contains(x) || reported_window_ids(list).contains(x),
        p.windows.dom().subset_of(place_windows(p, list, focused).windows.dom()),
    decreases list.len(),
{
    if list.len() > 0 {
        lemma_place_windows_windows(p, list.drop_last(), focused);
        lemma_reported_window_ids_last(list);
    }
}

/// Placing new windows that are not in `gone` adds none of `gone` to a tag.
proof fn lemma_place_windows_clear(p: Placed, list: Seq<AerospaceWindowView>, focused: Option<MonitorId>, gone: Set<WindowId>)
    requires
        monitors_clear_of(p.monitors, gone),
        forall|j: int| 0 <= j < list.len() ==> !gone.contains(#[trigger] list[j].window_id),
    ensures
        monitors_clear_of(place_windows(p, list, focused).monitors, gone),
    decreases list.len(),
{
    if list.len() > 0 {
        let r = list.drop_last();
        assert forall|j: int| 0 <= j < r.len() implies !gone.contains(#[trigger] r[j].window_id) by {
            assert(r[j] == list[j]);
        }
        lemma_place_windows_clear(p, r, focused, gone);
        let q = place_windows(p, r, focused);
        let w = list.last();
        assert(!gone.contains(list[list.len() - 1].window_id));
        if !q.windows.dom().contains(w.window_id) {
            match crate::sync::assigned_monitor(q.monitors, w, focused) {
                Some(mid) => {
                    if q.monitors.dom().contains(mid) {
                        let tag = crate::server::lowest_selected_tag(q.monitors[mid]);
                        let t = tag as int;
                        let m = q.monitors[mid];
                        let ms2 = assign_window_spec(q.monitors, w.window_id, tag, mid);
                        assert(tags_clear_of(m.tags, gone));
                        assert forall|k: MonitorId| #[trigger] ms2.dom().contains(k) implies tags_clear_of(ms2[k].tags, gone) by {
                            if k == mid {
                                let tags = ms2[k].tags;
                                assert forall|i: int, x: WindowId| 0 <= i < tags.len() && #[trigger] tags[i].contains(x) implies !gone.contains(x) by {
                                    if i == t && 0 <= t < m.tags.len() {
                                        assert(tags[i] == m.tags[i].push(w.window_id));
                                        if x != w.window_id {
                                            let j = choose|j: int| 0 <= j < tags[i].len() && tags[i][j] == x;
                                            assert(j < m.tags[i].len());
                                            assert(m.tags[i][j] == x);
                                            assert(m.tags[i].contains(x));
                                        }
                                    } else {
                                        assert(tags[i] == m.tags[i]);
                                        assert(m.tags[i].contains(x));
                                    }
                                }
                            } else {
                                assert(ms2[k] == q.monitors[k]);
                            }
                        }
                    }
                },
                None => {},
            }
        }
    }
}

/// Putting focus back from a hidden workspace changes only a monitor's selection.
#[verifier::spinoff_prover]
proof fn lemma_focus_rescue_keeps(
    s: StateView,
    workspace: Option<AerospaceWorkspaceView>,
    window: Option<AerospaceWindowView>,
    focused: Option<AerospaceMonitorView>,
)
    ensures
        ({
            let r = focus_rescue_step(s, workspace, window, focused).0;
            &&& r.monitors.dom() == s.monitors.dom()
            &&& r.windows == s.windows
            &&& forall|k: MonitorId| #[trigger] s.monitors.dom().contains(k) ==> r.monitors[k].tags == s.monitors[k].tags
        }),
{
    let r = focus_rescue_step(s, workspace, window, focused).0;
    match (workspace, window) {
        (Some(fws), Some(w)) => {
            if crate::text::is_hidden_name(fws.workspace) {
                match crate::state::first_holder_key(s.monitors, w.window_id) {
                    Some(k) => {
                        let mid = s.monitors[k].id;
                        let tag = crate::sync::first_tag_holding(s.monitors[k].tags, w.window_id) as u8;
                        if s.monitors.dom().contains(mid) {
                            let m2 = crate::state::select_tag_spec(s.monitors[mid], tag);
                            let s2 = crate::server::update_and_announce(s, mid, m2).0;
                            assert(s2.monitors.dom() =~= s.monitors.dom());
                            assert(r == s2);
                        } else {
                            assert(r == s);
                        }
                    },
                    None => {},
                }
            }
        },
        _ => {},
    }
}

/// After a sync in which both the windows and the monitors could be listed, the server keeps
/// exactly the monitors AeroSpace reported.
pub proof fn law_sync_monitors_are_reported(
    s: StateView,
    wl: Seq<AerospaceWindowView>,
    ml: Seq<AerospaceMonitorView>,
    visible: Map<u32, Seq<char>>,
    workspace: Option<AerospaceWorkspaceView>,
    window: Option<AerospaceWindowView>,
    focused: Option<AerospaceMonitorView>,
)
    ensures
        sync_step(s, Some(wl), Some(ml), visible, workspace, window, focused).0.monitors.dom() == reported_ids(ml),
{
    let focused_id = match focused {
        Some(fm) => Some(fm.monitor_id),
        None => None,
    };
    let ms1 = reconcile_monitors(s.monitors, ml, visible);
    lemma_reconcile_keys(s.monitors, ml, visible);
    lemma_rescue_keys(ms1, ml);
    let (ms2, changed2, acts2) = rescue_step(ms1, ml);
    let gone = stale_ids(s.windows, wl);
    let p3 = Placed {
        windows: s.windows.remove_keys(gone),
        monitors: drop_windows_everywhere(ms2, gone),
        changed: changed2 + crate::sync::monitors_holding_any(ms2, gone),
    };
    assert(p3.monitors.dom() =~= ms2.dom());
    lemma_place_windows_keys(p3, wl, focused_id);
    let s4 = crate::sync::sync_core(s, wl, ml, visible, focused_id).0;
    lemma_focus_rescue_keeps(s4, workspace, window, focused);
}

/// After a sync in which both the windows and the monitors could be listed, the server knows
/// only windows AeroSpace reported, still knows every known window that was reported, and no
/// tag holds a known window that was not reported.
pub proof fn law_sync_forgets_closed_windows(
    s: StateView,
    wl: Seq<AerospaceWindowView>,
    ml: Seq<AerospaceMonitorView>,
    visible: Map<u32, Seq<char>>,
    workspace: Option<AerospaceWorkspaceView>,
    window: Option<AerospaceWindowView>,
    focused: Option<AerospaceMonitorView>,
)
    ensures
        ({
            let r = sync_step(s, Some(wl), Some(ml), visible, workspace, window, focused).0;
            &&& forall|x: WindowId| #[trigger] r.windows.dom().contains(x) ==> reported_window_ids(wl).contains(x)
            &&& forall|x: WindowId| s.windows.dom().contains(x) && reported_window_ids(wl).contains(x) ==> #[trigger] r.windows.dom().contains(x)
            &&& monitors_clear_of(r.monitors, stale_ids(s.windows, wl))
        }),
{
    let focused_id = match focused {
        Some(fm) => Some(fm.monitor_id),
        None => None,
    };
    let ms1 = reconcile_monitors(s.monitors, ml, visible);
    let (ms2, changed2, acts2) = rescue_step(ms1, ml);
    let gone = stale_ids(s.windows, wl);
    let p3 = Placed {
        windows: s.windows.remove_keys(gone),
        monitors: drop_windows_everywhere(ms2, gone),
        changed: changed2 + crate::sync::monitors_holding_any(ms2, gone),
    };
    assert forall|k: MonitorId| #[trigger] p3.monitors.dom().contains(k) implies tags_clear_of(p3.monitors[k].tags, gone) by {
        let tags = p3.monitors[k].tags;
        assert forall|i: int, x: WindowId| 0 <= i < tags.len() && #[trigger] tags[i].contains(x) implies !gone.contains(x) by {
            let t = ms2[k].tags[i];
            let f = crate::sync::kept_by(gone);
            assert(tags[i] == t.filter(f));
            let j = choose|j: int| 0 <= j < t.filter(f).len() && t.filter(f)[j] == x;
            assert(f(t.filter(f)[j]));
        }
    }
    assert forall|j: int| 0 <= j < wl.len() implies !gone.contains(#[trigger] wl[j].window_id) by {
        assert(reported_window_ids(wl).contains(wl[j].window_id));
    }
    lemma_place_windows_clear(p3, wl, focused_id, gone);
    lemma_place_windows_windows(p3, wl, focused_id);
    let s4 = crate::sync::sync_core(s, wl, ml, visible, focused_id).0;
    lemma_focus_rescue_keeps(s4, workspace, window, focused);
    let r = sync_step(s, Some(wl), Some(ml), visible, workspace, window, focused).0;
    assert forall|k: MonitorId| #[trigger] r.monitors.dom().contains(k) implies tags_clear_of(r.monitors[k].tags, gone) by {
        assert(s4.monitors.dom().contains(k));
    }
    assert forall|x: WindowId| s.windows.dom().contains(x) && reported_window_ids(wl).contains(x) implies #[trigger] r.windows.dom().contains(x) by {
        assert(!gone.contains(x));
        assert(p3.windows.dom().contains(x));
    }
    assert forall|x: WindowId| #[trigger] r.windows.dom().contains(x) implies reported_window_ids(wl).contains(x) by {
        if p3.windows.dom().contains(x) && !reported_window_ids(wl).contains(x) {
            assert(gone.contains(x));
        }
    }
}

/// The server starts with exactly the monitors AeroSpace lists, each on the workspace named
/// after its id, showing tag 0 alone.
pub proof fn law_initial_monitors(list: Seq<AerospaceMonitorView>)
    ensures
        initial_monitors(list).dom() == reported_ids(list),
        forall|k: MonitorId| #[trigger] initial_monitors(list).dom().contains(k) ==> {
            let m = initial_monitors(list)[k];
            &&& m.id == k
            &&& m.visible_workspace == decimal(k as nat)
            &&& m.selected_tags == 1
        },
    decreases list.len(),
{
    if list.len() == 0 {
        assert(reported_ids(list) =~= Set::<MonitorId>::empty());
        assert(initial_monitors(list).dom() =~= reported_ids(list));
    } else {
        law_initial_monitors(list.drop_last());
        lemma_reported_ids_last(list);
        assert(initial_monitors(list).dom() =~= reported_ids(list));
    }
}

proof fn lemma_concat_contains(ss: Seq<Seq<WindowId>>, i: int, x: WindowId)
    requires
        0 <= i < ss.len(),
        ss[i].contains(x),
    ensures
        concat(ss).contains(x),
    decreases ss.len(),
{
    let r = ss.drop_last();
    if i < r.len() {
        assert(r[i] == ss[i]);
        lemma_concat_contains(r, i, x);
        let j = choose|j: int| 0 <= j < concat(r).len() && concat(r)[j] == x;
        assert(concat(ss)[j] == x);
    } else {
        let j = choose|j: int| 0 <= j < ss[i].len() && ss[i][j] == x;
        assert(concat(ss)[concat(r).len() + j] == x);
    }
}

proof fn lemma_min_reported_id_reported(list: Seq<AerospaceMonitorView>)
    requires
        list.len() > 0,
    ensures
        reported_ids(list).contains(min_reported_id(list)),
    decreases list.len(),
{
    if list.len() == 1 {
        assert(list[0].monitor_id == min_reported_id(list));
    } else {
        lemma_min_reported_id_reported(list.drop_last());
        lemma_reported_ids_last(list);
    }
}

/// When monitors go away, every window on one of their tags lands on the lowest shown tag of the
/// remaining monitor with the smallest id, provided that monitor shows some tag it has.
pub proof fn law_rescue_keeps_windows(
    ms: Map<MonitorId, MonitorView>,
    list: Seq<AerospaceMonitorView>,
    k: MonitorId,
    i: int,
    x: WindowId,
)
    requires
        ms.dom().finite(),
        reported_ids(list).subset_of(ms.dom()),
        list.len() > 0,
        ms.dom().contains(k),
        !reported_ids(list).contains(k),
        0 <= i < ms[k].tags.len(),
        ms[k].tags[i].contains(x),
        (lowest_selected_tag(ms[min_reported_id(list)]) as int) < ms[min_reported_id(list)].tags.len(),
    ensures
        ({
            let rescue = min_reported_id(list);
            let after = rescue_step(ms, list).0;
            &&& after.dom().contains(rescue)
            &&& after[rescue].tags[lowest_selected_tag(ms[rescue]) as int].contains(x)
        }),
{
    let removed = removed_ids(ms, list);
    assert(removed.contains(k));
    assert(removed != Set::<MonitorId>::empty());
    let rescue = min_reported_id(list);
    lemma_min_reported_id_reported(list);
    let ms1 = ms.remove_keys(removed);
    assert(ms1.dom().contains(rescue));
    assert(ms1[rescue] == ms[rescue]);
    assert(removed.finite()) by {
        assert(removed.subset_of(ms.dom()));
        vstd::set_lib::lemma_len_subset(removed, ms.dom());
    }
    lemma_in_order_lists(removed);
    let keys = in_order(removed);
    assert(keys.contains(k));
    let q = choose|q: int| 0 <= q < keys.len() && keys[q] == k;
    let per = keys.map_values(|key: MonitorId| concat(ms[key].tags));
    lemma_concat_contains(ms[k].tags, i, x);
    assert(per[q] == concat(ms[k].tags));
    lemma_concat_contains(per, q, x);
    let rescued = windows_of_monitors(ms, keys);
    assert(rescued == concat(per));
    assert(rescued.len() > 0);
    let rm = ms1[rescue];
    let t = lowest_selected_tag(rm) as int;
    let tags2 = append_to_tag(rm.tags, t, rescued);
    assert(tags2[t] == rm.tags[t] + rescued);
    let j = choose|j: int| 0 <= j < rescued.len() && rescued[j] == x;
    assert(tags2[t][rm.tags[t].len() + j] == x);
}

/// The monitors of `after` that were known in `before` show the same workspace as before, and
/// a monitor not known before shows no hidden workspace, while every monitor of `before` whose
/// reported workspace is hidden is still there.
pub open spec fn keeps_off_hidden(
    before: Map<MonitorId, MonitorView>,
    after: Map<MonitorId, MonitorView>,
    visible: Map<u32, Seq<char>>,
) -> bool {
    &&& forall|k: MonitorId| #[trigger] before.dom().contains(k) && visible.dom().contains(k) && is_hidden_name(visible[k])
        ==> after.dom().contains(k) && after[k].visible_workspace == before[k].visible_workspace
    &&& forall|k: MonitorId| #[trigger] after.dom().contains(k) && !before.dom().contains(k)
        ==> !is_hidden_name(after[k].visible_workspace)
}

/// Taking the reported monitors into account never puts a monitor on a hidden workspace: a
/// known monitor for which AeroSpace reports a hidden workspace (`h-...`) as the visible one
/// keeps the workspace it had, and a monitor added shows no hidden workspace.
pub proof fn law_reconcile_never_hidden(
    ms: Map<MonitorId, MonitorView>,
    list: Seq<AerospaceMonitorView>,
    visible: Map<u32, Seq<char>>,
)
    ensures
        keeps_off_hidden(ms, reconcile_monitors(ms, list, visible), visible),
    decreases list.len(),
{
    if list.len() > 0 {
        law_reconcile_never_hidden(ms, list.drop_last(), visible);
        let prev = reconcile_monitors(ms, list.drop_last(), visible);
        let m = list.last();
        let id = m.monitor_id;
        let after = reconcile_one(prev, m, visible);
        lemma_decimal_not_hidden(id as nat);
        assert forall|k: MonitorId| #[trigger] ms.dom().contains(k) && visible.dom().contains(k) && is_hidden_name(visible[k])
            implies after.dom().contains(k) && after[k].visible_workspace == ms[k].visible_workspace by {
            assert(prev.dom().contains(k));
            if k == id {
                assert(crate::sync::reported_visible(visible, id) == visible[k]);
                assert(after == prev);
            }
        }
        assert forall|k: MonitorId| #[trigger] after.dom().contains(k) && !ms.dom().contains(k)
            implies !is_hidden_name(after[k].visible_workspace) by {
            if k != id {
                assert(prev.dom().contains(k));
            } else if prev.dom().contains(k) {
                let ws = crate::sync::reported_visible(visible, id);
                if prev[k].visible_workspace != ws && !is_hidden_name(ws) {
                    assert(after[k].visible_workspace == ws);
                } else {
                    assert(after == prev);
                }
            }
        }
    }
}

/// The monitors stored under `after`'s keys were all in `before` and show the same workspace.
pub open spec fn same_workspaces(before: Map<MonitorId, MonitorView>, after: Map<MonitorId, MonitorView>) -> bool {
    forall|k: MonitorId| #[trigger] after.dom().contains(k)
        ==> before.dom().contains(k) && after[k].visible_workspace == before[k].visible_workspace
}

proof fn lemma_place_windows_workspaces(p: Placed, list: Seq<AerospaceWindowView>, focused: Option<MonitorId>)
    ensures
        same_workspaces(p.monitors, place_windows(p, list, focused).monitors),
    decreases list.len(),
{
    if list.len() > 0 {
        lemma_place_windows_workspaces(p, list.drop_last(), focused);
    }
}

/// A sync in which both lists could be read never leaves a monitor on a hidden workspace as its
/// visible one: a known monitor for which AeroSpace reports a hidden workspace keeps the
/// workspace it had, and a monitor the sync adds shows no hidden workspace.
pub proof fn law_sync_never_shows_hidden(
    s: StateView,
    wl: Seq<AerospaceWindowView>,
    ml: Seq<AerospaceMonitorView>,
    visible: Map<u32, Seq<char>>,
    workspace: Option<AerospaceWorkspaceView>,
    window: Option<AerospaceWindowView>,
    focused: Option<AerospaceMonitorView>,
)
    ensures
        ({
            let r = sync_step(s, Some(wl), Some(ml), visible, workspace, window, focused).0;
            &&& forall|k: MonitorId| #[trigger] r.monitors.dom().contains(k) && s.monitors.dom().contains(k)
                && visible.dom().contains(k) && is_hidden_name(visible[k])
                ==> r.monitors[k].visible_workspace == s.monitors[k].visible_workspace
            &&& forall|k: MonitorId| #[trigger] r.monitors.dom().contains(k) && !s.monitors.dom().contains(k)
                ==> !is_hidden_name(r.monitors[k].visible_workspace)
        }),
{
    let focused_id = match focused {
        Some(fm) => Some(fm.monitor_id),
        None => None,
    };
    let ms1 = reconcile_monitors(s.monitors, ml, visible);
    law_reconcile_never_hidden(s.monitors, ml, visible);
    let (ms2, changed2, acts2) = rescue_step(ms1, ml);
    assert(same_workspaces(ms1, ms2)) by {
        let removed = removed_ids(ms1, ml);
        if removed != Set::<MonitorId>::empty() && ml.len() != 0 {
            let rescue = min_reported_id(ml);
            let m1 = ms1.remove_keys(removed);
            assert(same_workspaces(ms1, m1));
        }
    }
    let gone = stale_ids(s.windows, wl);
    let p3 = Placed {
        windows: s.windows.remove_keys(gone),
        monitors: drop_windows_everywhere(ms2, gone),
        changed: changed2 + crate::sync::monitors_holding_any(ms2, gone),
    };
    assert(same_workspaces(ms2, p3.monitors));
    lemma_place_windows_workspaces(p3, wl, focused_id);
    let s4 = crate::sync::sync_core(s, wl, ml, visible, focused_id).0;
    lemma_focus_rescue_keeps(s4, workspace, window, focused);
    let r = sync_step(s, Some(wl), Some(ml), visible, workspace, window, focused).0;
    assert(same_workspaces(s4.monitors, r.monitors)) by {
        assert forall|k: MonitorId| #[trigger] r.monitors.dom().contains(k)
            implies s4.monitors.dom().contains(k) && r.monitors[k].visible_workspace == s4.monitors[k].visible_workspace by {
            lemma_focus_rescue_workspaces(s4, workspace, window, focused, k);
        }
    }
}

proof fn lemma_focus_rescue_workspaces(
    s: StateView,
    workspace: Option<AerospaceWorkspaceView>,
    window: Option<AerospaceWindowView>,
    focused: Option<AerospaceMonitorView>,
    k: MonitorId,
)
    requires
        s.monitors.dom().contains(k),
    ensures
        focus_rescue_step(s, workspace, window, focused).0.monitors[k].visible_workspace == s.monitors[k].visible_workspace,
{
}

/// Every monitor is stored under its own id.
pub open spec fn keyed_by_id(ms: Map<MonitorId, MonitorView>) -> bool {
    forall|k: MonitorId| #[trigger] ms.dom().contains(k) ==> ms[k].id == k
}

/// What the server remembers of a newly reported window: its id, app and title.
pub open spec fn remembered(w: AerospaceWindowView) -> crate::state::WindowInfoView {
    crate::state::WindowInfoView { id: w.window_id, app_name: w.app_name, title: w.window_title }
}

/// Monitor `k` got window `w`: it is remembered, the monitor is marked changed, and the window
/// is on the monitor's lowest shown tag (if the monitor shows one of its tags).
pub open spec fn placed_on(before: Placed, after: Placed, w: AerospaceWindowView, k: MonitorId) -> bool {
    let m = before.monitors[k];
    let t = lowest_selected_tag(m) as int;
    &&& after.windows.dom().contains(w.window_id)
    &&& after.windows[w.window_id] == remembered(w)
    &&& after.changed.contains(k)
    &&& after.monitors.dom() == before.monitors.dom()
    &&& after.monitors[k].selected_tags == m.selected_tags
    &&& t < m.tags.len() ==> after.monitors[k].tags[t].contains(w.window_id)
}

/// How a sync takes in a reported window: a known window changes nothing; an unknown window on
/// a workspace goes to the known monitor (the one with the smallest id) that shows that workspace,
/// and is not taken in when no known monitor shows it; an unknown window on no workspace goes to
/// the focused monitor.
pub proof fn law_new_window_placement(p: Placed, w: AerospaceWindowView, focused: Option<MonitorId>)
    requires
        p.monitors.dom().finite(),
        keyed_by_id(p.monitors),
    ensures
        p.windows.dom().contains(w.window_id) ==> place_window(p, w, focused) == p,
        !p.windows.dom().contains(w.window_id) ==> match w.workspace {
            Some(ws) => {
                &&& (exists|k: MonitorId| #[trigger] p.monitors.dom().contains(k) && p.monitors[k].visible_workspace == ws)
                    ==> exists|k: MonitorId| #[trigger] p.monitors.dom().contains(k) && p.monitors[k].visible_workspace == ws
                        && (forall|j: MonitorId| #[trigger] p.monitors.dom().contains(j) && p.monitors[j].visible_workspace == ws ==> k <= j)
                        && placed_on(p, place_window(p, w, focused), w, k)
                &&& !(exists|k: MonitorId| #[trigger] p.monitors.dom().contains(k) && p.monitors[k].visible_workspace == ws)
                    ==> place_window(p, w, focused) == p
            },
            None => match focused {
                Some(f) => p.monitors.dom().contains(f) ==> placed_on(p, place_window(p, w, focused), w, f),
                None => place_window(p, w, focused) == p,
            },
        },
{
    let r = place_window(p, w, focused);
    if !p.windows.dom().contains(w.window_id) {
        match w.workspace {
            Some(ws) => {
                let pred = crate::sync::showing(ws);
                if exists|k: MonitorId| #[trigger] p.monitors.dom().contains(k) && p.monitors[k].visible_workspace == ws {
                    let k0 = choose|k: MonitorId| #[trigger] p.monitors.dom().contains(k) && p.monitors[k].visible_workspace == ws;
                    assert(crate::state::key_where(p.monitors, pred, k0));
                    crate::state::lemma_min_key_exists(p.monitors, pred);
                    let k = min_key_where_of(p.monitors, pred);
                    assert(crate::sync::monitor_showing(p.monitors, ws) == Some(k));
                    lemma_assign_keys(p.monitors, w.window_id, lowest_selected_tag(p.monitors[k]), k);
                    let t = lowest_selected_tag(p.monitors[k]) as int;
                    if t < p.monitors[k].tags.len() {
                        let pushed = r.monitors[k].tags[t];
                        assert(pushed == p.monitors[k].tags[t].push(w.window_id));
                        assert(pushed[pushed.len() - 1] == w.window_id);
                    }
                    assert forall|j: MonitorId| #[trigger] p.monitors.dom().contains(j) && p.monitors[j].visible_workspace == ws implies k <= j by {
                        assert(crate::state::key_where(p.monitors, pred, j));
                    }
                    assert(placed_on(p, r, w, k));
                } else {
                    assert(!exists|k: MonitorId| crate::state::key_where(p.monitors, pred, k));
                }
            },
            None => {
                if let Some(f) = focused {
                    if p.monitors.dom().contains(f) {
                        lemma_assign_keys(p.monitors, w.window_id, lowest_selected_tag(p.monitors[f]), f);
                        let t = lowest_selected_tag(p.monitors[f]) as int;
                        if t < p.monitors[f].tags.len() {
                            let pushed = r.monitors[f].tags[t];
                            assert(pushed == p.monitors[f].tags[t].push(w.window_id));
                            assert(pushed[pushed.len() - 1] == w.window_id);
                        }
                    }
                }
            },
        }
    }
}

spec fn min_key_where_of(ms: Map<MonitorId, MonitorView>, p: spec_fn(MonitorView) -> bool) -> MonitorId {
    crate::state::min_key_where(ms, p).unwrap()
}

/// Tag `t` is the first tag of the list that holds `w`.
pub open spec fn first_tag_with(tags: Seq<Seq<WindowId>>, w: WindowId, t: int) -> bool {
    &&& 0 <= t < tags.len()
    &&& tags[t].contains(w)
    &&& forall|u: int| 0 <= u < t ==> !(#[trigger] tags[u]).contains(w)
}

/// When focus lands on a hidden workspace (a dock click on a parked window), the sync brings the
/// window back into view: the known monitor (with the smallest id) that holds the focused window
/// switches to showing exactly the first tag holding it, its windows unchanged, and if another
/// known monitor had the focus, that monitor's visible workspace is focused again last. Focus on
/// a workspace that is not hidden changes nothing.
pub proof fn law_focus_rescue(
    s: StateView,
    fws: AerospaceWorkspaceView,
    w: AerospaceWindowView,
    focused: Option<AerospaceMonitorView>,
)
    requires
        s.monitors.dom().finite(),
        keyed_by_id(s.monitors),
        crate::state::tags_fit(s.monitors),
    ensures
        !is_hidden_name(fws.workspace) ==> focus_rescue_step(s, Some(fws), Some(w), focused) == (s, Seq::<crate::server::ActionView>::empty()),
        is_hidden_name(fws.workspace)
            && (exists|k: MonitorId| #[trigger] s.monitors.dom().contains(k) && holds_window(s.monitors[k].tags, w.window_id))
            ==> exists|k: MonitorId| {
                let (r, acts) = focus_rescue_step(s, Some(fws), Some(w), focused);
                &&& #[trigger] s.monitors.dom().contains(k)
                &&& holds_window(s.monitors[k].tags, w.window_id)
                &&& (forall|j: MonitorId| #[trigger] s.monitors.dom().contains(j) && holds_window(s.monitors[j].tags, w.window_id) ==> k <= j)
                &&& exists|t: int| first_tag_with(s.monitors[k].tags, w.window_id, t)
                    && r.monitors[k].selected_tags == crate::state::tag_bit(t as u8)
                &&& r.monitors[k].tags == s.monitors[k].tags
                &&& r.monitors.dom() == s.monitors.dom()
                &&& r.windows == s.windows
                &&& match focused {
                    Some(cm) => cm.monitor_id != k && s.monitors.dom().contains(cm.monitor_id) ==> acts.len() > 0
                        && acts.last() == crate::server::ActionView::FocusWorkspace(s.monitors[cm.monitor_id].visible_workspace),
                    None => true,
                }
            },
{
    if is_hidden_name(fws.workspace)
        && (exists|k: MonitorId| #[trigger] s.monitors.dom().contains(k) && holds_window(s.monitors[k].tags, w.window_id)) {
        let pred = crate::state::holding(w.window_id);
        let k0 = choose|k: MonitorId| #[trigger] s.monitors.dom().contains(k) && holds_window(s.monitors[k].tags, w.window_id);
        assert(crate::state::key_where(s.monitors, pred, k0));
        crate::state::lemma_min_key_exists(s.monitors, pred);
        let k = min_key_where_of(s.monitors, pred);
        assert(crate::state::first_holder_key(s.monitors, w.window_id) == Some(k));
        let tags = s.monitors[k].tags;
        let q = |t: Seq<WindowId>| t.contains(w.window_id);
        let hi = choose|i: int| 0 <= i < tags.len() && #[trigger] tags[i].contains(w.window_id);
        assert(q(tags[hi]));
        let fi = crate::ids::lemma_first_index(tags, q);
        assert(tags[fi].contains(w.window_id) && forall|j: int| 0 <= j < fi ==> !tags[j].contains(w.window_id)) by {
            assert forall|j: int| 0 <= j < fi implies !tags[j].contains(w.window_id) by {
                assert(!q(tags[j]));
            }
        }
        let t = crate::sync::first_tag_holding(tags, w.window_id);
        assert(first_tag_with(tags, w.window_id, t));
        assert(t < 32);
        let (r, acts) = focus_rescue_step(s, Some(fws), Some(w), focused);
        let m2 = crate::state::select_tag_spec(s.monitors[k], t as u8);
        assert(r.monitors.dom() =~= s.monitors.dom());
        assert(r.monitors[k] == m2);
        assert forall|j: MonitorId| #[trigger] s.monitors.dom().contains(j) && holds_window(s.monitors[j].tags, w.window_id) implies k <= j by {
            assert(crate::state::key_where(s.monitors, pred, j));
        }
        assert({
            &&& s.monitors.dom().contains(k)
            &&& holds_window(s.monitors[k].tags, w.window_id)
            &&& first_tag_with(s.monitors[k].tags, w.window_id, t)
            &&& r.monitors[k].selected_tags == crate::state::tag_bit(t as u8)
        });
    }
}

} // verus!
