//! Properties of the tag model that hold across operations.
use vstd::prelude::*;
use crate::aerospace::{AerospaceMonitorView, AerospaceWindowView};
use crate::ids::{in_order, lemma_in_order_len, lemma_in_order_lists};
use crate::bits::{has_bit, lemma_mask_ext, lemma_mask_of_bits, lemma_mask_of_unset_tail, lemma_single_bit, lemma_xor_bit, mask_of, NUM_TAGS};
use crate::server::{
    hide_moves, index_of, tags_past_mask_empty, lowest_selected_tag, neighbour_index, occupied_mask, show_moves,
    sync_plan_spec, tag_last_step, tag_view_step, toggled_tags, window_mask,
    window_move_monitor_step, window_toggle_step, monitor_for_window, snapshot_spec,
    tag_toggle_step, tag_set_step, named_or_focused, window_move_step, window_set_step,
    named_or_focused_window,
};
use crate::ipc::StateEventView;
use crate::query::{query_monitor_spec, query_state_spec, query_window_spec, MonitorReportView, QueryResponseView, WindowReportView};
use crate::state::MonitorId;
use crate::text::hidden_workspace_of;
use crate::state::{
    add_by_mask, held_elsewhere, holds_window, other_than, push_to_tag, restore_last_spec,
    select_tag_spec, tag_bit, toggle_tag_spec, without_window, MonitorView, StateView, WindowId,
};

verus! {

/// Bit `i` of a monitor's occupied mask is set exactly when tag `i` holds a window; tags past
/// the 32 a mask can name may be present if they are empty.
pub proof fn law_occupied_mask_bits(tags: Seq<Seq<WindowId>>, i: int)
    requires
        tags_past_mask_empty(tags),
        0 <= i < 32,
    ensures
        has_bit(occupied_mask(tags), i) <==> (i < tags.len() && tags[i].len() > 0),
{
    let flags = tags.map_values(|t: Seq<WindowId>| t.len() > 0);
    if flags.len() > 32 {
        assert forall|j: int| 32 <= j < flags.len() implies !flags[j] by {
            assert(tags[j].len() == 0);
        }
        lemma_mask_of_unset_tail(flags, 32);
        let head = flags.take(32);
        lemma_mask_of_bits(head);
        assert(has_bit(mask_of(head), i) <==> (i < head.len() && head[i]));
    } else {
        lemma_mask_of_bits(flags);
        assert(has_bit(mask_of(flags), i) <==> (i < flags.len() && flags[i]));
    }
}

/// Bit `i` of a window's tag mask is set exactly when tag `i` holds the window.
pub proof fn law_window_mask_bits(tags: Seq<Seq<WindowId>>, w: WindowId, i: int)
    requires
        tags.len() <= NUM_TAGS,
        0 <= i < 32,
    ensures
        has_bit(window_mask(tags, w), i) <==> (i < tags.len() && tags[i].contains(w)),
{
    let flags = tags.map_values(|t: Seq<WindowId>| t.contains(w));
    lemma_mask_of_bits(flags);
    assert(has_bit(mask_of(flags), i) <==> (i < flags.len() && flags[i]));
}

/// Viewing a tag shows that tag and no other.
pub proof fn law_select_shows_only_that_tag(m: MonitorView, tag: u8)
    requires
        tag < 32,
    ensures
        select_tag_spec(m, tag).selected_tags == tag_bit(tag),
        forall|i: int| 0 <= i < 32 ==> (has_bit(select_tag_spec(m, tag).selected_tags, i) <==> i == tag),
{
    assert forall|i: int| 0 <= i < 32 implies (has_bit(select_tag_spec(m, tag).selected_tags, i) <==> i == tag) by {
        lemma_single_bit(tag as u32, i as u32);
    }
}

/// Viewing the same tag twice is viewing it once.
pub proof fn law_select_idempotent(m: MonitorView, tag: u8)
    ensures
        select_tag_spec(select_tag_spec(m, tag), tag) == select_tag_spec(m, tag),
{
}

/// Toggling a tag twice brings back the selection.
pub proof fn law_toggle_twice(m: MonitorView, tag: u8)
    ensures
        toggle_tag_spec(toggle_tag_spec(m, tag), tag).selected_tags == m.selected_tags,
{
    if tag < 32 {
        let a = m.selected_tags;
        let b = tag_bit(tag);
        assert((a ^ b) ^ b == a) by (bit_vector);
    }
}

/// Toggling a tag flips that tag's bit and keeps every other bit of the selection.
pub proof fn law_toggle_flips_one_tag(m: MonitorView, tag: u8, i: int)
    requires
        tag < 32,
        0 <= i < 32,
    ensures
        has_bit(toggle_tag_spec(m, tag).selected_tags, i) == if i == tag {
            !has_bit(m.selected_tags, i)
        } else {
            has_bit(m.selected_tags, i)
        },
{
    lemma_xor_bit(m.selected_tags, tag_bit(tag), i as u32);
    lemma_single_bit(tag as u32, i as u32);
}

/// Going back to the last selection undoes a view that changed the selection.
pub proof fn law_last_undoes_view(m: MonitorView, tag: u8)
    requires
        tag < 32,
        m.selected_tags != tag_bit(tag),
    ensures
        restore_last_spec(select_tag_spec(m, tag)).selected_tags == m.selected_tags,
        restore_last_spec(select_tag_spec(m, tag)).previous_tags == tag_bit(tag),
{
}

/// Going back to the last selection twice changes nothing.
pub proof fn law_last_twice(m: MonitorView)
    ensures
        restore_last_spec(restore_last_spec(m)) == m,
{
}

/// On the focused monitor, `tag-last` after a `tag-view` that changed the selection brings back
/// the selection shown before.
pub proof fn law_tag_last_after_tag_view(s: StateView, fm: AerospaceMonitorView, tag: u8)
    requires
        s.monitors.dom().contains(fm.monitor_id),
        tag < 32,
        s.monitors[fm.monitor_id].selected_tags != tag_bit(tag),
    ensures
        ({
            let s1 = tag_view_step(s, Some(fm), tag).0;
            let s2 = tag_last_step(s1, Some(fm)).0;
            &&& s1.monitors[fm.monitor_id].selected_tags == tag_bit(tag)
            &&& s2.monitors[fm.monitor_id].selected_tags == s.monitors[fm.monitor_id].selected_tags
            &&& s2.monitors.dom() == s.monitors.dom()
        }),
{
    let s1 = tag_view_step(s, Some(fm), tag).0;
    assert(s1.monitors.dom().contains(fm.monitor_id));
    let s2 = tag_last_step(s1, Some(fm)).0;
    assert(s2.monitors.dom() =~= s.monitors.dom());
}

/// A tag without all occurrences of `w` does not hold `w`.
pub proof fn lemma_filter_drops(t: Seq<WindowId>, w: WindowId)
    ensures
        !t.filter(other_than(w)).contains(w),
        forall|x: WindowId| x != w ==> (t.filter(other_than(w)).contains(x) <==> t.contains(x)),
    decreases t.len(),
{
    reveal(Seq::filter);
    if t.len() > 0 {
        lemma_filter_drops(t.drop_last(), w);
        let f = t.drop_last().filter(other_than(w));
        assert forall|x: WindowId| x != w implies (t.filter(other_than(w)).contains(x) <==> t.contains(x)) by {
            if t.contains(x) {
                let j = choose|j: int| 0 <= j < t.len() && t[j] == x;
                if j < t.len() - 1 {
                    assert(t.drop_last()[j] == x);
                    assert(f.contains(x));
                    let q = choose|q: int| 0 <= q < f.len() && f[q] == x;
                    assert(t.filter(other_than(w))[q] == x);
                } else {
                    assert(t.filter(other_than(w)) == f.push(x));
                    assert(t.filter(other_than(w))[f.len() as int] == x);
                }
            }
            if t.filter(other_than(w)).contains(x) {
                let q = choose|q: int| 0 <= q < t.filter(other_than(w)).len() && t.filter(other_than(w))[q] == x;
                if q < f.len() {
                    assert(f[q] == x);
                    assert(f.contains(x));
                    assert(t.drop_last().contains(x));
                    let j = choose|j: int| 0 <= j < t.drop_last().len() && t.drop_last()[j] == x;
                    assert(t.drop_last()[j] == t[j]);
                    assert(t[j] == x);
                } else {
                    assert(t[t.len() - 1] == x);
                }
            }
        }
        if t.filter(other_than(w)).contains(w) {
            let q = choose|q: int| 0 <= q < t.filter(other_than(w)).len() && t.filter(other_than(w))[q] == w;
            if q < f.len() {
                assert(f[q] == w);
            }
        }
    }
}

/// Moving a window to an existing tag leaves it on that tag alone.
pub proof fn law_window_move_exclusive(tags: Seq<Seq<WindowId>>, w: WindowId, tag: u8)
    requires
        tags.len() <= NUM_TAGS,
        (tag as int) < tags.len(),
    ensures
        window_mask(push_to_tag(without_window(tags, w), tag as int, w), w) == tag_bit(tag),
{
    let moved = push_to_tag(without_window(tags, w), tag as int, w);
    assert forall|i: int| 0 <= i < 32 implies has_bit(window_mask(moved, w), i) == has_bit(tag_bit(tag), i) by {
        law_window_mask_bits(moved, w, i);
        lemma_single_bit(tag as u32, i as u32);
        if i < tags.len() {
            lemma_filter_drops(tags[i], w);
            if i == tag {
                assert(moved[i] == tags[i].filter(other_than(w)).push(w));
                assert(moved[i][moved[i].len() - 1] == w);
            }
        }
    }
    lemma_mask_ext(window_mask(moved, w), tag_bit(tag));
}

/// Moving the focused window to the neighbouring monitor, which is always a known monitor, takes
/// it off every tag of the focused monitor and puts it on the neighbour's lowest shown tag; the
/// set of monitors stays the same.
pub proof fn law_move_monitor_relocates(s: StateView, w: AerospaceWindowView, cm: AerospaceMonitorView, target: Seq<char>)
    requires
        s.monitors.dom().finite(),
        s.monitors.dom().contains(cm.monitor_id),
    ensures
        ({
            let ids = in_order(s.monitors.dom());
            let next = ids[neighbour_index(index_of(ids, cm.monitor_id), ids.len() as int, target)];
            let r = window_move_monitor_step(s, Some(w), Some(cm), target).0;
            let low = lowest_selected_tag(s.monitors[next]) as int;
            &&& s.monitors.dom().contains(next)
            &&& r.monitors.dom() == s.monitors.dom()
            &&& next != cm.monitor_id ==> !holds_window(r.monitors[cm.monitor_id].tags, w.window_id)
            &&& next != cm.monitor_id && low < s.monitors[next].tags.len()
                ==> r.monitors[next].tags[low].contains(w.window_id)
        }),
{
    lemma_in_order_lists(s.monitors.dom());
    let ids = in_order(s.monitors.dom());
    assert(ids.contains(cm.monitor_id));
    let idx = index_of(ids, cm.monitor_id);
    let n = ids.len() as int;
    let ni = neighbour_index(idx, n, target);
    assert(0 <= ni < n);
    let next = ids[ni];
    assert(ids.contains(next));
    let r = window_move_monitor_step(s, Some(w), Some(cm), target).0;
    if next != cm.monitor_id {
        let cur = s.monitors[cm.monitor_id];
        let ms1 = s.monitors.insert(cm.monitor_id, MonitorView { tags: without_window(cur.tags, w.window_id), ..cur });
        let nm = ms1[next];
        assert(nm == s.monitors[next]);
        let low = lowest_selected_tag(nm) as int;
        assert(r.monitors.dom() =~= s.monitors.dom());
        assert(r.monitors[cm.monitor_id] == ms1[cm.monitor_id]);
        let t = r.monitors[cm.monitor_id].tags;
        if holds_window(t, w.window_id) {
            let i = choose|i: int| 0 <= i < t.len() && #[trigger] t[i].contains(w.window_id);
            lemma_filter_drops(cur.tags[i], w.window_id);
        }
        if low < nm.tags.len() {
            let pushed = r.monitors[next].tags[low];
            assert(pushed == nm.tags[low].push(w.window_id));
            assert(pushed[pushed.len() - 1] == w.window_id);
        }
    }
}

/// Setting a window's tags to `mask` on a monitor with all 32 tags gives it exactly those tags.
pub proof fn law_window_set_exact(tags: Seq<Seq<WindowId>>, w: WindowId, mask: u32)
    requires
        tags.len() == NUM_TAGS,
    ensures
        window_mask(add_by_mask(without_window(tags, w), mask, w), w) == mask,
{
    let set = add_by_mask(without_window(tags, w), mask, w);
    assert forall|i: int| 0 <= i < 32 implies has_bit(window_mask(set, w), i) == has_bit(mask, i) by {
        law_window_mask_bits(set, w, i);
        lemma_filter_drops(tags[i], w);
        if has_bit(mask, i) {
            assert(set[i] == tags[i].filter(other_than(w)).push(w));
            assert(set[i][set[i].len() - 1] == w);
        }
    }
    lemma_mask_ext(window_mask(set, w), mask);
}

/// Toggling a window's tag never takes its last tag away.
pub proof fn law_toggle_keeps_window(tags: Seq<Seq<WindowId>>, tag: int, w: WindowId)
    requires
        holds_window(tags, w),
    ensures
        toggled_tags(tags, tag, w) matches Some(t) ==> holds_window(t, w),
{
    match toggled_tags(tags, tag, w) {
        Some(t) => {
            if !tags[tag].contains(w) {
                assert(t[tag] == tags[tag].push(w));
                assert(t[tag][t[tag].len() - 1] == w);
                assert(t[tag].contains(w));
                assert(0 <= tag < t.len());
            } else {
                let j = choose|j: int| 0 <= j < tags.len() && j != tag && #[trigger] tags[j].contains(w);
                assert(t[j] == tags[j]);
                assert(t[j].contains(w));
            }
        },
        None => {},
    }
}

/// The safety guard: toggling the only tag that holds a window changes nothing.
pub proof fn law_toggle_only_tag_refused(tags: Seq<Seq<WindowId>>, tag: int, w: WindowId)
    requires
        0 <= tag < tags.len(),
        tags[tag].contains(w),
        !held_elsewhere(tags, tag, w),
    ensures
        toggled_tags(tags, tag, w) is None,
{
}

/// The workspace the last placement of window `w` puts it on, if any places it.
pub open spec fn last_placement(ps: Seq<(u32, Seq<char>)>, w: WindowId) -> Option<Seq<char>>
    decreases ps.len(),
{
    if ps.len() == 0 {
        None
    } else if ps.last().0 == w {
        Some(ps.last().1)
    } else {
        last_placement(ps.drop_last(), w)
    }
}

pub open spec fn places(ps: Seq<(u32, Seq<char>)>, w: WindowId) -> bool {
    exists|j: int| 0 <= j < ps.len() && (#[trigger] ps[j]).0 == w
}

pub open spec fn places_only_on(ps: Seq<(u32, Seq<char>)>, w: WindowId, ws: Seq<char>) -> bool {
    forall|j: int| 0 <= j < ps.len() && (#[trigger] ps[j]).0 == w ==> ps[j].1 == ws
}

proof fn lemma_last_placement_uniform(ps: Seq<(u32, Seq<char>)>, w: WindowId, ws: Seq<char>)
    requires
        places_only_on(ps, w, ws),
    ensures
        places(ps, w) ==> last_placement(ps, w) == Some(ws),
        !places(ps, w) ==> last_placement(ps, w) is None,
    decreases ps.len(),
{
    if ps.len() > 0 {
        let r = ps.drop_last();
        assert forall|j: int| 0 <= j < r.len() && (#[trigger] r[j]).0 == w implies r[j].1 == ws by {
            assert(ps[j] == r[j]);
        }
        lemma_last_placement_uniform(r, w, ws);
        if ps.last().0 != w {
            if places(ps, w) {
                let j = choose|j: int| 0 <= j < ps.len() && (#[trigger] ps[j]).0 == w;
                assert(r[j] == ps[j]);
            }
            if places(r, w) {
                let j = choose|j: int| 0 <= j < r.len() && (#[trigger] r[j]).0 == w;
                assert(r[j] == ps[j]);
            }
        } else {
            assert(ps[ps.len() - 1].0 == w);
        }
    }
}

proof fn lemma_last_placement_concat(a: Seq<(u32, Seq<char>)>, b: Seq<(u32, Seq<char>)>, w: WindowId)
    ensures
        last_placement(a + b, w) == if places(b, w) { last_placement(b, w) } else { last_placement(a, w) },
    decreases b.len(),
{
    if b.len() == 0 {
        assert(a + b =~= a);
    } else {
        assert((a + b).drop_last() =~= a + b.drop_last());
        lemma_last_placement_concat(a, b.drop_last(), w);
        if b.last().0 != w {
            if places(b, w) {
                let j = choose|j: int| 0 <= j < b.len() && (#[trigger] b[j]).0 == w;
                assert(b.drop_last()[j] == b[j]);
            }
            if places(b.drop_last(), w) {
                let j = choose|j: int| 0 <= j < b.drop_last().len() && (#[trigger] b.drop_last()[j]).0 == w;
                assert(b.drop_last()[j] == b[j]);
            }
        } else {
            assert(b[b.len() - 1].0 == w);
        }
    }
}

/// Some tag that the mask shows (or, with `shown` false, hides) holds `w`.
pub open spec fn in_tag_where(tags: Seq<Seq<WindowId>>, selected: u32, shown: bool, w: WindowId) -> bool {
    exists|i: int| 0 <= i < tags.len() && has_bit(selected, i) == shown && #[trigger] tags[i].contains(w)
}

proof fn lemma_show_moves(tags: Seq<Seq<WindowId>>, selected: u32, visible: Seq<char>, w: WindowId)
    ensures
        places_only_on(show_moves(tags, selected, visible), w, visible),
        places(show_moves(tags, selected, visible), w) == in_tag_where(tags, selected, true, w),
    decreases tags.len(),
{
    if tags.len() > 0 {
        let r = tags.drop_last();
        lemma_show_moves(r, selected, visible, w);
        let i = tags.len() - 1;
        let rest = show_moves(r, selected, visible);
        let add = if has_bit(selected, i) { tags.last().map_values(|x: WindowId| (x, visible)) } else { Seq::empty() };
        let all = show_moves(tags, selected, visible);
        assert(all == rest + add);
        assert forall|j: int| 0 <= j < all.len() && (#[trigger] all[j]).0 == w implies all[j].1 == visible by {
            if j < rest.len() {
                assert(all[j] == rest[j]);
            } else {
                assert(all[j] == add[j - rest.len()]);
            }
        }
        if places(all, w) {
            let j = choose|j: int| 0 <= j < all.len() && (#[trigger] all[j]).0 == w;
            if j < rest.len() {
                assert(all[j] == rest[j]);
                let k = choose|k: int| 0 <= k < r.len() && has_bit(selected, k) == true && #[trigger] r[k].contains(w);
                assert(tags[k] == r[k]);
            } else {
                assert(all[j] == add[j - rest.len()]);
                assert(tags[i][j - rest.len()] == w);
                assert(tags[i].contains(w));
            }
        }
        if in_tag_where(tags, selected, true, w) {
            let k = choose|k: int| 0 <= k < tags.len() && has_bit(selected, k) == true && #[trigger] tags[k].contains(w);
            if k < r.len() {
                assert(r[k] == tags[k]);
                assert(in_tag_where(r, selected, true, w));
                let j = choose|j: int| 0 <= j < rest.len() && (#[trigger] rest[j]).0 == w;
                assert(all[j] == rest[j]);
            } else {
                let q = choose|q: int| 0 <= q < tags[i].len() && tags[i][q] == w;
                assert(all[rest.len() + q] == add[q]);
            }
        }
    }
}

proof fn lemma_hide_moves(tags: Seq<Seq<WindowId>>, selected: u32, w: WindowId)
    ensures
        places_only_on(hide_moves(tags, selected), w, hidden_workspace_of(w)),
        places(hide_moves(tags, selected), w) == in_tag_where(tags, selected, false, w),
    decreases tags.len(),
{
    if tags.len() > 0 {
        let r = tags.drop_last();
        lemma_hide_moves(r, selected, w);
        let i = tags.len() - 1;
        let rest = hide_moves(r, selected);
        let add = if has_bit(selected, i) { Seq::empty() } else { tags.last().map_values(|x: WindowId| (x, hidden_workspace_of(x))) };
        let all = hide_moves(tags, selected);
        assert(all == rest + add);
        assert forall|j: int| 0 <= j < all.len() && (#[trigger] all[j]).0 == w implies all[j].1 == hidden_workspace_of(w) by {
            if j < rest.len() {
                assert(all[j] == rest[j]);
            } else {
                assert(all[j] == add[j - rest.len()]);
            }
        }
        if places(all, w) {
            let j = choose|j: int| 0 <= j < all.len() && (#[trigger] all[j]).0 == w;
            if j < rest.len() {
                assert(all[j] == rest[j]);
                let k = choose|k: int| 0 <= k < r.len() && has_bit(selected, k) == false && #[trigger] r[k].contains(w);
                assert(tags[k] == r[k]);
            } else {
                assert(all[j] == add[j - rest.len()]);
                assert(tags[i][j - rest.len()] == w);
                assert(tags[i].contains(w));
            }
        }
        if in_tag_where(tags, selected, false, w) {
            let k = choose|k: int| 0 <= k < tags.len() && has_bit(selected, k) == false && #[trigger] tags[k].contains(w);
            if k < r.len() {
                assert(r[k] == tags[k]);
                assert(in_tag_where(r, selected, false, w));
                let j = choose|j: int| 0 <= j < rest.len() && (#[trigger] rest[j]).0 == w;
                assert(all[j] == rest[j]);
            } else {
                let q = choose|q: int| 0 <= q < tags[i].len() && tags[i][q] == w;
                assert(all[rest.len() + q] == add[q]);
            }
        }
    }
}

/// After a monitor is brought in line, a window on a shown tag ends on the visible workspace, a
/// window only on hidden tags ends on its own hidden workspace `h-<id>`, and other windows are not
/// moved: hiding comes first, so a window on both kinds of tags stays visible.
pub proof fn law_sync_plan_final_place(m: MonitorView, w: WindowId)
    ensures
        ({
            let last = last_placement(sync_plan_spec(m).placements, w);
            &&& in_tag_where(m.tags, m.selected_tags, true, w) ==> last == Some(m.visible_workspace)
            &&& !in_tag_where(m.tags, m.selected_tags, true, w) && in_tag_where(m.tags, m.selected_tags, false, w)
                ==> last == Some(hidden_workspace_of(w))
            &&& !in_tag_where(m.tags, m.selected_tags, true, w) && !in_tag_where(m.tags, m.selected_tags, false, w)
                ==> last is None
        }),
{
    let h = hide_moves(m.tags, m.selected_tags);
    let sh = show_moves(m.tags, m.selected_tags, m.visible_workspace);
    lemma_show_moves(m.tags, m.selected_tags, m.visible_workspace, w);
    lemma_hide_moves(m.tags, m.selected_tags, w);
    lemma_last_placement_concat(h, sh, w);
    lemma_last_placement_uniform(sh, w, m.visible_workspace);
    lemma_last_placement_uniform(h, w, hidden_workspace_of(w));
}

/// Among `n` monitors, the one after place `idx` is at `(idx + 1) % n` and the one before at
/// `(idx + n - 1) % n`: the last wraps around to the first and the first to the last.
pub proof fn law_neighbour_wraps(idx: int, n: int)
    requires
        0 <= idx < n,
    ensures
        neighbour_index(idx, n, "next"@) == (idx + 1) % n,
        neighbour_index(idx, n, "prev"@) == (idx + n - 1) % n,
{
    reveal_strlit("next");
    reveal_strlit("prev");
    assert("next"@[0] != "prev"@[0]);
    if idx + 1 == n {
        assert((idx + 1) % n == 0) by (nonlinear_arith)
            requires
                idx + 1 == n,
                n > 0,
        ;
    } else {
        assert((idx + 1) % n == idx + 1) by (nonlinear_arith)
            requires
                0 <= idx + 1 < n,
        ;
    }
    if idx == 0 {
        assert((idx + n - 1) % n == n - 1) by (nonlinear_arith)
            requires
                idx == 0,
                n > 0,
        ;
    } else {
        assert((idx + n - 1) % n == idx - 1) by (nonlinear_arith)
            requires
                0 < idx < n,
        ;
    }
}

/// With another monitor known, moving the focused window `next` or `prev` always moves it to a
/// different monitor: the window leaves every tag of the focused monitor, and both monitors are
/// announced.
pub proof fn law_move_monitor_leaves_focused(
    s: StateView,
    w: AerospaceWindowView,
    cm: AerospaceMonitorView,
    target: Seq<char>,
    other: MonitorId,
)
    requires
        s.monitors.dom().finite(),
        s.monitors.dom().contains(cm.monitor_id),
        s.monitors.dom().contains(other),
        other != cm.monitor_id,
        target == "next"@ || target == "prev"@,
    ensures
        ({
            let (r, acts) = window_move_monitor_step(s, Some(w), Some(cm), target);
            &&& !holds_window(r.monitors[cm.monitor_id].tags, w.window_id)
            &&& acts.len() >= 2
        }),
{
    lemma_in_order_lists(s.monitors.dom());
    let ids = in_order(s.monitors.dom());
    assert(ids.contains(cm.monitor_id));
    assert(ids.contains(other));
    let idx = index_of(ids, cm.monitor_id);
    let n = ids.len() as int;
    let oi = choose|j: int| 0 <= j < ids.len() && ids[j] == other;
    assert(oi != idx);
    assert(n >= 2);
    let ni = neighbour_index(idx, n, target);
    law_neighbour_wraps(idx, n);
    assert(ni != idx) by {
        if target == "next"@ {
            if idx + 1 == n {
                assert(ni == 0);
            }
        } else {
            if idx == 0 {
                assert(ni == n - 1);
            }
        }
    }
    assert(0 <= ni < n);
    let next = ids[ni];
    assert(next != cm.monitor_id) by {
        if ni < idx {
            assert(ids[ni] < ids[idx]);
        } else {
            assert(ids[idx] < ids[ni]);
        }
    }
    law_move_monitor_relocates(s, w, cm, target);
}

/// Window-toggle on a tag that holds the window takes it off that tag exactly when another tag of
/// the same monitor, lower or higher, also holds it, leaving every other tag as it was and
/// announcing the monitor; when no other tag holds it nothing changes. On a tag that does not
/// hold the window, the window is added to it.
pub proof fn law_window_toggle_effect(
    s: StateView,
    w: AerospaceWindowView,
    focused: Option<AerospaceMonitorView>,
    tag: u8,
    k: MonitorId,
)
    requires
        monitor_for_window(s, w.window_id, focused) == Some(k),
        s.monitors.dom().contains(k),
        (tag as int) < s.monitors[k].tags.len(),
    ensures
        ({
            let tags = s.monitors[k].tags;
            let t = tag as int;
            let (r, acts) = window_toggle_step(s, Some(w), focused, tag);
            let elsewhere = exists|j: int| 0 <= j < tags.len() && j != t && #[trigger] tags[j].contains(w.window_id);
            &&& tags[t].contains(w.window_id) && elsewhere ==> {
                &&& !r.monitors[k].tags[t].contains(w.window_id)
                &&& r.monitors[k].tags.len() == tags.len()
                &&& forall|j: int| 0 <= j < tags.len() && j != t ==> r.monitors[k].tags[j] == tags[j]
                &&& acts.len() == 2
            }
            &&& tags[t].contains(w.window_id) && !elsewhere ==> r == s && acts.len() == 0
            &&& !tags[t].contains(w.window_id) ==> {
                &&& r.monitors[k].tags[t].contains(w.window_id)
                &&& forall|j: int| 0 <= j < tags.len() && j != t ==> r.monitors[k].tags[j] == tags[j]
                &&& acts.len() == 2
            }
        }),
{
    let tags = s.monitors[k].tags;
    let t = tag as int;
    let r = window_toggle_step(s, Some(w), focused, tag).0;
    if tags[t].contains(w.window_id) {
        if exists|j: int| 0 <= j < tags.len() && j != t && #[trigger] tags[j].contains(w.window_id) {
            let j = choose|j: int| 0 <= j < tags.len() && j != t && #[trigger] tags[j].contains(w.window_id);
            assert(held_elsewhere(tags, t, w.window_id));
            lemma_filter_drops(tags[t], w.window_id);
            assert(r.monitors[k].tags[t] == tags[t].filter(other_than(w.window_id)));
        } else {
            assert(!held_elsewhere(tags, t, w.window_id));
        }
    } else {
        let pushed = r.monitors[k].tags[t];
        assert(pushed == tags[t].push(w.window_id));
        assert(pushed[pushed.len() - 1] == w.window_id);
    }
}

/// The event telling a subscriber monitor `m`'s id, its shown tags and the tags that hold a
/// window.
pub open spec fn monitor_announcement(m: MonitorView) -> StateEventView {
    StateEventView {
        event: "state_change"@,
        monitor_id: m.id,
        selected_tags: m.selected_tags,
        occupied_tags: occupied_mask(m.tags),
    }
}

/// Some event of `events` announces monitor `m`.
pub open spec fn announces(events: Seq<StateEventView>, m: MonitorView) -> bool {
    exists|i: int| 0 <= i < events.len() && events[i] == monitor_announcement(m)
}

/// Event `e` announces some monitor of `ms`.
pub open spec fn announces_some(ms: Map<MonitorId, MonitorView>, e: StateEventView) -> bool {
    exists|k: MonitorId| ms.dom().contains(k) && e == monitor_announcement(ms[k])
}

/// A new subscriber first gets exactly one event per known monitor: as many events as monitors,
/// each monitor announced, and no event that does not announce a known monitor.
pub proof fn law_snapshot_one_event_per_monitor(ms: Map<MonitorId, MonitorView>)
    requires
        ms.dom().finite(),
    ensures
        snapshot_spec(ms).len() == ms.dom().len(),
        forall|k: MonitorId| #[trigger] ms.dom().contains(k) ==> announces(snapshot_spec(ms), ms[k]),
        forall|i: int| 0 <= i < snapshot_spec(ms).len() ==> announces_some(ms, #[trigger] snapshot_spec(ms)[i]),
{
    lemma_in_order_len(ms.dom());
    let ids = in_order(ms.dom());
    let snap = snapshot_spec(ms);
    assert forall|k: MonitorId| #[trigger] ms.dom().contains(k) implies announces(snap, ms[k]) by {
        assert(ids.contains(k));
        let i = choose|i: int| 0 <= i < ids.len() && ids[i] == k;
        assert(snap[i] == monitor_announcement(ms[k]));
    }
    assert forall|i: int| 0 <= i < snap.len() implies announces_some(ms, #[trigger] snap[i]) by {
        let k = ids[i];
        assert(ids.contains(k));
        assert(ms.dom().contains(k));
        assert(snap[i] == monitor_announcement(ms[k]));
    }
}

/// The state report lists every known monitor and every known window, once each, and nothing
/// else: each monitor with its id, name, shown tags, occupied tags and visible workspace, each
/// window with what is known of it; the focused monitor is the one given.
pub proof fn law_state_report_lists_everything(s: StateView, focused: Option<AerospaceMonitorView>)
    requires
        s.monitors.dom().finite(),
        s.windows.dom().finite(),
    ensures
        query_state_spec(s, focused) matches QueryResponseView::State(rep) && {
            &&& rep.focused_monitor_id == match focused {
                Some(fm) => Some(fm.monitor_id),
                None => None,
            }
            &&& rep.windows.len() == s.windows.dom().len()
            &&& forall|k: WindowId| #[trigger] s.windows.dom().contains(k) ==> exists|i: int| 0 <= i < rep.windows.len()
                && #[trigger] rep.windows[i] == (k, s.windows[k])
            &&& forall|i: int| 0 <= i < rep.windows.len() ==> s.windows.dom().contains(#[trigger] rep.windows[i].0)
                && rep.windows[i].1 == s.windows[rep.windows[i].0]
            &&& rep.monitors.len() == s.monitors.dom().len()
            &&& forall|k: MonitorId| #[trigger] s.monitors.dom().contains(k) ==> exists|i: int| 0 <= i < rep.monitors.len()
                && #[trigger] rep.monitors[i] == (k, MonitorReportView {
                    id: s.monitors[k].id,
                    name: s.monitors[k].name,
                    selected_tags: s.monitors[k].selected_tags,
                    occupied_tags: occupied_mask(s.monitors[k].tags),
                    visible_workspace: s.monitors[k].visible_workspace,
                })
            &&& forall|i: int| 0 <= i < rep.monitors.len() ==> s.monitors.dom().contains(#[trigger] rep.monitors[i].0)
        },
{
    lemma_in_order_len(s.windows.dom());
    lemma_in_order_len(s.monitors.dom());
    let wids = in_order(s.windows.dom());
    let mids = in_order(s.monitors.dom());
    match query_state_spec(s, focused) {
        QueryResponseView::State(rep) => {
            assert forall|k: WindowId| #[trigger] s.windows.dom().contains(k) implies exists|i: int| 0 <= i < rep.windows.len()
                && #[trigger] rep.windows[i] == (k, s.windows[k]) by {
                assert(wids.contains(k));
                let i = choose|i: int| 0 <= i < wids.len() && wids[i] == k;
                assert(rep.windows[i] == (k, s.windows[k]));
            }
            assert forall|i: int| 0 <= i < rep.windows.len() implies s.windows.dom().contains(#[trigger] rep.windows[i].0)
                && rep.windows[i].1 == s.windows[rep.windows[i].0] by {
                assert(wids.contains(wids[i]));
            }
            assert forall|k: MonitorId| #[trigger] s.monitors.dom().contains(k) implies exists|i: int| 0 <= i < rep.monitors.len()
                && #[trigger] rep.monitors[i] == (k, MonitorReportView {
                    id: s.monitors[k].id,
                    name: s.monitors[k].name,
                    selected_tags: s.monitors[k].selected_tags,
                    occupied_tags: occupied_mask(s.monitors[k].tags),
                    visible_workspace: s.monitors[k].visible_workspace,
                }) by {
                assert(mids.contains(k));
                let i = choose|i: int| 0 <= i < mids.len() && mids[i] == k;
                assert(rep.monitors[i] == (k, crate::query::monitor_report_spec(s.monitors[k])));
            }
            assert forall|i: int| 0 <= i < rep.monitors.len() implies s.monitors.dom().contains(#[trigger] rep.monitors[i].0) by {
                assert(mids.contains(mids[i]));
            }
        },
        _ => {},
    }
}

/// The other monitors are left as they were.
pub open spec fn others_unchanged(before: Map<MonitorId, MonitorView>, after: Map<MonitorId, MonitorView>, k: MonitorId) -> bool {
    &&& after.dom() == before.dom()
    &&& forall|j: MonitorId| #[trigger] before.dom().contains(j) && j != k ==> after[j] == before[j]
}

/// Tag-view, tag-toggle and tag-set act on the focused (for tag-set: the named, else the focused)
/// monitor alone and change only its selection: tag-view shows exactly the tag, tag-toggle flips
/// that one tag, tag-set shows exactly the mask, each keeping the old selection as the previous
/// one (tag-view only when it changes); the monitor is announced and brought in line.
pub proof fn law_tag_commands_change_selection(s: StateView, fm: AerospaceMonitorView, tag: u8, mask: u32, named: Option<MonitorId>)
    requires
        tag < 32,
        s.monitors.dom().contains(fm.monitor_id),
    ensures
        ({
            let k = fm.monitor_id;
            let prior = s.monitors[k];
            let (v, va) = tag_view_step(s, Some(fm), tag);
            let (t, ta) = tag_toggle_step(s, Some(fm), tag);
            &&& has_bit(v.monitors[k].selected_tags, tag as int)
            &&& forall|i: int| 0 <= i < 32 && i != tag ==> !has_bit(v.monitors[k].selected_tags, i)
            &&& v.monitors[k].tags == prior.tags
            &&& prior.selected_tags != tag_bit(tag) ==> v.monitors[k].previous_tags == prior.selected_tags
            &&& others_unchanged(s.monitors, v.monitors, k) && v.windows == s.windows && va.len() == 2
            &&& has_bit(t.monitors[k].selected_tags, tag as int) != has_bit(prior.selected_tags, tag as int)
            &&& forall|i: int| 0 <= i < 32 && i != tag ==> has_bit(t.monitors[k].selected_tags, i) == has_bit(prior.selected_tags, i)
            &&& t.monitors[k].previous_tags == prior.selected_tags && t.monitors[k].tags == prior.tags
            &&& others_unchanged(s.monitors, t.monitors, k) && t.windows == s.windows && ta.len() == 2
        }),
        ({
            let k = match named { Some(id) => id, None => fm.monitor_id };
            let (r, ra) = tag_set_step(s, Some(fm), mask, named);
            s.monitors.dom().contains(k) ==> {
                &&& r.monitors[k].selected_tags == mask
                &&& r.monitors[k].previous_tags == s.monitors[k].selected_tags
                &&& r.monitors[k].tags == s.monitors[k].tags
                &&& others_unchanged(s.monitors, r.monitors, k) && r.windows == s.windows && ra.len() == 2
            }
        }),
{
    let k = fm.monitor_id;
    law_select_shows_only_that_tag(s.monitors[k], tag);
    assert forall|i: int| 0 <= i < 32 implies has_bit(tag_toggle_step(s, Some(fm), tag).0.monitors[k].selected_tags, i)
        == (has_bit(s.monitors[k].selected_tags, i) != (i == tag)) by {
        law_toggle_flips_one_tag(s.monitors[k], tag, i);
    }
    assert(tag_view_step(s, Some(fm), tag).0.monitors.dom() =~= s.monitors.dom());
    assert(tag_toggle_step(s, Some(fm), tag).0.monitors.dom() =~= s.monitors.dom());
    let kk = match named { Some(id) => id, None => fm.monitor_id };
    assert(named_or_focused(named, Some(fm)) == Some(kk));
    if s.monitors.dom().contains(kk) {
        assert(tag_set_step(s, Some(fm), mask, named).0.monitors.dom() =~= s.monitors.dom());
    }
}

/// Window-move leaves the window on exactly the chosen tag of the monitor that holds it (else
/// the focused monitor), remembers the window, and leaves the other monitors and the selection
/// alone.
pub proof fn law_window_move_step(s: StateView, w: AerospaceWindowView, focused: Option<AerospaceMonitorView>, tag: u8, k: MonitorId)
    requires
        monitor_for_window(s, w.window_id, focused) == Some(k),
        s.monitors.dom().contains(k),
        s.monitors[k].tags.len() <= NUM_TAGS,
        (tag as int) < s.monitors[k].tags.len(),
    ensures
        ({
            let (r, acts) = window_move_step(s, Some(w), focused, tag);
            &&& window_mask(r.monitors[k].tags, w.window_id) == tag_bit(tag)
            &&& r.monitors[k].tags.len() == s.monitors[k].tags.len()
            &&& r.monitors[k].selected_tags == s.monitors[k].selected_tags
            &&& r.windows.dom().contains(w.window_id)
            &&& others_unchanged(s.monitors, r.monitors, k)
            &&& acts.len() == 2
        }),
{
    law_window_move_exclusive(s.monitors[k].tags, w.window_id, tag);
    let r = window_move_step(s, Some(w), focused, tag).0;
    assert(r.monitors.dom() =~= s.monitors.dom());
}

/// Window-set gives the named window (else the focused one) exactly the tags of `mask` on the
/// monitor that holds it (else the focused monitor), leaving the other monitors and the
/// selection alone.
pub proof fn law_window_set_step(
    s: StateView,
    window: Option<AerospaceWindowView>,
    focused: Option<AerospaceMonitorView>,
    mask: u32,
    named: Option<WindowId>,
    wid: WindowId,
    k: MonitorId,
)
    requires
        named_or_focused_window(named, window) == Some(wid),
        monitor_for_window(s, wid, focused) == Some(k),
        s.monitors.dom().contains(k),
        s.monitors[k].tags.len() == NUM_TAGS,
    ensures
        ({
            let (r, acts) = window_set_step(s, window, focused, mask, named);
            &&& window_mask(r.monitors[k].tags, wid) == mask
            &&& r.monitors[k].selected_tags == s.monitors[k].selected_tags
            &&& others_unchanged(s.monitors, r.monitors, k)
            &&& acts.len() == 2
        }),
{
    law_window_set_exact(s.monitors[k].tags, wid, mask);
    let r = window_set_step(s, window, focused, mask, named).0;
    assert(r.monitors.dom() =~= s.monitors.dom());
}

/// A monitor query reports the named monitor (else the focused one) with its own id, name, shown
/// tags, occupied tags and visible workspace, and reports nothing for a monitor that is not known.
pub proof fn law_monitor_report(s: StateView, focused: Option<AerospaceMonitorView>, named: Option<MonitorId>, k: MonitorId)
    requires
        named_or_focused(named, focused) == Some(k),
    ensures
        s.monitors.dom().contains(k) ==> query_monitor_spec(s, focused, named) == QueryResponseView::Monitor(MonitorReportView {
            id: s.monitors[k].id,
            name: s.monitors[k].name,
            selected_tags: s.monitors[k].selected_tags,
            occupied_tags: occupied_mask(s.monitors[k].tags),
            visible_workspace: s.monitors[k].visible_workspace,
        }),
        !s.monitors.dom().contains(k) ==> query_monitor_spec(s, focused, named) == QueryResponseView::Null,
{
}

/// A window query about a known window reports what is known of it, the monitor (with the
/// smallest id) that holds it and exactly the tags that hold it there; a known window no monitor
/// holds is reported on no monitor with no tags. An unknown window is reported only when it is
/// the focused one, then on the focused monitor with no tags.
pub proof fn law_window_report(
    s: StateView,
    window: Option<AerospaceWindowView>,
    focused: Option<AerospaceMonitorView>,
    named: Option<WindowId>,
    wid: WindowId,
)
    requires
        named_or_focused_window(named, window) == Some(wid),
        s.monitors.dom().finite(),
        crate::sync_laws::keyed_by_id(s.monitors),
    ensures
        s.windows.dom().contains(wid) && (exists|k: MonitorId| #[trigger] s.monitors.dom().contains(k) && holds_window(s.monitors[k].tags, wid))
            ==> exists|k: MonitorId| #[trigger] s.monitors.dom().contains(k) && holds_window(s.monitors[k].tags, wid)
                && (forall|j: MonitorId| #[trigger] s.monitors.dom().contains(j) && holds_window(s.monitors[j].tags, wid) ==> k <= j)
                && query_window_spec(s, window, focused, named) == QueryResponseView::Window(WindowReportView {
                    id: s.windows[wid].id,
                    monitor_id: Some(k),
                    tags: window_mask(s.monitors[k].tags, wid),
                    app_name: s.windows[wid].app_name,
                    title: s.windows[wid].title,
                }),
        s.windows.dom().contains(wid) && !(exists|k: MonitorId| #[trigger] s.monitors.dom().contains(k) && holds_window(s.monitors[k].tags, wid))
            ==> query_window_spec(s, window, focused, named) == QueryResponseView::Window(WindowReportView {
                id: s.windows[wid].id,
                monitor_id: None,
                tags: 0,
                app_name: s.windows[wid].app_name,
                title: s.windows[wid].title,
            }),
        !s.windows.dom().contains(wid) ==> query_window_spec(s, window, focused, named) == match window {
            Some(w) if w.window_id == wid => QueryResponseView::Window(WindowReportView {
                id: wid,
                monitor_id: match focused {
                    Some(fm) => Some(fm.monitor_id),
                    None => None,
                },
                tags: 0,
                app_name: w.app_name,
                title: w.window_title,
            }),
            _ => QueryResponseView::Null,
        },
{
    let pred = crate::state::holding(wid);
    if exists|k: MonitorId| #[trigger] s.monitors.dom().contains(k) && holds_window(s.monitors[k].tags, wid) {
        let k0 = choose|k: MonitorId| #[trigger] s.monitors.dom().contains(k) && holds_window(s.monitors[k].tags, wid);
        assert(crate::state::key_where(s.monitors, pred, k0));
        crate::state::lemma_min_key_exists(s.monitors, pred);
        let k = crate::state::min_key_where(s.monitors, pred).unwrap();
        assert(crate::state::find_monitor_spec(s.monitors, wid) == Some(k));
        assert forall|j: MonitorId| #[trigger] s.monitors.dom().contains(j) && holds_window(s.monitors[j].tags, wid) implies k <= j by {
            assert(crate::state::key_where(s.monitors, pred, j));
        }
        if s.windows.dom().contains(wid) {
            assert(s.monitors.dom().contains(k) && holds_window(s.monitors[k].tags, wid));
        }
    } else {
        assert(!exists|k: MonitorId| crate::state::key_where(s.monitors, pred, k));
        assert(crate::state::find_monitor_spec(s.monitors, wid) is None);
    }
}

} // verus!
