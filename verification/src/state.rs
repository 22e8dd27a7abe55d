//! The server's picture of monitors, their tags and the windows on them.
use std::collections::HashMap;
use std::collections::hash_map::Entry;
use vstd::prelude::*;
use crate::aerospace::{AerospaceWindow, AerospaceWindowView};
use crate::bits::{has_bit, lemma_and_single_bit, NUM_TAGS};
use crate::ids::{lists_in_order, sorted_keys};
use vstd::string::StringExecFns;

verus! {

pub type WindowId = u32;

pub type MonitorId = u32;

/// What the server remembers of a window.
pub struct WindowInfo {
    pub id: WindowId,
    pub app_name: String,
    pub title: String,
}

/// The windows carrying one tag on one monitor, in the order they were added.
pub struct Tag {
    pub window_ids: Vec<WindowId>,
}

/// A monitor with its tags and the tag selection it shows.
pub struct Monitor {
    pub id: MonitorId,
    pub name: String,
    pub selected_tags: u32,
    pub previous_tags: u32,
    pub tags: Vec<Tag>,
    pub visible_workspace: String,
}

/// The whole state the server keeps.
pub struct State {
    pub windows: HashMap<WindowId, WindowInfo>,
    pub monitors: HashMap<MonitorId, Monitor>,
    pub hidden_workspace: String,
    pub focused_monitor_id: Option<MonitorId>,
}

#[verifier::ext_equal]
pub struct WindowInfoView {
    pub id: WindowId,
    pub app_name: Seq<char>,
    pub title: Seq<char>,
}

#[verifier::ext_equal]
pub struct MonitorView {
    pub id: MonitorId,
    pub name: Seq<char>,
    pub selected_tags: u32,
    pub previous_tags: u32,
    pub tags: Seq<Seq<WindowId>>,
    pub visible_workspace: Seq<char>,
}

#[verifier::ext_equal]
pub struct StateView {
    pub windows: Map<WindowId, WindowInfoView>,
    pub monitors: Map<MonitorId, MonitorView>,
    pub hidden_workspace: Seq<char>,
    pub focused_monitor_id: Option<MonitorId>,
}

impl View for Tag {
    type V = Seq<WindowId>;

    open spec fn view(&self) -> Seq<WindowId> {
        self.window_ids@
    }
}

impl View for WindowInfo {
    type V = WindowInfoView;

    open spec fn view(&self) -> WindowInfoView {
        WindowInfoView { id: self.id, app_name: self.app_name@, title: self.title@ }
    }
}

pub open spec fn tags_view(tags: Seq<Tag>) -> Seq<Seq<WindowId>> {
    tags.map_values(|t: Tag| t@)
}

impl View for Monitor {
    type V = MonitorView;

    open spec fn view(&self) -> MonitorView {
        MonitorView {
            id: self.id,
            name: self.name@,
            selected_tags: self.selected_tags,
            previous_tags: self.previous_tags,
            tags: tags_view(self.tags@),
            visible_workspace: self.visible_workspace@,
        }
    }
}

pub open spec fn monitors_view(ms: Map<MonitorId, Monitor>) -> Map<MonitorId, MonitorView> {
    ms.map_values(|m: Monitor| m@)
}

pub open spec fn windows_view(ws: Map<WindowId, WindowInfo>) -> Map<WindowId, WindowInfoView> {
    ws.map_values(|w: WindowInfo| w@)
}

impl View for State {
    type V = StateView;

    open spec fn view(&self) -> StateView {
        StateView {
            windows: windows_view(self.windows@),
            monitors: monitors_view(self.monitors@),
            hidden_workspace: self.hidden_workspace@,
            focused_monitor_id: self.focused_monitor_id,
        }
    }
}

// ---------------------------------------------------------------------------
// The model: what each operation does to the views.
// ---------------------------------------------------------------------------
/// The mask with only tag `tag_idx` set.
pub open spec fn tag_bit(tag_idx: u8) -> u32 {
    1u32 << (tag_idx as u32)
}

/// A fresh monitor: tag 0 shown (and remembered as the previous selection), all tags empty.
pub open spec fn fresh_monitor(id: MonitorId, name: Seq<char>, visible_workspace: Seq<char>) -> MonitorView {
    MonitorView {
        id,
        name,
        selected_tags: 1,
        previous_tags: 1,
        tags: Seq::new(NUM_TAGS as nat, |i: int| Seq::<WindowId>::empty()),
        visible_workspace,
    }
}

/// Showing exactly tag `tag_idx`: the old selection is remembered if it changes.
pub open spec fn select_tag_spec(m: MonitorView, tag_idx: u8) -> MonitorView {
    if tag_idx >= 32 || m.selected_tags == tag_bit(tag_idx) {
        m
    } else {
        MonitorView { previous_tags: m.selected_tags, selected_tags: tag_bit(tag_idx), ..m }
    }
}

/// Flipping whether tag `tag_idx` is shown; the old selection is remembered.
pub open spec fn toggle_tag_spec(m: MonitorView, tag_idx: u8) -> MonitorView {
    if tag_idx >= 32 {
        m
    } else {
        MonitorView { previous_tags: m.selected_tags, selected_tags: m.selected_tags ^ tag_bit(tag_idx), ..m }
    }
}

/// Swapping the current and the previous selection.
pub open spec fn restore_last_spec(m: MonitorView) -> MonitorView {
    MonitorView { selected_tags: m.previous_tags, previous_tags: m.selected_tags, ..m }
}

/// Setting the selection to `mask`, remembering the old one.
pub open spec fn set_selection_spec(m: MonitorView, mask: u32) -> MonitorView {
    MonitorView { previous_tags: m.selected_tags, selected_tags: mask, ..m }
}

/// The predicate "is not `w`".
pub open spec fn other_than(w: WindowId) -> spec_fn(WindowId) -> bool {
    |x: WindowId| x != w
}

/// Every tag with all occurrences of `w` taken out, the rest kept in order.
pub open spec fn without_window(tags: Seq<Seq<WindowId>>, w: WindowId) -> Seq<Seq<WindowId>> {
    tags.map_values(|t: Seq<WindowId>| t.filter(other_than(w)))
}

/// `w` appended to tag `i`, if the monitor has such a tag.
pub open spec fn push_to_tag(tags: Seq<Seq<WindowId>>, i: int, w: WindowId) -> Seq<Seq<WindowId>> {
    if 0 <= i < tags.len() {
        tags.update(i, tags[i].push(w))
    } else {
        tags
    }
}

/// Some tag of the list holds `w`.
pub open spec fn holds_window(tags: Seq<Seq<WindowId>>, w: WindowId) -> bool {
    exists|i: int| 0 <= i < tags.len() && #[trigger] tags[i].contains(w)
}

/// The predicate "one of the monitor's tags holds `w`".
pub open spec fn holding(w: WindowId) -> spec_fn(MonitorView) -> bool {
    |m: MonitorView| holds_window(m.tags, w)
}

/// Key `k` names a monitor that satisfies `p`.
pub open spec fn key_where(ms: Map<MonitorId, MonitorView>, p: spec_fn(MonitorView) -> bool, k: MonitorId) -> bool {
    ms.dom().contains(k) && p(ms[k])
}

/// The smallest key of a monitor that satisfies `p`, if any does.
pub open spec fn min_key_where(ms: Map<MonitorId, MonitorView>, p: spec_fn(MonitorView) -> bool) -> Option<MonitorId> {
    if exists|k: MonitorId| key_where(ms, p, k) {
        Some(choose|k: MonitorId| key_where(ms, p, k) && forall|j: MonitorId| key_where(ms, p, j) ==> k <= j)
    } else {
        None
    }
}

/// The smallest key of a monitor that holds `w`, if any does.
pub open spec fn first_holder_key(ms: Map<MonitorId, MonitorView>, w: WindowId) -> Option<MonitorId> {
    min_key_where(ms, holding(w))
}

/// The id of the monitor (the one with the smallest key) that holds `w`.
pub open spec fn find_monitor_spec(ms: Map<MonitorId, MonitorView>, w: WindowId) -> Option<MonitorId> {
    match first_holder_key(ms, w) {
        Some(k) => Some(ms[k].id),
        None => None,
    }
}

/// Appending `w` to tag `tag_idx` of monitor `monitor_id`, where both exist.
pub open spec fn assign_window_spec(
    ms: Map<MonitorId, MonitorView>,
    w: WindowId,
    tag_idx: u8,
    monitor_id: MonitorId,
) -> Map<MonitorId, MonitorView> {
    if ms.dom().contains(monitor_id) {
        let m = ms[monitor_id];
        ms.insert(monitor_id, MonitorView { tags: push_to_tag(m.tags, tag_idx as int, w), ..m })
    } else {
        ms
    }
}

/// The state the server starts from.
pub open spec fn initial_state_view() -> StateView {
    StateView {
        windows: Map::empty(),
        monitors: Map::empty(),
        hidden_workspace: seq!['h'],
        focused_monitor_id: None,
    }
}

/// No monitor has more tags than a mask has bits.
pub open spec fn tags_fit(ms: Map<MonitorId, MonitorView>) -> bool {
    forall|k: MonitorId| #[trigger] ms.dom().contains(k) ==> ms[k].tags.len() <= NUM_TAGS
}

/// `w` appended to every tag whose bit is set in `mask`.
pub open spec fn add_by_mask(tags: Seq<Seq<WindowId>>, mask: u32, w: WindowId) -> Seq<Seq<WindowId>> {
    Seq::new(tags.len(), |i: int| if has_bit(mask, i) { tags[i].push(w) } else { tags[i] })
}

/// Some tag other than `tag` holds `w`.
pub open spec fn held_elsewhere(tags: Seq<Seq<WindowId>>, tag: int, w: WindowId) -> bool {
    exists|j: int| 0 <= j < tags.len() && j != tag && #[trigger] tags[j].contains(w)
}

/// What the server remembers of a window AeroSpace reported.
pub open spec fn window_info_of(w: AerospaceWindowView) -> WindowInfoView {
    WindowInfoView { id: w.window_id, app_name: w.app_name, title: w.window_title }
}

/// The windows with `w` added unless its id is already known.
pub open spec fn remember_window_spec(ws: Map<WindowId, WindowInfoView>, w: AerospaceWindowView) -> Map<WindowId, WindowInfoView> {
    if ws.dom().contains(w.window_id) {
        ws
    } else {
        ws.insert(w.window_id, window_info_of(w))
    }
}

// ---------------------------------------------------------------------------
// Tags
// ---------------------------------------------------------------------------
impl Tag {
    /// An empty tag.
    pub fn empty() -> (r: Tag)
        ensures
            r@ == Seq::<WindowId>::empty(),
    {
        Tag { window_ids: Vec::new() }
    }

    /// Whether the tag holds `w`.
    pub fn contains(&self, w: WindowId) -> (r: bool)
        ensures
            r == self@.contains(w),
    {
        let mut i: usize = 0;
        while i < self.window_ids.len()
            invariant
                i <= self.window_ids.len(),
                forall|j: int| 0 <= j < i ==> self.window_ids@[j] != w,
            decreases self.window_ids.len() - i,
        {
            if self.window_ids[i] == w {
                return true;
            }
            i = i + 1;
        }
        false
    }

    /// Takes every occurrence of `w` out of the tag, keeping the others in order.
    pub fn remove_window(&mut self, w: WindowId)
        ensures
            final(self)@ == old(self)@.filter(other_than(w)),
    {
        let ghost orig = self.window_ids@;
        let mut out: Vec<WindowId> = Vec::new();
        let mut i: usize = 0;
        while i < self.window_ids.len()
            invariant
                self.window_ids@ == orig,
                i <= orig.len(),
                out@ == orig.take(i as int).filter(other_than(w)),
            decreases orig.len() - i,
        {
            let x = self.window_ids[i];
            proof {
                reveal(Seq::filter);
                assert(orig.take(i + 1).drop_last() =~= orig.take(i as int));
                assert(orig.take(i + 1).last() == x);
            }
            if x != w {
                out.push(x);
            }
            i = i + 1;
        }
        assert(orig.take(orig.len() as int) =~= orig);
        self.window_ids = out;
    }
}

// ---------------------------------------------------------------------------
// Monitors
// ---------------------------------------------------------------------------
impl Monitor {
    /// A monitor with 32 empty tags and tag 0 shown.
    pub fn new(id: MonitorId, name: String, visible_workspace: String) -> (r: Monitor)
        ensures
            r@ == fresh_monitor(id, name@, visible_workspace@),
    {
        let mut tags: Vec<Tag> = Vec::new();
        while tags.len() < NUM_TAGS
            invariant
                tags@.len() <= NUM_TAGS,
                forall|j: int| 0 <= j < tags@.len() ==> #[trigger] tags@[j]@ == Seq::<WindowId>::empty(),
            decreases NUM_TAGS - tags@.len(),
        {
            tags.push(Tag::empty());
        }
        let r = Monitor { id, name, selected_tags: 1, previous_tags: 1, tags, visible_workspace };
        assert(tags_view(r.tags@) =~= fresh_monitor(id, r.name@, r.visible_workspace@).tags);
        r
    }

    /// Shows exactly tag `tag_idx` (ignored from 32 on); the previous selection is kept for
    /// `restore_last_tags` when the selection changes.
    pub fn select_tag(&mut self, tag_idx: u8)
        ensures
            final(self)@ == select_tag_spec(old(self)@, tag_idx),
    {
        if tag_idx >= 32 {
            return;
        }
        let new_selection: u32 = 1u32 << tag_idx;
        if self.selected_tags != new_selection {
            self.previous_tags = self.selected_tags;
            self.selected_tags = new_selection;
        }
    }

    /// Flips whether tag `tag_idx` is shown (ignored from 32 on), remembering the old selection.
    pub fn toggle_tag(&mut self, tag_idx: u8)
        ensures
            final(self)@ == toggle_tag_spec(old(self)@, tag_idx),
    {
        if tag_idx >= 32 {
            return;
        }
        self.previous_tags = self.selected_tags;
        self.selected_tags = self.selected_tags ^ (1u32 << tag_idx);
    }

    /// Swaps the current selection with the previous one.
    pub fn restore_last_tags(&mut self)
        ensures
            final(self)@ == restore_last_spec(old(self)@),
    {
        let temp = self.selected_tags;
        self.selected_tags = self.previous_tags;
        self.previous_tags = temp;
    }

    /// Whether some tag of the monitor holds `w`.
    pub fn holds(&self, w: WindowId) -> (r: bool)
        ensures
            r == holds_window(self@.tags, w),
    {
        let mut i: usize = 0;
        while i < self.tags.len()
            invariant
                i <= self.tags.len(),
                forall|j: int| 0 <= j < i ==> !(#[trigger] tags_view(self.tags@)[j]).contains(w),
            decreases self.tags.len() - i,
        {
            if self.tags[i].contains(w) {
                assert(tags_view(self.tags@)[i as int].contains(w));
                return true;
            }
            i = i + 1;
        }
        false
    }

    /// Takes `w` out of every tag of the monitor.
    pub fn remove_window_everywhere(&mut self, w: WindowId)
        ensures
            final(self)@ == (MonitorView { tags: without_window(old(self)@.tags, w), ..old(self)@ }),
    {
        let ghost orig = tags_view(self.tags@);
        let mut i: usize = 0;
        while i < self.tags.len()
            invariant
                i <= self.tags.len(),
                self.tags@.len() == orig.len(),
                self.id == old(self).id,
                self.name == old(self).name,
                self.selected_tags == old(self).selected_tags,
                self.previous_tags == old(self).previous_tags,
                self.visible_workspace == old(self).visible_workspace,
                forall|j: int| 0 <= j < i ==> #[trigger] tags_view(self.tags@)[j] == orig[j].filter(other_than(w)),
                forall|j: int| i <= j < orig.len() ==> #[trigger] tags_view(self.tags@)[j] == orig[j],
            decreases self.tags.len() - i,
        {
            let ghost before = self.tags@;
            self.tags[i].remove_window(w);
            proof {
                assert(self.tags@.len() == before.len());
                assert forall|j: int| 0 <= j < self.tags@.len() && j != i implies self.tags@[j] == before[j] by {}
                assert(self.tags@[i as int]@ == before[i as int]@.filter(other_than(w)));
                assert forall|j: int| 0 <= j <= i implies #[trigger] tags_view(self.tags@)[j] == orig[j].filter(other_than(w)) by {
                    if j < i {
                        assert(tags_view(before)[j] == orig[j].filter(other_than(w)));
                    } else {
                        assert(tags_view(before)[j] == orig[j]);
                    }
                }
                assert forall|j: int| i < j < orig.len() implies #[trigger] tags_view(self.tags@)[j] == orig[j] by {
                    assert(tags_view(before)[j] == orig[j]);
                }
            }
            i = i + 1;
        }
        assert(tags_view(self.tags@) =~= without_window(orig, w));
    }

    /// Appends `w` to every tag whose bit is set in `mask`.
    pub fn add_by_mask(&mut self, mask: u32, w: WindowId)
        requires
            old(self).tags@.len() <= NUM_TAGS,
        ensures
            final(self)@ == (MonitorView { tags: add_by_mask(old(self)@.tags, mask, w), ..old(self)@ }),
    {
        let ghost orig = tags_view(self.tags@);
        let mut i: usize = 0;
        while i < 32
            invariant
                i <= 32,
                self.tags@.len() == orig.len() <= NUM_TAGS,
                self.id == old(self).id,
                self.name == old(self).name,
                self.selected_tags == old(self).selected_tags,
                self.previous_tags == old(self).previous_tags,
                self.visible_workspace == old(self).visible_workspace,
                forall|j: int| 0 <= j < orig.len() ==> #[trigger] tags_view(self.tags@)[j] == if j < i
                    && has_bit(mask, j) {
                    orig[j].push(w)
                } else {
                    orig[j]
                },
            decreases 32 - i,
        {
            proof {
                lemma_and_single_bit(mask, i as u32);
            }
            if (mask & (1u32 << i as u32)) != 0 && i < self.tags.len() {
                let ghost before = self.tags@;
                self.tags[i].window_ids.push(w);
                proof {
                    assert forall|j: int| 0 <= j < orig.len() implies #[trigger] tags_view(self.tags@)[j]
                        == if j < i + 1 && has_bit(mask, j) {
                        orig[j].push(w)
                    } else {
                        orig[j]
                    } by {
                        if j != i {
                            assert(self.tags@[j] == before[j]);
                            assert(tags_view(before)[j] == tags_view(self.tags@)[j]);
                        } else {
                            assert(tags_view(before)[j] == orig[j]);
                        }
                    }
                }
            }
            i = i + 1;
        }
        assert(tags_view(self.tags@) =~= add_by_mask(orig, mask, w));
    }

    /// Whether tag `tag` exists and holds `w`.
    pub fn tag_holds(&self, tag: usize, w: WindowId) -> (r: bool)
        ensures
            r == (tag < self@.tags.len() && self@.tags[tag as int].contains(w)),
    {
        if tag < self.tags.len() {
            self.tags[tag].contains(w)
        } else {
            false
        }
    }

    /// Whether a tag other than `tag` holds `w`.
    pub fn held_elsewhere(&self, tag: usize, w: WindowId) -> (r: bool)
        ensures
            r == held_elsewhere(self@.tags, tag as int, w),
    {
        let mut i: usize = 0;
        while i < self.tags.len()
            invariant
                i <= self.tags.len(),
                forall|j: int| 0 <= j < i && j != tag ==> !(#[trigger] tags_view(self.tags@)[j]).contains(w),
            decreases self.tags.len() - i,
        {
            if i != tag && self.tags[i].contains(w) {
                assert(tags_view(self.tags@)[i as int].contains(w));
                return true;
            }
            i = i + 1;
        }
        false
    }

    /// Takes every occurrence of `w` out of tag `tag`.
    pub fn remove_from_tag(&mut self, tag: usize, w: WindowId)
        requires
            tag < old(self).tags@.len(),
        ensures
            final(self)@ == (MonitorView {
                tags: old(self)@.tags.update(tag as int, old(self)@.tags[tag as int].filter(other_than(w))),
                ..old(self)@
            }),
    {
        self.tags[tag].remove_window(w);
        assert(tags_view(self.tags@) =~= tags_view(old(self).tags@).update(tag as int, tags_view(old(self).tags@)[tag as int].filter(other_than(w))));
    }

    /// Appends `w` to tag `tag_idx`, if the monitor has that tag.
    pub fn push_window(&mut self, tag_idx: usize, w: WindowId)
        ensures
            final(self)@ == (MonitorView { tags: push_to_tag(old(self)@.tags, tag_idx as int, w), ..old(self)@ }),
    {
        if tag_idx < self.tags.len() {
            self.tags[tag_idx].window_ids.push(w);
            assert(tags_view(self.tags@) =~= push_to_tag(tags_view(old(self).tags@), tag_idx as int, w));
        }
    }
}

// ---------------------------------------------------------------------------
// State
// ---------------------------------------------------------------------------
impl State {
    /// No windows, no monitors; hidden workspaces are named from `h`.
    pub fn new() -> (r: State)
        ensures
            r@ == initial_state_view(),
    {
        let hidden = String::from_str("h");
        proof {
            reveal_strlit("h");
        }
        let r = State {
            windows: HashMap::new(),
            monitors: HashMap::new(),
            hidden_workspace: hidden,
            focused_monitor_id: None,
        };
        assert(r@.windows =~= Map::empty());
        assert(r@.monitors =~= Map::empty());
        r
    }

    /// The monitor stored under `id`, for changing it in place.
    pub fn get_monitor_mut(&mut self, id: MonitorId) -> (r: Option<&mut Monitor>)
        ensures
            final(self).windows == old(self).windows,
            final(self).hidden_workspace == old(self).hidden_workspace,
            final(self).focused_monitor_id == old(self).focused_monitor_id,
            match r {
                Some(m) => {
                    &&& old(self).monitors@.contains_key(id)
                    &&& *m == old(self).monitors@[id]
                    &&& final(self).monitors@ == old(self).monitors@.insert(id, *final(m))
                },
                None => !old(self).monitors@.contains_key(id) && final(self).monitors@ == old(
                    self,
                ).monitors@,
            },
    {
        match self.monitors.entry(id) {
            Entry::Occupied(o) => Some(o.into_mut()),
            Entry::Vacant(_) => None,
        }
    }

    /// Appends `window_id` to tag `tag_idx` of the monitor stored under `monitor_id`; nothing
    /// happens when there is no such monitor or tag.
    pub fn assign_window(&mut self, window_id: WindowId, tag_idx: u8, monitor_id: MonitorId)
        ensures
            final(self)@ == (StateView {
                monitors: assign_window_spec(old(self)@.monitors, window_id, tag_idx, monitor_id),
                ..old(self)@
            }),
    {
        if let Some(monitor) = self.get_monitor_mut(monitor_id) {
            monitor.push_window(tag_idx as usize, window_id);
        }
        assert(self@.monitors =~= assign_window_spec(old(self)@.monitors, window_id, tag_idx, monitor_id));
    }

    /// Remembers window `w` unless a window with its id is known already.
    pub fn remember_window(&mut self, w: &AerospaceWindow)
        ensures
            final(self)@ == (StateView { windows: remember_window_spec(old(self)@.windows, w@), ..old(self)@ }),
    {
        if !self.windows.contains_key(&w.window_id) {
            let info = WindowInfo {
                id: w.window_id,
                app_name: w.app_name.clone(),
                title: w.window_title.clone(),
            };
            self.windows.insert(w.window_id, info);
            proof {
                lemma_windows_view_insert(old(self).windows@, w.window_id, info);
            }
        }
        assert(self@ =~= (StateView { windows: remember_window_spec(old(self)@.windows, w@), ..old(self)@ }));
    }

    /// The ids under which monitors are stored, in ascending order.
    pub fn sorted_monitor_ids(&self) -> (r: Vec<MonitorId>)
        ensures
            lists_in_order(r@, self@.monitors.dom()),
    {
        let r = sorted_keys(&self.monitors);
        assert(self@.monitors.dom() =~= self.monitors@.dom());
        r
    }

    /// The smallest key of a monitor that has `window_id` in one of its tags.
    pub fn first_holder(&self, window_id: WindowId) -> (r: Option<MonitorId>)
        ensures
            r == first_holder_key(self@.monitors, window_id),
            r matches Some(k) ==> key_where(self@.monitors, holding(window_id), k),
    {
        let ids = self.sorted_monitor_ids();
        let ghost ms = self@.monitors;
        let mut i: usize = 0;
        while i < ids.len()
            invariant
                i <= ids.len(),
                ms == self@.monitors,
                lists_in_order(ids@, ms.dom()),
                forall|j: int| 0 <= j < i ==> !key_where(ms, holding(window_id), #[trigger] ids@[j]),
            decreases ids.len() - i,
        {
            let k = ids[i];
            assert(ids@.contains(k));
            let m = self.monitors.get(&k).unwrap();
            if m.holds(window_id) {
                proof {
                    assert(key_where(ms, holding(window_id), k));
                    assert forall|j: MonitorId| key_where(ms, holding(window_id), j) implies k <= j by {
                        assert(ids@.contains(j));
                        let q = choose|q: int| 0 <= q < ids@.len() && ids@[q] == j;
                        if q < i {
                        } else if q > i {
                        }
                    }
                    lemma_min_key(ms, holding(window_id), k);
                }
                return Some(k);
            }
            i = i + 1;
        }
        proof {
            assert forall|k: MonitorId| !key_where(ms, holding(window_id), k) by {
                if key_where(ms, holding(window_id), k) {
                    assert(ids@.contains(k));
                    let q = choose|q: int| 0 <= q < ids@.len() && ids@[q] == k;
                }
            }
        }
        None
    }

    /// The id of a monitor that has `window_id` in one of its tags; the monitors are searched in
    /// ascending order of the ids they are stored under.
    pub fn find_monitor_by_window(&self, window_id: WindowId) -> (r: Option<MonitorId>)
        ensures
            r == find_monitor_spec(self@.monitors, window_id),
    {
        match self.first_holder(window_id) {
            Some(k) => {
                assert(self.monitors@.dom().contains(k));
                let m = self.monitors.get(&k).unwrap();
                assert(m@ == self@.monitors[k]);
                Some(m.id)
            },
            None => None,
        }
    }
}

/// A key that satisfies `p` and is below every other such key is the smallest one.
pub proof fn lemma_min_key(ms: Map<MonitorId, MonitorView>, p: spec_fn(MonitorView) -> bool, k: MonitorId)
    requires
        key_where(ms, p, k),
        forall|j: MonitorId| key_where(ms, p, j) ==> k <= j,
    ensures
        min_key_where(ms, p) == Some(k),
{
    let c = choose|c: MonitorId| key_where(ms, p, c) && forall|j: MonitorId| key_where(ms, p, j) ==> c <= j;
    assert(key_where(ms, p, c) && forall|j: MonitorId| key_where(ms, p, j) ==> c <= j);
    assert(c <= k && k <= c);
}

/// Among finitely many monitors, if some key satisfies `p` then a smallest one does, and
/// `min_key_where` gives it.
pub proof fn lemma_min_key_exists(ms: Map<MonitorId, MonitorView>, p: spec_fn(MonitorView) -> bool)
    requires
        ms.dom().finite(),
        exists|k: MonitorId| key_where(ms, p, k),
    ensures
        min_key_where(ms, p) matches Some(k) && key_where(ms, p, k)
            && forall|j: MonitorId| key_where(ms, p, j) ==> k <= j,
{
    crate::ids::lemma_in_order_lists(ms.dom());
    let ids = crate::ids::in_order(ms.dom());
    let q = |x: u32| key_where(ms, p, x);
    let w = choose|k: MonitorId| key_where(ms, p, k);
    assert(ids.contains(w));
    let wi = choose|j: int| 0 <= j < ids.len() && ids[j] == w;
    assert(q(ids[wi]));
    let i = crate::ids::lemma_first_index(ids, q);
    let k = ids[i];
    assert forall|j: MonitorId| key_where(ms, p, j) implies k <= j by {
        assert(ids.contains(j));
        let qi = choose|x: int| 0 <= x < ids.len() && ids[x] == j;
        assert(q(ids[qi]));
        if qi < i {
            assert(!q(ids[qi]));
        } else if qi > i {
            assert(ids[i] < ids[qi]);
        }
    }
    lemma_min_key(ms, p, k);
}

/// Storing a monitor with few enough tags keeps every monitor's tags within a mask.
pub proof fn lemma_tags_fit_insert(ms: Map<MonitorId, MonitorView>, k: MonitorId, m: MonitorView)
    requires
        tags_fit(ms),
        m.tags.len() <= NUM_TAGS,
    ensures
        tags_fit(ms.insert(k, m)),
{
}

/// The view of a map of monitors follows an insertion.
pub proof fn lemma_monitors_view_insert(ms: Map<MonitorId, Monitor>, k: MonitorId, m: Monitor)
    ensures
        monitors_view(ms.insert(k, m)) == monitors_view(ms).insert(k, m@),
{
    assert(monitors_view(ms.insert(k, m)) =~= monitors_view(ms).insert(k, m@));
}

/// The view of a map of monitors follows a removal.
pub proof fn lemma_monitors_view_remove(ms: Map<MonitorId, Monitor>, k: MonitorId)
    ensures
        monitors_view(ms.remove(k)) == monitors_view(ms).remove(k),
{
    assert(monitors_view(ms.remove(k)) =~= monitors_view(ms).remove(k));
}

/// The view of a map of windows follows an insertion.
pub proof fn lemma_windows_view_insert(ws: Map<WindowId, WindowInfo>, k: WindowId, w: WindowInfo)
    ensures
        windows_view(ws.insert(k, w)) == windows_view(ws).insert(k, w@),
{
    assert(windows_view(ws.insert(k, w)) =~= windows_view(ws).insert(k, w@));
}

/// The view of a map of windows follows a removal.
pub proof fn lemma_windows_view_remove(ws: Map<WindowId, WindowInfo>, k: WindowId)
    ensures
        windows_view(ws.remove(k)) == windows_view(ws).remove(k),
{
    assert(windows_view(ws.remove(k)) =~= windows_view(ws).remove(k));
}

} // verus!
