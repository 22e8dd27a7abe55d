//! Lining AeroSpace's workspaces up with the monitors: monitor `n` shows workspace `n`.
use std::collections::HashMap;
use vstd::prelude::*;
use vstd::relations::{sorted_by, total_ordering};
use vstd::seq_lib::lemma_sorted_unique;
use crate::aerospace::AerospaceMonitor;
use crate::sync::{monitor_list_view, visible_view};
use crate::text::{decimal, u32_to_decimal};

verus! {

/// One request to AeroSpace while lining workspaces up.
pub enum AlignStep {
    FocusWorkspace(String),
    MoveWorkspaceToMonitor(String, u32),
    FocusMonitor(u32),
}

pub enum AlignStepView {
    FocusWorkspace(Seq<char>),
    MoveWorkspaceToMonitor(Seq<char>, u32),
    FocusMonitor(u32),
}

impl View for AlignStep {
    type V = AlignStepView;

    open spec fn view(&self) -> AlignStepView {
        match self {
            AlignStep::FocusWorkspace(w) => AlignStepView::FocusWorkspace(w@),
            AlignStep::MoveWorkspaceToMonitor(w, id) => AlignStepView::MoveWorkspaceToMonitor(w@, *id),
            AlignStep::FocusMonitor(id) => AlignStepView::FocusMonitor(*id),
        }
    }
}

pub open spec fn steps_view(steps: Seq<AlignStep>) -> Seq<AlignStepView> {
    steps.map_values(|s: AlignStep| s@)
}

/// The order "not greater than" on ids.
pub open spec fn id_leq() -> spec_fn(u32, u32) -> bool {
    |a: u32, b: u32| a <= b
}

/// The ids in ascending order, repeated ids kept.
pub open spec fn ids_ascending(ids: Seq<u32>) -> Seq<u32> {
    ids.sort_by(id_leq())
}

/// The ids of the listed monitors.
pub open spec fn monitor_ids(list: Seq<AerospaceMonitor>) -> Seq<u32> {
    monitor_list_view(list).map_values(|m: crate::aerospace::AerospaceMonitorView| m.monitor_id)
}

/// Every monitor already shows the workspace named after it.
pub open spec fn aligned(ids: Seq<u32>, current: Map<u32, Seq<char>>) -> bool {
    forall|i: int| 0 <= i < ids.len() ==> current.dom().contains(#[trigger] ids[i]) && current[ids[i]] == decimal(ids[i] as nat)
}

/// For each monitor in turn: focus it, then focus its workspace.
pub open spec fn focus_pairs(ids: Seq<u32>) -> Seq<AlignStepView>
    decreases ids.len(),
{
    if ids.len() == 0 {
        Seq::empty()
    } else {
        focus_pairs(ids.drop_last()) + seq![
            AlignStepView::FocusMonitor(ids.last()),
            AlignStepView::FocusWorkspace(decimal(ids.last() as nat)),
        ]
    }
}

/// The requests that line workspaces up with the monitors `ids` (in ascending order), given the
/// workspace each shows now: nothing if all are lined up; else make every workspace exist by
/// focusing it, move each to its monitor, focus each monitor on its workspace, and end on the
/// first monitor.
pub open spec fn alignment_plan_spec(ids: Seq<u32>, current: Map<u32, Seq<char>>) -> Seq<AlignStepView> {
    if aligned(ids, current) {
        Seq::empty()
    } else {
        ids.map_values(|id: u32| AlignStepView::FocusWorkspace(decimal(id as nat)))
            + ids.map_values(|id: u32| AlignStepView::MoveWorkspaceToMonitor(decimal(id as nat), id))
            + focus_pairs(ids)
            + seq![AlignStepView::FocusMonitor(ids[0]), AlignStepView::FocusWorkspace(decimal(ids[0] as nat))]
    }
}

proof fn lemma_id_leq_total()
    ensures
        total_ordering(id_leq()),
{
}

/// The ids of the listed monitors in ascending order (repeated ids kept).
pub fn monitor_ids_ascending(monitors: &Vec<AerospaceMonitor>) -> (r: Vec<u32>)
    ensures
        r@ == ids_ascending(monitor_ids(monitors@)),
{
    let ghost ids = monitor_ids(monitors@);
    let ghost leq = id_leq();
    let mut out: Vec<u32> = Vec::new();
    let mut i: usize = 0;
    assert(ids.take(0) =~= out@);
    while i < monitors.len()
        invariant
            i <= monitors@.len(),
            ids == monitor_ids(monitors@),
            leq == id_leq(),
            sorted_by(out@, leq),
            out@.to_multiset() == ids.take(i as int).to_multiset(),
        decreases monitors@.len() - i,
    {
        let x = monitors[i].monitor_id;
        assert(ids[i as int] == x);
        let mut pos: usize = 0;
        while pos < out.len() && out[pos] <= x
            invariant
                pos <= out@.len(),
                forall|j: int| 0 <= j < pos ==> out@[j] <= x,
            decreases out@.len() - pos,
        {
            pos = pos + 1;
        }
        let ghost before = out@;
        out.insert(pos, x);
        proof {
            assert(out@ == before.insert(pos as int, x));
            vstd::seq_lib::to_multiset_insert(before, pos as int, x);
            assert(ids.take(i + 1) =~= ids.take(i as int).push(x));
            vstd::seq_lib::to_multiset_build(ids.take(i as int), x);
            assert forall|a: int, b: int| 0 <= a < b < out@.len() implies #[trigger] leq(out@[a], out@[b]) by {
                if b < pos {
                    assert(leq(before[a], before[b]));
                } else if b == pos {
                    assert(out@[a] == before[a]);
                } else if a < pos {
                    assert(out@[b] == before[b - 1]);
                    assert(out@[a] == before[a]);
                    if b - 1 > pos as int {
                        assert(leq(before[pos as int], before[b - 1]));
                    }
                    if pos < before.len() {
                        assert(!(before[pos as int] <= x));
                    }
                } else if a == pos {
                    assert(out@[b] == before[b - 1]);
                    if b - 1 > pos as int {
                        assert(leq(before[pos as int], before[b - 1]));
                    }
                } else {
                    assert(out@[a] == before[a - 1]);
                    assert(out@[b] == before[b - 1]);
                    assert(leq(before[a - 1], before[b - 1]));
                }
            }
        }
        i = i + 1;
    }
    proof {
        assert(ids.take(i as int) =~= ids);
        lemma_id_leq_total();
        ids.lemma_sort_by_ensures(leq);
        lemma_sorted_unique(out@, ids.sort_by(leq), leq);
    }
    out
}

/// The requests that line workspaces up with the monitors `ids` (in ascending order), given the
/// workspace each shows now (see `alignment_plan_spec`).
pub fn alignment_plan(ids: &Vec<u32>, current: &HashMap<u32, String>) -> (r: Vec<AlignStep>)
    ensures
        steps_view(r@) == alignment_plan_spec(ids@, visible_view(current@)),
{
    let ghost cur = visible_view(current@);
    let mut all_aligned = true;
    let mut i: usize = 0;
    while i < ids.len()
        invariant
            i <= ids@.len(),
            cur == visible_view(current@),
            all_aligned == forall|j: int| 0 <= j < i ==> cur.dom().contains(#[trigger] ids@[j]) && cur[ids@[j]] == decimal(ids@[j] as nat),
        decreases ids@.len() - i,
    {
        let id = ids[i];
        let name = u32_to_decimal(id);
        let ok = match current.get(&id) {
            Some(ws) => *ws == name,
            None => false,
        };
        proof {
            if ok {
                assert(cur.dom().contains(id) && cur[id] == decimal(id as nat));
            } else {
                assert(!(cur.dom().contains(id) && cur[id] == decimal(id as nat)));
            }
        }
        all_aligned = all_aligned && ok;
        i = i + 1;
    }
    let mut steps: Vec<AlignStep> = Vec::new();
    if all_aligned {
        assert(steps_view(steps@) =~= Seq::<AlignStepView>::empty());
        return steps;
    }
    let ghost p1 = ids@.map_values(|id: u32| AlignStepView::FocusWorkspace(decimal(id as nat)));
    let ghost p2 = ids@.map_values(|id: u32| AlignStepView::MoveWorkspaceToMonitor(decimal(id as nat), id));
    let mut i: usize = 0;
    while i < ids.len()
        invariant
            i <= ids@.len(),
            p1 == ids@.map_values(|id: u32| AlignStepView::FocusWorkspace(decimal(id as nat))),
            steps_view(steps@) == p1.take(i as int),
        decreases ids@.len() - i,
    {
        let st = AlignStep::FocusWorkspace(u32_to_decimal(ids[i]));
        assert(st@ == p1[i as int]);
        let ghost prev = steps@;
        steps.push(st);
        assert(steps_view(steps@) =~= steps_view(prev).push(st@));
        assert(p1.take(i + 1) =~= p1.take(i as int).push(p1[i as int]));
        i = i + 1;
    }
    assert(p1.take(i as int) =~= p1);
    let mut i: usize = 0;
    while i < ids.len()
        invariant
            i <= ids@.len(),
            p1.len() == ids@.len(),
            p2 == ids@.map_values(|id: u32| AlignStepView::MoveWorkspaceToMonitor(decimal(id as nat), id)),
            steps_view(steps@) == p1 + p2.take(i as int),
        decreases ids@.len() - i,
    {
        let st = AlignStep::MoveWorkspaceToMonitor(u32_to_decimal(ids[i]), ids[i]);
        assert(st@ == p2[i as int]);
        let ghost prev = steps@;
        steps.push(st);
        assert(steps_view(steps@) =~= steps_view(prev).push(st@));
        assert(p2.take(i + 1) =~= p2.take(i as int).push(p2[i as int]));
        assert(steps_view(steps@) =~= p1 + p2.take(i + 1));
        i = i + 1;
    }
    assert(p2.take(i as int) =~= p2);
    let mut i: usize = 0;
    while i < ids.len()
        invariant
            i <= ids@.len(),
            steps_view(steps@) == p1 + p2 + focus_pairs(ids@.take(i as int)),
        decreases ids@.len() - i,
    {
        let a = AlignStep::FocusMonitor(ids[i]);
        let b = AlignStep::FocusWorkspace(u32_to_decimal(ids[i]));
        let ghost prev = steps@;
        steps.push(a);
        steps.push(b);
        proof {
            assert(steps_view(steps@) =~= steps_view(prev) + seq![a@, b@]);
            assert(ids@.take(i + 1).drop_last() =~= ids@.take(i as int));
            assert(steps_view(steps@) =~= p1 + p2 + focus_pairs(ids@.take(i + 1)));
        }
        i = i + 1;
    }
    assert(ids@.take(i as int) =~= ids@);
    // Not all lined up, so there is a first monitor.
    assert(ids@.len() > 0);
    let a = AlignStep::FocusMonitor(ids[0]);
    let b = AlignStep::FocusWorkspace(u32_to_decimal(ids[0]));
    let ghost prev = steps@;
    steps.push(a);
    steps.push(b);
    assert(steps_view(steps@) =~= steps_view(prev) + seq![a@, b@]);
    assert(steps_view(steps@) =~= alignment_plan_spec(ids@, cur));
    steps
}

/// Lining up changes nothing when every monitor already shows the workspace named after it;
/// otherwise every monitor gets the workspace named after it moved to it, and the requests end
/// with the first monitor focused on its own workspace.
pub proof fn law_alignment_moves_every_workspace(ids: Seq<u32>, current: Map<u32, Seq<char>>)
    ensures
        (forall|i: int| 0 <= i < ids.len() ==> current.dom().contains(#[trigger] ids[i]) && current[ids[i]] == decimal(ids[i] as nat))
            ==> alignment_plan_spec(ids, current).len() == 0,
        !(forall|i: int| 0 <= i < ids.len() ==> current.dom().contains(#[trigger] ids[i]) && current[ids[i]] == decimal(ids[i] as nat))
            ==> {
            let plan = alignment_plan_spec(ids, current);
            &&& forall|i: int| #![trigger ids[i]] 0 <= i < ids.len() ==> exists|j: int| 0 <= j < plan.len()
                && #[trigger] plan[j] == AlignStepView::MoveWorkspaceToMonitor(decimal(ids[i] as nat), ids[i])
            &&& plan.len() >= 2
            &&& plan[plan.len() - 2] == AlignStepView::FocusMonitor(ids[0])
            &&& plan[plan.len() - 1] == AlignStepView::FocusWorkspace(decimal(ids[0] as nat))
        },
{
    if !aligned(ids, current) {
        let plan = alignment_plan_spec(ids, current);
        let a = ids.map_values(|id: u32| AlignStepView::FocusWorkspace(decimal(id as nat)));
        let b = ids.map_values(|id: u32| AlignStepView::MoveWorkspaceToMonitor(decimal(id as nat), id));
        let c = focus_pairs(ids);
        let d = seq![AlignStepView::FocusMonitor(ids[0]), AlignStepView::FocusWorkspace(decimal(ids[0] as nat))];
        assert(plan == a + b + c + d);
        assert forall|i: int| #![trigger ids[i]] 0 <= i < ids.len() implies exists|j: int| 0 <= j < plan.len()
            && #[trigger] plan[j] == AlignStepView::MoveWorkspaceToMonitor(decimal(ids[i] as nat), ids[i]) by {
            assert(plan[a.len() + i] == b[i]);
        }
        assert(plan[plan.len() - 2] == d[0]);
        assert(plan[plan.len() - 1] == d[1]);
    }
}

} // verus!
