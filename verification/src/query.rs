//! Answers to queries about windows, monitors and the whole state.
use vstd::prelude::*;
use crate::aerospace::{opt_monitor_view, opt_window_view, AerospaceMonitor, AerospaceMonitorView, AerospaceWindow, AerospaceWindowView};
use crate::bits::NUM_TAGS;
use crate::ids::{in_order, lemma_in_order, sorted_keys};
use crate::ipc::QueryTarget;
use crate::server::{calculate_occupied_tags, occupied_mask, tags_past_mask_empty, window_mask, window_tag_mask};
use crate::state::{find_monitor_spec, tags_fit, Monitor, MonitorId, MonitorView, State, StateView, WindowId, WindowInfo, WindowInfoView};

verus! {

/// What a query reports about a window.
pub struct WindowReport {
    pub id: WindowId,
    pub monitor_id: Option<MonitorId>,
    pub tags: u32,
    pub app_name: String,
    pub title: String,
}

/// What a query reports about a monitor.
pub struct MonitorReport {
    pub id: MonitorId,
    pub name: String,
    pub selected_tags: u32,
    pub occupied_tags: u32,
    pub visible_workspace: String,
}

/// What a query reports about the whole state: the monitors and the known windows, each with
/// the id it is stored under, in ascending order of those ids.
pub struct StateReport {
    pub focused_monitor_id: Option<MonitorId>,
    pub monitors: Vec<(MonitorId, MonitorReport)>,
    pub windows: Vec<(WindowId, WindowInfo)>,
}

/// The answer to a query; `Null` when there is nothing to report.
pub enum QueryResponse {
    Null,
    Window(WindowReport),
    Monitor(MonitorReport),
    State(StateReport),
}

#[verifier::ext_equal]
pub struct WindowReportView {
    pub id: WindowId,
    pub monitor_id: Option<MonitorId>,
    pub tags: u32,
    pub app_name: Seq<char>,
    pub title: Seq<char>,
}

#[verifier::ext_equal]
pub struct MonitorReportView {
    pub id: MonitorId,
    pub name: Seq<char>,
    pub selected_tags: u32,
    pub occupied_tags: u32,
    pub visible_workspace: Seq<char>,
}

#[verifier::ext_equal]
pub struct StateReportView {
    pub focused_monitor_id: Option<MonitorId>,
    pub monitors: Seq<(MonitorId, MonitorReportView)>,
    pub windows: Seq<(WindowId, WindowInfoView)>,
}

pub enum QueryResponseView {
    Null,
    Window(WindowReportView),
    Monitor(MonitorReportView),
    State(StateReportView),
}

impl View for WindowReport {
    type V = WindowReportView;

    open spec fn view(&self) -> WindowReportView {
        WindowReportView {
            id: self.id,
            monitor_id: self.monitor_id,
            tags: self.tags,
            app_name: self.app_name@,
            title: self.title@,
        }
    }
}

impl View for MonitorReport {
    type V = MonitorReportView;

    open spec fn view(&self) -> MonitorReportView {
        MonitorReportView {
            id: self.id,
            name: self.name@,
            selected_tags: self.selected_tags,
            occupied_tags: self.occupied_tags,
            visible_workspace: self.visible_workspace@,
        }
    }
}

impl View for StateReport {
    type V = StateReportView;

    open spec fn view(&self) -> StateReportView {
        StateReportView {
            focused_monitor_id: self.focused_monitor_id,
            monitors: self.monitors@.map_values(|e: (MonitorId, MonitorReport)| (e.0, e.1@)),
            windows: self.windows@.map_values(|e: (WindowId, WindowInfo)| (e.0, e.1@)),
        }
    }
}

impl View for QueryResponse {
    type V = QueryResponseView;

    open spec fn view(&self) -> QueryResponseView {
        match self {
            QueryResponse::Null => QueryResponseView::Null,
            QueryResponse::Window(w) => QueryResponseView::Window(w@),
            QueryResponse::Monitor(m) => QueryResponseView::Monitor(m@),
            QueryResponse::State(s) => QueryResponseView::State(s@),
        }
    }
}

// ---------------------------------------------------------------------------
// Model
// ---------------------------------------------------------------------------
pub open spec fn monitor_report_spec(m: MonitorView) -> MonitorReportView {
    MonitorReportView {
        id: m.id,
        name: m.name,
        selected_tags: m.selected_tags,
        occupied_tags: occupied_mask(m.tags),
        visible_workspace: m.visible_workspace,
    }
}

/// The report on the named window (else the focused one): a known window is reported with the
/// monitor that holds it and its tags there; the focused window, if unknown, with the focused
/// monitor and no tags; anything else is `Null`.
pub open spec fn query_window_spec(s: StateView, window: Option<AerospaceWindowView>, focused: Option<AerospaceMonitorView>, named: Option<WindowId>) -> QueryResponseView {
    let target = match named {
        Some(id) => Some(id),
        None => match window {
            Some(w) => Some(w.window_id),
            None => None,
        },
    };
    match target {
        None => QueryResponseView::Null,
        Some(wid) => if s.windows.dom().contains(wid) {
            let info = s.windows[wid];
            let mid = find_monitor_spec(s.monitors, wid);
            let tags = match mid {
                Some(k) if s.monitors.dom().contains(k) => window_mask(s.monitors[k].tags, wid),
                _ => 0,
            };
            QueryResponseView::Window(WindowReportView { id: info.id, monitor_id: mid, tags, app_name: info.app_name, title: info.title })
        } else {
            match window {
                Some(w) if w.window_id == wid => QueryResponseView::Window(WindowReportView {
                    id: w.window_id,
                    monitor_id: match focused {
                        Some(fm) => Some(fm.monitor_id),
                        None => None,
                    },
                    tags: 0,
                    app_name: w.app_name,
                    title: w.window_title,
                }),
                _ => QueryResponseView::Null,
            }
        },
    }
}

/// The report on the named monitor (else the focused one), or `Null`.
pub open spec fn query_monitor_spec(s: StateView, focused: Option<AerospaceMonitorView>, named: Option<MonitorId>) -> QueryResponseView {
    let target = match named {
        Some(id) => Some(id),
        None => match focused {
            Some(fm) => Some(fm.monitor_id),
            None => None,
        },
    };
    match target {
        Some(k) if s.monitors.dom().contains(k) => QueryResponseView::Monitor(monitor_report_spec(s.monitors[k])),
        _ => QueryResponseView::Null,
    }
}

/// The report on the whole state.
pub open spec fn query_state_spec(s: StateView, focused: Option<AerospaceMonitorView>) -> QueryResponseView {
    QueryResponseView::State(StateReportView {
        focused_monitor_id: match focused {
            Some(fm) => Some(fm.monitor_id),
            None => None,
        },
        monitors: in_order(s.monitors.dom()).map_values(|k: MonitorId| (k, monitor_report_spec(s.monitors[k]))),
        windows: in_order(s.windows.dom()).map_values(|k: WindowId| (k, s.windows[k])),
    })
}

pub open spec fn query_spec(s: StateView, window: Option<AerospaceWindowView>, focused: Option<AerospaceMonitorView>, target: QueryTarget) -> QueryResponseView {
    match target {
        QueryTarget::Window(id) => query_window_spec(s, window, focused, id),
        QueryTarget::Monitor(id) => query_monitor_spec(s, focused, id),
        QueryTarget::State => query_state_spec(s, focused),
    }
}

// ---------------------------------------------------------------------------
// Answers
// ---------------------------------------------------------------------------
/// The report on one monitor.
pub fn monitor_report(m: &Monitor) -> (r: MonitorReport)
    requires
        tags_past_mask_empty(m@.tags),
    ensures
        r@ == monitor_report_spec(m@),
{
    MonitorReport {
        id: m.id,
        name: m.name.clone(),
        selected_tags: m.selected_tags,
        occupied_tags: calculate_occupied_tags(m),
        visible_workspace: m.visible_workspace.clone(),
    }
}

impl WindowInfo {
    /// A copy with the same fields.
    pub fn duplicate(&self) -> (r: WindowInfo)
        ensures
            r@ == self@,
    {
        WindowInfo { id: self.id, app_name: self.app_name.clone(), title: self.title.clone() }
    }
}

impl State {
    /// The answer to a query, given the focused window and monitor.
    pub fn answer_query(&self, window: &Option<AerospaceWindow>, focused: &Option<AerospaceMonitor>, target: &QueryTarget) -> (r: QueryResponse)
        requires
            tags_fit(self@.monitors),
        ensures
            r@ == query_spec(self@, opt_window_view(*window), opt_monitor_view(*focused), *target),
    {
        match target {
            QueryTarget::Window(id) => self.query_window(window, focused, *id),
            QueryTarget::Monitor(id) => self.query_monitor(focused, *id),
            QueryTarget::State => self.query_state(focused),
        }
    }

    fn query_window(&self, window: &Option<AerospaceWindow>, focused: &Option<AerospaceMonitor>, named: Option<WindowId>) -> (r: QueryResponse)
        requires
            tags_fit(self@.monitors),
        ensures
            r@ == query_window_spec(self@, opt_window_view(*window), opt_monitor_view(*focused), named),
    {
        let target = match named {
            Some(id) => Some(id),
            None => match window {
                Some(w) => Some(w.window_id),
                None => None,
            },
        };
        let wid = match target {
            Some(wid) => wid,
            None => return QueryResponse::Null,
        };
        match self.windows.get(&wid) {
            Some(info) => {
                assert(self@.windows.dom().contains(wid));
                assert(self@.windows[wid] == info@);
                let mid = self.find_monitor_by_window(wid);
                let tags = match mid {
                    Some(k) => match self.monitors.get(&k) {
                        Some(m) => {
                            assert(self@.monitors.dom().contains(k));
                            assert(self@.monitors[k] == m@);
                            window_tag_mask(m, wid)
                        },
                        None => 0,
                    },
                    None => 0,
                };
                QueryResponse::Window(WindowReport {
                    id: info.id,
                    monitor_id: mid,
                    tags,
                    app_name: info.app_name.clone(),
                    title: info.title.clone(),
                })
            },
            None => match window {
                Some(w) => {
                    if w.window_id == wid {
                        QueryResponse::Window(WindowReport {
                            id: w.window_id,
                            monitor_id: match focused {
                                Some(fm) => Some(fm.monitor_id),
                                None => None,
                            },
                            tags: 0,
                            app_name: w.app_name.clone(),
                            title: w.window_title.clone(),
                        })
                    } else {
                        QueryResponse::Null
                    }
                },
                None => QueryResponse::Null,
            },
        }
    }

    fn query_monitor(&self, focused: &Option<AerospaceMonitor>, named: Option<MonitorId>) -> (r: QueryResponse)
        requires
            tags_fit(self@.monitors),
        ensures
            r@ == query_monitor_spec(self@, opt_monitor_view(*focused), named),
    {
        let target = match named {
            Some(id) => Some(id),
            None => match focused {
                Some(fm) => Some(fm.monitor_id),
                None => None,
            },
        };
        match target {
            Some(k) => match self.monitors.get(&k) {
                Some(m) => {
                    assert(self@.monitors.dom().contains(k));
                    assert(self@.monitors[k] == m@);
                    QueryResponse::Monitor(monitor_report(m))
                },
                None => QueryResponse::Null,
            },
            None => QueryResponse::Null,
        }
    }

    fn query_state(&self, focused: &Option<AerospaceMonitor>) -> (r: QueryResponse)
        requires
            tags_fit(self@.monitors),
        ensures
            r@ == query_state_spec(self@, opt_monitor_view(*focused)),
    {
        let mids = sorted_keys(&self.monitors);
        proof {
            assert(self@.monitors.dom() =~= self.monitors@.dom());
            lemma_in_order(mids@, self@.monitors.dom());
        }
        let mut monitors: Vec<(MonitorId, MonitorReport)> = Vec::new();
        let mut i: usize = 0;
        while i < mids.len()
            invariant
                i <= mids@.len(),
                tags_fit(self@.monitors),
                in_order(self@.monitors.dom()) == mids@,
                forall|k: MonitorId| self@.monitors.dom().contains(k) <==> mids@.contains(k),
                monitors@.len() == i,
                forall|j: int| 0 <= j < i ==> (#[trigger] monitors@[j]).0 == mids@[j] && monitors@[j].1@
                    == monitor_report_spec(self@.monitors[mids@[j]]),
            decreases mids@.len() - i,
        {
            let k = mids[i];
            assert(mids@.contains(k));
            let m = self.monitors.get(&k).unwrap();
            assert(self@.monitors[k] == m@);
            monitors.push((k, monitor_report(m)));
            i = i + 1;
        }
        let wids = sorted_keys(&self.windows);
        proof {
            assert(self@.windows.dom() =~= self.windows@.dom());
            lemma_in_order(wids@, self@.windows.dom());
        }
        let mut windows: Vec<(WindowId, WindowInfo)> = Vec::new();
        let mut i: usize = 0;
        while i < wids.len()
            invariant
                i <= wids@.len(),
                in_order(self@.windows.dom()) == wids@,
                forall|k: WindowId| self@.windows.dom().contains(k) <==> wids@.contains(k),
                windows@.len() == i,
                forall|j: int| 0 <= j < i ==> (#[trigger] windows@[j]).0 == wids@[j] && windows@[j].1@
                    == self@.windows[wids@[j]],
            decreases wids@.len() - i,
        {
            let k = wids[i];
            assert(wids@.contains(k));
            let w = self.windows.get(&k).unwrap();
            assert(self@.windows[k] == w@);
            windows.push((k, w.duplicate()));
            i = i + 1;
        }
        let r = StateReport {
            focused_monitor_id: match focused {
                Some(fm) => Some(fm.monitor_id),
                None => None,
            },
            monitors,
            windows,
        };
        assert(r@ =~= match query_state_spec(self@, opt_monitor_view(*focused)) {
            QueryResponseView::State(v) => v,
            _ => r@,
        });
        QueryResponse::State(r)
    }
}

} // verus!
