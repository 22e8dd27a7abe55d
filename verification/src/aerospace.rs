//! What AeroSpace reports about monitors, windows and workspaces.
use vstd::prelude::*;

verus! {

/// A monitor as AeroSpace lists it.
pub struct AerospaceMonitor {
    pub monitor_id: u32,
    pub monitor_name: String,
}

/// A window as AeroSpace lists it.
pub struct AerospaceWindow {
    pub window_id: u32,
    pub app_name: String,
    pub window_title: String,
    pub workspace: Option<String>,
}

/// A workspace as AeroSpace lists it.
pub struct AerospaceWorkspace {
    pub workspace: String,
    pub monitor: Option<String>,
}

pub struct AerospaceMonitorView {
    pub monitor_id: u32,
    pub monitor_name: Seq<char>,
}

pub struct AerospaceWindowView {
    pub window_id: u32,
    pub app_name: Seq<char>,
    pub window_title: Seq<char>,
    pub workspace: Option<Seq<char>>,
}

pub struct AerospaceWorkspaceView {
    pub workspace: Seq<char>,
    pub monitor: Option<Seq<char>>,
}

pub open spec fn opt_text(s: Option<String>) -> Option<Seq<char>> {
    match s {
        Some(t) => Some(t@),
        None => None,
    }
}

impl View for AerospaceMonitor {
    type V = AerospaceMonitorView;

    open spec fn view(&self) -> AerospaceMonitorView {
        AerospaceMonitorView { monitor_id: self.monitor_id, monitor_name: self.monitor_name@ }
    }
}

impl View for AerospaceWindow {
    type V = AerospaceWindowView;

    open spec fn view(&self) -> AerospaceWindowView {
        AerospaceWindowView {
            window_id: self.window_id,
            app_name: self.app_name@,
            window_title: self.window_title@,
            workspace: opt_text(self.workspace),
        }
    }
}

impl View for AerospaceWorkspace {
    type V = AerospaceWorkspaceView;

    open spec fn view(&self) -> AerospaceWorkspaceView {
        AerospaceWorkspaceView { workspace: self.workspace@, monitor: opt_text(self.monitor) }
    }
}

pub open spec fn opt_monitor_view(m: Option<AerospaceMonitor>) -> Option<AerospaceMonitorView> {
    match m {
        Some(x) => Some(x@),
        None => None,
    }
}

pub open spec fn opt_window_view(w: Option<AerospaceWindow>) -> Option<AerospaceWindowView> {
    match w {
        Some(x) => Some(x@),
        None => None,
    }
}

impl AerospaceMonitor {
    /// A copy with the same id and name.
    pub fn duplicate(&self) -> (r: AerospaceMonitor)
        ensures
            r@ == self@,
    {
        AerospaceMonitor { monitor_id: self.monitor_id, monitor_name: self.monitor_name.clone() }
    }
}

/// A copy of a list of monitors, element by element.
pub fn duplicate_monitors(ms: &Vec<AerospaceMonitor>) -> (r: Vec<AerospaceMonitor>)
    ensures
        r@.map_values(|m: AerospaceMonitor| m@) == ms@.map_values(|m: AerospaceMonitor| m@),
{
    let mut out: Vec<AerospaceMonitor> = Vec::new();
    let mut i: usize = 0;
    while i < ms.len()
        invariant
            i <= ms.len(),
            out@.len() == i,
            forall|j: int| 0 <= j < i ==> #[trigger] out@[j]@ == ms@[j]@,
        decreases ms.len() - i,
    {
        out.push(ms[i].duplicate());
        i = i + 1;
    }
    assert(out@.map_values(|m: AerospaceMonitor| m@) =~= ms@.map_values(|m: AerospaceMonitor| m@));
    out
}

} // verus!
