//! Messages between clients, the connection handlers and the state manager.
use std::collections::HashMap;
use vstd::prelude::*;
use crate::aerospace::{AerospaceMonitor, AerospaceWindow, AerospaceWorkspace};

verus! {

/// A request a client sends over the socket.
pub enum IpcCommand {
    TagView(u8),
    TagToggle(u8),
    TagLast,
    TagSet(u32, Option<u32>),
    WindowMove(u8),
    WindowToggle(u8),
    WindowMoveMonitor(String),
    WindowSet(u32, Option<u32>),
    Query(QueryTarget),
    Sync,
    Subscribe,
}

/// What a query asks about; `None` means the focused window or monitor.
pub enum QueryTarget {
    Window(Option<u32>),
    Monitor(Option<u32>),
    State,
}

/// A change of a monitor's shown and occupied tags, as streamed to subscribers.
pub struct StateEvent {
    pub event: String,
    pub monitor_id: u32,
    pub selected_tags: u32,
    pub occupied_tags: u32,
}

#[verifier::ext_equal]
pub struct StateEventView {
    pub event: Seq<char>,
    pub monitor_id: u32,
    pub selected_tags: u32,
    pub occupied_tags: u32,
}

impl View for StateEvent {
    type V = StateEventView;

    open spec fn view(&self) -> StateEventView {
        StateEventView {
            event: self.event@,
            monitor_id: self.monitor_id,
            selected_tags: self.selected_tags,
            occupied_tags: self.occupied_tags,
        }
    }
}

/// A command for the state manager, with the focus information it needs already fetched.
/// Lists that could not be fetched are `None`.
pub enum InternalCommand {
    TagView(Option<AerospaceMonitor>, u8),
    TagToggle(Option<AerospaceMonitor>, u8),
    TagLast(Option<AerospaceMonitor>),
    TagSet(Option<AerospaceMonitor>, u32, Option<u32>),
    WindowMove(Option<AerospaceWindow>, Option<AerospaceMonitor>, u8),
    WindowToggle(Option<AerospaceWindow>, Option<AerospaceMonitor>, u8),
    WindowMoveMonitor(Option<AerospaceWindow>, Option<AerospaceMonitor>, String),
    WindowSet(Option<AerospaceWindow>, Option<AerospaceMonitor>, u32, Option<u32>),
    Query(Option<AerospaceWindow>, Option<AerospaceMonitor>, QueryTarget),
    Sync(
        Option<Vec<AerospaceWindow>>,
        Option<Vec<AerospaceMonitor>>,
        HashMap<u32, String>,
        Option<AerospaceWorkspace>,
        Option<AerospaceWindow>,
        Option<AerospaceMonitor>,
    ),
}

/// Where a command read from a connection goes.
pub enum Delivery {
    /// The connection becomes an event subscriber.
    Subscribe,
    /// The connection waits for the answer to a query.
    Query(QueryTarget),
    /// The command is carried out; the connection gets no answer.
    Ipc(IpcCommand),
}

/// Which focus information must be fetched from AeroSpace before a command can run.
pub struct FocusNeeds {
    pub window: bool,
    pub monitor: bool,
}

impl IpcCommand {
    /// Subscriptions and queries keep their connection; every other command is handed on.
    pub fn delivery(self) -> (r: Delivery)
        ensures
            match self {
                IpcCommand::Subscribe => r is Subscribe,
                IpcCommand::Query(t) => r == Delivery::Query(t),
                other => r == Delivery::Ipc(other),
            },
    {
        match self {
            IpcCommand::Subscribe => Delivery::Subscribe,
            IpcCommand::Query(t) => Delivery::Query(t),
            other => Delivery::Ipc(other),
        }
    }

    /// The focus information a command needs: the focused monitor for tag commands (for
    /// `TagSet` only when no monitor is named), the focused window and monitor for window
    /// commands (for `WindowSet` only when no window is named), nothing for the rest.
    pub fn focus_needs(&self) -> (r: FocusNeeds)
        ensures
            r.window == match self {
                IpcCommand::WindowMove(_) | IpcCommand::WindowToggle(_)
                | IpcCommand::WindowMoveMonitor(_) => true,
                IpcCommand::WindowSet(_, id) => id is None,
                _ => false,
            },
            r.monitor == match self {
                IpcCommand::TagView(_) | IpcCommand::TagToggle(_) | IpcCommand::TagLast
                | IpcCommand::WindowMove(_) | IpcCommand::WindowToggle(_)
                | IpcCommand::WindowMoveMonitor(_) => true,
                IpcCommand::TagSet(_, id) => id is None,
                IpcCommand::WindowSet(_, id) => id is None,
                _ => false,
            },
    {
        match self {
            IpcCommand::TagView(_) | IpcCommand::TagToggle(_) | IpcCommand::TagLast => FocusNeeds {
                window: false,
                monitor: true,
            },
            IpcCommand::TagSet(_, id) => FocusNeeds { window: false, monitor: id.is_none() },
            IpcCommand::WindowMove(_) | IpcCommand::WindowToggle(_)
            | IpcCommand::WindowMoveMonitor(_) => FocusNeeds { window: true, monitor: true },
            IpcCommand::WindowSet(_, id) => FocusNeeds { window: id.is_none(), monitor: id.is_none() },
            _ => FocusNeeds { window: false, monitor: false },
        }
    }
}

impl QueryTarget {
    /// A query about the focused window or monitor, or about the whole state, needs the focus.
    pub fn needs_focus_info(&self) -> (r: bool)
        ensures
            r == match self {
                QueryTarget::Window(id) => id is None,
                QueryTarget::Monitor(id) => id is None,
                QueryTarget::State => true,
            },
    {
        match self {
            QueryTarget::Window(id) => id.is_none(),
            QueryTarget::Monitor(id) => id.is_none(),
            QueryTarget::State => true,
        }
    }
}

/// The state manager's command for a client command, given the fetched focus; a focus that was
/// not needed is not passed on. `Sync`, `Query` and `Subscribe` are not turned into one here.
pub fn internal_command_for(
    cmd: IpcCommand,
    window: Option<AerospaceWindow>,
    monitor: Option<AerospaceMonitor>,
) -> (r: Option<InternalCommand>)
    ensures
        match cmd {
            IpcCommand::TagView(t) => r == Some(InternalCommand::TagView(monitor, t)),
            IpcCommand::TagToggle(t) => r == Some(InternalCommand::TagToggle(monitor, t)),
            IpcCommand::TagLast => r == Some(InternalCommand::TagLast(monitor)),
            IpcCommand::TagSet(mask, id) => r == Some(
                InternalCommand::TagSet(if id is None { monitor } else { None }, mask, id),
            ),
            IpcCommand::WindowMove(t) => r == Some(InternalCommand::WindowMove(window, monitor, t)),
            IpcCommand::WindowToggle(t) => r == Some(InternalCommand::WindowToggle(window, monitor, t)),
            IpcCommand::WindowMoveMonitor(target) => r == Some(
                InternalCommand::WindowMoveMonitor(window, monitor, target),
            ),
            IpcCommand::WindowSet(mask, id) => r == Some(
                if id is None {
                    InternalCommand::WindowSet(window, monitor, mask, id)
                } else {
                    InternalCommand::WindowSet(None, None, mask, id)
                },
            ),
            _ => r is None,
        },
{
    match cmd {
        IpcCommand::TagView(t) => Some(InternalCommand::TagView(monitor, t)),
        IpcCommand::TagToggle(t) => Some(InternalCommand::TagToggle(monitor, t)),
        IpcCommand::TagLast => Some(InternalCommand::TagLast(monitor)),
        IpcCommand::TagSet(mask, id) => {
            let m = if id.is_none() { monitor } else { None };
            Some(InternalCommand::TagSet(m, mask, id))
        },
        IpcCommand::WindowMove(t) => Some(InternalCommand::WindowMove(window, monitor, t)),
        IpcCommand::WindowToggle(t) => Some(InternalCommand::WindowToggle(window, monitor, t)),
        IpcCommand::WindowMoveMonitor(target) => Some(
            InternalCommand::WindowMoveMonitor(window, monitor, target),
        ),
        IpcCommand::WindowSet(mask, id) => {
            if id.is_none() {
                Some(InternalCommand::WindowSet(window, monitor, mask, id))
            } else {
                Some(InternalCommand::WindowSet(None, None, mask, id))
            }
        },
        _ => None,
    }
}

} // verus!
