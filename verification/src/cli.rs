//! The command line: what each subcommand asks of the server.
use vstd::prelude::*;
use crate::ipc::{IpcCommand, QueryTarget};

verus! {

/// Tag based workspace manager for AeroSpace.
pub struct Args {
    pub cmd: SubCommand,
}

pub enum SubCommand {
    Server(ServerCommand),
    TagView(TagViewCommand),
    TagToggle(TagToggleCommand),
    TagLast(TagLastCommand),
    TagSet(TagSetCommand),
    WindowMove(WindowMoveCommand),
    WindowToggle(WindowToggleCommand),
    WindowMoveMonitor(WindowMoveMonitorCommand),
    WindowSet(WindowSetCommand),
    Query(QueryCommand),
    Version(VersionCommand),
    Hook(HookCommand),
    Subscribe(SubscribeCommand),
}

/// Launch workspace manager daemon.
pub struct ServerCommand {}

/// Show version info.
pub struct VersionCommand {}

/// Switch to a specific tag (numbered from 1) on the focused monitor.
pub struct TagViewCommand {
    pub tag: u8,
}

/// Toggle a specific tag (numbered from 1) on the focused monitor.
pub struct TagToggleCommand {
    pub tag: u8,
}

/// Restore the last selected tags on the focused monitor.
pub struct TagLastCommand {}

/// Set monitor tags to a specific bitmask.
pub struct TagSetCommand {
    pub mask: u32,
    pub monitor_id: Option<u32>,
}

/// Move focused window to a specific tag (numbered from 1).
pub struct WindowMoveCommand {
    pub tag: u8,
}

/// Toggle focused window on a specific tag (numbered from 1).
pub struct WindowToggleCommand {
    pub tag: u8,
}

/// Move focused window to next/prev monitor.
pub struct WindowMoveMonitorCommand {
    pub target: String,
}

/// Set window tags to a specific bitmask.
pub struct WindowSetCommand {
    pub mask: u32,
    pub window_id: Option<u32>,
}

/// Query state information.
pub struct QueryCommand {
    pub cmd: QuerySubCommand,
}

pub enum QuerySubCommand {
    Window(QueryWindowCommand),
    Monitor(QueryMonitorCommand),
    State(QueryStateCommand),
}

/// Query window information.
pub struct QueryWindowCommand {
    pub window_id: Option<u32>,
}

/// Query monitor information.
pub struct QueryMonitorCommand {
    pub monitor_id: Option<u32>,
}

/// Query full state.
pub struct QueryStateCommand {}

/// Trigger synchronization (e.g., from AeroSpace exec-on-workspace-change).
pub struct HookCommand {}

/// Subscribe to state change events.
pub struct SubscribeCommand {}

/// What the program does for a subcommand.
pub enum ClientAction {
    /// Run the server.
    RunServer,
    /// Print the version.
    ShowVersion,
    /// Send a command to the server.
    Send(IpcCommand),
    /// Ask the server and print its answer.
    Query(QueryTarget),
    /// Print the server's events as they come.
    Subscribe,
}

/// A command line the program refuses.
pub enum CliError {
    /// Tags are numbered from 1; 0 was given.
    TagIndexZero,
}

/// The zero-based index of a tag numbered from 1.
pub open spec fn zero_based(tag: u8) -> Result<u8, CliError> {
    if tag == 0 {
        Err(CliError::TagIndexZero)
    } else {
        Ok((tag - 1) as u8)
    }
}

/// What a query subcommand asks about.
pub open spec fn query_target_spec(cmd: QuerySubCommand) -> QueryTarget {
    match cmd {
        QuerySubCommand::Window(c) => QueryTarget::Window(c.window_id),
        QuerySubCommand::Monitor(c) => QueryTarget::Monitor(c.monitor_id),
        QuerySubCommand::State(_) => QueryTarget::State,
    }
}

/// A tag command for the tag numbered `tag` from 1.
pub open spec fn send_tag(tag: u8, make: spec_fn(u8) -> IpcCommand) -> Result<ClientAction, CliError> {
    match zero_based(tag) {
        Ok(t) => Ok(ClientAction::Send(make(t))),
        Err(e) => Err(e),
    }
}

/// What the program does for each subcommand.
pub open spec fn client_action_spec(cmd: SubCommand) -> Result<ClientAction, CliError> {
    match cmd {
        SubCommand::Server(_) => Ok(ClientAction::RunServer),
        SubCommand::Version(_) => Ok(ClientAction::ShowVersion),
        SubCommand::TagView(c) => send_tag(c.tag, |t: u8| IpcCommand::TagView(t)),
        SubCommand::TagToggle(c) => send_tag(c.tag, |t: u8| IpcCommand::TagToggle(t)),
        SubCommand::TagLast(_) => Ok(ClientAction::Send(IpcCommand::TagLast)),
        SubCommand::TagSet(c) => Ok(ClientAction::Send(IpcCommand::TagSet(c.mask, c.monitor_id))),
        SubCommand::WindowMove(c) => send_tag(c.tag, |t: u8| IpcCommand::WindowMove(t)),
        SubCommand::WindowToggle(c) => send_tag(c.tag, |t: u8| IpcCommand::WindowToggle(t)),
        SubCommand::WindowMoveMonitor(c) => Ok(ClientAction::Send(IpcCommand::WindowMoveMonitor(c.target))),
        SubCommand::WindowSet(c) => Ok(ClientAction::Send(IpcCommand::WindowSet(c.mask, c.window_id))),
        SubCommand::Query(c) => Ok(ClientAction::Query(query_target_spec(c.cmd))),
        SubCommand::Hook(_) => Ok(ClientAction::Send(IpcCommand::Sync)),
        SubCommand::Subscribe(_) => Ok(ClientAction::Subscribe),
    }
}

/// The zero-based index of a tag numbered from 1; 0 is refused.
pub fn tag_index(tag: u8) -> (r: Result<u8, CliError>)
    ensures
        r == zero_based(tag),
{
    if tag == 0 {
        Err(CliError::TagIndexZero)
    } else {
        Ok(tag - 1)
    }
}

impl QueryCommand {
    /// What the query asks about.
    pub fn target(self) -> (r: QueryTarget)
        ensures
            r == query_target_spec(self.cmd),
    {
        match self.cmd {
            QuerySubCommand::Window(c) => QueryTarget::Window(c.window_id),
            QuerySubCommand::Monitor(c) => QueryTarget::Monitor(c.monitor_id),
            QuerySubCommand::State(_) => QueryTarget::State,
        }
    }
}

impl SubCommand {
    /// What the program does for the subcommand; tag numbers given on the command line count
    /// from 1 and are sent counting from 0.
    pub fn into_action(self) -> (r: Result<ClientAction, CliError>)
        ensures
            r == client_action_spec(self),
    {
        match self {
            SubCommand::Server(_) => Ok(ClientAction::RunServer),
            SubCommand::Version(_) => Ok(ClientAction::ShowVersion),
            SubCommand::TagView(c) => match tag_index(c.tag) {
                Ok(t) => Ok(ClientAction::Send(IpcCommand::TagView(t))),
                Err(e) => Err(e),
            },
            SubCommand::TagToggle(c) => match tag_index(c.tag) {
                Ok(t) => Ok(ClientAction::Send(IpcCommand::TagToggle(t))),
                Err(e) => Err(e),
            },
            SubCommand::TagLast(_) => Ok(ClientAction::Send(IpcCommand::TagLast)),
            SubCommand::TagSet(c) => Ok(ClientAction::Send(IpcCommand::TagSet(c.mask, c.monitor_id))),
            SubCommand::WindowMove(c) => match tag_index(c.tag) {
                Ok(t) => Ok(ClientAction::Send(IpcCommand::WindowMove(t))),
                Err(e) => Err(e),
            },
            SubCommand::WindowToggle(c) => match tag_index(c.tag) {
                Ok(t) => Ok(ClientAction::Send(IpcCommand::WindowToggle(t))),
                Err(e) => Err(e),
            },
            SubCommand::WindowMoveMonitor(c) => Ok(ClientAction::Send(IpcCommand::WindowMoveMonitor(c.target))),
            SubCommand::WindowSet(c) => Ok(ClientAction::Send(IpcCommand::WindowSet(c.mask, c.window_id))),
            SubCommand::Query(c) => Ok(ClientAction::Query(c.target())),
            SubCommand::Hook(_) => Ok(ClientAction::Send(IpcCommand::Sync)),
            SubCommand::Subscribe(_) => Ok(ClientAction::Subscribe),
        }
    }
}

} // verus!
