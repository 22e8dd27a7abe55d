use std::collections::HashMap;

use aerotag::aerospace::{AerospaceMonitor, AerospaceWindow, AerospaceWorkspace};
use aerotag::align::{alignment_plan, monitor_ids_ascending, AlignStep};
use aerotag::cli::{
    tag_index, CliError, ClientAction, QueryCommand, QueryMonitorCommand, QueryStateCommand,
    QuerySubCommand, QueryWindowCommand, SubCommand, TagViewCommand, WindowSetCommand,
};
use aerotag::ipc::{Delivery, InternalCommand, IpcCommand, QueryTarget};
use aerotag::query::QueryResponse;
use aerotag::server::{
    broadcast_state_change, calculate_occupied_tags, handle_internal_command, initial_state,
    plan_monitor_sync, window_tag_mask, Action,
};
use aerotag::state::{Monitor, State, WindowInfo};
use aerotag::text::{hidden_workspace_name, is_hidden_workspace};

fn monitor(id: u32, ws: &str) -> Monitor {
    Monitor::new(id, format!("M{}", id), ws.to_string())
}

fn focus(id: u32) -> Option<AerospaceMonitor> {
    Some(AerospaceMonitor { monitor_id: id, monitor_name: format!("M{}", id) })
}

fn window(id: u32, ws: Option<&str>) -> AerospaceWindow {
    AerospaceWindow {
        window_id: id,
        app_name: "App".into(),
        window_title: format!("W{}", id),
        workspace: ws.map(|s| s.to_string()),
    }
}

fn one_monitor_state() -> State {
    let mut state = State::new();
    state.monitors.insert(1, monitor(1, "1"));
    state
}

fn selected(state: &State, id: u32) -> u32 {
    state.monitors.get(&id).unwrap().selected_tags
}

fn holds(state: &State, id: u32, tag: usize, w: u32) -> bool {
    state.monitors.get(&id).unwrap().tags[tag].window_ids.contains(&w)
}

// ---------------------------------------------------------------- tag selection

#[test]
fn tag_last_undoes_tag_view() {
    let mut state = one_monitor_state();
    handle_internal_command(&mut state, InternalCommand::TagView(focus(1), 2));
    assert_eq!(selected(&state, 1), 4);
    handle_internal_command(&mut state, InternalCommand::TagLast(focus(1)));
    assert_eq!(selected(&state, 1), 1);
    assert_eq!(state.monitors.get(&1).unwrap().previous_tags, 4);
}

#[test]
fn tag_last_twice_returns() {
    let mut state = one_monitor_state();
    handle_internal_command(&mut state, InternalCommand::TagView(focus(1), 5));
    handle_internal_command(&mut state, InternalCommand::TagLast(focus(1)));
    handle_internal_command(&mut state, InternalCommand::TagLast(focus(1)));
    assert_eq!(selected(&state, 1), 1 << 5);
}

#[test]
fn tag_view_same_tag_keeps_history() {
    let mut state = one_monitor_state();
    handle_internal_command(&mut state, InternalCommand::TagView(focus(1), 3));
    handle_internal_command(&mut state, InternalCommand::TagView(focus(1), 3));
    let m = state.monitors.get(&1).unwrap();
    assert_eq!(m.selected_tags, 8);
    assert_eq!(m.previous_tags, 1);
}

#[test]
fn tag_view_highest_tag() {
    let mut state = one_monitor_state();
    handle_internal_command(&mut state, InternalCommand::TagView(focus(1), 31));
    assert_eq!(selected(&state, 1), 0x8000_0000);
}

#[test]
fn tag_view_out_of_range_changes_nothing() {
    let mut state = one_monitor_state();
    handle_internal_command(&mut state, InternalCommand::TagView(focus(1), 32));
    assert_eq!(selected(&state, 1), 1);
}

#[test]
fn tag_toggle_twice_restores_selection() {
    let mut state = one_monitor_state();
    handle_internal_command(&mut state, InternalCommand::TagToggle(focus(1), 4));
    assert_eq!(selected(&state, 1), 1 | 16);
    handle_internal_command(&mut state, InternalCommand::TagToggle(focus(1), 4));
    assert_eq!(selected(&state, 1), 1);
}

#[test]
fn tag_toggle_can_hide_every_tag() {
    let mut state = one_monitor_state();
    handle_internal_command(&mut state, InternalCommand::TagToggle(focus(1), 0));
    assert_eq!(selected(&state, 1), 0);
}

#[test]
fn tag_command_without_focus_does_nothing() {
    let mut state = one_monitor_state();
    let acts = handle_internal_command(&mut state, InternalCommand::TagView(None, 2));
    assert!(acts.is_empty());
    assert_eq!(selected(&state, 1), 1);
    let acts = handle_internal_command(&mut state, InternalCommand::TagView(focus(9), 2));
    assert!(acts.is_empty());
    assert_eq!(selected(&state, 1), 1);
}

#[test]
fn tag_view_announces_and_syncs() {
    let mut state = one_monitor_state();
    state.monitors.get_mut(&1).unwrap().tags[0].window_ids.push(7);
    state.monitors.get_mut(&1).unwrap().tags[2].window_ids.push(9);
    let acts = handle_internal_command(&mut state, InternalCommand::TagView(focus(1), 2));
    assert_eq!(acts.len(), 2);
    match &acts[0] {
        Action::Broadcast(e) => {
            assert_eq!(e.event, "state_change");
            assert_eq!(e.monitor_id, 1);
            assert_eq!(e.selected_tags, 4);
            assert_eq!(e.occupied_tags, 5);
        }
        _ => panic!("expected a broadcast"),
    }
    match &acts[1] {
        Action::SyncMonitor(plan) => {
            assert_eq!(plan.placements.len(), 2);
            assert_eq!(plan.placements[0].window_id, 7);
            assert_eq!(plan.placements[0].workspace, "h-7");
            assert_eq!(plan.placements[1].window_id, 9);
            assert_eq!(plan.placements[1].workspace, "1");
            assert_eq!(plan.focus_workspace, "1");
        }
        _ => panic!("expected a sync plan"),
    }
}

#[test]
fn tag_set_on_focused_monitor() {
    let mut state = one_monitor_state();
    handle_internal_command(&mut state, InternalCommand::TagSet(focus(1), 0b1010, None));
    let m = state.monitors.get(&1).unwrap();
    assert_eq!(m.selected_tags, 0b1010);
    assert_eq!(m.previous_tags, 1);
}

// ---------------------------------------------------------------- masks

#[test]
fn occupied_tags_formula() {
    let mut m = monitor(1, "1");
    assert_eq!(calculate_occupied_tags(&m), 0);
    m.tags[0].window_ids.push(1);
    m.tags[2].window_ids.push(2);
    m.tags[31].window_ids.push(3);
    assert_eq!(calculate_occupied_tags(&m), 0x8000_0005);
}

#[test]
fn occupied_tags_with_empty_extra_tags() {
    let mut m = monitor(1, "1");
    m.tags[1].window_ids.push(4);
    m.tags.push(aerotag::state::Tag { window_ids: Vec::new() });
    m.tags.push(aerotag::state::Tag { window_ids: Vec::new() });
    assert_eq!(m.tags.len(), 34);
    assert_eq!(calculate_occupied_tags(&m), 2);
}

#[test]
fn window_tag_mask_formula() {
    let mut m = monitor(1, "1");
    m.tags[1].window_ids.push(5);
    m.tags[3].window_ids.push(5);
    m.tags[3].window_ids.push(6);
    assert_eq!(window_tag_mask(&m, 5), 0b1010);
    assert_eq!(window_tag_mask(&m, 6), 0b1000);
    assert_eq!(window_tag_mask(&m, 7), 0);
}

#[test]
fn broadcast_for_unknown_monitor_is_none() {
    let state = one_monitor_state();
    assert!(broadcast_state_change(&state, 2).is_none());
    let e = broadcast_state_change(&state, 1).unwrap();
    assert_eq!(e.monitor_id, 1);
    assert_eq!(e.selected_tags, 1);
}

// ---------------------------------------------------------------- window commands

#[test]
fn window_move_leaves_one_tag() {
    let mut state = one_monitor_state();
    for t in [0usize, 1, 3] {
        state.monitors.get_mut(&1).unwrap().tags[t].window_ids.push(100);
    }
    handle_internal_command(&mut state, InternalCommand::WindowMove(Some(window(100, None)), focus(1), 2));
    assert_eq!(window_tag_mask(state.monitors.get(&1).unwrap(), 100), 4);
    assert!(state.windows.contains_key(&100));
}

#[test]
fn window_move_unknown_window_goes_to_focused_monitor() {
    let mut state = one_monitor_state();
    handle_internal_command(&mut state, InternalCommand::WindowMove(Some(window(42, None)), focus(1), 6));
    assert_eq!(window_tag_mask(state.monitors.get(&1).unwrap(), 42), 1 << 6);
    let info = state.windows.get(&42).unwrap();
    assert_eq!(info.title, "W42");
}

#[test]
fn window_set_exact_mask() {
    let mut state = one_monitor_state();
    state.monitors.get_mut(&1).unwrap().tags[4].window_ids.push(100);
    handle_internal_command(&mut state, InternalCommand::WindowSet(None, focus(1), 0x8000_0001, Some(100)));
    assert_eq!(window_tag_mask(state.monitors.get(&1).unwrap(), 100), 0x8000_0001);
}

#[test]
fn window_toggle_guard_gives_no_actions() {
    let mut state = one_monitor_state();
    state.monitors.get_mut(&1).unwrap().tags[3].window_ids.push(100);
    let acts = handle_internal_command(&mut state, InternalCommand::WindowToggle(Some(window(100, None)), focus(1), 3));
    assert!(acts.is_empty());
    assert!(holds(&state, 1, 3, 100));
}

#[test]
fn window_move_monitor_prev_wraps_around() {
    let mut state = State::new();
    state.monitors.insert(1, monitor(1, "1"));
    state.monitors.insert(2, monitor(2, "2"));
    state.monitors.insert(3, monitor(3, "3"));
    state.monitors.get_mut(&3).unwrap().selected_tags = 0b100;
    state.monitors.get_mut(&1).unwrap().tags[0].window_ids.push(100);
    let acts = handle_internal_command(
        &mut state,
        InternalCommand::WindowMoveMonitor(Some(window(100, None)), focus(1), "prev".into()),
    );
    assert!(!holds(&state, 1, 0, 100));
    assert!(holds(&state, 3, 2, 100));
    assert!(acts.iter().any(|a| matches!(a, Action::MoveWindowToMonitor(p) if p.window_id == 100 && p.workspace == "3")));
}

#[test]
fn window_move_monitor_unknown_direction_does_nothing() {
    let mut state = State::new();
    state.monitors.insert(1, monitor(1, "1"));
    state.monitors.insert(2, monitor(2, "2"));
    state.monitors.get_mut(&1).unwrap().tags[0].window_ids.push(100);
    let acts = handle_internal_command(
        &mut state,
        InternalCommand::WindowMoveMonitor(Some(window(100, None)), focus(1), "up".into()),
    );
    assert!(acts.is_empty());
    assert!(holds(&state, 1, 0, 100));
}

// ---------------------------------------------------------------- plans and names

#[test]
fn sync_plan_hides_then_shows() {
    let mut m = monitor(2, "2");
    m.selected_tags = 0b10;
    m.tags[0].window_ids.push(10);
    m.tags[1].window_ids.push(20);
    m.tags[0].window_ids.push(20);
    let plan = plan_monitor_sync(&m);
    let got: Vec<(u32, String)> = plan.placements.iter().map(|p| (p.window_id, p.workspace.clone())).collect();
    assert_eq!(
        got,
        vec![(10, "h-10".to_string()), (20, "h-20".to_string()), (20, "2".to_string())]
    );
    assert_eq!(plan.focus_workspace, "2");
}

#[test]
fn hidden_workspace_names() {
    assert_eq!(hidden_workspace_name(100), "h-100");
    assert_eq!(hidden_workspace_name(0), "h-0");
    assert_eq!(hidden_workspace_name(u32::MAX), "h-4294967295");
    assert!(is_hidden_workspace("h-100"));
    assert!(!is_hidden_workspace("h"));
    assert!(!is_hidden_workspace("1"));
}

#[test]
fn initial_state_names_workspaces_after_monitors() {
    let list = vec![
        AerospaceMonitor { monitor_id: 2, monitor_name: "Side".into() },
        AerospaceMonitor { monitor_id: 1, monitor_name: "Main".into() },
    ];
    let state = initial_state(&list);
    assert_eq!(state.monitors.len(), 2);
    let m1 = state.monitors.get(&1).unwrap();
    assert_eq!(m1.visible_workspace, "1");
    assert_eq!(m1.name, "Main");
    assert_eq!(m1.selected_tags, 1);
    assert_eq!(m1.tags.len(), 32);
    assert_eq!(state.monitors.get(&2).unwrap().visible_workspace, "2");
    assert_eq!(state.hidden_workspace, "h");
    assert!(state.windows.is_empty());
}

#[test]
fn alignment_plan_when_misaligned() {
    let list = vec![
        AerospaceMonitor { monitor_id: 2, monitor_name: "Side".into() },
        AerospaceMonitor { monitor_id: 1, monitor_name: "Main".into() },
    ];
    let ids = monitor_ids_ascending(&list);
    assert_eq!(ids, vec![1, 2]);
    let mut current = HashMap::new();
    current.insert(1u32, "2".to_string());
    current.insert(2u32, "1".to_string());
    let plan = alignment_plan(&ids, &current);
    let text: Vec<String> = plan
        .iter()
        .map(|s| match s {
            AlignStep::FocusWorkspace(w) => format!("ws {}", w),
            AlignStep::MoveWorkspaceToMonitor(w, m) => format!("move {} {}", w, m),
            AlignStep::FocusMonitor(m) => format!("mon {}", m),
        })
        .collect();
    assert_eq!(
        text,
        vec![
            "ws 1", "ws 2", "move 1 1", "move 2 2", "mon 1", "ws 1", "mon 2", "ws 2", "mon 1", "ws 1",
        ]
    );
}

#[test]
fn alignment_plan_when_aligned_is_empty() {
    let ids = vec![1u32, 2];
    let mut current = HashMap::new();
    current.insert(1u32, "1".to_string());
    current.insert(2u32, "2".to_string());
    assert!(alignment_plan(&ids, &current).is_empty());
    assert!(alignment_plan(&vec![], &HashMap::new()).is_empty());
}

// ---------------------------------------------------------------- queries

#[test]
fn query_window_reports_tags_and_monitor() {
    let mut state = State::new();
    state.monitors.insert(1, monitor(1, "1"));
    state.monitors.insert(2, monitor(2, "2"));
    state.monitors.get_mut(&2).unwrap().tags[1].window_ids.push(7);
    state.monitors.get_mut(&2).unwrap().tags[4].window_ids.push(7);
    state.windows.insert(7, WindowInfo { id: 7, app_name: "Term".into(), title: "sh".into() });
    let acts = handle_internal_command(&mut state, InternalCommand::Query(None, focus(1), QueryTarget::Window(Some(7))));
    match &acts[0] {
        Action::Respond(QueryResponse::Window(r)) => {
            assert_eq!(r.id, 7);
            assert_eq!(r.monitor_id, Some(2));
            assert_eq!(r.tags, 0b10010);
            assert_eq!(r.app_name, "Term");
        }
        _ => panic!("expected a window report"),
    }
}

#[test]
fn query_unknown_things_is_null() {
    let mut state = one_monitor_state();
    let acts = handle_internal_command(&mut state, InternalCommand::Query(None, None, QueryTarget::Window(Some(5))));
    assert!(matches!(&acts[0], Action::Respond(QueryResponse::Null)));
    let acts = handle_internal_command(&mut state, InternalCommand::Query(None, None, QueryTarget::Monitor(Some(9))));
    assert!(matches!(&acts[0], Action::Respond(QueryResponse::Null)));
    let acts = handle_internal_command(&mut state, InternalCommand::Query(None, None, QueryTarget::Monitor(None)));
    assert!(matches!(&acts[0], Action::Respond(QueryResponse::Null)));
}

#[test]
fn query_focused_monitor() {
    let mut state = one_monitor_state();
    state.monitors.get_mut(&1).unwrap().tags[3].window_ids.push(1);
    let acts = handle_internal_command(&mut state, InternalCommand::Query(None, focus(1), QueryTarget::Monitor(None)));
    match &acts[0] {
        Action::Respond(QueryResponse::Monitor(r)) => {
            assert_eq!(r.id, 1);
            assert_eq!(r.selected_tags, 1);
            assert_eq!(r.occupied_tags, 8);
            assert_eq!(r.visible_workspace, "1");
        }
        _ => panic!("expected a monitor report"),
    }
}

// ---------------------------------------------------------------- sync

fn no_visible() -> HashMap<u32, String> {
    HashMap::new()
}

#[test]
fn sync_forgets_closed_windows() {
    let mut state = one_monitor_state();
    state.monitors.get_mut(&1).unwrap().tags[0].window_ids.push(5);
    state.monitors.get_mut(&1).unwrap().tags[0].window_ids.push(6);
    state.windows.insert(5, WindowInfo { id: 5, app_name: "A".into(), title: "a".into() });
    state.windows.insert(6, WindowInfo { id: 6, app_name: "B".into(), title: "b".into() });
    let cmd = InternalCommand::Sync(
        Some(vec![window(6, Some("1"))]),
        Some(vec![AerospaceMonitor { monitor_id: 1, monitor_name: "M1".into() }]),
        no_visible(),
        None,
        None,
        focus(1),
    );
    let acts = handle_internal_command(&mut state, cmd);
    assert!(!state.windows.contains_key(&5));
    assert!(state.windows.contains_key(&6));
    assert!(!holds(&state, 1, 0, 5));
    assert!(holds(&state, 1, 0, 6));
    assert!(acts.iter().any(|a| matches!(a, Action::Broadcast(e) if e.monitor_id == 1)));
}

#[test]
fn sync_places_new_window_on_its_monitor() {
    let mut state = State::new();
    state.monitors.insert(1, monitor(1, "1"));
    state.monitors.insert(2, monitor(2, "2"));
    state.monitors.get_mut(&2).unwrap().selected_tags = 0b1000;
    let cmd = InternalCommand::Sync(
        Some(vec![window(50, Some("2")), window(51, None)]),
        Some(vec![
            AerospaceMonitor { monitor_id: 1, monitor_name: "M1".into() },
            AerospaceMonitor { monitor_id: 2, monitor_name: "M2".into() },
        ]),
        no_visible(),
        None,
        None,
        focus(1),
    );
    handle_internal_command(&mut state, cmd);
    assert!(holds(&state, 2, 3, 50));
    assert!(holds(&state, 1, 0, 51));
    assert_eq!(state.windows.len(), 2);
}

#[test]
fn sync_rescues_windows_of_removed_monitor() {
    let mut state = State::new();
    state.monitors.insert(1, monitor(1, "1"));
    state.monitors.insert(2, monitor(2, "2"));
    state.monitors.get_mut(&2).unwrap().tags[5].window_ids.push(70);
    state.windows.insert(70, WindowInfo { id: 70, app_name: "A".into(), title: "t".into() });
    let cmd = InternalCommand::Sync(
        Some(vec![window(70, None)]),
        Some(vec![AerospaceMonitor { monitor_id: 1, monitor_name: "M1".into() }]),
        no_visible(),
        None,
        None,
        focus(1),
    );
    let acts = handle_internal_command(&mut state, cmd);
    assert!(!state.monitors.contains_key(&2));
    assert!(holds(&state, 1, 0, 70));
    assert!(acts.iter().any(|a| matches!(a, Action::SyncMonitor(p) if p.focus_workspace == "1")));
}

#[test]
fn sync_adds_new_monitor_and_realigns() {
    let mut state = one_monitor_state();
    let mut visible = HashMap::new();
    visible.insert(2u32, "h-9".to_string());
    let cmd = InternalCommand::Sync(
        Some(vec![]),
        Some(vec![
            AerospaceMonitor { monitor_id: 1, monitor_name: "M1".into() },
            AerospaceMonitor { monitor_id: 2, monitor_name: "M2".into() },
        ]),
        visible,
        None,
        None,
        focus(1),
    );
    let acts = handle_internal_command(&mut state, cmd);
    assert_eq!(state.monitors.get(&2).unwrap().visible_workspace, "2");
    assert!(matches!(&acts[0], Action::InitializeMonitors(ms) if ms.len() == 2));
}

#[test]
fn sync_without_lists_does_nothing() {
    let mut state = one_monitor_state();
    state.windows.insert(5, WindowInfo { id: 5, app_name: "A".into(), title: "a".into() });
    let cmd = InternalCommand::Sync(None, Some(vec![]), no_visible(), None, None, None);
    let acts = handle_internal_command(&mut state, cmd);
    assert!(acts.is_empty());
    assert!(state.windows.contains_key(&5));
    assert!(state.monitors.contains_key(&1));
}

#[test]
fn sync_brings_focus_back_from_hidden_workspace() {
    let mut state = one_monitor_state();
    state.monitors.get_mut(&1).unwrap().tags[4].window_ids.push(8);
    state.windows.insert(8, WindowInfo { id: 8, app_name: "A".into(), title: "a".into() });
    let cmd = InternalCommand::Sync(
        Some(vec![window(8, Some("h-8"))]),
        Some(vec![AerospaceMonitor { monitor_id: 1, monitor_name: "M1".into() }]),
        no_visible(),
        Some(AerospaceWorkspace { workspace: "h-8".into(), monitor: None }),
        Some(window(8, Some("h-8"))),
        focus(1),
    );
    handle_internal_command(&mut state, cmd);
    assert_eq!(selected(&state, 1), 1 << 4);
}

// ---------------------------------------------------------------- commands and the command line

#[test]
fn deliveries() {
    assert!(matches!(IpcCommand::Query(QueryTarget::State).delivery(), Delivery::Query(QueryTarget::State)));
    assert!(matches!(IpcCommand::TagLast.delivery(), Delivery::Ipc(IpcCommand::TagLast)));
    assert!(matches!(IpcCommand::Sync.delivery(), Delivery::Ipc(IpcCommand::Sync)));
}

#[test]
fn focus_needs_per_command() {
    let n = IpcCommand::TagView(1).focus_needs();
    assert!(!n.window && n.monitor);
    let n = IpcCommand::TagSet(3, Some(1)).focus_needs();
    assert!(!n.window && !n.monitor);
    let n = IpcCommand::WindowSet(3, None).focus_needs();
    assert!(n.window && n.monitor);
    let n = IpcCommand::Sync.focus_needs();
    assert!(!n.window && !n.monitor);
    assert!(QueryTarget::State.needs_focus_info());
    assert!(!QueryTarget::Window(Some(1)).needs_focus_info());
    assert!(QueryTarget::Monitor(None).needs_focus_info());
}

#[test]
fn internal_commands_for_client_commands() {
    let c = aerotag::ipc::internal_command_for(IpcCommand::TagSet(5, Some(2)), None, focus(1));
    assert!(matches!(c, Some(InternalCommand::TagSet(None, 5, Some(2)))));
    let c = aerotag::ipc::internal_command_for(IpcCommand::TagView(3), None, focus(1));
    assert!(matches!(c, Some(InternalCommand::TagView(Some(ref m), 3)) if m.monitor_id == 1));
    assert!(aerotag::ipc::internal_command_for(IpcCommand::Sync, None, None).is_none());
}

#[test]
fn tag_numbers_count_from_one() {
    assert!(matches!(tag_index(0), Err(CliError::TagIndexZero)));
    assert!(matches!(tag_index(1), Ok(0)));
    assert!(matches!(tag_index(32), Ok(31)));
    let a = SubCommand::TagView(TagViewCommand { tag: 3 }).into_action();
    assert!(matches!(a, Ok(ClientAction::Send(IpcCommand::TagView(2)))));
    let a = SubCommand::TagView(TagViewCommand { tag: 0 }).into_action();
    assert!(matches!(a, Err(CliError::TagIndexZero)));
    let a = SubCommand::WindowSet(WindowSetCommand { mask: 6, window_id: Some(4) }).into_action();
    assert!(matches!(a, Ok(ClientAction::Send(IpcCommand::WindowSet(6, Some(4))))));
}

#[test]
fn query_subcommands() {
    let q = QueryCommand { cmd: QuerySubCommand::Window(QueryWindowCommand { window_id: Some(3) }) };
    assert!(matches!(q.target(), QueryTarget::Window(Some(3))));
    let q = QueryCommand { cmd: QuerySubCommand::Monitor(QueryMonitorCommand { monitor_id: None }) };
    assert!(matches!(q.target(), QueryTarget::Monitor(None)));
    let q = QueryCommand { cmd: QuerySubCommand::State(QueryStateCommand {}) };
    assert!(matches!(q.target(), QueryTarget::State));
}
