use aerotag::aerospace::{AerospaceMonitor, AerospaceWindow};
use aerotag::ipc::{Delivery, InternalCommand, IpcCommand, QueryTarget};
use aerotag::query::QueryResponse;
use aerotag::server::{handle_internal_command, Action};
use aerotag::state::{Monitor, State};

fn test_window() -> Option<AerospaceWindow> {
    Some(AerospaceWindow {
        window_id: 100,
        app_name: "TestApp".into(),
        window_title: "TestWindow".into(),
        workspace: None,
    })
}

fn main_monitor() -> Option<AerospaceMonitor> {
    Some(AerospaceMonitor {
        monitor_id: 1,
        monitor_name: "Main".into(),
    })
}

fn state_with_main(tags_with_window: &[usize]) -> State {
    let mut state = State::new();
    let mut monitor = Monitor::new(1, "Main".to_string(), "1".to_string());
    for &t in tags_with_window {
        monitor.tags[t].window_ids.push(100);
    }
    state.monitors.insert(1, monitor);
    state
}

#[test]
fn test_window_toggle_safety_guard() {
    let mut state = state_with_main(&[0]);
    let cmd = InternalCommand::WindowToggle(test_window(), None, 0);
    handle_internal_command(&mut state, cmd);
    let m = state.monitors.get(&1).unwrap();
    assert!(
        m.tags[0].window_ids.contains(&100),
        "Safety guard failed: Last tag was removed!"
    );
}

#[test]
fn test_window_toggle_normal() {
    let mut state = state_with_main(&[0, 1]);
    let cmd = InternalCommand::WindowToggle(test_window(), None, 0);
    handle_internal_command(&mut state, cmd);
    let m = state.monitors.get(&1).unwrap();
    assert!(
        !m.tags[0].window_ids.contains(&100),
        "Window should be removed from Tag 0"
    );
    assert!(
        m.tags[1].window_ids.contains(&100),
        "Window should remain in Tag 1"
    );
}

#[test]
fn test_window_toggle_add() {
    let mut state = state_with_main(&[0]);
    let cmd = InternalCommand::WindowToggle(test_window(), None, 1);
    handle_internal_command(&mut state, cmd);
    let m = state.monitors.get(&1).unwrap();
    assert!(m.tags[0].window_ids.contains(&100));
    assert!(
        m.tags[1].window_ids.contains(&100),
        "Window should be added to Tag 1"
    );
}

#[test]
fn test_window_move() {
    let mut state = state_with_main(&[0]);
    let cmd = InternalCommand::WindowMove(test_window(), None, 2);
    handle_internal_command(&mut state, cmd);
    let m = state.monitors.get(&1).unwrap();
    assert!(
        !m.tags[0].window_ids.contains(&100),
        "Should be removed from Tag 0"
    );
    assert!(
        m.tags[2].window_ids.contains(&100),
        "Should be added to Tag 2"
    );
}

#[test]
fn test_tag_view() {
    let mut state = state_with_main(&[]);
    let cmd = InternalCommand::TagView(main_monitor(), 2);
    handle_internal_command(&mut state, cmd);
    let m = state.monitors.get(&1).unwrap();
    assert_eq!(m.selected_tags, 1 << 2);
}

#[test]
fn test_tag_toggle() {
    let mut state = state_with_main(&[]);
    let cmd = InternalCommand::TagToggle(main_monitor(), 1);
    handle_internal_command(&mut state, cmd);
    let m = state.monitors.get(&1).unwrap();
    assert_eq!(m.selected_tags, 1 | 2);
}

#[test]
fn test_query_state() {
    let mut state = state_with_main(&[]);
    let cmd = InternalCommand::Query(None, main_monitor(), QueryTarget::State);
    let actions = handle_internal_command(&mut state, cmd);
    assert_eq!(actions.len(), 1);
    match &actions[0] {
        Action::Respond(QueryResponse::State(report)) => {
            assert_eq!(report.focused_monitor_id, Some(1));
            assert!(report.monitors.iter().any(|(k, m)| *k == 1 && m.id == 1 && m.name == "Main"));
        }
        _ => panic!("expected a state report"),
    }
}

#[test]
fn test_window_set() {
    let mut state = state_with_main(&[0]);
    let cmd = InternalCommand::WindowSet(None, main_monitor(), 6, Some(100));
    handle_internal_command(&mut state, cmd);
    let m = state.monitors.get(&1).unwrap();
    assert!(!m.tags[0].window_ids.contains(&100));
    assert!(m.tags[1].window_ids.contains(&100));
    assert!(m.tags[2].window_ids.contains(&100));
}

#[test]
fn test_tag_set() {
    let mut state = state_with_main(&[]);
    let cmd = InternalCommand::TagSet(None, 5, Some(1));
    handle_internal_command(&mut state, cmd);
    let m = state.monitors.get(&1).unwrap();
    assert_eq!(m.selected_tags, 5);
}

#[test]
fn test_window_move_monitor() {
    let mut state = State::new();
    let mut m1 = Monitor::new(1, "M1".into(), "1".into());
    let m2 = Monitor::new(2, "M2".into(), "2".into());
    m1.tags[0].window_ids.push(100);
    state.monitors.insert(1, m1);
    state.monitors.insert(2, m2);

    let cmd = InternalCommand::WindowMoveMonitor(
        Some(AerospaceWindow {
            window_id: 100,
            app_name: "App".into(),
            window_title: "Title".into(),
            workspace: None,
        }),
        Some(AerospaceMonitor {
            monitor_id: 1,
            monitor_name: "M1".into(),
        }),
        "next".into(),
    );
    let actions = handle_internal_command(&mut state, cmd);

    assert!(!state.monitors.get(&1).unwrap().tags[0].window_ids.contains(&100));
    assert!(state.monitors.get(&2).unwrap().tags[0].window_ids.contains(&100));
    // The window is moved to monitor 2's workspace "2", then focused.
    assert!(actions.iter().any(|a| matches!(
        a,
        Action::MoveWindowToMonitor(p) if p.window_id == 100 && p.workspace == "2"
    )));
}

#[test]
fn test_ipc_subscribe() {
    match IpcCommand::Subscribe.delivery() {
        Delivery::Subscribe => {}
        _ => panic!("Expected SubscribeClient message"),
    }
}

#[test]
fn test_subscribe_events() {
    let mut state = state_with_main(&[]);

    // 1. The initial events a subscriber gets.
    let initial = state.snapshot_events();
    assert_eq!(initial.len(), 1);
    assert_eq!(initial[0].event, "state_change");
    assert_eq!(initial[0].monitor_id, 1);

    // 2. The event the server broadcasts when monitor 1 is set to show tags 0 and 2.
    let actions = handle_internal_command(&mut state, InternalCommand::TagSet(None, 5, Some(1)));
    match &actions[0] {
        Action::Broadcast(e) => {
            assert_eq!(e.event, "state_change");
            assert_eq!(e.monitor_id, 1);
            assert_eq!(e.selected_tags, 5);
            assert_eq!(e.occupied_tags, 0);
        }
        _ => panic!("expected a broadcast first"),
    }
}
