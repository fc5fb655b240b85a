use claudeditor::tray::{tray_action, tray_menu, TrayAction, TrayEvent, TrayMenuEntry};
use claudeditor::{AIAgent, AgentStatus, AppState, Project, Timestamp};

fn agent(id: &str, status: AgentStatus) -> AIAgent {
    AIAgent {
        id: id.to_string(),
        name: format!("agent {}", id),
        agent_type: "coder".to_string(),
        status,
        capabilities: vec!["edit".to_string(), "refactor".to_string()],
    }
}

fn click(id: &str) -> TrayEvent {
    TrayEvent::MenuItemClick { id: id.to_string() }
}

#[test]
fn agents_are_listed_by_id() {
    let mut state = AppState::new();
    state.upsert_agent(agent("beta", AgentStatus::Busy));
    state.upsert_agent(agent("alpha", AgentStatus::Idle));
    state.upsert_agent(agent("gamma", AgentStatus::Error));
    assert_eq!(
        state.list_agents(),
        vec![
            agent("alpha", AgentStatus::Idle),
            agent("beta", AgentStatus::Busy),
            agent("gamma", AgentStatus::Error)
        ]
    );
    assert_eq!(state.agents().len(), 3);
}

#[test]
fn an_agent_changes_status_by_being_filed_again() {
    let mut state = AppState::new();
    state.upsert_agent(agent("alpha", AgentStatus::Idle));
    state.upsert_agent(agent("alpha", AgentStatus::Busy));
    assert_eq!(state.list_agents(), vec![agent("alpha", AgentStatus::Busy)]);
}

#[test]
fn an_agent_that_deregisters_is_gone() {
    let mut state = AppState::new();
    state.upsert_agent(agent("alpha", AgentStatus::Idle));
    state.upsert_agent(agent("beta", AgentStatus::Idle));
    assert!(state.remove_agent("alpha"));
    assert!(!state.remove_agent("alpha"));
    assert!(!state.remove_agent("nobody"));
    assert_eq!(state.list_agents(), vec![agent("beta", AgentStatus::Idle)]);
}

#[test]
fn create_project_files_a_project_with_a_fresh_id() {
    let mut state = AppState::new();
    let project = state.create_project(
        "demo".to_string(),
        "/tmp/demo".to_string(),
        Some("a demonstration".to_string()),
    );
    assert_eq!(project.name, "demo");
    assert_eq!(project.path, "/tmp/demo");
    assert_eq!(project.description, Some("a demonstration".to_string()));
    assert!(project.tags.is_empty());
    assert!(project.created_at.secs > 1_600_000_000);
    assert!(!project.last_modified.is_before(&project.created_at));
    assert!(project.last_modified >= project.created_at);
    assert_eq!(state.get_projects(), vec![project.clone()]);
    assert_eq!(state.projects().get(&project.id), Some(project));
}

#[test]
fn a_fresh_id_is_a_hyphenated_version_4_uuid() {
    let mut state = AppState::new();
    let project = state.create_project("demo".to_string(), "/tmp/demo".to_string(), None);
    let id: Vec<char> = project.id.chars().collect();
    assert_eq!(id.len(), 36);
    for (i, c) in id.iter().enumerate() {
        if i == 8 || i == 13 || i == 18 || i == 23 {
            assert_eq!(*c, '-');
        } else {
            assert!(matches!(*c, '0'..='9' | 'a'..='f'), "{:?} at {}", c, i);
        }
    }
    assert_eq!(id[14], '4');
    assert_eq!(project.description, None);
}

#[test]
fn fresh_ids_differ() {
    let mut state = AppState::new();
    let mut ids: Vec<String> = Vec::new();
    for i in 0..20 {
        ids.push(state.create_project(format!("p{}", i), "/tmp/p".to_string(), None).id);
    }
    assert_eq!(state.get_projects().len(), 20);
    let mut sorted = ids.clone();
    sorted.sort();
    sorted.dedup();
    assert_eq!(sorted.len(), 20);
    let listed: Vec<String> = state.get_projects().into_iter().map(|p| p.id).collect();
    assert_eq!(listed, sorted);
}

#[test]
fn register_project_replaces_by_id() {
    let stamp = Timestamp { secs: 7, nanos: 9 };
    let make = |id: &str, name: &str| Project {
        id: id.to_string(),
        name: name.to_string(),
        path: "/p".to_string(),
        created_at: stamp,
        last_modified: stamp,
        description: None,
        tags: vec!["t".to_string()],
    };
    let mut state = AppState::new();
    state.register_project(make("2", "two"));
    state.register_project(make("1", "one"));
    state.register_project(make("2", "deux"));
    assert_eq!(state.get_projects(), vec![make("1", "one"), make("2", "deux")]);
}

#[test]
fn timestamps_are_ordered_by_seconds_then_nanoseconds() {
    let at = |secs: i64, nanos: u32| Timestamp { secs, nanos };
    assert!(at(1, 999).is_before(&at(2, 0)));
    assert!(at(2, 0).is_before(&at(2, 1)));
    assert!(!at(2, 1).is_before(&at(2, 1)));
    assert!(!at(2, 1).is_before(&at(2, 0)));
    assert!(!at(3, 0).is_before(&at(2, 999)));
    assert!(at(-1, 5).is_before(&at(0, 0)));
    for (a, b) in [(at(1, 2), at(1, 3)), (at(5, 0), at(4, 9)), (at(0, 0), at(0, 0))] {
        assert_eq!(a.is_before(&b), a < b);
    }
}

#[test]
fn a_left_click_shows_the_window() {
    assert_eq!(tray_action(&TrayEvent::LeftClick), TrayAction::ShowAndFocus);
    assert_eq!(tray_action(&TrayEvent::Other), TrayAction::Nothing);
}

#[test]
fn menu_items_act_by_id() {
    assert_eq!(tray_action(&click("quit")), TrayAction::Quit);
    assert_eq!(tray_action(&click("show")), TrayAction::ShowAndFocus);
    assert_eq!(tray_action(&click("hide")), TrayAction::Hide);
    assert_eq!(tray_action(&click("Quit")), TrayAction::Nothing);
    assert_eq!(tray_action(&click("")), TrayAction::Nothing);
    assert_eq!(tray_action(&click("quit ")), TrayAction::Nothing);
}

#[test]
fn every_item_of_the_menu_acts() {
    let menu = tray_menu();
    assert_eq!(menu.len(), 4);
    assert_eq!(menu[0], TrayMenuEntry::Item { id: "show".to_string(), title: "Show".to_string() });
    assert_eq!(menu[1], TrayMenuEntry::Item { id: "hide".to_string(), title: "Hide".to_string() });
    assert_eq!(menu[2], TrayMenuEntry::Separator);
    assert_eq!(menu[3], TrayMenuEntry::Item { id: "quit".to_string(), title: "Quit".to_string() });
    for entry in menu {
        if let TrayMenuEntry::Item { id, .. } = entry {
            assert_ne!(tray_action(&click(&id)), TrayAction::Nothing);
        }
    }
}
