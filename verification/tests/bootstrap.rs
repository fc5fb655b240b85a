use claudeditor::{
    AppState, CoordinationConfig, CoordinationHandle, DiscoveryError, InitError, MCPCoordinator,
    PowerAutomationCore, ProviderDescriptor, Ready, Timestamp,
};

fn provider(id: &str) -> ProviderDescriptor {
    ProviderDescriptor {
        id: id.to_string(),
        name: format!("provider {}", id),
        address: format!("{}.local:9000", id),
        declared_capabilities: vec!["search".to_string()],
    }
}

fn config(core_address: &str, timeout: u64, in_flight: usize) -> CoordinationConfig {
    CoordinationConfig {
        core_address: core_address.to_string(),
        providers: vec![provider("p1"), provider("p2")],
        probe_timeout_ms: timeout,
        max_in_flight: in_flight,
    }
}

#[test]
fn a_new_state_is_not_initialized() {
    let state = AppState::new();
    assert!(!state.is_initialized());
    assert!(state.handle().is_none());
    assert!(state.list_services().is_empty());
    assert!(state.list_agents().is_empty());
    assert!(state.get_projects().is_empty());
}

#[test]
fn initialize_publishes_core_and_engine_together() {
    let mut state = AppState::new();
    assert_eq!(state.initialize(&config("core.local:1", 3000, 4)), Ok(Ready));
    assert!(state.is_initialized());
    let handle = state.handle().unwrap();
    assert_eq!(handle.automation_core().address(), "core.local:1");
    assert_eq!(handle.engine().core_address(), "core.local:1");
    assert_eq!(handle.engine().probe_timeout_ms(), 3000);
    assert_eq!(handle.engine().max_in_flight(), 4);
    assert_eq!(handle.engine().providers(), vec![provider("p1"), provider("p2")]);
}

#[test]
fn initialize_is_idempotent() {
    let mut state = AppState::new();
    let first = config("core.local:1", 3000, 4);
    let other = config("elsewhere:2", 10, 1);
    for _ in 0..5 {
        assert_eq!(state.initialize(&first), Ok(Ready));
    }
    assert_eq!(state.initialize(&other), Ok(Ready));
    let handle = state.handle().unwrap();
    assert_eq!(handle.automation_core().address(), "core.local:1");
    assert_eq!(handle.engine().probe_timeout_ms(), 3000);
    assert_eq!(handle.engine().max_in_flight(), 4);
}

#[test]
fn initialize_fails_without_a_core_address() {
    let mut state = AppState::new();
    assert_eq!(state.initialize(&config("", 3000, 4)), Err(InitError::AutomationCoreFailed));
    assert!(!state.is_initialized());
    assert!(state.handle().is_none());
}

#[test]
fn initialize_fails_without_time_or_room_for_a_probe() {
    let mut state = AppState::new();
    assert_eq!(
        state.initialize(&config("core.local:1", 0, 4)),
        Err(InitError::DiscoveryEngineFailed)
    );
    assert!(!state.is_initialized());
    assert_eq!(
        state.initialize(&config("core.local:1", 3000, 0)),
        Err(InitError::DiscoveryEngineFailed)
    );
    assert!(!state.is_initialized());
}

#[test]
fn the_core_is_tried_before_the_engine() {
    let mut state = AppState::new();
    assert_eq!(state.initialize(&config("", 0, 0)), Err(InitError::AutomationCoreFailed));
}

#[test]
fn a_failed_initialize_can_be_tried_again() {
    let mut state = AppState::new();
    for _ in 0..3 {
        assert_eq!(
            state.initialize(&config("core.local:1", 0, 4)),
            Err(InitError::DiscoveryEngineFailed)
        );
    }
    assert_eq!(state.initialize(&config("core.local:1", 1, 1)), Ok(Ready));
    assert!(state.is_initialized());
    assert_eq!(
        state.initialize(&config("", 0, 0)),
        Ok(Ready),
        "a standing handle answers before anything is built"
    );
}

#[test]
fn discover_before_initialize_fails() {
    let mut state = AppState::new();
    let now = Timestamp { secs: 10, nanos: 0 };
    assert_eq!(state.discover_at(&vec![], now), Err(DiscoveryError::NotInitialized));
    assert_eq!(state.discover(&vec![]), Err(DiscoveryError::NotInitialized));
    assert_eq!(state.plan_discovery(), Err(DiscoveryError::NotInitialized));
    assert_eq!(state.initialize(&config("", 3000, 4)), Err(InitError::AutomationCoreFailed));
    assert_eq!(state.discover_at(&vec![], now), Err(DiscoveryError::NotInitialized));
    assert!(state.list_services().is_empty());
}

#[test]
fn discover_after_initialize_never_fails() {
    let mut state = AppState::new();
    let now = Timestamp { secs: 10, nanos: 0 };
    assert_eq!(state.initialize(&config("core.local:1", 3000, 4)), Ok(Ready));
    assert!(state.discover_at(&vec![], now).is_ok());
    assert!(state.discover(&vec![]).is_ok());
    assert!(state.plan_discovery().is_ok());
    assert_eq!(state.initialize(&config("", 0, 0)), Ok(Ready));
    assert!(state.discover_at(&vec![], now).is_ok());
}

#[test]
fn core_and_engine_built_by_hand() {
    assert_eq!(PowerAutomationCore::new("").err(), Some(InitError::AutomationCoreFailed));
    let core = PowerAutomationCore::new("core.local:1").unwrap();
    assert_eq!(core.address(), "core.local:1");
    assert!(core.is_ready());
    assert_eq!(
        MCPCoordinator::new(&core, &vec![], 0, 1).err(),
        Some(InitError::DiscoveryEngineFailed)
    );
    assert_eq!(
        MCPCoordinator::new(&core, &vec![], 1, 0).err(),
        Some(InitError::DiscoveryEngineFailed)
    );
    let engine = MCPCoordinator::new(&core, &vec![provider("p9")], 1, 1).unwrap();
    assert_eq!(engine.providers(), vec![provider("p9")]);
    assert_eq!(engine.core_address(), "core.local:1");
}

#[test]
fn a_handle_is_built_whole_or_not_at_all() {
    assert_eq!(
        CoordinationHandle::build(&config("", 1, 1)).err(),
        Some(InitError::AutomationCoreFailed)
    );
    assert_eq!(
        CoordinationHandle::build(&config("c", 0, 1)).err(),
        Some(InitError::DiscoveryEngineFailed)
    );
    let handle = CoordinationHandle::build(&config("c", 1, 1)).unwrap();
    assert_eq!(handle.automation_core().address(), "c");
    assert_eq!(handle.engine().max_in_flight(), 1);
}
