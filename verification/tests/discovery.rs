use claudeditor::batching::split_batches;
use claudeditor::discovery::{canonical_capabilities, catalog_entry, reachable_only};
use claudeditor::{
    AppState, CoordinationConfig, MCPService, ProbeOutcome, ProbeRequest, ProbeResult,
    ProviderDescriptor, Ready, ServiceStatus, Timestamp,
};

fn provider(id: &str) -> ProviderDescriptor {
    ProviderDescriptor {
        id: id.to_string(),
        name: format!("provider {}", id),
        address: format!("{}.local:9000", id),
        declared_capabilities: vec!["search".to_string(), "fetch".to_string()],
    }
}

fn config(ids: &[&str], in_flight: usize) -> CoordinationConfig {
    CoordinationConfig {
        core_address: "core.local:1".to_string(),
        providers: ids.iter().map(|id| provider(id)).collect(),
        probe_timeout_ms: 2500,
        max_in_flight: in_flight,
    }
}

fn ready(ids: &[&str], in_flight: usize) -> AppState {
    let mut state = AppState::new();
    assert_eq!(state.initialize(&config(ids, in_flight)), Ok(Ready));
    state
}

fn answers(id: &str, capabilities: &[&str]) -> ProbeOutcome {
    ProbeOutcome {
        provider_id: id.to_string(),
        result: ProbeResult::Capabilities(capabilities.iter().map(|c| c.to_string()).collect()),
    }
}

fn times_out(id: &str) -> ProbeOutcome {
    ProbeOutcome { provider_id: id.to_string(), result: ProbeResult::TimedOut }
}

fn fails(id: &str) -> ProbeOutcome {
    ProbeOutcome { provider_id: id.to_string(), result: ProbeResult::Failed }
}

fn entry(id: &str, status: ServiceStatus, capabilities: &[&str], now: Timestamp) -> MCPService {
    MCPService {
        id: id.to_string(),
        name: format!("provider {}", id),
        url: format!("{}.local:9000", id),
        status,
        capabilities: capabilities.iter().map(|c| c.to_string()).collect(),
        last_probed: now,
    }
}

fn request(id: &str) -> ProbeRequest {
    ProbeRequest {
        provider_id: id.to_string(),
        address: format!("{}.local:9000", id),
        declared_capabilities: vec!["search".to_string(), "fetch".to_string()],
        timeout_ms: 2500,
    }
}

const T1: Timestamp = Timestamp { secs: 1_700_000_000, nanos: 5 };
const T2: Timestamp = Timestamp { secs: 1_700_000_060, nanos: 0 };

#[test]
fn one_provider_in_three_times_out() {
    let mut state = ready(&["p1", "p2", "p3"], 2);
    let outcomes = vec![answers("p1", &["read"]), times_out("p2"), answers("p3", &["write"])];
    let report = state.discover_at(&outcomes, T1).unwrap();
    assert_eq!(
        report,
        vec![
            entry("p1", ServiceStatus::Reachable, &["read"], T1),
            entry("p3", ServiceStatus::Reachable, &["write"], T1),
        ]
    );
    let listed = state.list_services();
    assert_eq!(
        listed,
        vec![
            entry("p1", ServiceStatus::Reachable, &["read"], T1),
            entry("p2", ServiceStatus::Unreachable, &[], T1),
            entry("p3", ServiceStatus::Reachable, &["write"], T1),
        ]
    );
    let reachable = listed.iter().filter(|e| e.status == ServiceStatus::Reachable).count();
    let unreachable = listed.iter().filter(|e| e.status == ServiceStatus::Unreachable).count();
    assert_eq!((reachable, unreachable), (2, 1));
}

#[test]
fn no_providers_no_entries() {
    let mut state = ready(&[], 2);
    assert_eq!(state.discover_at(&vec![], T1), Ok(vec![]));
    assert_eq!(state.discover_at(&vec![answers("stranger", &["x"])], T1), Ok(vec![]));
    assert!(state.list_services().is_empty());
    assert_eq!(state.plan_discovery(), Ok(vec![]));
}

#[test]
fn all_providers_unreachable_is_no_error() {
    let mut state = ready(&["p2", "p1"], 2);
    let report = state.discover_at(&vec![fails("p1"), times_out("p2")], T1);
    assert_eq!(report, Ok(vec![]));
    assert_eq!(
        state.list_services(),
        vec![
            entry("p1", ServiceStatus::Unreachable, &[], T1),
            entry("p2", ServiceStatus::Unreachable, &[], T1),
        ]
    );
}

#[test]
fn a_provider_without_an_outcome_is_unreachable() {
    let mut state = ready(&["p1", "p2"], 2);
    let report = state.discover_at(&vec![answers("p2", &[])], T1).unwrap();
    assert_eq!(report, vec![entry("p2", ServiceStatus::Reachable, &[], T1)]);
    assert_eq!(state.services().get("p1"), Some(entry("p1", ServiceStatus::Unreachable, &[], T1)));
}

#[test]
fn the_report_is_sorted_by_id_whatever_the_configuration_order() {
    let mut state = ready(&["zeta", "alpha", "mu", "Beta"], 8);
    let outcomes =
        vec![answers("mu", &[]), answers("zeta", &[]), answers("Beta", &[]), answers("alpha", &[])];
    let report = state.discover_at(&outcomes, T1).unwrap();
    let ids: Vec<String> = report.into_iter().map(|e| e.id).collect();
    assert_eq!(ids, vec!["Beta", "alpha", "mu", "zeta"]);
}

#[test]
fn two_passes_report_in_the_same_order() {
    let mut state = ready(&["c", "a", "d", "b"], 3);
    let first = vec![answers("a", &["x"]), answers("b", &[]), fails("c"), answers("d", &["y"])];
    let second = vec![answers("d", &["z"]), answers("b", &["w"]), answers("a", &[]), times_out("c")];
    let one = state.discover_at(&first, T1).unwrap();
    let two = state.discover_at(&second, T2).unwrap();
    let again = state.discover_at(&second, T2).unwrap();
    let ids = |report: &Vec<MCPService>| report.iter().map(|e| e.id.clone()).collect::<Vec<_>>();
    assert_eq!(ids(&one), vec!["a", "b", "d"]);
    assert_eq!(ids(&one), ids(&two));
    assert_eq!(two, again);
}

#[test]
fn a_later_pass_replaces_what_an_earlier_one_found() {
    let mut state = ready(&["p1"], 1);
    state.discover_at(&vec![answers("p1", &["a", "b"])], T1).unwrap();
    assert_eq!(state.list_services(), vec![entry("p1", ServiceStatus::Reachable, &["a", "b"], T1)]);
    state.discover_at(&vec![answers("p1", &["a"])], T2).unwrap();
    assert_eq!(state.list_services(), vec![entry("p1", ServiceStatus::Reachable, &["a"], T2)]);
    state.discover_at(&vec![times_out("p1")], T1).unwrap();
    assert_eq!(state.list_services(), vec![entry("p1", ServiceStatus::Unreachable, &[], T1)]);
}

#[test]
fn upserting_twice_under_one_id_leaves_the_second() {
    let mut state = AppState::new();
    state.upsert_catalog(entry("p1", ServiceStatus::Reachable, &["a", "b"], T1));
    state.upsert_catalog(entry("p1", ServiceStatus::Reachable, &["a"], T2));
    assert_eq!(state.list_services(), vec![entry("p1", ServiceStatus::Reachable, &["a"], T2)]);
}

#[test]
fn a_snapshot_taken_before_a_pass_is_not_touched_by_it() {
    let mut state = ready(&["p1", "p2"], 2);
    state.discover_at(&vec![answers("p1", &["a", "b"]), answers("p2", &["c"])], T1).unwrap();
    let before = state.list_services();
    state.discover_at(&vec![answers("p1", &["a"]), fails("p2")], T2).unwrap();
    assert_eq!(
        before,
        vec![
            entry("p1", ServiceStatus::Reachable, &["a", "b"], T1),
            entry("p2", ServiceStatus::Reachable, &["c"], T1),
        ]
    );
    for seen in state.list_services() {
        let old = before.iter().any(|e| *e == seen);
        let new = seen == entry("p1", ServiceStatus::Reachable, &["a"], T2)
            || seen == entry("p2", ServiceStatus::Unreachable, &[], T2);
        assert!(old || new);
    }
}

#[test]
fn entries_filed_by_hand_survive_a_pass_over_other_providers() {
    let mut state = ready(&["p2"], 1);
    state.upsert_catalog(entry("manual", ServiceStatus::Unknown, &["x"], T1));
    state.discover_at(&vec![answers("p2", &[])], T2).unwrap();
    assert_eq!(
        state.list_services(),
        vec![
            entry("manual", ServiceStatus::Unknown, &["x"], T1),
            entry("p2", ServiceStatus::Reachable, &[], T2),
        ]
    );
}

#[test]
fn capabilities_become_a_sorted_set() {
    let list: Vec<String> =
        ["write", "read", "write", "exec", "read"].iter().map(|c| c.to_string()).collect();
    assert_eq!(canonical_capabilities(&list), vec!["exec", "read", "write"]);
    assert_eq!(canonical_capabilities(&vec![]), Vec::<String>::new());
    let mut state = ready(&["p1"], 1);
    let report = state.discover_at(&vec![answers("p1", &["b", "a", "b"])], T1).unwrap();
    assert_eq!(report[0].capabilities, vec!["a", "b"]);
}

#[test]
fn the_first_outcome_for_a_provider_counts() {
    let outcomes = vec![answers("other", &["z"]), fails("p1"), answers("p1", &["late"])];
    assert_eq!(
        catalog_entry(&provider("p1"), &outcomes, T1),
        entry("p1", ServiceStatus::Unreachable, &[], T1)
    );
    let outcomes = vec![answers("p1", &["early"]), times_out("p1")];
    assert_eq!(
        catalog_entry(&provider("p1"), &outcomes, T2),
        entry("p1", ServiceStatus::Reachable, &["early"], T2)
    );
}

#[test]
fn providers_sharing_an_id_are_reported_in_configuration_order() {
    let mut twin = provider("p1");
    twin.name = "the twin".to_string();
    let mut state = AppState::new();
    let config = CoordinationConfig {
        core_address: "c".to_string(),
        providers: vec![provider("p2"), provider("p1"), twin.clone()],
        probe_timeout_ms: 1,
        max_in_flight: 1,
    };
    assert_eq!(state.initialize(&config), Ok(Ready));
    let report = state.discover_at(&vec![answers("p1", &[]), answers("p2", &[])], T1).unwrap();
    let names: Vec<String> = report.into_iter().map(|e| e.name).collect();
    assert_eq!(names, vec!["provider p1", "the twin", "provider p2"]);
    assert_eq!(state.services().get("p1").unwrap().name, "the twin");
    assert_eq!(state.list_services().len(), 2);
}

#[test]
fn reachable_only_keeps_order() {
    let entries = vec![
        entry("c", ServiceStatus::Reachable, &[], T1),
        entry("a", ServiceStatus::Unreachable, &[], T1),
        entry("b", ServiceStatus::Unknown, &[], T1),
        entry("a", ServiceStatus::Reachable, &["x"], T1),
    ];
    assert_eq!(
        reachable_only(&entries),
        vec![
            entry("c", ServiceStatus::Reachable, &[], T1),
            entry("a", ServiceStatus::Reachable, &["x"], T1)
        ]
    );
}

#[test]
fn the_plan_holds_one_probe_per_provider_in_batches() {
    let state = ready(&["p1", "p2", "p3", "p4", "p5"], 2);
    let plan = state.plan_discovery().unwrap();
    assert_eq!(
        plan,
        vec![
            vec![request("p1"), request("p2")],
            vec![request("p3"), request("p4")],
            vec![request("p5")],
        ]
    );
    let engine = state.handle().unwrap().engine();
    assert_eq!(engine.plan().len(), 5);
    assert_eq!(engine.plan_batches(), plan);
}

#[test]
fn batches_are_full_but_for_the_last() {
    let items: Vec<String> = (0..7).map(|i| format!("r{}", i)).collect();
    let sizes = |width: usize| -> Vec<usize> {
        split_batches(&items, width).iter().map(|b| b.len()).collect()
    };
    assert_eq!(sizes(0), Vec::<usize>::new());
    assert_eq!(sizes(1), vec![1; 7]);
    assert_eq!(sizes(3), vec![3, 3, 1]);
    assert_eq!(sizes(7), vec![7]);
    assert_eq!(sizes(8), vec![7]);
    assert_eq!(sizes(usize::MAX), vec![7]);
    let flat: Vec<String> = split_batches(&items, 3).into_iter().flatten().collect();
    assert_eq!(flat, items);
    assert!(split_batches(&Vec::<String>::new(), 3).is_empty());
}

#[test]
fn discover_stamps_entries_with_the_present_time() {
    let mut state = ready(&["p1", "p2"], 2);
    let report = state.discover(&vec![answers("p1", &["a"])]).unwrap();
    assert_eq!(report.len(), 1);
    let listed = state.list_services();
    assert_eq!(listed.len(), 2);
    let stamp = listed[0].last_probed;
    assert_eq!(listed[1].last_probed, stamp);
    assert_eq!(report[0].last_probed, stamp);
    assert!(stamp.secs > 1_600_000_000);
    assert!(stamp.nanos < 2_000_000_000);
    assert_eq!(report[0], entry("p1", ServiceStatus::Reachable, &["a"], stamp));
    assert_eq!(listed[1], entry("p2", ServiceStatus::Unreachable, &[], stamp));
}
