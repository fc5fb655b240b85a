use claudeditor::record::Record;
use claudeditor::sorting::sort_by_key;
use claudeditor::text::{str_equal, str_less};
use claudeditor::{AIAgent, AgentStatus, MCPService, Registry, ServiceStatus, Timestamp};

fn service(id: &str, capabilities: &[&str]) -> MCPService {
    MCPService {
        id: id.to_string(),
        name: format!("service {}", id),
        url: format!("http://{}.local", id),
        status: ServiceStatus::Reachable,
        capabilities: capabilities.iter().map(|c| c.to_string()).collect(),
        last_probed: Timestamp { secs: 1, nanos: 0 },
    }
}

fn agent(id: &str, status: AgentStatus) -> AIAgent {
    AIAgent {
        id: id.to_string(),
        name: format!("agent {}", id),
        agent_type: "assistant".to_string(),
        status,
        capabilities: vec!["chat".to_string()],
    }
}

#[test]
fn new_registry_is_empty() {
    let registry: Registry<MCPService> = Registry::new();
    assert_eq!(registry.len(), 0);
    assert!(registry.snapshot().is_empty());
    assert!(!registry.contains_key("anything"));
    assert_eq!(registry.get("anything"), None);
}

#[test]
fn upsert_inserts_then_replaces() {
    let mut registry: Registry<MCPService> = Registry::new();
    assert!(!registry.upsert(service("p1", &["a", "b"])));
    assert_eq!(registry.len(), 1);
    assert!(registry.upsert(service("p1", &["a"])));
    assert_eq!(registry.len(), 1);
    let stored = registry.get("p1").unwrap();
    assert_eq!(stored.capabilities, vec!["a".to_string()]);
    assert_eq!(registry.snapshot(), vec![service("p1", &["a"])]);
}

#[test]
fn upsert_leaves_other_keys_alone() {
    let mut registry: Registry<MCPService> = Registry::new();
    registry.upsert(service("p2", &["x"]));
    registry.upsert(service("p1", &["a", "b"]));
    registry.upsert(service("p3", &[]));
    registry.upsert(service("p1", &["c"]));
    assert_eq!(
        registry.snapshot(),
        vec![service("p1", &["c"]), service("p2", &["x"]), service("p3", &[])]
    );
}

#[test]
fn snapshot_is_in_ascending_key_order_whatever_the_insertion_order() {
    let ids = ["delta", "alpha", "charlie", "bravo", "echo", "alpha2", ""];
    let mut forward: Registry<MCPService> = Registry::new();
    for id in ids.iter() {
        forward.upsert(service(id, &[]));
    }
    let mut backward: Registry<MCPService> = Registry::new();
    for id in ids.iter().rev() {
        backward.upsert(service(id, &[]));
    }
    let listed: Vec<String> = forward.snapshot().into_iter().map(|s| s.id).collect();
    assert_eq!(listed, vec!["", "alpha", "alpha2", "bravo", "charlie", "delta", "echo"]);
    assert_eq!(forward.snapshot(), backward.snapshot());
}

#[test]
fn snapshot_is_a_copy() {
    let mut registry: Registry<MCPService> = Registry::new();
    registry.upsert(service("p1", &["a", "b"]));
    let before = registry.snapshot();
    registry.upsert(service("p1", &["a"]));
    registry.upsert(service("p0", &[]));
    assert_eq!(before, vec![service("p1", &["a", "b"])]);
    assert_eq!(registry.snapshot().len(), 2);
}

#[test]
fn remove_takes_out_one_key() {
    let mut registry: Registry<AIAgent> = Registry::new();
    registry.upsert(agent("a2", AgentStatus::Busy));
    registry.upsert(agent("a1", AgentStatus::Idle));
    registry.upsert(agent("a3", AgentStatus::Error));
    assert!(registry.remove("a2"));
    assert!(!registry.remove("a2"));
    assert!(!registry.remove("zz"));
    assert_eq!(
        registry.snapshot(),
        vec![agent("a1", AgentStatus::Idle), agent("a3", AgentStatus::Error)]
    );
    assert!(registry.contains_key("a1"));
    assert!(!registry.contains_key("a2"));
}

#[test]
fn get_hands_out_the_stored_record() {
    let mut registry: Registry<AIAgent> = Registry::new();
    registry.upsert(agent("a1", AgentStatus::Idle));
    registry.upsert(agent("a1", AgentStatus::Busy));
    assert_eq!(registry.get("a1"), Some(agent("a1", AgentStatus::Busy)));
    assert_eq!(registry.get("a"), None);
    assert_eq!(registry.get("a11"), None);
}

#[test]
fn registry_of_strings_is_a_sorted_set() {
    let mut set: Registry<String> = Registry::new();
    for word in ["pear", "apple", "pear", "fig", "apple"] {
        set.upsert(word.to_string());
    }
    assert_eq!(set.snapshot(), vec!["apple", "fig", "pear"]);
}

#[test]
fn str_less_is_the_order_of_std() {
    let words = [
        "", "a", "A", "aa", "ab", "b", "B", "ba", "é", "e", "z", "zz", "日本", "日", "~", " ", "a b",
        "a\u{0}", "\u{10FFFF}", "ß", "ss",
    ];
    for a in words.iter() {
        for b in words.iter() {
            assert_eq!(str_less(a, b), a < b, "{:?} < {:?}", a, b);
            assert_eq!(str_equal(a, b), a == b, "{:?} == {:?}", a, b);
        }
    }
}

#[test]
fn str_less_puts_a_prefix_first() {
    assert!(str_less("abc", "abcd"));
    assert!(!str_less("abcd", "abc"));
    assert!(!str_less("abc", "abc"));
    assert!(str_less("", "a"));
    assert!(!str_less("", ""));
}

#[test]
fn sort_by_key_sorts_strings_as_std_does() {
    let names: Vec<String> =
        ["src", "Cargo.toml", "README.md", "target", ".git", "build.rs", "src", "a"]
            .iter()
            .map(|s| s.to_string())
            .collect();
    let mut expected = names.clone();
    expected.sort();
    assert_eq!(sort_by_key(names), expected);
    assert_eq!(sort_by_key(Vec::<String>::new()), Vec::<String>::new());
}

#[test]
fn sort_by_key_is_stable() {
    let items = vec![
        service("b", &["1"]),
        service("a", &["2"]),
        service("b", &["3"]),
        service("a", &["4"]),
        service("b", &["5"]),
    ];
    let sorted = sort_by_key(items);
    let seen: Vec<(String, String)> =
        sorted.into_iter().map(|s| (s.id, s.capabilities[0].clone())).collect();
    let expected: Vec<(String, String)> =
        [("a", "2"), ("a", "4"), ("b", "1"), ("b", "3"), ("b", "5")]
            .iter()
            .map(|(k, v)| (k.to_string(), v.to_string()))
            .collect();
    assert_eq!(seen, expected);
}

#[test]
fn duplicate_keeps_every_field() {
    let original = service("p1", &["a", "b"]);
    assert_eq!(original.duplicate(), original);
    assert_eq!(original.key(), "p1");
    let worker = agent("a1", AgentStatus::Busy);
    assert_eq!(worker.duplicate(), worker);
    assert_eq!(worker.key(), "a1");
}
