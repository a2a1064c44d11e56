use aspire_orchestrator::models::{
    AgentStatus, DiscoveredServices, PortAllocation, Slot, SlotStatus,
};
use aspire_orchestrator::statedoc::{emit_state, parse_state, SlotStateStore};

fn test_slot() -> Slot {
    Slot {
        name: "test-1".into(),
        repo_path: "/repo".into(),
        branch: "main".into(),
        clone_path: "/clone/test-1".into(),
        status: SlotStatus::Ready,
        agent_status: AgentStatus::Inactive,
        port_allocations: vec![],
        services: DiscoveredServices::new(),
        created_at: 1700000000000,
        aspire_started_at: None,
        agent_started_at: None,
        last_agent_output_at: None,
    }
}

#[test]
fn round_trip_state() {
    let slots = vec![test_slot()];
    let doc = emit_state(&slots);

    let loaded = parse_state(&doc).unwrap();
    assert_eq!(loaded.len(), 1);
    assert_eq!(loaded[0].name, "test-1");
    assert_eq!(loaded[0].branch, "main");
}

#[test]
fn state_uses_camel_case() {
    let slots = vec![test_slot()];
    let json = emit_state(&slots);
    assert!(json.contains("\"repoPath\""));
    assert!(json.contains("\"clonePath\""));
    assert!(json.contains("\"agentStatus\""));
    assert!(json.contains("\"createdAt\""));
    assert!(!json.contains("\"repo_path\""));
    assert!(!json.contains("\"clone_path\""));
}

#[test]
fn round_trip_state_with_everything() {
    let mut slot = test_slot();
    slot.status = SlotStatus::Running;
    slot.agent_status = AgentStatus::Active;
    slot.port_allocations = vec![
        PortAllocation { name: "VITE_PORT".into(), port: 5173 },
        PortAllocation { name: "API_PORT".into(), port: 5001 },
    ];
    slot.services.dashboard_url = Some("https://localhost:15234/login?t=a\"b\\c".into());
    slot.services.upsert_service("api".into(), "https://localhost:5001".into());
    slot.services.upsert_service("web".into(), "https://localhost:5002".into());
    slot.aspire_started_at = Some(1700000001000);
    slot.agent_started_at = Some(-5);
    let mut other = test_slot();
    other.name = "second\nline".into();

    let slots = vec![slot, other];
    let doc = emit_state(&slots);
    let loaded = parse_state(&doc).unwrap();
    assert_eq!(loaded.len(), 2);
    assert_eq!(loaded[0].port_allocations.len(), 2);
    assert_eq!(loaded[0].port_allocations[1].port, 5001);
    assert_eq!(
        loaded[0].services.dashboard_url.as_deref(),
        Some("https://localhost:15234/login?t=a\"b\\c")
    );
    assert_eq!(
        loaded[0].services.get_service_url("web"),
        Some(&"https://localhost:5002".to_string())
    );
    assert_eq!(loaded[0].aspire_started_at, Some(1700000001000));
    assert_eq!(loaded[0].agent_started_at, Some(-5));
    assert_eq!(loaded[0].last_agent_output_at, None);
    assert_eq!(loaded[1].name, "second\nline");
    assert_eq!(emit_state(&loaded), doc);
}

#[test]
fn empty_registry_round_trips() {
    let doc = emit_state(&vec![]);
    assert_eq!(doc, "[]");
    let loaded = parse_state(&doc).unwrap();
    assert!(loaded.is_empty());
}

#[test]
fn malformed_documents_are_rejected() {
    assert!(parse_state("").is_err());
    assert!(parse_state("{}").is_err());
    assert!(parse_state("[").is_err());
    assert!(parse_state("[]extra").is_err());
    assert!(parse_state("[{\"name\":\"x\"}]").is_err());
}

#[test]
fn state_store_path_layout() {
    let store = SlotStateStore::new("/ws/.slots");
    assert_eq!(store.state_file_path, "/ws/.slots/state.json");
}

#[test]
fn empty_document_is_always_accepted() {
    assert!(parse_state("[]").unwrap().is_empty());
    let host = aspire_orchestrator::session::parse_host_info("{\"port\":4000,\"pid\":77}").unwrap();
    assert_eq!(host.port, 4000);
    assert_eq!(host.pid, 77);
    assert!(aspire_orchestrator::session::parse_host_info("{\"port\":4000,\"pid\":77} ").is_none());
}

#[test]
fn whitespace_outside_strings_is_insignificant() {
    assert!(parse_state("[ ]").unwrap().is_empty());
    assert!(parse_state(" [\n]\n").unwrap().is_empty());
    assert!(parse_state("[\t ]  ").unwrap().is_empty());

    let slots = vec![test_slot()];
    let doc = emit_state(&slots);
    let pretty = doc
        .replace("[{", "[\n  {")
        .replace(",\"", ",\n    \"")
        .replace("\":", "\": ")
        .replace("}]", "}\n]");
    assert_ne!(pretty, doc);
    let loaded = parse_state(&pretty).unwrap();
    assert_eq!(loaded.len(), 1);
    assert_eq!(loaded[0].name, "test-1");
    assert_eq!(emit_state(&loaded), doc);
}

#[test]
fn whitespace_inside_strings_is_kept() {
    let mut slot = test_slot();
    slot.name = "a b\tc".into();
    let doc = emit_state(&vec![slot]);
    let loaded = parse_state(&doc).unwrap();
    assert_eq!(loaded[0].name, "a b\tc");
}
