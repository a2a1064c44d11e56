use aspire_orchestrator::errors::OrchestratorError;
use aspire_orchestrator::models::{AgentStatus, PortAllocation, Slot, SlotStatus};
use aspire_orchestrator::ports::PortAllocator;
use aspire_orchestrator::batch::{batch_begin, batch_step, BatchAction, BatchOp};
use aspire_orchestrator::registry::SlotRegistry;

#[test]
fn allocate_returns_valid_port() {
    let mut allocator = PortAllocator::new();
    allocator.offer_ports(&vec![15000]);
    let alloc = allocator.allocate("TEST_PORT").unwrap();
    assert_eq!(alloc.name, "TEST_PORT");
    assert!(alloc.port > 0);
}

#[test]
fn allocate_returns_unique_ports() {
    let mut allocator = PortAllocator::new();
    allocator.offer_ports(&vec![15000, 15000, 15001]);
    let a = allocator.allocate("PORT_A").unwrap();
    let b = allocator.allocate("PORT_B").unwrap();
    assert_ne!(a.port, b.port);
}

#[test]
fn release_frees_port() {
    let mut allocator = PortAllocator::new();
    allocator.offer_ports(&vec![15000]);
    let alloc = allocator.allocate("TEST_PORT").unwrap();
    let port = alloc.port;
    allocator.release(port);
    assert!(!allocator.is_tracked(port));
}

#[test]
fn allocate_gives_up_when_feed_is_exhausted() {
    let mut allocator = PortAllocator::new();
    let err = allocator.allocate("NOPE").unwrap_err();
    assert!(matches!(err, OrchestratorError::PortAllocation(_)));
}

#[test]
fn overrides_honour_free_pins_and_fall_back() {
    let mut allocator = PortAllocator::new();
    allocator.offer_ports(&vec![16000]);
    let pinned = allocator.allocate("TAKEN").unwrap();
    assert_eq!(pinned.port, 16000);

    allocator.offer_ports(&vec![17000]);
    let overrides = vec![
        PortAllocation { name: "VITE_PORT".into(), port: 5173 },
        PortAllocation { name: "API_PORT".into(), port: 16000 },
    ];
    let granted = allocator.allocate_for_overrides(&overrides).unwrap();
    assert_eq!(granted.len(), 2);
    assert_eq!(granted[0].name, "VITE_PORT");
    assert_eq!(granted[0].port, 5173);
    assert_eq!(granted[1].name, "API_PORT");
    assert_eq!(granted[1].port, 17000);
}

fn fresh_slot(name: &str) -> Slot {
    Slot::new(name.into(), "/r".into(), "main".into(), format!("/slots/{name}"), 0)
}

#[test]
fn create_with_manifest_ports() {
    let mut reg = SlotRegistry::new();
    let overrides = vec![
        PortAllocation { name: "VITE_PORT".into(), port: 5173 },
        PortAllocation { name: "API_PORT".into(), port: 5001 },
    ];
    let slot = reg.create_slot(fresh_slot("feat-x"), &overrides).unwrap();
    assert_eq!(slot.name, "feat-x");
    assert_eq!(slot.branch, "main");
    assert_eq!(slot.port_allocations.len(), 2);
    assert_eq!(slot.port_allocations[0].name, "VITE_PORT");
    assert_eq!(slot.port_allocations[0].port, 5173);
    assert_eq!(slot.port_allocations[1].name, "API_PORT");
    assert_eq!(slot.port_allocations[1].port, 5001);
    assert!(reg.allocator.is_tracked(5173));
    assert!(reg.allocator.is_tracked(5001));
}

#[test]
fn duplicate_create_is_rejected_and_changes_nothing() {
    let mut reg = SlotRegistry::new();
    reg.create_slot(fresh_slot("feat-x"), &vec![]).unwrap();
    let before = reg.slots.len();
    let err = reg.create_slot(fresh_slot("feat-x"), &vec![]).unwrap_err();
    assert!(matches!(err, OrchestratorError::SlotAlreadyExists(_)));
    assert_eq!(reg.slots.len(), before);
}

#[test]
fn destroy_releases_ports() {
    let mut reg = SlotRegistry::new();
    let overrides = vec![PortAllocation { name: "P".into(), port: 6000 }];
    reg.create_slot(fresh_slot("a"), &overrides).unwrap();
    assert!(reg.allocator.is_tracked(6000));
    reg.destroy_slot("a");
    assert!(!reg.allocator.is_tracked(6000));
    assert!(reg.get_slot("a").is_none());
}

#[test]
fn destroy_unknown_slot_is_a_no_op() {
    let mut reg = SlotRegistry::new();
    reg.create_slot(fresh_slot("a"), &vec![]).unwrap();
    reg.destroy_slot("missing");
    assert_eq!(reg.slots.len(), 1);
}

#[test]
fn reconnect_resets_slots_without_live_hosts() {
    let mut reg = SlotRegistry::new();
    reg.create_slot(fresh_slot("a"), &vec![]).unwrap();
    reg.create_slot(fresh_slot("b"), &vec![]).unwrap();
    reg.set_status("a", SlotStatus::Running);
    reg.set_agent_status("a", AgentStatus::Active);
    reg.set_status("b", SlotStatus::Running);
    reg.reconnect(&vec!["b".to_string()]);
    let a = reg.get_slot("a").unwrap();
    assert!(matches!(a.status, SlotStatus::Ready));
    assert!(matches!(a.agent_status, AgentStatus::Inactive));
    let b = reg.get_slot("b").unwrap();
    assert!(matches!(b.status, SlotStatus::Running));
}

#[test]
fn stack_lifecycle_updates_fields() {
    let mut reg = SlotRegistry::new();
    reg.create_slot(fresh_slot("a"), &vec![]).unwrap();
    assert!(reg.mark_stack_running("a", 42));
    let running = reg.get_slot("a").unwrap();
    assert!(matches!(running.status, SlotStatus::Running));
    assert_eq!(running.aspire_started_at, Some(42));
    assert!(reg.mark_stack_stopped("a"));
    let stopped = reg.get_slot("a").unwrap();
    assert!(matches!(stopped.status, SlotStatus::Ready));
    assert_eq!(stopped.aspire_started_at, None);
    assert!(stopped.services.dashboard_url.is_none());
    assert!(stopped.services.service_urls.is_empty());
}

#[test]
fn batch_steps_through_slots_with_stagger() {
    let (mut progress, mut pending) =
        batch_begin("Starting all", vec!["a".to_string(), "b".to_string()]);
    assert_eq!(progress.total, 2);

    let first = batch_step(&mut progress, BatchOp::StartStack, 2000, &mut pending, None);
    assert!(matches!(first, BatchAction::Run { ref slot, op: BatchOp::StartStack } if slot == "a"));
    assert_eq!(progress.current_slot.as_deref(), Some("a"));

    let pause = batch_step(
        &mut progress,
        BatchOp::StartStack,
        2000,
        &mut pending,
        Some(("a".to_string(), None)),
    );
    assert!(matches!(pause, BatchAction::Pause { ms: 2000 }));
    assert_eq!(progress.completed, 1);

    let second = batch_step(&mut progress, BatchOp::StartStack, 2000, &mut pending, None);
    assert!(matches!(second, BatchAction::Run { ref slot, .. } if slot == "b"));

    let done = batch_step(
        &mut progress,
        BatchOp::StartStack,
        2000,
        &mut pending,
        Some(("b".to_string(), Some("spawn failed".to_string()))),
    );
    assert!(matches!(done, BatchAction::Done));
    assert!(progress.done);
    assert_eq!(progress.completed, 2);
    assert_eq!(progress.failures, vec![("b".to_string(), "spawn failed".to_string())]);
}

#[test]
fn stack_lines_feed_discovery_into_the_slot() {
    let mut reg = SlotRegistry::new();
    reg.create_slot(fresh_slot("a"), &vec![]).unwrap();
    let mut acc = String::new();
    assert!(!reg.ingest_stack_line("a", &mut acc, "warming up"));
    assert!(reg.ingest_stack_line(
        "a",
        &mut acc,
        "info: Now listening on: https://localhost:15234"
    ));
    let slot = reg.get_slot("a").unwrap();
    assert_eq!(slot.services.dashboard_url.as_deref(), Some("https://localhost:15234"));
    assert!(reg.ingest_stack_line(
        "a",
        &mut acc,
        "\"api\" is listening on https://localhost:5001"
    ));
    let slot = reg.get_slot("a").unwrap();
    assert_eq!(
        slot.services.get_service_url("api"),
        Some(&"https://localhost:5001".to_string())
    );
    assert_eq!(acc.lines().count(), 3);
    assert!(!reg.ingest_stack_line("missing", &mut acc, "\"x-y\" is listening on https://h:1"));
}
