use aspire_orchestrator::agentcmd::{
    build_claude_command, build_env_vars, build_system_prompt, escape_for_shell,
};
use aspire_orchestrator::models::{PortAllocation, RepoCandidate, Slot};
use aspire_orchestrator::repo::{merge_candidates, normalize_branches};

fn test_slot() -> Slot {
    let mut slot = Slot::new(
        "test-1".into(),
        "/repo".into(),
        "main".into(),
        "/clone/test-1".into(),
        0,
    );
    slot.status = aspire_orchestrator::models::SlotStatus::Running;
    slot
}

#[test]
fn build_system_prompt_basic() {
    let slot = test_slot();
    let prompt = build_system_prompt(&slot);
    assert!(prompt.contains("slot 'test-1'"));
    assert!(prompt.contains("branch 'main'"));
    assert!(prompt.contains("/clone/test-1"));
}

#[test]
fn build_system_prompt_with_services() {
    let mut slot = test_slot();
    slot.services.dashboard_url = Some("https://localhost:15234".into());
    slot.services.upsert_service("api".into(), "https://localhost:5001".into());
    let prompt = build_system_prompt(&slot);
    assert!(prompt.contains("Dashboard: https://localhost:15234"));
    assert!(prompt.contains("api: https://localhost:5001"));
    assert!(prompt.contains("Use these URLs for browser testing."));
}

#[test]
fn build_command_basic() {
    let slot = test_slot();
    let cmd = build_claude_command("agent", &slot, Some("Fix the bug"), None, None);
    assert!(cmd.starts_with("agent"));
    assert!(cmd.contains("--allowedTools"));
    assert!(cmd.contains("--append-system-prompt"));
    assert!(cmd.contains("-p \\\"Fix the bug\\\""));
}

#[test]
fn build_command_with_max_turns() {
    let slot = test_slot();
    let cmd = build_claude_command("agent", &slot, Some("Test"), None, Some(10));
    assert!(cmd.contains("--max-turns 10"));
}

#[test]
fn build_command_custom_tools() {
    let slot = test_slot();
    let cmd = build_claude_command("agent", &slot, None, Some("Read,Write"), None);
    assert!(cmd.contains("--allowedTools \\\"Read,Write\\\""));
}

#[test]
fn escape_for_shell_handles_quotes() {
    assert_eq!(escape_for_shell(r#"say "hello""#), r#"say \"hello\""#);
}

#[test]
fn escape_for_shell_handles_backslashes() {
    assert_eq!(escape_for_shell(r"path\to\file"), r"path\\to\\file");
}

#[test]
fn build_env_vars_empty() {
    let vars = build_env_vars(&vec![]);
    assert!(vars.is_empty());
}

#[test]
fn build_env_vars_with_allocations() {
    let allocs = vec![
        PortAllocation { name: "VITE_PORT".into(), port: 15000 },
        PortAllocation { name: "API_PORT".into(), port: 5001 },
    ];
    let vars = build_env_vars(&allocs);
    assert_eq!(vars.len(), 2);
    assert_eq!(vars[0], ("VITE_PORT".into(), "15000".into()));
    assert_eq!(vars[1], ("API_PORT".into(), "5001".into()));
}

fn cand(name: &str, local: Option<&str>, remote: Option<&str>) -> RepoCandidate {
    RepoCandidate {
        name: name.into(),
        local_path: local.map(|s| s.to_string()),
        remote_url: remote.map(|s| s.to_string()),
    }
}

#[test]
fn merge_combines_matching_names() {
    let local = vec![cand("MyApp", Some("/home/user/MyApp"), None)];
    let remote = vec![cand("myapp", None, Some("https://github.com/user/myapp"))];

    let merged = merge_candidates(local, remote);
    assert_eq!(merged.len(), 1);
    assert_eq!(merged[0].name, "MyApp");
    assert_eq!(merged[0].local_path.as_deref(), Some("/home/user/MyApp"));
    assert_eq!(merged[0].remote_url.as_deref(), Some("https://github.com/user/myapp"));
}

#[test]
fn merge_locals_sort_before_remote_only() {
    let local = vec![cand("zebra", Some("/home/user/zebra"), None)];
    let remote = vec![
        cand("alpha", None, Some("https://github.com/user/alpha")),
        cand("zebra", None, Some("https://github.com/user/zebra")),
    ];

    let merged = merge_candidates(local, remote);
    assert_eq!(merged.len(), 2);
    assert_eq!(merged[0].name, "zebra");
    assert!(merged[0].is_local());
    assert_eq!(merged[1].name, "alpha");
    assert!(!merged[1].is_local());
}

#[test]
fn merge_empty_inputs() {
    let result = merge_candidates(Vec::new(), Vec::new());
    assert!(result.is_empty());
}

#[test]
fn merge_only_local() {
    let local = vec![cand("app", Some("/app"), None)];
    let merged = merge_candidates(local, Vec::new());
    assert_eq!(merged.len(), 1);
    assert!(merged[0].is_local());
    assert!(merged[0].remote_url.is_none());
}

#[test]
fn merge_only_remote() {
    let remote = vec![cand("cloud", None, Some("https://github.com/user/cloud"))];
    let merged = merge_candidates(Vec::new(), remote);
    assert_eq!(merged.len(), 1);
    assert!(!merged[0].is_local());
}

#[test]
fn candidate_accessors() {
    let c = cand("repo", Some("/home/repo"), Some("https://example/r"));
    assert_eq!(c.source_value(), "/home/repo");
    assert_eq!(c.display_label(), "repo");
    assert_eq!(c.location_hint(), "/home/repo");
    assert!(c.is_local());
    let r = cand("repo", None, Some("https://example/r"));
    assert_eq!(r.source_value(), "https://example/r");
    assert_eq!(r.location_hint(), "(remote)");
    assert!(!r.is_local());
}

#[test]
fn merge_dedupes_locals_by_folded_name() {
    let local = vec![
        cand("MyApp", Some("/old/MyApp"), None),
        cand("myapp", Some("/new/myapp"), None),
    ];
    let remote = vec![cand("MYAPP", None, Some("https://github.com/user/myapp"))];
    let merged = merge_candidates(local, remote);
    assert_eq!(merged.len(), 1);
    assert_eq!(merged[0].name, "myapp");
    assert_eq!(merged[0].local_path.as_deref(), Some("/new/myapp"));
    assert_eq!(merged[0].remote_url.as_deref(), Some("https://github.com/user/myapp"));
}

#[test]
fn branch_listing_is_normalised() {
    let lines = vec![
        "  main".to_string(),
        "origin/HEAD".to_string(),
        "origin/main".to_string(),
        "origin/feature/api".to_string(),
        "".to_string(),
        "zeta".to_string(),
    ];
    let branches = normalize_branches(&lines);
    assert_eq!(branches, vec!["feature/api", "main", "zeta"]);
}
