use aspire_orchestrator::logs::{classify_severity, tail_lines, LogBuffer, LogSource, MultiplexFilter, Severity};
use aspire_orchestrator::models::RepoCandidate;
use aspire_orchestrator::session::{is_remote_source, host_info_path, liveness_sweep, HostScan};
use aspire_orchestrator::models::{AgentHostInfo, AgentStatus, SlotStatus};
use aspire_orchestrator::ui_state::{
    attention, extract_port, format_duration, truncate, truncate_branch, CreateSlotForm,
    SlotActivity,
};

#[test]
fn severity_is_classified_by_substrings() {
    assert_eq!(classify_severity("An ERROR occurred"), Severity::Error);
    assert_eq!(classify_severity("unhandled Exception in task"), Severity::Error);
    assert_eq!(classify_severity("FATAL: cannot continue"), Severity::Error);
    assert_eq!(classify_severity("warning: deprecated"), Severity::Warn);
    assert_eq!(classify_severity("dbug line with DEBUG marker"), Severity::Debug);
    assert_eq!(classify_severity("trace: enter"), Severity::Debug);
    assert_eq!(classify_severity("listening on port"), Severity::Info);
}

#[test]
fn log_buffer_assigns_stable_colors() {
    let mut buf = LogBuffer::new();
    buf.push("alpha".into(), LogSource::Agent, "first".into());
    buf.push("beta".into(), LogSource::Aspire, "warn: careful".into());
    buf.push("alpha".into(), LogSource::Agent, "second".into());
    assert_eq!(buf.entries.len(), 3);
    assert_eq!(buf.entries[0].color_index, buf.entries[2].color_index);
    assert_ne!(buf.entries[0].color_index, buf.entries[1].color_index);
    assert_eq!(buf.entries[1].severity, Severity::Warn);
}

#[test]
fn multiplex_filter_narrows_by_source_and_text() {
    let mut buf = LogBuffer::new();
    buf.push("a".into(), LogSource::Agent, "hello world".into());
    buf.push("a".into(), LogSource::Aspire, "service ready".into());
    let mut filter = MultiplexFilter::new();
    assert!(filter.matches_entry(&buf.entries[0]));
    filter.cycle_source();
    assert!(filter.matches_entry(&buf.entries[0]));
    assert!(!filter.matches_entry(&buf.entries[1]));
    filter.cycle_source();
    assert!(!filter.matches_entry(&buf.entries[0]));
    assert!(filter.matches_entry(&buf.entries[1]));
    filter.cycle_source();
    filter.search_filter_mode = true;
    filter.search_text = "ready".to_string();
    assert!(!filter.matches_entry(&buf.entries[0]));
    assert!(filter.matches_entry(&buf.entries[1]));
}

#[test]
fn tail_lines_keeps_the_last_lines() {
    assert_eq!(tail_lines("a\nb\nc\nd", 2), "c\nd");
    assert_eq!(tail_lines("a\nb", 5), "a\nb");
    assert_eq!(tail_lines("", 3), "");
}

#[test]
fn truncate_matches_width_rules() {
    assert_eq!(truncate("short", 10), "short");
    assert_eq!(truncate("a-very-long-name", 10), "a-very-...");
    assert_eq!(truncate("abcdef", 3), "abc");
    assert_eq!(truncate_branch("feature/api-cleanup", 10), "feature...");
    assert_eq!(truncate_branch("main", 10), "main");
}

#[test]
fn format_duration_uses_largest_unit() {
    assert_eq!(format_duration(59), "59s");
    assert_eq!(format_duration(60), "1m 00s");
    assert_eq!(format_duration(119), "1m 59s");
    assert_eq!(format_duration(3600), "1h 00m");
    assert_eq!(format_duration(3725), "1h 02m");
    assert_eq!(format_duration(-5), "0s");
}

#[test]
fn attention_reports_blocked_error_and_idle() {
    assert_eq!(
        attention(SlotStatus::Running, AgentStatus::Blocked, None, 0).as_deref(),
        Some("Agent blocked")
    );
    assert_eq!(
        attention(SlotStatus::Error, AgentStatus::Inactive, None, 0).as_deref(),
        Some("Aspire error")
    );
    let now = 1_000_000;
    let last = now - 301_000;
    assert_eq!(
        attention(SlotStatus::Running, AgentStatus::Active, Some(last), now).as_deref(),
        Some("Idle 5m")
    );
    assert_eq!(
        attention(SlotStatus::Running, AgentStatus::Active, Some(now - 1000), now),
        None
    );
}

#[test]
fn activity_record_keeps_preview() {
    let mut act = SlotActivity::new();
    act.record(1000, "  hello world  ");
    assert_eq!(act.last_log_line.as_deref(), Some("hello world"));
    act.record(2000, "   ");
    assert_eq!(act.last_log_line.as_deref(), Some("hello world"));
    let long = "x".repeat(80);
    act.record(3000, &long);
    let preview = act.last_log_line.clone().unwrap();
    assert_eq!(preview.chars().count(), 60);
    assert!(preview.ends_with("..."));
}

#[test]
fn apply_filter_scores_candidates_with_the_matcher() {
    let mut form = CreateSlotForm::new();
    form.all_candidates = vec![
        RepoCandidate { name: "receipts".into(), local_path: Some("/src/receipts".into()), remote_url: None },
        RepoCandidate { name: "zebra".into(), local_path: None, remote_url: None },
    ];
    form.source = "recei".into();
    form.apply_filter();
    assert_eq!(form.filtered_candidates.len(), 1);
    assert_eq!(form.filtered_candidates[0].name, "receipts");
    assert_eq!(form.selected_candidate, Some(0));
    assert_eq!(form.filter_deadline, None);

    form.source = "".into();
    form.apply_filter();
    assert_eq!(form.filtered_candidates.len(), 2);
}

#[test]
fn candidate_navigation_and_acceptance() {
    let mut form = CreateSlotForm::new();
    form.all_candidates = vec![
        RepoCandidate { name: "one".into(), local_path: Some("/r/one".into()), remote_url: None },
        RepoCandidate { name: "two".into(), local_path: None, remote_url: Some("https://x/two".into()) },
    ];
    form.source = "".into();
    form.apply_filter();
    assert_eq!(form.selected_candidate, Some(0));
    form.select_next_candidate();
    assert_eq!(form.selected_candidate, Some(1));
    form.select_next_candidate();
    assert_eq!(form.selected_candidate, Some(1));
    form.select_prev_candidate();
    assert_eq!(form.selected_candidate, Some(0));
    assert!(form.accept_selected());
    assert_eq!(form.source, "/r/one");
    assert!(form.filtered_candidates.is_empty());
    assert!(!form.accept_selected());
}

#[test]
fn debounce_deadline_round_trip() {
    let mut form = CreateSlotForm::new();
    assert!(!form.should_filter_now(100));
    form.schedule_filter(100);
    assert!(!form.should_filter_now(499));
    assert!(form.should_filter_now(500));
}

#[test]
fn remote_sources_are_detected_by_prefix() {
    assert!(is_remote_source("https://github.com/u/r"));
    assert!(is_remote_source("http://example.com/r"));
    assert!(is_remote_source("git@github.com:u/r.git"));
    assert!(is_remote_source("ssh://host/repo"));
    assert!(!is_remote_source("/home/user/repo"));
    assert!(!is_remote_source("C:/Users/test/Source/Receipts"));
}

#[test]
fn host_info_liveness_sweep() {
    let entries = vec![
        HostScan {
            name: "alive-slot".into(),
            info: AgentHostInfo { port: 4000, pid: 4242 },
            pid_alive: true,
        },
        HostScan {
            name: "stale-slot".into(),
            info: AgentHostInfo { port: 4001, pid: 1 },
            pid_alive: false,
        },
    ];
    let (live, stale) = liveness_sweep(&entries);
    assert_eq!(live, vec!["alive-slot".to_string()]);
    assert_eq!(stale, vec!["stale-slot".to_string()]);
}

#[test]
fn host_info_path_layout() {
    assert_eq!(
        host_info_path("/ws/.slots", "feat-x"),
        "/ws/.slots/feat-x/.agent-host.json"
    );
}

#[test]
fn extract_port_reads_url_ports() {
    assert_eq!(extract_port("https://localhost:5001"), Some(5001));
    assert_eq!(extract_port("https://localhost:15234/login?t=abc"), Some(15234));
    assert_eq!(extract_port("https://localhost/nope"), None);
    assert_eq!(extract_port("https://host:70000"), None);
    assert_eq!(extract_port("https://host:00443"), Some(443));
}
