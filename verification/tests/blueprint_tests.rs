use aspire_orchestrator::blueprint::{interpolate, resolve, snapshot_from_slots, validate, BlueprintStore};
use aspire_orchestrator::blueprintdoc::{emit_blueprint, parse_blueprint};
use aspire_orchestrator::models::{
    Blueprint, BlueprintAgentConfig, BlueprintDefaults, BlueprintSlotEntry, Slot,
};

fn entry(name: &str) -> BlueprintSlotEntry {
    BlueprintSlotEntry {
        name: name.to_string(),
        branch: None,
        source: None,
        auto_start_aspire: None,
        auto_spawn_agent: None,
        agent: None,
    }
}

#[test]
fn test_interpolate() {
    let result = interpolate(
        "Work on {branch} in slot {slot_name}.",
        "api-cleanup",
        "feature/api-cleanup",
    );
    assert_eq!(result, "Work on feature/api-cleanup in slot api-cleanup.");
}

#[test]
fn test_validate_empty_name() {
    let bp = Blueprint { name: String::new(), description: None, defaults: None, slots: vec![] };
    let err = validate(&bp).unwrap_err();
    assert!(err.iter().any(|e| e.contains("name is required")));
    assert!(err.iter().any(|e| e.contains("at least one slot")));
}

#[test]
fn test_validate_missing_source() {
    let bp = Blueprint {
        name: "test".to_string(),
        description: None,
        defaults: None,
        slots: vec![entry("slot1")],
    };
    let err = validate(&bp).unwrap_err();
    assert!(err.iter().any(|e| e.contains("no source")));
}

#[test]
fn test_validate_success_with_default_source() {
    let bp = Blueprint {
        name: "test".to_string(),
        description: None,
        defaults: Some(BlueprintDefaults {
            source: Some("/path/to/repo".to_string()),
            auto_start_aspire: None,
            auto_spawn_agent: None,
            agent: None,
        }),
        slots: vec![BlueprintSlotEntry { branch: Some("main".to_string()), ..entry("slot1") }],
    };
    assert!(validate(&bp).is_ok());
}

#[test]
fn test_resolve_with_defaults() {
    let bp = Blueprint {
        name: "daily-dev".to_string(),
        description: Some("Test blueprint".to_string()),
        defaults: Some(BlueprintDefaults {
            source: Some("C:/Users/test/Source/Receipts".to_string()),
            auto_start_aspire: Some(true),
            auto_spawn_agent: Some(true),
            agent: Some(BlueprintAgentConfig {
                prompt_template: Some("Work on {branch} in {slot_name}".to_string()),
                allowed_tools: Some("Bash,Read".to_string()),
                max_turns: Some(50),
            }),
        }),
        slots: vec![
            BlueprintSlotEntry {
                branch: Some("feature/api-cleanup".to_string()),
                agent: Some(BlueprintAgentConfig {
                    prompt_template: Some("Custom prompt for {slot_name}".to_string()),
                    allowed_tools: None,
                    max_turns: None,
                }),
                ..entry("api-cleanup")
            },
            BlueprintSlotEntry {
                branch: Some("feature/ui-dashboard".to_string()),
                auto_start_aspire: Some(false),
                ..entry("ui-dashboard")
            },
        ],
    };

    let resolved = resolve(&bp).unwrap();
    assert_eq!(resolved.len(), 2);

    assert_eq!(resolved[0].name, "api-cleanup");
    assert_eq!(resolved[0].source, "C:/Users/test/Source/Receipts");
    assert_eq!(resolved[0].prompt.as_deref(), Some("Custom prompt for api-cleanup"));
    assert_eq!(resolved[0].allowed_tools.as_deref(), Some("Bash,Read"));
    assert_eq!(resolved[0].max_turns, Some(50));
    assert!(resolved[0].auto_start_aspire);
    assert!(resolved[0].auto_spawn_agent);

    assert_eq!(resolved[1].name, "ui-dashboard");
    assert!(!resolved[1].auto_start_aspire);
    assert!(resolved[1].auto_spawn_agent);
    assert_eq!(
        resolved[1].prompt.as_deref(),
        Some("Work on feature/ui-dashboard in ui-dashboard")
    );
}

#[test]
fn test_snapshot_from_slots() {
    let slots = vec![
        Slot::new(
            "slot1".into(),
            "/path/to/repo".into(),
            "main".into(),
            "/slots/slot1".into(),
            0,
        ),
        Slot::new(
            "slot2".into(),
            "/path/to/repo".into(),
            "feature/x".into(),
            "/slots/slot2".into(),
            0,
        ),
    ];

    let bp = snapshot_from_slots("test-bp", Some("A test"), &slots);
    assert_eq!(bp.name, "test-bp");
    assert_eq!(bp.description.as_deref(), Some("A test"));
    assert_eq!(bp.slots.len(), 2);
    assert_eq!(bp.slots[0].name, "slot1");
    assert_eq!(bp.slots[0].source.as_deref(), Some("/path/to/repo"));
    assert_eq!(bp.slots[1].branch.as_deref(), Some("feature/x"));
}

#[test]
fn resolve_rejects_invalid_blueprint() {
    let bp = Blueprint { name: String::new(), description: None, defaults: None, slots: vec![] };
    let err = resolve(&bp).unwrap_err();
    assert!(matches!(
        err,
        aspire_orchestrator::errors::OrchestratorError::BlueprintValidation(_)
    ));
    if let aspire_orchestrator::errors::OrchestratorError::BlueprintValidation(msg) = err {
        assert_eq!(
            msg,
            "Blueprint name is required; Blueprint must have at least one slot"
        );
    }
}

#[test]
fn empty_source_counts_as_missing() {
    let no_default = Blueprint {
        name: "bp".to_string(),
        description: None,
        defaults: None,
        slots: vec![BlueprintSlotEntry { source: Some(String::new()), ..entry("one") }],
    };
    assert!(validate(&no_default).is_err());
    assert!(resolve(&no_default).is_err());

    let with_default = Blueprint {
        name: "bp".to_string(),
        description: None,
        defaults: Some(BlueprintDefaults {
            source: Some("/repo".to_string()),
            auto_start_aspire: None,
            auto_spawn_agent: None,
            agent: None,
        }),
        slots: vec![BlueprintSlotEntry { source: Some(String::new()), ..entry("one") }],
    };
    let resolved = resolve(&with_default).unwrap();
    assert_eq!(resolved[0].source, "/repo");
}

#[test]
fn blueprint_store_paths() {
    let store = BlueprintStore::new("/ws/.slots");
    assert_eq!(store.blueprints_dir, "/ws/.slots/blueprints");
    assert_eq!(store.path_for("daily-dev"), "/ws/.slots/blueprints/daily-dev.yaml");
}

#[test]
fn interpolate_missing_branch_uses_default_in_resolve() {
    let bp = Blueprint {
        name: "bp".to_string(),
        description: None,
        defaults: Some(BlueprintDefaults {
            source: Some("/repo".to_string()),
            auto_start_aspire: None,
            auto_spawn_agent: None,
            agent: Some(BlueprintAgentConfig {
                prompt_template: Some("On {branch} in {slot_name}".to_string()),
                allowed_tools: None,
                max_turns: None,
            }),
        }),
        slots: vec![entry("one")],
    };
    let resolved = resolve(&bp).unwrap();
    assert_eq!(resolved[0].prompt.as_deref(), Some("On main in one"));
    assert_eq!(resolved[0].branch, None);
}

#[test]
fn blueprint_document_round_trip() {
    let bp = Blueprint {
        name: "daily-dev".to_string(),
        description: Some("morning set".to_string()),
        defaults: Some(BlueprintDefaults {
            source: Some("/repo".to_string()),
            auto_start_aspire: Some(true),
            auto_spawn_agent: None,
            agent: Some(BlueprintAgentConfig {
                prompt_template: Some("Work on {branch} in {slot_name}".to_string()),
                allowed_tools: None,
                max_turns: Some(50),
            }),
        }),
        slots: vec![
            BlueprintSlotEntry { branch: Some("feature/x".to_string()), ..entry("api") },
            entry("ui"),
        ],
    };
    let doc = emit_blueprint(&bp);
    let loaded = parse_blueprint(&doc).unwrap();
    assert_eq!(loaded.name, "daily-dev");
    assert_eq!(loaded.description.as_deref(), Some("morning set"));
    let d = loaded.defaults.as_ref().unwrap();
    assert_eq!(d.source.as_deref(), Some("/repo"));
    assert_eq!(d.auto_start_aspire, Some(true));
    assert_eq!(d.auto_spawn_agent, None);
    let a = d.agent.as_ref().unwrap();
    assert_eq!(a.prompt_template.as_deref(), Some("Work on {branch} in {slot_name}"));
    assert_eq!(a.max_turns, Some(50));
    assert_eq!(loaded.slots.len(), 2);
    assert_eq!(loaded.slots[0].branch.as_deref(), Some("feature/x"));
    assert_eq!(loaded.slots[1].name, "ui");
    assert_eq!(emit_blueprint(&loaded), doc);
}

#[test]
fn blueprint_document_rejects_noncanonical_text() {
    assert!(parse_blueprint("").is_err());
    assert!(parse_blueprint("name: daily-dev").is_err());
    assert!(parse_blueprint("{\"name\":\"x\"}").is_err());
}

#[test]
fn empty_slot_list_round_trips() {
    let bp = Blueprint { name: "bare".to_string(), description: None, defaults: None, slots: vec![] };
    let doc = emit_blueprint(&bp);
    let loaded = parse_blueprint(&doc).unwrap();
    assert_eq!(loaded.name, "bare");
    assert!(loaded.description.is_none());
    assert!(loaded.defaults.is_none());
    assert!(loaded.slots.is_empty());
}

#[test]
fn minimal_document_is_accepted() {
    let text = "{\"name\":\"\",\"description\":null,\"defaults\":null,\"slots\":[]}";
    let bp = parse_blueprint(text).unwrap();
    assert_eq!(bp.name, "");
    assert!(bp.description.is_none());
    assert!(bp.defaults.is_none());
    assert!(bp.slots.is_empty());
    assert_eq!(emit_blueprint(&bp), text);
}

#[test]
fn blueprint_whitespace_outside_strings_is_insignificant() {
    let spaced = "{ \"name\": \"\",\n  \"description\": null,\n  \"defaults\": null,\n  \"slots\": [ ] }";
    let bp = parse_blueprint(spaced).unwrap();
    assert_eq!(bp.name, "");
    assert!(bp.slots.is_empty());
}
