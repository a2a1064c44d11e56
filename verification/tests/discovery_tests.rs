use aspire_orchestrator::discovery::parse_log_content;

#[test]
fn parse_dashboard_url() {
    let log = "info: Now listening on: https://localhost:15234\n";
    let services = parse_log_content(log);
    assert_eq!(services.dashboard_url.as_deref(), Some("https://localhost:15234"));
}

#[test]
fn parse_login_url_overrides_dashboard() {
    let log = "Now listening on: https://localhost:15234\n\
                    Login to the dashboard at https://localhost:15234/login?t=abc123\n";
    let services = parse_log_content(log);
    assert_eq!(
        services.dashboard_url.as_deref(),
        Some("https://localhost:15234/login?t=abc123")
    );
}

#[test]
fn parse_resource_urls() {
    let log = r#""apiservice" is listening on https://localhost:52341
"frontend" is listening on https://localhost:52342
"#;
    let services = parse_log_content(log);
    assert_eq!(
        services.get_service_url("apiservice"),
        Some(&"https://localhost:52341".to_string())
    );
    assert_eq!(
        services.get_service_url("frontend"),
        Some(&"https://localhost:52342".to_string())
    );
}

#[test]
fn parse_complete_log() {
    let log = r#"info: Now listening on: https://localhost:15234
Login to the dashboard at https://localhost:15234/login?t=abc
"webfrontend" is listening on https://localhost:5000
"apiservice" is listening on https://localhost:5001
"#;
    let services = parse_log_content(log);
    assert_eq!(
        services.dashboard_url.as_deref(),
        Some("https://localhost:15234/login?t=abc")
    );
    assert_eq!(services.service_urls.len(), 2);
}

#[test]
fn parse_empty_log() {
    let services = parse_log_content("");
    assert!(services.dashboard_url.is_none());
    assert!(services.service_urls.is_empty());
}

#[test]
fn discovery_monotonic_on_longer_prefix() {
    let first = "info: Now listening on: https://localhost:15234\n";
    let services = parse_log_content(first);
    assert_eq!(services.dashboard_url.as_deref(), Some("https://localhost:15234"));
    assert!(services.service_urls.is_empty());

    let longer = format!(
        "{}Login to the dashboard at https://localhost:15234/login?t=abc\n\
         \"api\" is listening on https://localhost:5001\n",
        first
    );
    let services2 = parse_log_content(&longer);
    assert_eq!(
        services2.dashboard_url.as_deref(),
        Some("https://localhost:15234/login?t=abc")
    );
    assert_eq!(
        services2.get_service_url("api"),
        Some(&"https://localhost:5001".to_string())
    );
    assert_eq!(services2.service_urls.len(), 1);
}

#[test]
fn duplicate_service_name_keeps_last_url() {
    let log = "\"api\" is listening on https://localhost:5001\n\
               \"api\" is listening on https://localhost:5002\n";
    let services = parse_log_content(log);
    assert_eq!(services.service_urls.len(), 1);
    assert_eq!(
        services.get_service_url("api"),
        Some(&"https://localhost:5002".to_string())
    );
}

#[test]
fn incomplete_pattern_yields_nothing() {
    let services = parse_log_content("Now listening on: nothing-here\n\"x\" is listening on\n");
    assert!(services.dashboard_url.is_none());
    assert!(services.service_urls.is_empty());
}

#[test]
fn parse_full_config() {
    let yaml = "\napphost: src/MyApp.AppHost/MyApp.AppHost.csproj\nsetup:\n  - dotnet restore MyApp.slnx\n  - npm install\nport_overrides:\n  VITE_PORT: 5173\n  API_PORT: 5001\n";
    let config = aspire_orchestrator::manifest::parse_manifest(yaml).unwrap();
    assert_eq!(config.apphost, "src/MyApp.AppHost/MyApp.AppHost.csproj");
    assert_eq!(config.setup.len(), 2);
    assert_eq!(config.setup[0], "dotnet restore MyApp.slnx");
    assert_eq!(config.port_overrides[0], ("VITE_PORT".to_string(), 5173));
    assert_eq!(config.port_overrides[1], ("API_PORT".to_string(), 5001));
}

#[test]
fn parse_minimal_config() {
    let yaml = "apphost: src/App.AppHost/App.AppHost.csproj\n";
    let config = aspire_orchestrator::manifest::parse_manifest(yaml).unwrap();
    assert_eq!(config.apphost, "src/App.AppHost/App.AppHost.csproj");
    assert!(config.setup.is_empty());
    assert!(config.port_overrides.is_empty());
}

#[test]
fn manifest_without_apphost_is_invalid() {
    let err = aspire_orchestrator::manifest::parse_manifest("setup:\n  - ls\n").unwrap_err();
    assert!(matches!(
        err,
        aspire_orchestrator::errors::OrchestratorError::InvalidConfig(_)
    ));
    let err2 = aspire_orchestrator::manifest::parse_manifest("apphost:\n").unwrap_err();
    assert!(matches!(
        err2,
        aspire_orchestrator::errors::OrchestratorError::InvalidConfig(_)
    ));
}
