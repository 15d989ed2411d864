use next_build::diagnostics::{BuildError, Issue, IssueSeverity};
use next_build::route::{
    ChangeSignal, Endpoint, EndpointCompilation, NapiWrittenEndpoint, WrittenEndpoint,
};

fn compilation(issues: Vec<Issue>) -> EndpointCompilation {
    EndpointCompilation {
        issues,
        server_entry_path: "server/pages/index.js".to_string(),
        server_paths: vec!["server/pages/index.js".to_string(), "server/chunks/shared.js".to_string()],
        client_paths: vec!["static/chunks/index.js".to_string()],
    }
}

#[test]
fn write_to_disk_returns_output_paths() {
    let endpoint = Endpoint::new_page_html(
        "/".to_string(),
        "/index.js".to_string(),
        "pages/index.js".to_string(),
    );
    let written = endpoint.write_to_disk(compilation(Vec::new())).unwrap();
    assert_eq!(written.server_entry_path, "server/pages/index.js");
    assert_eq!(written.server_paths.len(), 2);
    assert_eq!(written.client_paths, vec!["static/chunks/index.js".to_string()]);
}

#[test]
fn write_to_disk_is_idempotent() {
    // Two calls with no intervening source change see the same memoized
    // compilation and return equal values.
    let endpoint = Endpoint::new_page_data(
        "/".to_string(),
        "/index.js".to_string(),
        "pages/index.js".to_string(),
    );
    let first = endpoint.write_to_disk(compilation(Vec::new())).unwrap();
    let second = endpoint.write_to_disk(compilation(Vec::new())).unwrap();
    assert_eq!(first, second);
}

#[test]
fn write_to_disk_fails_on_fatal_diagnostic() {
    let endpoint = Endpoint::new_api(
        "/api/hello".to_string(),
        "/api/hello.js".to_string(),
        "pages/api/hello.js".to_string(),
    );
    let issues = vec![
        Issue { severity: IssueSeverity::Warning, message: "minor".to_string() },
        Issue { severity: IssueSeverity::Error, message: "broken import".to_string() },
    ];
    match endpoint.write_to_disk(compilation(issues)) {
        Err(BuildError::FatalDiagnostic { issues }) => {
            // All collected diagnostics are carried, not just the fatal one.
            assert_eq!(issues.len(), 2);
            assert_eq!(issues[1].message, "broken import");
        },
        other => panic!("expected a fatal diagnostic, got {:?}", other),
    }
}

#[test]
fn write_to_disk_tolerates_warnings() {
    let endpoint = Endpoint::new_page_html(
        "/".to_string(),
        "/index.js".to_string(),
        "pages/index.js".to_string(),
    );
    let issues = vec![Issue { severity: IssueSeverity::Warning, message: "minor".to_string() }];
    assert!(endpoint.write_to_disk(compilation(issues)).is_ok());
}

#[test]
fn change_signal_collapses_notifications() {
    let endpoint = Endpoint::new_page_html(
        "/".to_string(),
        "/index.js".to_string(),
        "pages/index.js".to_string(),
    );
    let mut signal: ChangeSignal = endpoint.changed();
    assert!(!signal.poll());
    signal.notify();
    signal.notify();
    signal.notify();
    // Level-triggered: many changes collapse into one firing.
    assert!(signal.poll());
    assert!(!signal.poll());
    // Re-armed after each firing.
    signal.notify();
    assert!(signal.poll());
}

#[test]
fn napi_written_endpoint_mirrors_written_endpoint() {
    let written = WrittenEndpoint {
        server_entry_path: "server/app/page.js".to_string(),
        server_paths: vec!["server/app/page.js".to_string()],
        client_paths: vec!["static/chunks/page.js".to_string()],
    };
    let napi = NapiWrittenEndpoint::from(&written);
    assert_eq!(napi.server_entry_path, written.server_entry_path);
    assert_eq!(napi.server_paths, written.server_paths);
    assert_eq!(napi.client_paths, written.client_paths);
}
