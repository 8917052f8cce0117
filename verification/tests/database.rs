use evtap::database::{
    check_schema, list_limit, session_metadata_query, validate_session_name, validate_snapshot,
    validate_timestamp, SchemaCheck, SessionListOrder, ValidationError, APPLICATION_ID,
    DATABASE_SCHEMA_VERSION,
};
use evtap::metric::MetricSnapshot;
use evtap::session::{KeyboardContext, SessionSnapshot};
use evtap::storage::database_files;

fn snapshot(name: Option<&str>, metrics: Vec<MetricSnapshot>) -> SessionSnapshot {
    SessionSnapshot {
        id: None,
        name: name.map(str::to_owned),
        created_at_ms: 1,
        updated_at_ms: 2,
        last_opened_at_ms: 2,
        captured_duration_ns: 42,
        application_version: "0.2.0".to_owned(),
        keyboard: KeyboardContext {
            display_name: Some("Keyboard".to_owned()),
            model: "pc105".to_owned(),
            layout: "us".to_owned(),
            variant: String::new(),
        },
        metrics,
    }
}

fn metric(id: &str, payload: &str) -> MetricSnapshot {
    MetricSnapshot::from_json(id, 1, payload.to_owned()).unwrap()
}

#[test]
fn only_empty_databases_are_set_up() {
    assert_eq!(check_schema(0, 0, 0), SchemaCheck::Create);
    assert_eq!(check_schema(APPLICATION_ID, DATABASE_SCHEMA_VERSION, 3), SchemaCheck::Compatible);
    assert_eq!(check_schema(0, 0, 1), SchemaCheck::Unidentified);
    assert_eq!(check_schema(7, 2, 3), SchemaCheck::WrongApplication { actual: 7 });
    assert_eq!(check_schema(APPLICATION_ID, 1, 3), SchemaCheck::Incompatible { actual: 1 });
    assert_eq!(check_schema(APPLICATION_ID, 0, 0), SchemaCheck::Incompatible { actual: 0 });
}

#[test]
fn list_limits_are_clamped() {
    assert_eq!(list_limit(0), 1);
    assert_eq!(list_limit(20), 20);
    assert_eq!(list_limit(u32::MAX), 10_000);
}

#[test]
fn session_names_and_timestamps_are_checked() {
    assert!(validate_session_name(None).is_ok());
    assert!(validate_session_name(Some("Drills")).is_ok());
    assert_eq!(validate_session_name(Some("")), Err(ValidationError::InvalidSessionName));
    assert_eq!(validate_session_name(Some(" Drills")), Err(ValidationError::InvalidSessionName));
    assert_eq!(validate_session_name(Some(&"a".repeat(81))), Err(ValidationError::InvalidSessionName));
    assert!(validate_timestamp(0).is_ok());
    assert_eq!(validate_timestamp(-1), Err(ValidationError::InvalidTimestamp));
}

#[test]
fn snapshots_are_checked_before_they_are_stored() {
    assert!(validate_snapshot(&snapshot(Some("Drills"), vec![metric("total-presses", r#"{"count":3}"#)])).is_ok());
    assert_eq!(
        validate_snapshot(&snapshot(None, vec![metric("a", "{}"), metric("a", "{}")])),
        Err(ValidationError::DuplicateMetric("a".to_owned()))
    );
    assert_eq!(
        validate_snapshot(&snapshot(None, vec![metric("a", "{")])),
        Err(ValidationError::InvalidMetricJson { metric_id: "a".to_owned() })
    );
    let mut negative = snapshot(None, vec![]);
    negative.captured_duration_ns = -1;
    assert_eq!(validate_snapshot(&negative), Err(ValidationError::InvalidDuration));
    assert_eq!(
        ValidationError::DuplicateMetric("a".to_owned()).describe(),
        "session contains duplicate metric a"
    );
    assert_eq!(
        ValidationError::InvalidMetricJson { metric_id: "a".to_owned() }.describe(),
        "metric a contains invalid JSON"
    );
}

#[test]
fn queries_and_database_files() {
    assert!(session_metadata_query().starts_with("SELECT"));
    assert!(session_metadata_query().ends_with("FROM sessions"));
    assert_eq!(SessionListOrder::LastOpened.sql(), "last_opened_at_ms DESC, id DESC");
    assert_eq!(
        database_files("/data/evtap.sqlite3"),
        vec![
            "/data/evtap.sqlite3",
            "/data/evtap.sqlite3-wal",
            "/data/evtap.sqlite3-shm",
            "/data/evtap.sqlite3-journal"
        ]
    );
}
