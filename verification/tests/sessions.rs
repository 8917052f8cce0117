use evtap::settings::{Settings, SettingsValidationError};
use evtap::labels::{manage_label_at, selector_label_at, session_selector_label};
use evtap::metric::session_metrics::SessionMetrics;
use evtap::metric::MetricSnapshot;
use evtap::session::{
    metric_recovery_message, KeyboardContext, MetricRecoveryIssue, SessionId, SessionMetadata,
    StoredMetricError, StoredMetricSnapshot,
};

fn stored(metric_id: &str, schema_version: i64, payload_json: &str) -> StoredMetricSnapshot {
    StoredMetricSnapshot {
        metric_id: metric_id.to_owned(),
        schema_version,
        payload_json: payload_json.to_owned(),
    }
}

fn parts(snapshot: &MetricSnapshot) -> (String, u32, String) {
    (
        snapshot.metric_id().to_owned(),
        snapshot.schema_version(),
        snapshot.payload_json().to_owned(),
    )
}

fn metadata(name: Option<&str>, keyboard: KeyboardContext) -> SessionMetadata {
    SessionMetadata {
        id: SessionId::new(1).unwrap(),
        name: name.map(str::to_owned),
        created_at_ms: 1,
        updated_at_ms: 1,
        last_opened_at_ms: 1,
        captured_duration_ns: 0,
        application_version: "test".to_owned(),
        keyboard,
    }
}

#[test]
fn stored_metric_validates_schema_before_conversion() {
    let invalid = stored("test", -1, "{}");
    assert!(matches!(
        invalid.to_metric_snapshot(),
        Err(StoredMetricError::InvalidSchemaVersion { actual: -1 })
    ));

    let valid = stored("test", 1, "{}");
    assert_eq!(
        parts(&valid.to_metric_snapshot().unwrap()),
        parts(&MetricSnapshot::from_json("test", 1, "{}".to_owned()).unwrap())
    );
}

#[test]
fn stored_metric_errors_describe_their_cause() {
    let error = stored("test", -1, "{}").to_metric_snapshot().unwrap_err();
    assert_eq!(error.describe(), "stored metric schema version -1 is invalid");
    let error = stored("", 1, "{}").to_metric_snapshot().unwrap_err();
    assert_eq!(error.describe(), "stored metric snapshot metadata is invalid");
    let error = stored("test", i64::from(u32::MAX) + 1, "{}").to_metric_snapshot().unwrap_err();
    assert!(matches!(error, StoredMetricError::InvalidSchemaVersion { actual } if actual == 4_294_967_296));
}

#[test]
fn recovery_isolates_partial_unknown_duplicate_and_invalid_metrics() {
    let snapshots = vec![
        stored("total-presses", 1, r#"{"count":17}"#),
        stored("key-usage", 1, "not json"),
        stored("future-metric", 1, "{}"),
        stored("total-presses", 1, r#"{"count":99}"#),
    ];

    let (recovered, issues) = SessionMetrics::restore(&snapshots);
    let recovered_snapshots = recovered.snapshots().unwrap();
    let total = recovered_snapshots
        .iter()
        .find(|snapshot| snapshot.metric_id() == "total-presses")
        .unwrap();
    let key_usage = recovered_snapshots
        .iter()
        .find(|snapshot| snapshot.metric_id() == "key-usage")
        .unwrap();

    assert_eq!(total.payload_json(), r#"{"count":17}"#);
    assert_eq!(key_usage.payload_json(), r#"{"keys":[]}"#);
    let defaults = SessionMetrics::new().snapshots().unwrap();
    for recovered in recovered_snapshots
        .iter()
        .filter(|snapshot| snapshot.metric_id() != "total-presses")
    {
        let default = defaults
            .iter()
            .find(|snapshot| snapshot.metric_id() == recovered.metric_id())
            .unwrap();
        assert_eq!(parts(recovered), parts(default));
    }
    assert_eq!(issues.len(), 3);
    assert!(matches!(
        &issues[0],
        MetricRecoveryIssue::Invalid { metric_id, .. } if metric_id == "key-usage"
    ));
    assert!(matches!(
        &issues[1],
        MetricRecoveryIssue::Unknown { metric_id } if metric_id == "future-metric"
    ));
    assert!(matches!(
        &issues[2],
        MetricRecoveryIssue::Duplicate { metric_id } if metric_id == "total-presses"
    ));
}

#[test]
fn recovery_issue_messages_name_the_metric() {
    assert_eq!(
        metric_recovery_message(&MetricRecoveryIssue::Unknown { metric_id: "x".to_owned() }),
        "Unsupported saved metric: x"
    );
    assert_eq!(
        metric_recovery_message(&MetricRecoveryIssue::Duplicate { metric_id: "x".to_owned() }),
        "Duplicate saved metric was ignored: x"
    );
    assert_eq!(
        metric_recovery_message(&MetricRecoveryIssue::Invalid {
            metric_id: "x".to_owned(),
            details: "bad".to_owned(),
        }),
        "Could not restore saved metric x: bad"
    );
}

#[test]
fn unnamed_session_has_a_stable_display_fallback() {
    let metadata = metadata(None, KeyboardContext::default());

    assert_eq!(metadata.display_name(), "Untitled session");
}

#[test]
fn named_session_displays_its_name() {
    let metadata = metadata(Some("Morning drills"), KeyboardContext::default());
    assert_eq!(metadata.display_name(), "Morning drills");
}

#[test]
fn session_ids_are_positive() {
    assert!(SessionId::new(0).is_none());
    assert!(SessionId::new(-5).is_none());
    assert_eq!(SessionId::new(7).map(SessionId::get), Some(7));
}

#[test]
fn selector_distinguishes_untitled_sessions_with_metadata() {
    let metadata = metadata(
        None,
        KeyboardContext {
            display_name: Some("Work keyboard".to_owned()),
            ..Default::default()
        },
    );

    let label = session_selector_label(&metadata);

    assert!(label.contains("Untitled session"));
    assert!(label.contains("Work keyboard"));
}

#[test]
fn selector_and_manage_labels_join_their_parts() {
    let named = metadata(Some("Drills"), KeyboardContext::default());
    assert_eq!(
        selector_label_at(&named, "2024-01-01"),
        "Drills — No keyboard — 2024-01-01"
    );
    assert_eq!(manage_label_at(&named, "2024-01-01"), "Drills — 2024-01-01");
}

#[test]
fn settings_errors_describe_their_cause() {
    let mut settings = Settings::new();
    assert!(settings.validate().is_ok());
    settings.schema_version = 1;
    let error = settings.validate().unwrap_err();
    assert_eq!(error, SettingsValidationError::UnsupportedSchemaVersion { supported: 2, actual: 1 });
    assert_eq!(error.describe(), "settings schema version 1 is unsupported; expected 2");
    assert_eq!(
        SettingsValidationError::KeyboardValueTooLong.describe(),
        "keyboard setting exceeds the size limit"
    );
}
