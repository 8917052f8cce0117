use evtap::input::{KeyEvent, KeyEventKind, KeyRole, PhysicalKey};
use evtap::metric::session_metrics::SessionMetrics;
use evtap::metric::{
    validate_count, validate_dimension, validate_entry_count, validate_scalar_count,
    DurationStats, MetricSnapshot, MetricSnapshotError, MAX_AGGREGATE_COUNT, MAX_DIMENSION_BYTES,
    MAX_DIMENSION_ENTRIES, MAX_DURATION_NANOSECONDS, MAX_SNAPSHOT_BYTES,
};
use evtap::payload::{PayloadLayout, TopValue};

const SESSION_METRIC_IDS: [&str; 6] = [
    "total-presses",
    "key-usage",
    "dwell-time",
    "flight-time",
    "bigram-speed",
    "corrections",
];

fn event(
    code: u16,
    label: &str,
    text: Option<&str>,
    at_ms: u64,
    kind: KeyEventKind,
    role: KeyRole,
) -> KeyEvent {
    KeyEvent::new(
        PhysicalKey::new(code, label),
        text.map(str::to_owned),
        at_ms * 1_000_000,
        kind,
        role,
    )
}

fn parts(snapshots: &[MetricSnapshot]) -> Vec<(String, u32, String)> {
    snapshots
        .iter()
        .map(|s| {
            (
                s.metric_id().to_owned(),
                s.schema_version(),
                s.payload_json().to_owned(),
            )
        })
        .collect()
}

fn populated_metrics() -> SessionMetrics {
    let mut metrics = SessionMetrics::new();
    metrics.process(&event(30, "A", Some("a"), 0, KeyEventKind::Press, KeyRole::Other));
    metrics.process(&event(30, "A", Some("a"), 10, KeyEventKind::Release, KeyRole::Other));
    metrics.process(&event(48, "B", Some("b"), 20, KeyEventKind::Press, KeyRole::Other));
    metrics.process(&event(48, "B", Some("b"), 30, KeyEventKind::Release, KeyRole::Other));
    metrics.process(&event(14, "BACKSPACE", None, 40, KeyEventKind::Press, KeyRole::Backspace));
    metrics.process(&event(46, "C", Some("c"), 50, KeyEventKind::Press, KeyRole::Other));
    metrics
}

fn restore_snapshots(snapshots: &[MetricSnapshot]) -> SessionMetrics {
    let mut restored = SessionMetrics::new();
    for snapshot in snapshots {
        restored.restore_snapshot(snapshot).unwrap();
    }
    restored
}

#[test]
fn metric_snapshot_round_trips_json_payload() {
    let snapshot =
        MetricSnapshot::encode("test", 1, PayloadLayout::Count, &vec![TopValue::Count(42)])
            .unwrap();

    assert_eq!(snapshot.metric_id(), "test");
    assert_eq!(snapshot.schema_version(), 1);
    assert_eq!(snapshot.payload_json(), r#"{"count":42}"#);
    let restored = snapshot.decode("test", 1, PayloadLayout::Count).unwrap();
    assert_eq!(restored.len(), 1);
    assert!(matches!(restored[0], TopValue::Count(42)));
}

#[test]
fn metric_snapshot_rejects_wrong_identity_and_version() {
    let snapshot =
        MetricSnapshot::encode("test", 2, PayloadLayout::Count, &vec![TopValue::Count(42)])
            .unwrap();

    assert!(matches!(
        snapshot.decode("other", 2, PayloadLayout::Count),
        Err(MetricSnapshotError::MetricMismatch { .. })
    ));
    assert!(matches!(
        snapshot.decode("test", 1, PayloadLayout::Count),
        Err(MetricSnapshotError::UnsupportedSchemaVersion { .. })
    ));
}

#[test]
fn metric_snapshot_validates_metadata_and_size() {
    assert!(matches!(
        MetricSnapshot::from_json("", 1, "{}".to_owned()),
        Err(MetricSnapshotError::EmptyMetricId)
    ));
    assert!(matches!(
        MetricSnapshot::from_json("test", 0, "{}".to_owned()),
        Err(MetricSnapshotError::InvalidSchemaVersion)
    ));
    assert!(matches!(
        MetricSnapshot::from_json("test", 1, "x".repeat(MAX_SNAPSHOT_BYTES + 1)),
        Err(MetricSnapshotError::PayloadTooLarge { .. })
    ));
}

#[test]
fn validators_reject_unsafe_aggregate_values() {
    assert!(validate_scalar_count("test", 0).is_ok());
    assert!(validate_scalar_count("test", MAX_AGGREGATE_COUNT + 1).is_err());
    assert!(validate_count("test", 1).is_ok());
    assert!(validate_count("test", 0).is_err());
    assert!(validate_dimension("test", &"x".repeat(MAX_DIMENSION_BYTES)).is_ok());
    assert!(validate_dimension("test", &"x".repeat(MAX_DIMENSION_BYTES + 1)).is_err());
    assert!(validate_entry_count("test", MAX_DIMENSION_ENTRIES).is_ok());
    assert!(validate_entry_count("test", MAX_DIMENSION_ENTRIES + 1).is_err());
    assert!(DurationStats::from_snapshot_parts("test", 1, 1).is_ok());
    assert!(DurationStats::from_snapshot_parts("test", MAX_DURATION_NANOSECONDS + 1, 1).is_err());
}

#[test]
fn failed_restore_does_not_change_session_metrics() {
    let mut metrics = populated_metrics();

    for metric_id in SESSION_METRIC_IDS {
        let before = parts(&metrics.snapshots().unwrap());
        let malformed = MetricSnapshot::from_json(metric_id, 1, "{".to_owned()).unwrap();

        assert!(metrics.restore_snapshot(&malformed).is_err());
        assert_eq!(parts(&metrics.snapshots().unwrap()), before);
    }
}

#[test]
fn session_metric_ids_have_a_stable_unique_order() {
    let snapshots = SessionMetrics::new().snapshots().unwrap();
    let ids: Vec<_> = snapshots.iter().map(MetricSnapshot::metric_id).collect();
    let mut unique = ids.clone();
    unique.sort();
    unique.dedup();

    assert_eq!(ids, SESSION_METRIC_IDS);
    assert_eq!(unique.len(), SESSION_METRIC_IDS.len());
    assert!(snapshots.iter().all(|snapshot| snapshot.schema_version() == 1));
}

#[test]
fn session_metrics_round_trip_all_aggregates() {
    let metrics = populated_metrics();
    let snapshots = metrics.snapshots().unwrap();
    let defaults = SessionMetrics::new().snapshots().unwrap();
    assert!(snapshots
        .iter()
        .zip(defaults)
        .all(|(snapshot, default)| snapshot.payload_json() != default.payload_json()));

    let restored = restore_snapshots(&snapshots);

    assert!(restored.has_data());
    assert_eq!(parts(&restored.snapshots().unwrap()), parts(&snapshots));
}

#[test]
fn session_metrics_reset_every_metric() {
    let mut metrics = populated_metrics();
    assert!(metrics.has_data());

    metrics.reset();

    assert!(!metrics.has_data());
    assert_eq!(
        parts(&metrics.snapshots().unwrap()),
        parts(&SessionMetrics::new().snapshots().unwrap())
    );
}

#[test]
fn clearing_session_in_flight_state_prevents_cross_boundary_analysis() {
    let mut metrics = SessionMetrics::new();
    metrics.process(&event(30, "A", Some("a"), 0, KeyEventKind::Press, KeyRole::Other));
    let snapshots = metrics.snapshots().unwrap();
    let mut restored = restore_snapshots(&snapshots);

    metrics.clear_in_flight();
    let next = event(48, "B", Some("b"), 10, KeyEventKind::Press, KeyRole::Other);
    metrics.process(&next);
    restored.process(&next);

    assert_eq!(
        parts(&metrics.snapshots().unwrap()),
        parts(&restored.snapshots().unwrap())
    );
}

#[test]
fn unknown_metric_snapshot_is_refused_with_a_mismatch() {
    let mut metrics = populated_metrics();
    let before = parts(&metrics.snapshots().unwrap());
    let unknown = MetricSnapshot::from_json("future-metric", 1, "{}".to_owned()).unwrap();

    match metrics.restore_snapshot(&unknown) {
        Err(MetricSnapshotError::MetricMismatch { expected, actual }) => {
            assert_eq!(expected, "a built-in session metric");
            assert_eq!(actual, "future-metric");
        }
        other => panic!("unexpected result: {other:?}"),
    }
    assert_eq!(parts(&metrics.snapshots().unwrap()), before);
}

#[test]
fn duration_stats_compare_averages_exactly() {
    let a = DurationStats::new(100, 2);
    let b = DurationStats::new(150, 3);
    let c = DurationStats::new(101, 2);
    assert_eq!(a.compare_average(b), 0);
    assert_eq!(a.compare_average(c), -1);
    assert_eq!(c.compare_average(a), 1);
}

#[test]
fn snapshot_errors_describe_their_cause() {
    let mismatch = MetricSnapshot::from_json("test", 2, "{}".to_owned())
        .unwrap()
        .decode("other", 2, PayloadLayout::Count)
        .unwrap_err();
    assert_eq!(mismatch.describe(), "snapshot belongs to metric test, not other");
    assert_eq!(
        MetricSnapshotError::EmptyMetricId.describe(),
        "metric snapshot ID cannot be empty"
    );
    let too_large = MetricSnapshot::from_json("test", 1, "x".repeat(MAX_SNAPSHOT_BYTES + 1))
        .unwrap_err();
    assert_eq!(
        too_large.describe(),
        "metric snapshot for test is 16777217 bytes; maximum is 16777216 bytes"
    );
    let version = MetricSnapshot::from_json("test", 2, "{}".to_owned())
        .unwrap()
        .decode("test", 1, PayloadLayout::Count)
        .unwrap_err();
    assert_eq!(
        version.describe(),
        "metric test snapshot schema version 2 is unsupported; expected 1"
    );
    let undecodable = MetricSnapshot::from_json("test", 1, "{".to_owned())
        .unwrap()
        .decode("test", 1, PayloadLayout::Count)
        .unwrap_err();
    assert_eq!(
        undecodable.describe(),
        "failed to decode metric test snapshot schema version 1"
    );
    assert_eq!(
        validate_count("test", 0).unwrap_err().describe(),
        "metric test snapshot is invalid: aggregate count must be greater than zero"
    );
}

#[test]
fn data_exists_exactly_when_snapshots_differ_from_fresh_ones() {
    let fresh = parts(&SessionMetrics::new().snapshots().unwrap());
    let mut metrics = SessionMetrics::new();
    metrics.process(&event(30, "A", Some("a"), 0, KeyEventKind::Repeat, KeyRole::Other));
    assert!(!metrics.has_data());
    assert_eq!(parts(&metrics.snapshots().unwrap()), fresh);
    let populated = populated_metrics();
    assert!(populated.has_data());
    assert_ne!(parts(&populated.snapshots().unwrap()), fresh);
}
