use evtap::input::{KeyEvent, KeyEventKind, KeyRole, PhysicalKey};
use evtap::metric::bigram_speed::BigramSpeed;
use evtap::metric::correction_signals::{CorrectionSignals, CorrectionSort, ErrorRate};
use evtap::metric::durations::{overall_totals, sorted_text_durations, DurationSort};
use evtap::metric::dwell_time::DwellTime;
use evtap::metric::flight_time::FlightTime;
use evtap::metric::key_usage::{KeyUsage, KeyUsageSort};
use evtap::metric::total_presses::TotalPresses;
use evtap::metric::{DurationStats, MetricSnapshot};
use evtap::labels::format_exact_count_u128;
use evtap::table::Table;

const MS: u64 = 1_000_000;

fn at(at_ms: u64, key: PhysicalKey, text: Option<&str>, kind: KeyEventKind) -> KeyEvent {
    KeyEvent::new(key, text.map(str::to_owned), at_ms * MS, kind, KeyRole::Other)
}

fn key_a_event(at_ms: u64, kind: KeyEventKind, text: Option<&str>) -> KeyEvent {
    at(at_ms, PhysicalKey::new(30, "A"), text, kind)
}

fn press(at_ms: u64, text: &str) -> KeyEvent {
    at(at_ms, PhysicalKey::new(30, &text.to_uppercase()), Some(text), KeyEventKind::Press)
}

fn typed(value: &str) -> KeyEvent {
    at(0, PhysicalKey::new(30, &value.to_uppercase()), Some(value), KeyEventKind::Press)
}

fn backspace() -> KeyEvent {
    KeyEvent::new(
        PhysicalKey::new(14, "BACKSPACE"),
        None,
        0,
        KeyEventKind::Press,
        KeyRole::Backspace,
    )
}

fn duration_stats(total_ms: u64, samples: u64) -> DurationStats {
    DurationStats::new(u128::from(total_ms) * u128::from(MS), samples)
}

// Total presses

fn total_event(kind: KeyEventKind) -> KeyEvent {
    at(0, PhysicalKey::new(30, "A"), Some("a"), kind)
}

#[test]
fn counts_presses_but_not_repeats_or_releases() {
    let mut metric = TotalPresses::new();

    metric.process(&total_event(KeyEventKind::Press));
    metric.process(&total_event(KeyEventKind::Repeat));
    metric.process(&total_event(KeyEventKind::Release));

    assert_eq!(metric.count(), 1);
}

#[test]
fn snapshot_round_trips_and_restore_is_all_or_nothing() {
    let mut metric = TotalPresses::new();
    metric.process(&total_event(KeyEventKind::Press));
    let snapshot = metric.snapshot().unwrap();

    let mut restored = TotalPresses::new();
    restored.restore(&snapshot).unwrap();
    assert!(restored.has_data());
    assert_eq!(restored.count(), 1);

    let invalid =
        MetricSnapshot::from_json("total-presses", 1, r#"{"count":2,"unknown":true}"#.to_owned())
            .unwrap();
    assert!(restored.restore(&invalid).is_err());
    assert_eq!(restored.count(), 1);

    let overflowing = MetricSnapshot::from_json(
        "total-presses",
        1,
        r#"{"count":9223372036854775808}"#.to_owned(),
    )
    .unwrap();
    assert!(restored.restore(&overflowing).is_err());
    assert_eq!(restored.count(), 1);

    restored.reset();
    assert!(!restored.has_data());
    assert_eq!(restored.count(), 0);
}

#[test]
fn total_presses_snapshot_payload_is_exact() {
    let mut metric = TotalPresses::new();
    metric.process(&total_event(KeyEventKind::Press));
    metric.process(&total_event(KeyEventKind::Press));
    let snapshot = metric.snapshot().unwrap();
    assert_eq!(snapshot.metric_id(), "total-presses");
    assert_eq!(snapshot.payload_json(), r#"{"count":2}"#);
}

// Key usage

fn key_event(key: PhysicalKey, kind: KeyEventKind) -> KeyEvent {
    KeyEvent::new(key, None, 0, kind, KeyRole::Other)
}

fn key_counts(metric: &KeyUsage) -> Vec<(u16, String, u64)> {
    metric
        .sorted_counts(KeyUsageSort::KeyLabel)
        .into_iter()
        .map(|(key, count)| (key.code(), key.label().to_owned(), count))
        .collect()
}

#[test]
fn ranks_physical_presses() {
    let mut metric = KeyUsage::new();
    let a = PhysicalKey::new(30, "A");
    let b = PhysicalKey::new(48, "B");

    metric.process(&key_event(a.clone(), KeyEventKind::Press));
    metric.process(&key_event(b.clone(), KeyEventKind::Press));
    metric.process(&key_event(b.clone(), KeyEventKind::Repeat));
    metric.process(&key_event(b, KeyEventKind::Press));

    assert_eq!(metric.count_of(&a), Some(1));
    assert_eq!(metric.key_count(), 2);
}

#[test]
fn sorting_is_deterministic_for_counts_labels_and_codes() {
    let mut metric = KeyUsage::new();
    metric.set_count(PhysicalKey::new(31, "A"), 10);
    metric.set_count(PhysicalKey::new(44, "Z"), 10);
    metric.set_count(PhysicalKey::new(30, "A"), 10);
    metric.set_count(PhysicalKey::new(48, "B"), 12);

    let press_order: Vec<_> = metric
        .sorted_counts(KeyUsageSort::PressCount)
        .into_iter()
        .map(|(key, _)| (key.label().to_owned(), key.code()))
        .collect();
    assert_eq!(
        press_order,
        [("B".to_owned(), 48), ("A".to_owned(), 30), ("A".to_owned(), 31), ("Z".to_owned(), 44)]
    );

    let label_order: Vec<_> = metric
        .sorted_counts(KeyUsageSort::KeyLabel)
        .into_iter()
        .map(|(key, _)| (key.label().to_owned(), key.code()))
        .collect();
    assert_eq!(
        label_order,
        [("A".to_owned(), 30), ("A".to_owned(), 31), ("B".to_owned(), 48), ("Z".to_owned(), 44)]
    );
}

#[test]
fn snapshot_is_deterministic_and_rejects_duplicate_codes() {
    let a = PhysicalKey::new(30, "A");
    let b = PhysicalKey::new(48, "B");
    let mut first = KeyUsage::new();
    first.process(&key_event(b.clone(), KeyEventKind::Press));
    first.process(&key_event(a.clone(), KeyEventKind::Press));
    let mut second = KeyUsage::new();
    second.process(&key_event(a.clone(), KeyEventKind::Press));
    second.process(&key_event(b, KeyEventKind::Press));

    let snapshot = first.snapshot().unwrap();
    assert_eq!(snapshot.payload_json(), second.snapshot().unwrap().payload_json());

    let mut restored = KeyUsage::new();
    restored.restore(&snapshot).unwrap();
    assert_eq!(key_counts(&restored), key_counts(&first));

    let duplicate = MetricSnapshot::from_json(
        "key-usage",
        1,
        r#"{"keys":[{"code":30,"label":"A","count":1},{"code":30,"label":"OTHER","count":1}]}"#
            .to_owned(),
    )
    .unwrap();
    assert!(restored.restore(&duplicate).is_err());
    assert_eq!(key_counts(&restored), key_counts(&first));
}

#[test]
fn key_usage_snapshot_payload_lists_keys_by_code() {
    let mut metric = KeyUsage::new();
    metric.process(&key_event(PhysicalKey::new(48, "B"), KeyEventKind::Press));
    metric.process(&key_event(PhysicalKey::new(30, "A"), KeyEventKind::Press));
    metric.process(&key_event(PhysicalKey::new(30, "A"), KeyEventKind::Press));
    assert_eq!(
        metric.snapshot().unwrap().payload_json(),
        r#"{"keys":[{"code":30,"label":"A","count":2},{"code":48,"label":"B","count":1}]}"#
    );
}

// Dwell time

#[test]
fn uses_text_captured_when_key_was_pressed() {
    let mut metric = DwellTime::new();

    metric.process(&key_a_event(100, KeyEventKind::Press, Some("A")));
    metric.process(&key_a_event(220, KeyEventKind::Release, Some("a")));

    assert_eq!(metric.stats_for("A").map(|stats| stats.samples), Some(1));
    assert_eq!(metric.stats_for("a").map(|stats| stats.samples), None);
}

#[test]
fn dwell_time_measures_press_to_release() {
    let mut metric = DwellTime::new();
    metric.process(&key_a_event(100, KeyEventKind::Press, Some("a")));
    metric.process(&key_a_event(220, KeyEventKind::Release, Some("a")));
    assert_eq!(metric.stats_for("a").map(|stats| stats.total_ns), Some(120 * u128::from(MS)));
}

#[test]
fn clearing_in_flight_context_drops_unfinished_presses() {
    let mut metric = DwellTime::new();
    metric.process(&key_a_event(100, KeyEventKind::Press, Some("a")));

    metric.clear_in_flight();
    metric.process(&key_a_event(180, KeyEventKind::Release, Some("a")));

    assert_eq!(metric.pressed_count(), 0);
    assert!(metric.stats_for("a").is_none());
}

#[test]
fn snapshot_does_not_restore_pressed_keys() {
    let mut metric = DwellTime::new();
    metric.process(&key_a_event(100, KeyEventKind::Press, Some("a")));
    metric.process(&key_a_event(180, KeyEventKind::Release, Some("a")));
    metric.process(&key_a_event(200, KeyEventKind::Press, Some("b")));
    assert_eq!(metric.pressed_count(), 1);

    let mut restored = DwellTime::new();
    let snapshot = metric.snapshot().expect("dwell snapshot should encode");
    restored.restore(&snapshot).expect("dwell snapshot should restore");
    assert_eq!(
        restored.snapshot().unwrap().payload_json(),
        metric.snapshot().unwrap().payload_json()
    );
    assert_eq!(restored.pressed_count(), 0);

    restored.process(&key_a_event(260, KeyEventKind::Release, Some("b")));
    assert!(restored.stats_for("b").is_none());
    restored.reset();
    assert!(!restored.has_data());
}

// Duration lists

fn duration_table(entries: &[(&str, DurationStats)]) -> Table<String, DurationStats> {
    let mut table = Table::new();
    for (text, stats) in entries {
        table.insert((*text).to_owned(), *stats);
    }
    table
}

fn duration_order(table: &Table<String, DurationStats>, sort: DurationSort) -> Vec<String> {
    sorted_text_durations(table, sort)
        .into_iter()
        .map(|(text, _)| text)
        .collect()
}

#[test]
fn duration_analysis_sorting_is_deterministic_for_averages_labels_and_sample_counts() {
    let stats = duration_table(&[
        ("alpha", duration_stats(100, 2)),
        ("beta", duration_stats(100, 1)),
        ("delta", duration_stats(150, 3)),
    ]);
    assert_eq!(duration_order(&stats, DurationSort::Slowest), ["beta", "alpha", "delta"]);
    assert_eq!(duration_order(&stats, DurationSort::Fastest), ["alpha", "delta", "beta"]);
    assert_eq!(duration_order(&stats, DurationSort::Label), ["alpha", "beta", "delta"]);
    assert_eq!(duration_order(&stats, DurationSort::SampleCount), ["delta", "alpha", "beta"]);

    let stats = duration_table(&[
        ("alphabetically-first", DurationStats::new(i64::MAX as u128 - 1, 1)),
        ("truly-slower", DurationStats::new(i64::MAX as u128, 1)),
    ]);
    assert_eq!(
        duration_order(&stats, DurationSort::Slowest),
        ["truly-slower", "alphabetically-first"]
    );
}

// Flight time

#[test]
fn measures_release_to_next_press() {
    let mut metric = FlightTime::new();

    metric.process(&key_a_event(100, KeyEventKind::Release, Some("a")));
    metric.process(&key_a_event(175, KeyEventKind::Press, Some("b")));

    assert_eq!(metric.stats_for("b").map(|stats| stats.samples), Some(1));
    assert_eq!(metric.stats_for("b").map(|stats| stats.total_ns), Some(75 * u128::from(MS)));
}

#[test]
fn flight_time_sorting_is_deterministic_for_averages_labels_and_sample_counts() {
    let mut metric = FlightTime::new();
    metric.set_stats("alpha", duration_stats(100, 2));
    metric.set_stats("beta", duration_stats(100, 1));
    metric.set_stats("delta", duration_stats(150, 3));

    let order = |metric: &FlightTime, sort| {
        metric
            .sorted_stats(sort)
            .into_iter()
            .map(|(text, _)| text)
            .collect::<Vec<_>>()
    };
    assert_eq!(order(&metric, DurationSort::Slowest), ["beta", "alpha", "delta"]);
    assert_eq!(order(&metric, DurationSort::Fastest), ["alpha", "delta", "beta"]);
    assert_eq!(order(&metric, DurationSort::Label), ["alpha", "beta", "delta"]);
    assert_eq!(order(&metric, DurationSort::SampleCount), ["delta", "alpha", "beta"]);

    let mut metric = FlightTime::new();
    metric.set_stats("alphabetically-first", DurationStats::new(i64::MAX as u128 - 1, 1));
    metric.set_stats("truly-slower", DurationStats::new(i64::MAX as u128, 1));
    assert_eq!(
        order(&metric, DurationSort::Slowest),
        ["truly-slower", "alphabetically-first"]
    );
}

#[test]
fn flight_time_clearing_in_flight_context_preserves_aggregates_without_bridging() {
    let mut metric = FlightTime::new();
    metric.process(&key_a_event(100, KeyEventKind::Release, Some("a")));

    metric.clear_in_flight();
    metric.process(&key_a_event(175, KeyEventKind::Press, Some("b")));

    assert!(!metric.has_data());
}

#[test]
fn snapshot_does_not_bridge_release_context_across_restore() {
    let mut metric = FlightTime::new();
    metric.process(&key_a_event(100, KeyEventKind::Release, Some("a")));
    metric.process(&key_a_event(175, KeyEventKind::Press, Some("b")));
    metric.process(&key_a_event(200, KeyEventKind::Release, Some("b")));

    let mut restored = FlightTime::new();
    let snapshot = metric.snapshot().expect("flight snapshot should encode");
    restored.restore(&snapshot).expect("flight snapshot should restore");
    assert_eq!(
        restored.snapshot().unwrap().payload_json(),
        metric.snapshot().unwrap().payload_json()
    );
    assert!(!restored.has_last_release());

    restored.process(&key_a_event(250, KeyEventKind::Press, Some("c")));
    assert!(restored.stats_for("c").is_none());
    restored.process(&key_a_event(300, KeyEventKind::Release, Some("c")));
    restored.process(&key_a_event(350, KeyEventKind::Press, Some("d")));
    assert_eq!(restored.stats_for("d").map(|stats| stats.samples), Some(1));
    restored.reset();
    assert!(!restored.has_data());
}

// Bigram speed

#[test]
fn measures_press_to_press_duration() {
    let mut metric = BigramSpeed::new();

    metric.process(&press(100, "a"));
    metric.process(&press(180, "b"));

    assert_eq!(metric.stats_for("a", "b").map(|stats| stats.samples), Some(1));
    assert_eq!(metric.stats_for("a", "b").map(|stats| stats.total_ns), Some(80 * u128::from(MS)));
}

fn pair_order(metric: &BigramSpeed, slowest: bool) -> Vec<(String, String)> {
    metric
        .sorted_pairs(slowest)
        .into_iter()
        .map(|(pair, _)| (pair.first().to_owned(), pair.second().to_owned()))
        .collect()
}

fn pairs(items: &[(&str, &str)]) -> Vec<(String, String)> {
    items.iter().map(|(a, b)| ((*a).to_owned(), (*b).to_owned())).collect()
}

#[test]
fn threshold_and_average_ordering_are_exact_and_deterministic() {
    let mut metric = BigramSpeed::new();
    metric.set_stats("below", "threshold", duration_stats(20, 2));
    metric.set_stats("b", "pair", duration_stats(300, 3));
    metric.set_stats("a", "pair", duration_stats(300, 3));
    metric.set_stats("slow", "pair", duration_stats(600, 3));

    assert_eq!(pair_order(&metric, false), pairs(&[("a", "pair"), ("b", "pair"), ("slow", "pair")]));
    assert_eq!(pair_order(&metric, true), pairs(&[("slow", "pair"), ("a", "pair"), ("b", "pair")]));

    metric.clear_stats();
    metric.set_stats("alphabetically", "first", DurationStats::new(i64::MAX as u128 - 1, 3));
    metric.set_stats("truly", "slower", DurationStats::new(i64::MAX as u128, 3));
    assert_eq!(
        pair_order(&metric, true),
        pairs(&[("truly", "slower"), ("alphabetically", "first")])
    );
}

#[test]
fn bigram_speed_clearing_in_flight_context_preserves_aggregates_without_bridging() {
    let mut metric = BigramSpeed::new();
    metric.process(&press(100, "a"));
    metric.process(&press(180, "b"));
    let aggregates = metric.snapshot().unwrap().payload_json().to_owned();

    metric.clear_in_flight();
    metric.process(&press(250, "c"));

    assert_eq!(metric.snapshot().unwrap().payload_json(), aggregates);
    assert!(metric.stats_for("b", "c").is_none());
}

#[test]
fn snapshot_does_not_bridge_bigram_context_across_restore() {
    let mut metric = BigramSpeed::new();
    metric.process(&press(100, "a"));
    metric.process(&press(180, "b"));

    let mut restored = BigramSpeed::new();
    restored.restore(&metric.snapshot().unwrap()).unwrap();
    assert_eq!(
        restored.snapshot().unwrap().payload_json(),
        metric.snapshot().unwrap().payload_json()
    );
    assert!(!restored.has_last_press());

    restored.process(&press(250, "c"));
    assert!(restored.stats_for("b", "c").is_none());
    restored.process(&press(300, "d"));
    assert_eq!(restored.stats_for("c", "d").map(|stats| stats.samples), Some(1));
    restored.reset();
    assert!(!restored.has_data());
}

#[test]
fn bigram_flow_ends_after_two_seconds() {
    let mut metric = BigramSpeed::new();
    metric.process(&press(0, "a"));
    metric.process(&press(1_999, "b"));
    metric.process(&press(3_999, "c"));
    assert_eq!(metric.stats_for("a", "b").map(|stats| stats.samples), Some(1));
    assert!(metric.stats_for("b", "c").is_none());
}

// Correction signals

#[test]
fn correction_signals_records_deletion_and_following_correction() {
    let mut metric = CorrectionSignals::new();

    metric.process(&typed("o"));
    metric.process(&backspace());
    metric.process(&typed("p"));

    assert_eq!(metric.deletions_of("o"), Some(1));
    assert_eq!(metric.corrections_of("o", "p"), Some(1));
}

#[test]
fn sorting_is_deterministic_for_counts_and_labels() {
    let mut metric = CorrectionSignals::new();
    metric.set_deletions("b", 2);
    metric.set_deletions("a", 2);
    metric.set_deletions("c", 3);
    metric.set_corrections("b", "x", 4);
    metric.set_corrections("a", "z", 4);
    metric.set_corrections("a", "y", 5);

    let mistake_order = |sort| {
        metric
            .sorted_mistakes(sort)
            .into_iter()
            .map(|(text, _)| text)
            .collect::<Vec<_>>()
    };
    assert_eq!(mistake_order(CorrectionSort::OccurrenceCount), ["c", "a", "b"]);
    assert_eq!(mistake_order(CorrectionSort::Label), ["a", "b", "c"]);

    let correction_order = |sort| {
        metric
            .sorted_confusions(sort)
            .into_iter()
            .map(|(pair, _)| (pair.first().to_owned(), pair.second().to_owned()))
            .collect::<Vec<_>>()
    };
    assert_eq!(
        correction_order(CorrectionSort::OccurrenceCount),
        pairs(&[("a", "y"), ("a", "z"), ("b", "x")])
    );
    assert_eq!(
        correction_order(CorrectionSort::Label),
        pairs(&[("a", "y"), ("a", "z"), ("b", "x")])
    );
}

#[test]
fn correction_signals_clearing_in_flight_context_drops_recent_text_and_pending_correction() {
    let mut metric = CorrectionSignals::new();
    metric.process(&typed("o"));
    metric.process(&backspace());
    let mistakes = metric.sorted_mistakes(CorrectionSort::Label);

    metric.clear_in_flight();
    metric.process(&typed("p"));

    assert_eq!(metric.sorted_mistakes(CorrectionSort::Label), mistakes);
    assert_eq!(metric.dimension_counts().1, 0);
    assert_eq!(metric.last_text(), Some("p"));
}

#[test]
fn correction_signals_snapshot_restores_aggregates_without_transient_text_context() {
    let mut metric = CorrectionSignals::new();
    metric.process(&typed("o"));
    metric.process(&backspace());
    assert_eq!(metric.pending_deleted(), Some("o"));

    let snapshot = metric.snapshot().unwrap();
    let mut restored = CorrectionSignals::new();
    restored.restore(&snapshot).unwrap();

    assert_eq!(restored.deletions_of("o"), Some(1));
    assert_eq!(restored.history_len(), 0);
    assert!(restored.pending_deleted().is_none());
    restored.process(&typed("p"));
    assert_eq!(restored.dimension_counts().1, 0);
    restored.process(&backspace());
    assert_eq!(restored.deletions_of("p"), Some(1));
    restored.reset();
    assert!(!restored.has_data());
    assert_eq!(restored.history_len(), 0);
}

#[test]
fn correction_signals_snapshot_round_trips_correction_counts() {
    let mut metric = CorrectionSignals::new();
    metric.process(&typed("o"));
    metric.process(&backspace());
    metric.process(&typed("p"));

    let snapshot = metric.snapshot().unwrap();
    assert_eq!(snapshot.metric_id(), "corrections");
    assert_eq!(snapshot.schema_version(), 1);
    assert_eq!(
        snapshot.payload_json(),
        r#"{"deletions":[{"text":"o","count":1}],"corrections":[{"deleted":"o","typed":"p","count":1}]}"#
    );

    let mut restored = CorrectionSignals::new();
    restored.restore(&snapshot).unwrap();
    assert_eq!(
        restored.sorted_mistakes(CorrectionSort::Label),
        metric.sorted_mistakes(CorrectionSort::Label)
    );
    assert_eq!(restored.corrections_of("o", "p"), Some(1));
    assert_eq!(restored.dimension_counts(), metric.dimension_counts());
}

#[test]
fn correction_history_keeps_the_last_ten_texts() {
    let mut metric = CorrectionSignals::new();
    for index in 0..12 {
        metric.process(&typed(&format!("t{index}")));
    }
    assert_eq!(metric.history_len(), 10);
    assert_eq!(metric.last_text(), Some("t11"));
}

// The same aggregates under the error-rate name

#[test]
fn error_rate_records_deletion_and_following_correction() {
    let mut metric = ErrorRate::new();

    metric.process(&typed("o"));
    metric.process(&backspace());
    metric.process(&typed("p"));

    assert_eq!(metric.deletions_of("o"), Some(1));
    assert_eq!(metric.corrections_of("o", "p"), Some(1));
}

#[test]
fn error_rate_clearing_in_flight_context_drops_recent_text_and_pending_correction() {
    let mut metric = ErrorRate::new();
    metric.process(&typed("o"));
    metric.process(&backspace());
    let mistakes = metric.sorted_mistakes(CorrectionSort::Label);

    metric.clear_in_flight();
    metric.process(&typed("p"));

    assert_eq!(metric.sorted_mistakes(CorrectionSort::Label), mistakes);
    assert_eq!(metric.dimension_counts().1, 0);
    assert_eq!(metric.last_text(), Some("p"));
}

#[test]
fn error_rate_snapshot_restores_aggregates_without_transient_text_context() {
    let mut metric = ErrorRate::new();
    metric.process(&typed("o"));
    metric.process(&backspace());
    assert_eq!(metric.pending_deleted(), Some("o"));

    let snapshot = metric.snapshot().unwrap();
    let mut restored = ErrorRate::new();
    restored.restore(&snapshot).unwrap();

    assert_eq!(restored.deletions_of("o"), Some(1));
    assert_eq!(restored.history_len(), 0);
    assert!(restored.pending_deleted().is_none());
    restored.process(&typed("p"));
    assert_eq!(restored.dimension_counts().1, 0);
    restored.process(&backspace());
    assert_eq!(restored.deletions_of("p"), Some(1));
    restored.reset();
    assert!(!restored.has_data());
    assert_eq!(restored.history_len(), 0);
}

#[test]
fn error_rate_snapshot_round_trips_correction_counts() {
    let mut metric = ErrorRate::new();
    metric.process(&typed("o"));
    metric.process(&backspace());
    metric.process(&typed("p"));

    let mut restored = ErrorRate::new();
    restored.restore(&metric.snapshot().unwrap()).unwrap();

    assert_eq!(
        restored.sorted_mistakes(CorrectionSort::Label),
        metric.sorted_mistakes(CorrectionSort::Label)
    );
    assert_eq!(restored.corrections_of("o", "p"), metric.corrections_of("o", "p"));
    assert_eq!(restored.dimension_counts(), metric.dimension_counts());
}

#[test]
fn totals_are_summed_without_overflow() {
    let mut usage = KeyUsage::new();
    usage.set_count(PhysicalKey::new(30, "A"), u64::MAX);
    usage.set_count(PhysicalKey::new(31, "S"), 3);
    assert_eq!(usage.total_presses(), u128::from(u64::MAX) + 3);
    assert_eq!(usage.maximum_count(), u64::MAX);
    assert_eq!(KeyUsage::new().maximum_count(), 0);
}

#[test]
fn summary_uses_overflow_safe_deletion_total_and_most_frequent_pair() {
    let mut metric = CorrectionSignals::new();
    for text in ["a", "b", "c"] {
        metric.set_deletions(text, i64::MAX as u64);
    }
    metric.set_corrections("x", "y", 9);

    assert_eq!(metric.total_deletions(), 27_670_116_110_564_327_421);
    assert_eq!(
        format_exact_count_u128(metric.total_deletions()),
        "27,670,116,110,564,327,421"
    );
    let corrections = metric.sorted_confusions(CorrectionSort::OccurrenceCount);
    let (pair, count) = corrections.first().expect("one inferred correction");
    assert_eq!((pair.first(), pair.second(), *count), ("x", "y", 9));
}

#[test]
fn sort_orders_have_labels() {
    assert_eq!(KeyUsageSort::PressCount.label(), "Press count");
    assert_eq!(KeyUsageSort::KeyLabel.label(), "Key label");
    assert_eq!(CorrectionSort::OccurrenceCount.label(), "Occurrence count");
    assert_eq!(DurationSort::SampleCount.label(), "Sample count");
    assert_eq!(DurationSort::Slowest.label(), "Slowest");
}

#[test]
fn overall_totals_are_weighted_by_samples() {
    let mut metric = FlightTime::new();
    metric.set_stats("a", duration_stats(100, 2));
    metric.set_stats("b", duration_stats(100, 1));
    metric.set_stats("c", duration_stats(150, 3));
    let listing = metric.sorted_stats(DurationSort::Label);
    let (total, samples) = overall_totals(&listing).expect("populated stats have totals");
    assert_eq!(samples, 6);
    assert_eq!(total, 350 * u128::from(MS));
}

#[test]
fn overall_totals_are_absent_without_samples() {
    assert_eq!(overall_totals(&Vec::new()), None);
    let listing = vec![("idle".to_owned(), DurationStats::new(0, 0))];
    assert_eq!(overall_totals(&listing), None);
}
