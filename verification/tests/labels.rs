use evtap::labels::{
    compact_label, compact_top_bar_label, count_label, format_duration, format_exact_count,
    format_exact_count_u128, sample_count_label, session_keyboard_label, timestamp_or_epoch,
    whitespace_label,
};
use evtap::session::{KeyboardContext, SessionId, SessionMetadata};

#[test]
fn count_formatting_has_stable_thresholds_and_grouping() {
    assert_eq!(format_exact_count(0), "0");
    assert_eq!(format_exact_count(999), "999");
    assert_eq!(format_exact_count(1_000), "1,000");
    assert_eq!(format_exact_count(12_345_678), "12,345,678");
    assert_eq!(
        format_exact_count_u128(u128::from(u64::MAX) + 1),
        "18,446,744,073,709,551,616"
    );
}

#[test]
fn count_and_sample_labels_use_singular_for_one() {
    assert_eq!(sample_count_label(1), "1 sample");
    assert_eq!(sample_count_label(12_345), "12,345 samples");
    assert_eq!(sample_count_label(0), "0 samples");
    assert_eq!(count_label(1), "1 occurrence");
    assert_eq!(count_label(1_000), "1,000 occurrences");
}

#[test]
fn durations_are_hours_minutes_and_seconds() {
    assert_eq!(format_duration(0), "00:00:00");
    assert_eq!(format_duration(3_661), "01:01:01");
    assert_eq!(format_duration(360_000), "100:00:00");
}

#[test]
fn long_labels_are_cut_with_an_ellipsis() {
    assert_eq!(compact_label("keyboard", 8), "keyboard");
    assert_eq!(compact_label("keyboards", 8), "keyboard…");
    assert_eq!(compact_label("äöü", 2), "äö…");
    assert_eq!(
        compact_top_bar_label("A very long keyboard device name"),
        "A very long keyboa…"
    );
}

#[test]
fn invisible_texts_have_names() {
    assert_eq!(whitespace_label(" "), Some("Space"));
    assert_eq!(whitespace_label("\r\n"), Some("Carriage return + Newline"));
    assert_eq!(whitespace_label("\u{00A0}"), Some("Non-breaking space"));
    assert_eq!(whitespace_label(""), Some("Empty text"));
    assert_eq!(whitespace_label("a"), None);
}

#[test]
fn timestamps_without_local_time_fall_back_to_epoch_milliseconds() {
    assert_eq!(timestamp_or_epoch(None, -5), "-5 ms since Unix epoch");
    assert_eq!(
        timestamp_or_epoch(Some("2024-01-01 00:00:00 +00:00".to_owned()), 0),
        "2024-01-01 00:00:00 +00:00"
    );
}

#[test]
fn keyboard_label_names_the_xkb_layout() {
    let mut metadata = SessionMetadata {
        id: SessionId::new(3).unwrap(),
        name: None,
        created_at_ms: 0,
        updated_at_ms: 0,
        last_opened_at_ms: 0,
        captured_duration_ns: 0,
        application_version: "test".to_owned(),
        keyboard: KeyboardContext {
            display_name: Some("Work".to_owned()),
            model: "pc105".to_owned(),
            layout: "us".to_owned(),
            variant: String::new(),
        },
    };
    assert_eq!(session_keyboard_label(&metadata), "Keyboard: Work · XKB: pc105 / us");
    metadata.keyboard.display_name = None;
    metadata.keyboard.variant = "dvorak".to_owned();
    assert_eq!(
        session_keyboard_label(&metadata),
        "Keyboard: No remembered keyboard · XKB: pc105 / us / dvorak"
    );
}
