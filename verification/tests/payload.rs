use evtap::metric::key_usage::KeyUsage;
use evtap::metric::MetricSnapshot;
use evtap::payload::{Cell, PayloadLayout, TopValue};

fn decode_count(payload: &str) -> Option<u64> {
    let snapshot = MetricSnapshot::from_json("test", 1, payload.to_owned()).unwrap();
    match snapshot.decode("test", 1, PayloadLayout::Count) {
        Ok(values) => match values.as_slice() {
            [TopValue::Count(n)] => Some(*n),
            other => panic!("unexpected values {other:?}"),
        },
        Err(_) => None,
    }
}

fn decode_labels(payload: &str) -> Option<Vec<String>> {
    let snapshot = MetricSnapshot::from_json("test", 1, payload.to_owned()).unwrap();
    let values = snapshot.decode("test", 1, PayloadLayout::KeyCounts).ok()?;
    let [TopValue::Rows(rows)] = values.as_slice() else {
        panic!("unexpected values {values:?}");
    };
    Some(
        rows.iter()
            .map(|row| match &row[1] {
                Cell::Text(t) => t.clone(),
                other => panic!("unexpected cell {other:?}"),
            })
            .collect(),
    )
}

#[test]
fn counts_are_read_as_serde_json_reads_them() {
    assert_eq!(decode_count(r#"{"count":5}"#), Some(5));
    assert_eq!(decode_count(" { \"count\" :\t5 }\n"), Some(5));
    assert_eq!(decode_count("[5]"), Some(5));
    assert_eq!(decode_count(r#"{"count":18446744073709551615}"#), Some(u64::MAX));
    assert_eq!(decode_count(r#"{"count":18446744073709551616}"#), None);
    assert_eq!(decode_count(r#"{"count":5.0}"#), None);
    assert_eq!(decode_count(r#"{"count":1e2}"#), None);
    assert_eq!(decode_count(r#"{"count":-1}"#), None);
    assert_eq!(decode_count(r#"{"count":007}"#), None);
    assert_eq!(decode_count(r#"{"count":5,"count":6}"#), None);
    assert_eq!(decode_count(r#"{"count":5,"other":6}"#), None);
    assert_eq!(decode_count("{}"), None);
    assert_eq!(decode_count(r#"{"count":5} x"#), None);
}

#[test]
fn labels_follow_json_string_escapes() {
    assert_eq!(
        decode_labels(r#"{"keys":[{"code":30,"label":"\u00e9\"\\\n","count":1}]}"#),
        Some(vec!["é\"\\\n".to_owned()])
    );
    assert_eq!(
        decode_labels(r#"{"keys":[{"label":"\ud83d\ude00","count":1,"code":30}]}"#),
        Some(vec!["😀".to_owned()])
    );
    assert_eq!(decode_labels(r#"{"keys":[{"code":30,"label":"\ud83d","count":1}]}"#), None);
    assert_eq!(decode_labels(r#"{"keys":[{"code":30,"label":"A","count":1,}]}"#), None);
    assert_eq!(decode_labels(r#"{"keys":[{"code":70000,"label":"A","count":1}]}"#), None);
    assert_eq!(decode_labels(r#"{"keys":[]}"#), Some(vec![]));
}

#[test]
fn written_labels_are_read_back() {
    let mut metric = KeyUsage::new();
    let label = "q\"\\\u{1}é😀\u{7f}";
    metric.set_count(evtap::input::PhysicalKey::new(16, label), 2);
    let snapshot = metric.snapshot().unwrap();
    let mut restored = KeyUsage::new();
    restored.restore(&snapshot).unwrap();
    let listed = restored.sorted_counts(evtap::metric::key_usage::KeyUsageSort::KeyLabel);
    assert_eq!(listed.len(), 1);
    assert_eq!(listed[0].0.label(), label);
    assert_eq!(listed[0].1, 2);
    let reparsed: serde_json::Value = serde_json::from_str(snapshot.payload_json()).unwrap();
    assert_eq!(reparsed["keys"][0]["label"], label);
}
