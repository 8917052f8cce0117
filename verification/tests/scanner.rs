use evdev::{AttributeSet, KeyCode};
use evtap::scanner::{
    has_required_keyboard_keys, inspection_failure_issue, is_event_device,
    keyboard_capabilities_include_required_keys, keyboard_metadata, non_utf8_path_issue,
    parse_capability_words, parse_hex_word, probe_capabilities, remembered_device_index,
    scan_warning, sort_devices, split_words_of, DeviceMetadata, DeviceScanIssue,
    DeviceScanIssueKind, HexProblem, ScanReport, ScanWarning,
};

const REQUIRED_KEYBOARD_KEYS: [KeyCode; 4] =
    [KeyCode::KEY_A, KeyCode::KEY_Z, KeyCode::KEY_ENTER, KeyCode::KEY_SPACE];

fn codes(keys: &AttributeSet<KeyCode>) -> Vec<u16> {
    keys.iter().map(|key| key.code()).collect()
}

fn required_capabilities_word() -> u64 {
    REQUIRED_KEYBOARD_KEYS
        .iter()
        .fold(0_u64, |word, key| word | (1_u64 << key.code()))
}

#[test]
fn recognizes_required_keyboard_keys() {
    let keys: AttributeSet<_> = REQUIRED_KEYBOARD_KEYS.into_iter().collect();

    assert!(has_required_keyboard_keys(&codes(&keys)));
}

#[test]
fn rejects_incomplete_keyboard_keys() {
    let mut keys: AttributeSet<_> = REQUIRED_KEYBOARD_KEYS.into_iter().collect();
    keys.remove(REQUIRED_KEYBOARD_KEYS[0]);

    assert!(!has_required_keyboard_keys(&codes(&keys)));
}

#[test]
fn parses_sysfs_keyboard_capability_words() {
    let mut low_word = required_capabilities_word();
    assert!(keyboard_capabilities_include_required_keys(&format!("0 {low_word:x}"))
        .expect("valid sysfs capabilities"));
    low_word &= !(1_u64 << REQUIRED_KEYBOARD_KEYS[0].code());
    assert!(!keyboard_capabilities_include_required_keys(&format!("0 {low_word:x}"))
        .expect("valid sysfs capabilities"));
    assert!(keyboard_capabilities_include_required_keys("not-hex").is_err());
}

#[test]
fn capability_words_are_listed_lowest_first() {
    assert_eq!(parse_capability_words(" 1f\t 0 \n ff ").unwrap(), vec![0xff, 0, 0x1f]);
    assert_eq!(parse_capability_words("").unwrap(), Vec::<u64>::new());
    let error = parse_capability_words("zz 0 1 x").unwrap_err();
    assert_eq!(error.word, "x");
    assert_eq!(error.problem, HexProblem::InvalidDigit);
    assert_eq!(
        error.describe(),
        "invalid hexadecimal capability word \"x\": invalid digit found in string"
    );
}

#[test]
fn capability_probe_reports_the_parse_error() {
    assert_eq!(probe_capabilities("0 2"), Ok(false));
    assert_eq!(
        probe_capabilities("1ffffffffffffffff"),
        Err("invalid hexadecimal capability word \"1ffffffffffffffff\": number too large to fit in target type".to_owned())
    );
}

#[test]
fn hex_words_follow_from_str_radix() {
    assert_eq!(parse_hex_word("ff"), Ok(255));
    assert_eq!(parse_hex_word("+A"), Ok(10));
    assert_eq!(parse_hex_word("ffffffffffffffff"), Ok(u64::MAX));
    assert_eq!(parse_hex_word("10000000000000000"), Err(HexProblem::PosOverflow));
    assert_eq!(parse_hex_word("+"), Err(HexProblem::InvalidDigit));
    assert_eq!(parse_hex_word("-1"), Err(HexProblem::InvalidDigit));
    assert_eq!(parse_hex_word(""), Err(HexProblem::Empty));
    for word in ["0", "7f", "DEAD", "+beef", "g", "++1", "1_0"] {
        assert_eq!(parse_hex_word(word).ok(), u64::from_str_radix(word, 16).ok(), "{word}");
    }
}

#[test]
fn words_split_at_unicode_whitespace() {
    assert_eq!(split_words_of("  a\u{00A0}b\u{2003}c  "), vec!["a", "b", "c"]);
    assert_eq!(split_words_of(""), Vec::<String>::new());
}

#[test]
fn only_event_nodes_are_inspected() {
    assert!(is_event_device(Some("event3")));
    assert!(is_event_device(Some("event")));
    assert!(!is_event_device(Some("mouse0")));
    assert!(!is_event_device(Some("even")));
    assert!(!is_event_device(None));
}

fn device(path: &str, name: &str) -> DeviceMetadata {
    keyboard_metadata(path.to_owned(), Some(name), Some("phys"))
}

#[test]
fn keyboards_are_ordered_by_lowercase_name_then_path() {
    let sorted = sort_devices(vec![
        device("/dev/input/event-zeta", "alpha"),
        device("/dev/input/event-beta", "Beta"),
        device("/dev/input/event-alpha", "Alpha"),
    ]);
    let paths: Vec<_> = sorted.iter().map(|d| d.path.as_str()).collect();
    assert_eq!(
        paths,
        ["/dev/input/event-alpha", "/dev/input/event-zeta", "/dev/input/event-beta"]
    );
}

#[test]
fn missing_device_names_get_placeholders() {
    let metadata = keyboard_metadata("/dev/input/event1".to_owned(), None, None);
    assert_eq!(metadata.name, "Unknown keyboard");
    assert_eq!(metadata.physical_path, "Unknown");
}

#[test]
fn inspection_failures_are_classified_by_the_capability_probe() {
    let path = "/dev/input/event4".to_owned();
    assert_eq!(inspection_failure_issue(path.clone(), &Ok(false), "denied", true), None);
    assert_eq!(
        inspection_failure_issue(path.clone(), &Ok(true), "Permission denied", true),
        Some(DeviceScanIssue {
            path: path.clone(),
            message: "Permission denied".to_owned(),
            kind: DeviceScanIssueKind::PermissionDenied,
        })
    );
    assert_eq!(
        inspection_failure_issue(path.clone(), &Ok(true), "No such device", false).map(|i| i.kind),
        Some(DeviceScanIssueKind::Unavailable)
    );
    assert_eq!(
        inspection_failure_issue(path.clone(), &Err("bad map".to_owned()), "Permission denied", true),
        Some(DeviceScanIssue {
            path,
            message: "Permission denied; keyboard capability probe failed: bad map".to_owned(),
            kind: DeviceScanIssueKind::Unknown,
        })
    );
    let issue = non_utf8_path_issue("/dev/input/\u{FFFD}".to_owned());
    assert_eq!(issue.message, "device path is not valid UTF-8");
    assert_eq!(issue.kind, DeviceScanIssueKind::Unknown);
}

fn issue(kind: DeviceScanIssueKind) -> DeviceScanIssue {
    DeviceScanIssue { path: "p".to_owned(), message: "m".to_owned(), kind }
}

#[test]
fn scan_warnings_summarize_devices_and_issues() {
    let none = ScanReport { devices: vec![], issues: vec![] };
    assert_eq!(scan_warning(&none), Some(ScanWarning::NoKeyboardDetected));

    let denied = ScanReport {
        devices: vec![],
        issues: vec![
            issue(DeviceScanIssueKind::PermissionDenied),
            issue(DeviceScanIssueKind::Unknown),
        ],
    };
    assert_eq!(scan_warning(&denied), Some(ScanWarning::PermissionDenied { count: 1 }));

    let unavailable = ScanReport { devices: vec![], issues: vec![issue(DeviceScanIssueKind::Unavailable)] };
    assert_eq!(scan_warning(&unavailable), Some(ScanWarning::Unavailable { count: 1 }));

    let partial = ScanReport {
        devices: vec![device("/dev/input/event1", "K")],
        issues: vec![issue(DeviceScanIssueKind::PermissionDenied), issue(DeviceScanIssueKind::Unavailable)],
    };
    assert_eq!(
        scan_warning(&partial),
        Some(ScanWarning::Incomplete { issue_count: 2, permission_denied: 1 })
    );
    let clean = ScanReport { devices: vec![device("/dev/input/event1", "K")], issues: vec![] };
    assert_eq!(scan_warning(&clean), None);
}

#[test]
fn scan_warning_banners_explain_what_to_do() {
    assert_eq!(
        ScanWarning::PermissionDenied { count: 1 }.banner(),
        (
            "Keyboard permission needed",
            "One keyboard was detected but cannot be read. Check Linux /dev/input permissions, then rescan.",
            true
        )
    );
    assert_eq!(
        ScanWarning::Incomplete { issue_count: 2, permission_denied: 0 }.banner(),
        (
            "Keyboard list may be incomplete",
            "Some additional possible keyboards could not be inspected.",
            false
        )
    );
}

#[test]
fn a_remembered_keyboard_is_selected_only_when_unique() {
    let devices = vec![device("/a", "Work"), device("/b", "Home"), device("/c", "Home")];
    assert_eq!(remembered_device_index(&devices, "Work"), Some(0));
    assert_eq!(remembered_device_index(&devices, "Home"), None);
    assert_eq!(remembered_device_index(&devices, "Other"), None);
}
