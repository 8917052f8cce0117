use evtap::keymaps::{get_layouts, localectl_entries, get_models, get_variants};

#[test]
fn localectl_lines_are_trimmed_and_empty_ones_dropped() {
    assert_eq!(localectl_entries("  pc105 \n\npc104\r\n\t\n"), vec!["pc105", "pc104"]);
    assert_eq!(localectl_entries(""), Vec::<String>::new());
    assert_eq!(localectl_entries("us"), vec!["us"]);
}

#[test]
fn fallbacks_apply_only_when_localectl_lists_nothing() {
    assert_eq!(get_models(Some(vec!["a".to_owned()])), vec!["a"]);
    assert_eq!(
        get_models(None),
        vec!["pc105", "pc104", "pc102", "pc101", "chromebook", "macbook79"]
    );
    assert_eq!(
        get_layouts(None),
        vec!["us", "de", "fr", "gb", "es", "it", "jp", "ru", "cn"]
    );
    assert_eq!(
        get_variants("us", None),
        vec!["", "altgr-intl", "dvorak", "colemak", "workman"]
    );
    assert_eq!(get_variants("de", None), vec!["", "nodeadkeys", "neo", "bone"]);
    assert_eq!(get_variants("fr", None), Vec::<String>::new());
    assert_eq!(get_variants("", Some(vec!["x".to_owned()])), Vec::<String>::new());
    assert_eq!(get_variants("fr", Some(vec!["azerty".to_owned()])), vec!["azerty"]);
}
