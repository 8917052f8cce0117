use evtap::paths::AppPaths;

#[test]
fn constructs_separate_settings_and_data_paths() {
    let paths = AppPaths::with_roots("/config/evtap".to_owned(), "/data/evtap".to_owned());

    assert_eq!(paths.settings_file(), "/config/evtap/settings.json");
    assert_eq!(paths.eframe_file(), "/data/evtap/app.ron");
    assert_eq!(paths.database_file(), "/data/evtap/evtap.sqlite3");
}

#[test]
fn joining_after_a_trailing_separator_adds_none() {
    let paths = AppPaths::with_roots("/config/".to_owned(), "relative".to_owned());
    assert_eq!(paths.settings_file(), "/config/settings.json");
    assert_eq!(paths.database_file(), "relative/evtap.sqlite3");
    assert_eq!(paths.config_dir(), "/config/");
    assert_eq!(paths.data_dir(), "relative");
}
