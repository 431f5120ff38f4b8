use happyjlc::app_paths::AppPaths;

#[test]
fn migrates_legacy_monitor_defaults_to_app_data() {
    let paths = AppPaths::for_test(
        "/tmp/happyjlc-config".to_string(),
        "/tmp/happyjlc-data".to_string(),
        "/tmp/happyjlc-cache".to_string(),
        Some("/Applications/HappyJLC.app/Contents/MacOS".to_string()),
    );

    assert_eq!(
        paths.resolve_history_save_path("history.txt"),
        "/tmp/happyjlc-data/history.txt"
    );
    assert_eq!(
        paths.resolve_matched_save_path("/Applications/HappyJLC.app/Contents/MacOS/matched.txt"),
        "/tmp/happyjlc-data/matched.txt"
    );
    assert_eq!(
        paths.resolve_history_save_path("/tmp/custom-history.txt"),
        "/tmp/custom-history.txt"
    );
    assert_eq!(
        paths.resolve_imported_parts_save_path("imported_lcsc_parts.txt"),
        "/tmp/happyjlc-data/imported_lcsc_parts.txt"
    );
}
