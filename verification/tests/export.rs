use happyjlc::config::ExportPathMode;
use happyjlc::export::{build_core_request, ExportRequest};
use happyjlc::export_options::{
    ComponentConversionRequest, FootprintExportOptions, Model3dExportOptions, RunOptions,
    RunRequest, SymbolExportOptions,
};
use happyjlc::library::LibraryManager;

fn test_cli(overwrite: bool) -> FootprintExportOptions {
    FootprintExportOptions::new(false, false, overwrite)
}

#[test]
fn translates_desktop_export_options_to_core_request() {
    let request = build_core_request(
        &ExportRequest {
            ids: vec!["C2040".to_string()],
            output_path: "/tmp/happyjlc-library".to_string(),
            show_terminal: false,
            parallel: 4,
            path_mode: ExportPathMode::ProjectRelative,
            export_symbol: true,
            export_footprint: true,
            export_model_3d: true,
            overwrite_symbol: true,
            overwrite_footprint: false,
            overwrite_model_3d: true,
            symbol_fill_color: Some("#005C8FCC".to_string()),
        },
        false,
    )
    .expect("desktop request should translate");

    assert_eq!(request.lcsc_ids, vec!["C2040"]);
    assert_eq!(request.run.parallel, 4);
    assert!(request.component.convert_symbol);
    assert!(request.component.footprint.project_relative_3d);
    assert!(request.component.symbol.overwrite);
    assert!(!request.component.footprint.overwrite);
    assert!(request.component.model_3d.overwrite);
    assert!(request.component.symbol.symbol_fill_color.is_some());
}

#[test]
fn rejects_requests_without_export_assets() {
    let result = build_core_request(
        &ExportRequest {
            ids: vec!["C2040".to_string()],
            output_path: "/tmp/happyjlc-library".to_string(),
            show_terminal: false,
            parallel: 4,
            path_mode: ExportPathMode::Auto,
            export_symbol: false,
            export_footprint: false,
            export_model_3d: false,
            overwrite_symbol: false,
            overwrite_footprint: false,
            overwrite_model_3d: false,
            symbol_fill_color: None,
        },
        false,
    );

    assert!(result.is_err());
}

#[test]
fn run_request_building_does_not_change_library_manager_defaults() {
    let output_dir = "/tmp/happyjlc-default-overwrite/demo-lib".to_string();
    RunRequest::new(
        vec!["C123456".to_string()],
        RunOptions {
            output: output_dir.clone(),
            continue_on_error: false,
            parallel: 1,
        },
        ComponentConversionRequest::new(
            false,
            true,
            false,
            SymbolExportOptions::new(None, true),
            test_cli(true),
            Model3dExportOptions::new(false),
        )
        .expect("component request should build"),
    )
    .expect("run request should build");

    let lib_manager = LibraryManager::new(&output_dir);

    assert!(!lib_manager.overwrite_enabled());
}

#[test]
fn explicit_library_manager_overwrite_is_preserved() {
    let output_dir = "/tmp/happyjlc-explicit-overwrite/demo-lib".to_string();

    let lib_manager = LibraryManager::with_overwrite(&output_dir, true);

    assert!(lib_manager.overwrite_enabled());
}

use happyjlc::export::{finish_export, preparing_message, progress_message};
use happyjlc::monitor::MonitorState;
use happyjlc::runner::{ErrorCategory, FailedItem, RunSummary};

#[test]
fn finished_exports_report_failures_and_update_the_state() {
    let paths = happyjlc::app_paths::AppPaths::for_test("/c".to_string(), "/d".to_string(), "/k".to_string(), None);
    let mut state = MonitorState::new(&paths);
    state.export_running = true;
    let summary = RunSummary {
        total: 3,
        success: 1,
        failed: 2,
        failed_ids: vec!["C1".to_string(), "C2".to_string()],
        failed_items: vec![FailedItem { lcsc_id: "C1".to_string(), category: ErrorCategory::NotFound }],
        output_dir: "/lib".to_string(),
        is_batch: true,
    };
    let payload = finish_export(&mut state, Ok(Some(summary)), 3);
    assert!(!payload.success);
    assert_eq!(payload.message, "HappyJLC completed with 2 failure(s) out of 3 item(s): C1, C2");
    assert_eq!(payload.failed_items.len(), 1);
    assert!(!state.export_running);
    assert_eq!(state.export_last_result.as_deref(), Some(payload.message.as_str()));
    assert_eq!(state.match_debug_log[0], payload.message);
    let done = finish_export(&mut state, Ok(None), 0);
    assert!(done.success);
    assert_eq!(done.message, "No components were requested.");
    assert_eq!(state.export_last_result.as_deref(), Some("All components already completed."));
    let failed = finish_export(&mut state, Err("boom".to_string()), 1);
    assert_eq!(failed.message, "HappyJLC export failed: boom");
    assert_eq!(preparing_message(false), "Preparing HappyJLC export...");
    assert_eq!(progress_message("Converting ", "C1", "..."), "Converting C1...");
}
