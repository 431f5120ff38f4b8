use happyjlc::config::ExportPathMode;
use happyjlc::tui::{
    clamp_index, move_index, next_parallel, next_path_mode, overwrite_summary, run_field_label,
    run_fields, trim_block, trim_line, yes_no, Exporter, FocusPane, RunField, TraceTab, UiState,
};

#[test]
fn focus_cycles_forward_and_backward() {
    assert_eq!(FocusPane::Queue.next(), FocusPane::Trace);
    assert_eq!(FocusPane::Queue.prev(), FocusPane::Clipboard);
}

#[test]
fn trace_tabs_cycle() {
    assert_eq!(TraceTab::History.next(), TraceTab::Log);
    assert_eq!(TraceTab::Result.next(), TraceTab::History);
}

#[test]
fn run_field_sets_exist_for_each_exporter() {
    assert!(!run_fields(Exporter::Export).is_empty());
}

#[test]
fn clamp_index_handles_empty_and_short_lists() {
    assert_eq!(clamp_index(3, 0), 0);
    assert_eq!(clamp_index(3, 2), 1);
}

#[test]
fn ui_state_defaults_to_queue_focus() {
    let ui = UiState::default();
    assert_eq!(ui.focus, FocusPane::Queue);
}

#[test]
fn tui_focus_and_tabs_come_back_round() {
    let mut f = FocusPane::Run;
    for _ in 0..4 {
        f = f.next();
    }
    assert_eq!(f, FocusPane::Run);
    assert_eq!(FocusPane::Run.next().prev(), FocusPane::Run);
    assert_eq!(TraceTab::Log.index(), 1);
    assert_eq!(TraceTab::titles()[TraceTab::Log.next().index()], "Result");
}

#[test]
fn tui_selection_moves_stay_in_the_list() {
    let mut i = 2usize;
    move_index(&mut i, 5, 10);
    assert_eq!(i, 4);
    move_index(&mut i, 5, -7);
    assert_eq!(i, 0);
    move_index(&mut i, 0, 1);
    assert_eq!(i, 0);
    let mut j = 1usize;
    move_index(&mut j, 5, isize::MIN);
    assert_eq!(j, 0);
}

#[test]
fn tui_settings_step_and_read() {
    assert_eq!(next_parallel(1, -1), 1);
    assert_eq!(next_parallel(4, -1), 3);
    assert_eq!(next_parallel(4, 1), 5);
    assert_eq!(next_path_mode(ExportPathMode::Auto, 1), ExportPathMode::ProjectRelative);
    assert_eq!(next_path_mode(ExportPathMode::Auto, -1), ExportPathMode::LibraryRelative);
    assert_eq!(yes_no(true), "on");
    assert_eq!(overwrite_summary(true, false, false), "partial");
    assert_eq!(overwrite_summary(true, true, true), "all");
    assert_eq!(run_field_label(Exporter::Export, RunField::PathMode), "3d mode");
}

#[test]
fn tui_trims_lines_and_blocks() {
    assert_eq!(trim_line("abcdef", 3), "abc…");
    assert_eq!(trim_line("abc", 3), "abc");
    assert_eq!(trim_block("one\ntwo long\nthree\n", 2, 4), "one\ntwo …");
}

use happyjlc::tui::{
    handle_key, refresh_status_from_result, run_field_value, trace_items, KeyCode, KeyContext,
    KeyPress, Snapshot, UiAction,
};

fn ctx() -> KeyContext {
    KeyContext {
        monitoring: true,
        queue_len: 3,
        trace_len: 0,
        export_output_path: "/out".to_string(),
    }
}

fn plain(c: char) -> KeyPress {
    KeyPress { code: KeyCode::Char(c), plain: true }
}

#[test]
fn tui_keys_drive_focus_selection_and_actions() {
    let mut ui = UiState::default();
    assert_eq!(handle_key(&mut ui, plain('q'), &ctx()), UiAction::Quit);
    assert_eq!(handle_key(&mut ui, KeyPress { code: KeyCode::Down, plain: true }, &ctx()), UiAction::Nothing);
    assert_eq!(handle_key(&mut ui, plain('j'), &ctx()), UiAction::Nothing);
    assert_eq!(handle_key(&mut ui, plain('j'), &ctx()), UiAction::Nothing);
    assert_eq!(ui.queue_index, 2);
    assert_eq!(handle_key(&mut ui, plain('m'), &ctx()), UiAction::ToggleMonitoring);
    assert_eq!(ui.status, "Monitoring paused");
    assert_eq!(handle_key(&mut ui, plain('s'), &ctx()), UiAction::SaveMatched);
    handle_key(&mut ui, KeyPress { code: KeyCode::BackTab, plain: true }, &ctx());
    assert_eq!(ui.focus, FocusPane::Clipboard);
    assert_eq!(handle_key(&mut ui, KeyPress { code: KeyCode::Char('q'), plain: false }, &ctx()), UiAction::Nothing);
}

#[test]
fn tui_run_pane_edits_the_output_path() {
    let mut ui = UiState::default();
    ui.focus = FocusPane::Run;
    ui.run_index = 1;
    assert_eq!(handle_key(&mut ui, KeyPress { code: KeyCode::Enter, plain: true }, &ctx()), UiAction::Nothing);
    assert_eq!(ui.status, "Editing output path");
    handle_key(&mut ui, plain('x'), &ctx());
    handle_key(&mut ui, KeyPress { code: KeyCode::Backspace, plain: true }, &ctx());
    handle_key(&mut ui, plain('2'), &ctx());
    let snapshot = Snapshot {
        monitoring: true,
        keyword: String::new(),
        matched: vec![],
        history: vec![("12:00".to_string(), "C1".to_string())],
        logs: vec![],
        clipboard: String::new(),
        export_output_path: "/out".to_string(),
        export_show_terminal: true,
        export_parallel: 4,
        export_path_mode: ExportPathMode::Auto,
        export_overwrite_symbol: false,
        export_overwrite_footprint: false,
        export_overwrite_model_3d: false,
        export_last_result: Some("done\nok".to_string()),
        export_running: false,
    };
    assert_eq!(run_field_value(&snapshot, &ui, RunField::OutputPath), "/out2_");
    let action = handle_key(&mut ui, KeyPress { code: KeyCode::Enter, plain: true }, &ctx());
    assert_eq!(
        action,
        UiAction::ApplyInput { field: RunField::OutputPath, value: "/out2".to_string() }
    );
    assert_eq!(ui.status, "Updated output");
    assert!(ui.input.is_none());
    assert_eq!(run_field_value(&snapshot, &ui, RunField::Parallel), "4");
    assert_eq!(trace_items(&snapshot, TraceTab::History), vec!["   12:00  C1".to_string()]);
    assert_eq!(trace_items(&snapshot, TraceTab::Result), vec!["done".to_string(), "ok".to_string()]);
    refresh_status_from_result(&mut ui, Some("done".to_string()));
    assert_eq!(ui.status, "done");
    ui.status = "other".to_string();
    refresh_status_from_result(&mut ui, Some("done".to_string()));
    assert_eq!(ui.status, "other");
}
