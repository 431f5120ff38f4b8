use happyjlc::app_paths::AppPaths;
use happyjlc::commands::{
    build_app_state, parse_export_asset_kind, set_default_model_format, set_export_enabled,
    set_export_overwrite_enabled, AssetKind,
};
use happyjlc::config::ModelFormat;
use happyjlc::controller_ops::{
    add_library_path, build_export_request, entries_file_text, matched_library_parts,
    parts_file_text, queue_lcsc_parts, remove_library_path, resolve_library_selection,
    sort_strings,
};
use happyjlc::inventory::{InventoryLibraryPart, InventoryPartInput};
use happyjlc::monitor::MonitorState;

fn paths() -> AppPaths {
    AppPaths::for_test("/c".to_string(), "/d".to_string(), "/k".to_string(), None)
}

fn lib(lcsc: &str, file: &str, symbol: &str) -> InventoryLibraryPart {
    InventoryLibraryPart {
        library_key: format!("symbol:{file}:{symbol}"),
        lcsc_part: lcsc.to_string(),
        value: "Value".to_string(),
        symbol_name: symbol.to_string(),
        package: "0603".to_string(),
        source_file: file.to_string(),
        has_model: false,
        source_kind: "export".to_string(),
        editable: true,
    }
}

#[test]
fn window_state_shows_the_monitor_or_defaults() {
    let p = paths();
    let mut m = MonitorState::new(&p);
    m.history.push(("10:00".to_string(), "C1".to_string()));
    let shown = build_app_state(Some(&m), &p);
    assert_eq!(shown.history_count, 1);
    assert_eq!(shown.history, m.history);
    let defaults = build_app_state(None, &p);
    assert_eq!(defaults.export_parallel, 4);
    assert!(defaults.monitoring);
    assert_eq!(defaults.history_save_path, "/d/history.txt");
    assert_eq!(defaults.export_output_path, "/d/export");
}

#[test]
fn asset_kinds_and_formats_are_read_from_names() {
    assert_eq!(parse_export_asset_kind(" Model-3D "), Ok(AssetKind::Model3d));
    assert_eq!(parse_export_asset_kind("3d"), Ok(AssetKind::Model3d));
    assert_eq!(parse_export_asset_kind("wire").unwrap_err(), "Unknown export asset type: wire");
    let p = paths();
    let mut m = MonitorState::new(&p);
    set_export_overwrite_enabled(&mut m, "symbol", true).unwrap();
    assert!(m.export_overwrite_symbol);
    set_export_enabled(&mut m, "SYMBOL", false).unwrap();
    assert!(!m.export_symbol && !m.export_overwrite_symbol);
    assert!(set_export_enabled(&mut m, "x", true).is_err());
    set_default_model_format(&mut m, " STEP ").unwrap();
    assert_eq!(m.default_model_format, ModelFormat::Step);
    assert_eq!(
        set_default_model_format(&mut m, " obj ").unwrap_err(),
        "Unsupported default model format: obj"
    );
}

#[test]
fn chosen_parts_join_the_matched_queue() {
    let p = paths();
    let mut m = MonitorState::new(&p);
    let msg = queue_lcsc_parts(
        &mut m,
        vec!["c1".to_string(), "C1".to_string(), "x".to_string(), "C2".to_string()],
        "09:00".to_string(),
    );
    assert_eq!(
        msg,
        "Queued 2 LCSC part(s) (2 unique part(s), 1 duplicate input(s), 1 invalid input(s), 0 already queued, matched queue now has 2 item(s))"
    );
    assert_eq!(m.matched[0], ("09:00".to_string(), "C1".to_string()));
    assert_eq!(m.match_debug_log[0], "Queued 2 direct LCSC part(s)");
    let again = queue_lcsc_parts(&mut m, vec!["C2".to_string()], "09:01".to_string());
    assert!(again.starts_with("Queued 0 LCSC part(s)"));
    assert_eq!(queue_lcsc_parts(&mut m, vec![], "t".to_string()), "No valid LCSC parts to queue");
    let request = build_export_request(&m, vec!["C1".to_string()]).unwrap();
    assert_eq!(request.ids, vec!["C1".to_string()]);
    assert_eq!(build_export_request(&m, vec![]).unwrap_err(), "No matched results to export");
}

#[test]
fn saved_files_have_one_entry_per_line() {
    let entries = vec![("10:00".to_string(), "C1".to_string()), ("10:01".to_string(), "C2".to_string())];
    assert_eq!(entries_file_text(&entries, true), "[10:00] C1\n[10:01] C2\n");
    assert_eq!(entries_file_text(&entries, false), "C1\nC2\n");
    assert_eq!(parts_file_text(&vec!["C1".to_string()]), "C1\n");
}

#[test]
fn library_folders_stay_sorted_and_parts_are_bound() {
    let list = add_library_path(vec!["/b".to_string(), "/a".to_string()], "/c".to_string());
    assert_eq!(list, vec!["/a".to_string(), "/b".to_string(), "/c".to_string()]);
    assert_eq!(add_library_path(list.clone(), "/a".to_string()), list);
    assert_eq!(remove_library_path(list, "/b"), vec!["/a".to_string(), "/c".to_string()]);
    assert_eq!(sort_strings(vec!["b".to_string(), "a".to_string(), "b".to_string()]), vec!["a", "b", "b"]);
    let parts = vec![lib("C5", "a.kicad_sym", "R"), lib("", "b.kicad_sym", "Q")];
    assert_eq!(matched_library_parts(&vec!["c5".to_string()], &parts).len(), 1);
    let input = InventoryPartInput {
        id: Some("p1".to_string()),
        library_lcsc: None,
        library_symbol_name: Some("Q".to_string()),
        library_source_file: Some("b.kicad_sym".to_string()),
        supplier_part_number: None,
        name: "old".to_string(),
        package: "old".to_string(),
        note: "n".to_string(),
        locations: vec![],
    };
    let bound = resolve_library_selection(input.clone(), &parts).unwrap();
    assert_eq!(bound.name, "Value");
    assert_eq!(bound.library_lcsc, None);
    assert_eq!(bound.id.as_deref(), Some("p1"));
    let gone = InventoryPartInput { library_symbol_name: Some("Z".to_string()), ..input };
    assert_eq!(
        resolve_library_selection(gone, &parts).unwrap_err(),
        "Selected component is no longer in the library"
    );
}
