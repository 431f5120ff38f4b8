use happyjlc::library::{LibraryManager, add_component_to_content, update_component_in_content};

fn symbol_block_with_property(name: &str, value: &str) -> String {
    format!(
        "  (symbol \"{}\"\n    (property \"Value\" \"{}\"))",
        name, value
    )
}

#[test]
fn overwrite_handles_parentheses_inside_symbol_properties() {
    let initial = add_component_to_content(
        "",
        &symbol_block_with_property("A", "Before (draft) release"),
    );
    let updated = update_component_in_content(
        &initial,
        "A",
        &symbol_block_with_property("A", "After (rev B) release"),
    )
    .unwrap();

    assert!(updated.contains("After (rev B) release"));
    assert!(!updated.contains("Before (draft) release"));
}

#[test]
fn overwrite_handles_escaped_quotes_inside_symbol_properties() {
    let initial =
        add_component_to_content("", &symbol_block_with_property("A", "Before \\\"A\\\""));
    let updated = update_component_in_content(
        &initial,
        "A",
        &symbol_block_with_property("A", "After \\\"B\\\" (final)"),
    )
    .unwrap();

    assert!(updated.contains("After \\\"B\\\" (final)"));
    assert!(!updated.contains("Before \\\"A\\\""));
}

#[test]
fn update_of_missing_component_is_an_error() {
    let initial = add_component_to_content("", &symbol_block_with_property("A", "x"));
    assert!(update_component_in_content(&initial, "B", "  (symbol \"B\")").is_err());
}

#[test]
fn restaging_a_component_without_overwrite_keeps_the_library() {
    let mut manager = LibraryManager::new("/out");
    let lib_path = manager.get_symbol_lib_path();
    manager.open_session(&lib_path, "");
    manager
        .stage_or_update_component(&lib_path, "A", &symbol_block_with_property("A", "first"), false)
        .unwrap();
    let first = manager.flush_symbol_libraries();
    manager
        .stage_or_update_component(&lib_path, "A", &symbol_block_with_property("A", "second"), false)
        .unwrap();
    let second = manager.flush_symbol_libraries();

    assert_eq!(first, second);
    assert_eq!(second.len(), 1);
    assert!(second[0].1.contains("first"));
    assert!(!second[0].1.contains("second"));
}

#[test]
fn a_3d_model_always_names_its_step_file() {
    let manager = LibraryManager::new("/out");
    let (wrl, step) = manager.write_3d_model("M", false, false, false);
    assert!(wrl.was_written());
    assert!(!step.was_written());
    assert_eq!(step.path(), manager.get_step_path("M"));
    let (wrl, step) = manager.write_3d_model("M", true, true, false);
    assert!(!wrl.was_written());
    assert!(step.was_written());
    assert_eq!(wrl.path(), manager.get_wrl_path("M"));
    let (_, step) = manager.write_3d_model("M", false, true, true);
    assert!(!step.was_written());
}

#[test]
fn add_or_update_component_gives_the_library_to_write_once() {
    let mut manager = LibraryManager::new("/out");
    let lib_path = manager.get_symbol_lib_path();
    manager.open_session(&lib_path, "");
    let files = manager
        .add_or_update_component(&lib_path, "A", &symbol_block_with_property("A", "first"), false)
        .unwrap();
    assert_eq!(files.len(), 1);
    assert_eq!(files[0].0, lib_path);
    assert!(files[0].1.contains("first"));
    assert!(manager.flush_symbol_libraries().is_empty());
    let again = manager
        .add_or_update_component(&lib_path, "A", &symbol_block_with_property("A", "second"), false)
        .unwrap();
    assert!(again.is_empty());
    let missing = manager.add_or_update_component(&lib_path, "B", "  (symbol \"B\")", true);
    assert!(missing.is_ok());
}

#[test]
fn a_session_knows_the_symbols_already_in_its_file() {
    let mut manager = LibraryManager::new("/out");
    let lib_path = manager.get_symbol_lib_path();
    let existing = add_component_to_content("", &symbol_block_with_property("A", "first"));
    manager.open_session(&lib_path, &existing);
    manager
        .stage_or_update_component(&lib_path, "A", &symbol_block_with_property("A", "second"), false)
        .unwrap();
    assert!(manager.flush_symbol_libraries().is_empty());
    assert!(manager.component_exists(&lib_path, "A", None));
}

#[test]
fn add_or_update_component_is_staging_then_flushing() {
    let block = symbol_block_with_property("A", "first");
    let mut staged = LibraryManager::new("/out");
    let lib_path = staged.get_symbol_lib_path();
    staged.open_session(&lib_path, "");
    staged.stage_or_update_component(&lib_path, "A", &block, false).unwrap();
    let by_steps = staged.flush_symbol_libraries();
    let mut direct = LibraryManager::new("/out");
    direct.open_session(&lib_path, "");
    let at_once = direct.add_or_update_component(&lib_path, "A", &block, false).unwrap();
    assert_eq!(by_steps, at_once);
    assert!(at_once[0].1.contains("(symbol \"A\""));
}

#[test]
fn update_component_names_the_missing_symbol() {
    let manager = LibraryManager::new("/out");
    let content = add_component_to_content("", &symbol_block_with_property("A", "x"));
    let err = manager.update_component(&content, "B", "  (symbol \"B\")").unwrap_err();
    assert_eq!(err.message(), "Failed to export symbol: Component B not found in library");
}
