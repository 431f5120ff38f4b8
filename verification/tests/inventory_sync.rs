use happyjlc::inventory::{InventoryLibraryPart, InventoryLocation, InventoryPartInput};
use happyjlc::inventory_sync::{
    duplicate_library_message, is_importable, library_item_identity, prepare_part, sync_update,
    StoredLink,
};

fn input(name: &str, package: &str, lcsc: Option<&str>) -> InventoryPartInput {
    InventoryPartInput {
        id: None,
        library_lcsc: lcsc.map(|s| s.to_string()),
        library_symbol_name: Some("  ".to_string()),
        library_source_file: Some(" lib.kicad_sym ".to_string()),
        supplier_part_number: Some(" c1 ".to_string()),
        name: name.to_string(),
        package: package.to_string(),
        note: " n ".to_string(),
        locations: vec![InventoryLocation { location: " A1 ".to_string(), quantity: 3, priority: 0 }],
    }
}

fn item(lcsc: &str, file: &str, symbol: &str, package: &str) -> InventoryLibraryPart {
    InventoryLibraryPart {
        library_key: "k".to_string(),
        lcsc_part: lcsc.to_string(),
        value: "10k".to_string(),
        symbol_name: symbol.to_string(),
        package: package.to_string(),
        source_file: file.to_string(),
        has_model: false,
        source_kind: "export".to_string(),
        editable: true,
    }
}

#[test]
fn edited_parts_are_trimmed_and_checked() {
    let p = prepare_part(input(" R ", " 0603 ", None)).unwrap();
    assert_eq!(p.name, "R");
    assert_eq!(p.package, "0603");
    assert_eq!(p.note, "n");
    assert_eq!(p.library_symbol_name, None);
    assert_eq!(p.library_source_file.as_deref(), Some("lib.kicad_sym"));
    assert_eq!(p.supplier_part_number.as_deref(), Some("C1"));
    assert_eq!(prepare_part(input(" ", "0603", None)).unwrap_err(), "Name is required");
    assert_eq!(prepare_part(input("R", " ", None)).unwrap_err(), "Package is required");
    assert!(prepare_part(input("R", " ", Some("c5"))).is_ok());
    assert_eq!(duplicate_library_message("C5"), "Library component C5 is already in inventory");
}

#[test]
fn library_items_are_told_apart_by_number_or_symbol() {
    assert_eq!(library_item_identity(&item(" c7 ", "", "", "")).as_deref(), Some("lcsc:C7"));
    assert_eq!(
        library_item_identity(&item("", "a.kicad_sym", "R", "")).as_deref(),
        Some("source:a.kicad_sym\u{1f}R")
    );
    assert_eq!(library_item_identity(&item("", "a.kicad_sym", " ", "")), None);
    assert!(!is_importable(&item("", "", "R", "")));
    assert!(is_importable(&item("C1", "", "", "")));
}

#[test]
fn stored_parts_follow_their_library_item() {
    let current = StoredLink {
        symbol_name: Some("R".to_string()),
        source_file: Some("a.kicad_sym".to_string()),
        supplier_part_number: Some("C7".to_string()),
        name: "10k".to_string(),
        package: "0603".to_string(),
        missing: false,
    };
    assert_eq!(sync_update(&current, &item("c7", "a.kicad_sym", "R", ""), "10k", "R"), (false, "0603".to_string()));
    assert_eq!(sync_update(&current, &item("c7", "a.kicad_sym", "R", " 0805 "), "10k", "R"), (true, "0805".to_string()));
    let missing = StoredLink { missing: true, ..current.clone() };
    assert!(sync_update(&missing, &item("c7", "a.kicad_sym", "R", ""), "10k", "R").0);
}
