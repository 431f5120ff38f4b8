use happyjlc::bom_import::{
    check_deduction_row, check_row_coverage, import_note, plan_import_row, repeats_location,
    required_quantity,
};
use happyjlc::inventory::{BomDeductionRow, BomImportRow, BomRow, InventoryAllocation, InventoryLibraryPart};

fn source_row(supplier: Option<&str>) -> BomRow {
    BomRow {
        row_number: 2,
        identifier: String::new(),
        references: "R1".to_string(),
        supplier_part_number: supplier.map(|s| s.to_string()),
        supplier_part_number_source: None,
        supplier_part_number_conflict: false,
        name: "10k".to_string(),
        package: "0603".to_string(),
        quantity: 1,
    }
}

fn lib_part(key: &str, lcsc: &str, package: &str) -> InventoryLibraryPart {
    InventoryLibraryPart {
        library_key: key.to_string(),
        lcsc_part: lcsc.to_string(),
        value: "R_10k".to_string(),
        symbol_name: "R_10k".to_string(),
        package: package.to_string(),
        source_file: "lib.kicad_sym".to_string(),
        has_model: false,
        source_kind: "export".to_string(),
        editable: true,
    }
}

fn selected(lcsc: Option<&str>, key: Option<&str>) -> BomImportRow {
    BomImportRow {
        row_number: 2,
        skipped: false,
        library_lcsc: lcsc.map(|s| s.to_string()),
        library_key: key.map(|s| s.to_string()),
    }
}

#[test]
fn row_coverage_needs_each_row_once() {
    assert!(check_row_coverage(&[2, 3], &[3, 2], "incomplete").is_ok());
    assert_eq!(check_row_coverage(&[2, 3], &[2, 3, 2], "incomplete").unwrap_err(), "Duplicate BOM row 2");
    assert_eq!(check_row_coverage(&[2, 3], &[2], "incomplete").unwrap_err(), "incomplete");
    assert_eq!(check_row_coverage(&[2], &[2, 4], "incomplete").unwrap_err(), "incomplete");
}

#[test]
fn import_binds_the_only_library_part_with_the_number() {
    let parts = vec![lib_part("k1", "C25804", ""), lib_part("k2", "C1", "0402")];
    let d = plan_import_row(&selected(None, None), &source_row(Some("c25804")), &parts);
    assert_eq!(d.library_lcsc.as_deref(), Some("C25804"));
    assert!(!d.library_missing);
    assert_eq!(d.name, "R_10k");
    assert_eq!(d.package, "0603");
    assert_eq!(import_note(&d), "BOM 导入");
    let keyed = plan_import_row(&selected(None, Some("k2")), &source_row(None), &parts);
    assert_eq!(keyed.package, "0402");
}

#[test]
fn import_without_library_part_waits_or_is_manual() {
    let parts = vec![lib_part("k1", "C9", ""), lib_part("k2", "c9", "")];
    let pending = plan_import_row(&selected(Some(" c9 "), None), &source_row(None), &parts);
    assert_eq!(pending.library_lcsc.as_deref(), Some("C9"));
    assert!(pending.library_missing);
    assert_eq!(import_note(&pending), "BOM 导入，待绑定库元件");
    let manual = plan_import_row(&selected(None, None), &source_row(None), &[]);
    assert_eq!(manual.library_lcsc, None);
    assert_eq!(manual.name, "10k");
    assert_eq!(import_note(&manual), "BOM 导入，手动元件");
}

#[test]
fn deduction_rows_must_add_up() {
    assert_eq!(required_quantity(3, 4), 12);
    assert_eq!(required_quantity(u64::MAX, 2), u64::MAX);
    let alloc = |loc: &str, q: i64| InventoryAllocation {
        part_id: "p".to_string(),
        location: loc.to_string(),
        quantity: q,
    };
    let row = BomDeductionRow {
        row_number: 5,
        part_id: Some("p".to_string()),
        skipped: false,
        allocations: vec![alloc("A", 2), alloc("B", 3), alloc("A", 1)],
    };
    assert!(check_deduction_row(&row, 6).is_ok());
    assert_eq!(check_deduction_row(&row, 5).unwrap_err(), "Invalid allocation for BOM row 5");
    assert!(!repeats_location(&row.allocations, 1));
    assert!(repeats_location(&row.allocations, 2));
    let none = BomDeductionRow { row_number: 7, part_id: None, skipped: false, allocations: vec![] };
    assert_eq!(check_deduction_row(&none, 1).unwrap_err(), "BOM row 7 has no selected inventory part");
}
