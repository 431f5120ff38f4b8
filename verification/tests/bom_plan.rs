use happyjlc::bom_plan::{plan_bom_deduction, plan_bom_import, plan_library_sync};
use happyjlc::inventory::{
    BomDeductionRow, BomImportRow, BomRow, ConfirmBomDeductionRequest, ImportBomRequest,
    InventoryAllocation, InventoryLibraryPart, InventoryLocation, InventoryPart,
};

fn bom_row(n: usize, supplier: Option<&str>, name: &str, package: &str, quantity: u64) -> BomRow {
    BomRow {
        row_number: n,
        identifier: format!("R{n}"),
        references: format!("U{n}"),
        supplier_part_number: supplier.map(str::to_string),
        supplier_part_number_source: None,
        supplier_part_number_conflict: false,
        name: name.to_string(),
        package: package.to_string(),
        quantity,
    }
}

fn stock_part(id: &str, lcsc: Option<&str>, name: &str, package: &str, locations: &[(&str, i64)]) -> InventoryPart {
    InventoryPart {
        id: id.to_string(),
        library_lcsc: lcsc.map(str::to_string),
        library_symbol_name: None,
        library_source_file: None,
        library_missing: false,
        supplier_part_number: lcsc.map(str::to_string),
        name: name.to_string(),
        package: package.to_string(),
        note: String::new(),
        locations: locations
            .iter()
            .enumerate()
            .map(|(i, (l, q))| InventoryLocation { location: l.to_string(), quantity: *q, priority: i as u32 })
            .collect(),
    }
}

fn import_row(n: usize, skipped: bool) -> BomImportRow {
    BomImportRow { row_number: n, skipped, library_lcsc: None, library_key: None }
}

fn library_part(lcsc: &str, value: &str, symbol: &str) -> InventoryLibraryPart {
    InventoryLibraryPart {
        library_key: format!("symbol:lib.kicad_sym:{symbol}"),
        lcsc_part: lcsc.to_string(),
        value: value.to_string(),
        symbol_name: symbol.to_string(),
        package: "SOT-23".to_string(),
        source_file: "lib.kicad_sym".to_string(),
        has_model: false,
        source_kind: "export".to_string(),
        editable: true,
    }
}

#[test]
fn bom_import_counts_every_row_once() {
    let rows = vec![
        bom_row(2, Some("C1"), "Cap", "0402", 1),
        bom_row(3, Some("C2"), "Res", "0603", 2),
        bom_row(4, None, "Hand part", "DIP-8", 1),
        bom_row(5, Some("C2"), "Res", "0603", 1),
    ];
    let request = ImportBomRequest {
        path: "bom.csv".to_string(),
        revision: 7,
        rows: vec![import_row(2, false), import_row(3, false), import_row(4, false), import_row(5, false)],
    };
    let stock = vec![stock_part("p1", Some("C1"), "Cap", "0402", &[("A", 10)])];
    let plan = plan_bom_import(&request, &rows, 7, &stock, &[]).unwrap();
    let (drafts, result) = (plan.drafts.clone(), plan.result.clone());
    assert_eq!(plan.revision, 8);
    assert_eq!(plan.stock_rows.len(), 2);
    assert!(plan
        .stock_rows
        .iter()
        .all(|row| row.location == "未分配" && row.quantity == 0 && row.priority == 0));
    assert_eq!(result.existing, 2);
    assert_eq!(result.imported, 2);
    assert_eq!(result.skipped, 0);
    assert_eq!(result.manual, 1);
    assert_eq!(result.pending_library, 1);
    assert_eq!(drafts.len(), 2);
    assert_eq!(drafts[0].library_lcsc.as_deref(), Some("C2"));
    assert!(drafts[0].library_missing);
    assert_eq!(drafts[1].name, "Hand part");
    assert_eq!(drafts[1].library_lcsc, None);
}

#[test]
fn bom_import_refuses_bad_requests() {
    let rows = vec![bom_row(2, Some("C1"), "Cap", "0402", 1), bom_row(3, Some("C2"), "Res", "0603", 1)];
    let empty = ImportBomRequest { path: String::new(), revision: 1, rows: vec![] };
    assert_eq!(plan_bom_import(&empty, &rows, 1, &[], &[]).unwrap_err(), "BOM import request is empty");
    let duplicate = ImportBomRequest { path: String::new(), revision: 1, rows: vec![import_row(2, false), import_row(2, true)] };
    assert_eq!(plan_bom_import(&duplicate, &rows, 1, &[], &[]).unwrap_err(), "Duplicate BOM row 2");
    let partial = ImportBomRequest { path: String::new(), revision: 1, rows: vec![import_row(2, false)] };
    assert_eq!(
        plan_bom_import(&partial, &rows, 1, &[], &[]).unwrap_err(),
        "BOM import is incomplete; please preview the CSV again"
    );
    let stale = ImportBomRequest { path: String::new(), revision: 1, rows: vec![import_row(2, true), import_row(3, true)] };
    assert_eq!(
        plan_bom_import(&stale, &rows, 2, &[], &[]).unwrap_err(),
        "Inventory changed since preview; please preview the BOM again"
    );
    let plan = plan_bom_import(&stale, &rows, 1, &[], &[]).unwrap();
    assert!(plan.drafts.is_empty());
    assert!(plan.stock_rows.is_empty());
    assert_eq!(plan.result.skipped, 2);
    assert_eq!(plan.revision, 1);
}

fn deduction_row(n: usize, part: Option<&str>, allocations: &[(&str, &str, i64)]) -> BomDeductionRow {
    BomDeductionRow {
        row_number: n,
        part_id: part.map(str::to_string),
        skipped: false,
        allocations: allocations
            .iter()
            .map(|(p, l, q)| InventoryAllocation { part_id: p.to_string(), location: l.to_string(), quantity: *q })
            .collect(),
    }
}

#[test]
fn bom_deduction_takes_the_allocated_stock() {
    let rows = vec![bom_row(2, Some("C1"), "Cap", "0402", 2), bom_row(3, Some("C2"), "Res", "0603", 1)];
    let stock = vec![stock_part("p1", Some("C1"), "Cap", "0402", &[("A", 10), ("B", 5)])];
    let mut skipped = deduction_row(3, None, &[]);
    skipped.skipped = true;
    let request = ConfirmBomDeductionRequest {
        path: "bom.csv".to_string(),
        boards: 3,
        revision: 4,
        rows: vec![deduction_row(2, Some("p1"), &[("p1", "A", 4), ("p1", "B", 2)]), skipped],
    };
    let plan = plan_bom_deduction(&request, &rows, &stock, 4).unwrap();
    assert_eq!(plan.record.matched_rows, 1);
    assert_eq!(plan.record.skipped_rows, 1);
    assert_eq!(plan.record.total_rows, 2);
    assert_eq!(plan.record.boards, 3);
    assert_eq!(plan.record.path, "bom.csv");
    assert_eq!(plan.revision, 5);
    assert_eq!(plan.items.len(), 2);
    assert_eq!(plan.items[0].required_quantity, 6);
    assert_eq!(plan.items[0].part_id.as_deref(), Some("p1"));
    assert_eq!(plan.items[0].allocations, vec![("A".to_string(), 4), ("B".to_string(), 2)]);
    assert_eq!(plan.items[1].row_number, 3);
    assert_eq!(plan.items[1].skipped_reason.as_deref(), Some("用户跳过"));
    assert_eq!(plan.items[1].part_id, None);
    assert!(plan.items[1].allocations.is_empty());
    assert_eq!(plan.adjustments.len(), 2);
    assert_eq!(plan.adjustments[0].location, "A");
    assert_eq!(plan.adjustments[0].delta, -4);
    assert_eq!(plan.adjustments[1].delta, -2);
}

#[test]
fn bom_deduction_refuses_bad_allocations() {
    let rows = vec![bom_row(2, Some("C1"), "Cap", "0402", 2)];
    let stock = vec![stock_part("p1", Some("C1"), "Cap", "0402", &[("A", 10)])];
    let with = |r: BomDeductionRow, boards: u64| ConfirmBomDeductionRequest {
        path: String::new(),
        boards,
        revision: 1,
        rows: vec![r],
    };
    assert_eq!(
        plan_bom_deduction(&with(deduction_row(2, Some("p1"), &[("p1", "A", 2)]), 0), &rows, &stock, 1).unwrap_err(),
        "Invalid BOM deduction request"
    );
    assert_eq!(
        plan_bom_deduction(&with(deduction_row(2, Some("p1"), &[("p1", "A", 3)]), 1), &rows, &stock, 1).unwrap_err(),
        "Invalid allocation for BOM row 2"
    );
    assert_eq!(
        plan_bom_deduction(&with(deduction_row(2, Some("p9"), &[("p9", "A", 2)]), 1), &rows, &stock, 1).unwrap_err(),
        "Inventory part not found for BOM row 2"
    );
    assert_eq!(
        plan_bom_deduction(&with(deduction_row(2, Some("p1"), &[("p1", "A", 1), ("p1", "A", 1)]), 1), &rows, &stock, 1)
            .unwrap_err(),
        "Duplicate location in BOM row 2"
    );
    assert_eq!(
        plan_bom_deduction(&with(deduction_row(2, Some("p1"), &[("p1", "Z", 2)]), 1), &rows, &stock, 1).unwrap_err(),
        "Location not found for BOM row 2: Z"
    );
    assert_eq!(
        plan_bom_deduction(&with(deduction_row(2, None, &[]), 1), &rows, &stock, 1).unwrap_err(),
        "BOM row 2 has no selected inventory part"
    );
    assert_eq!(
        plan_bom_deduction(&with(deduction_row(2, Some("p1"), &[("p1", "A", 2)]), 1), &rows, &stock, 2).unwrap_err(),
        "Inventory changed since preview; please preview the CSV again"
    );
}

#[test]
fn library_sync_follows_the_library() {
    let mut linked = stock_part("p1", Some("C1"), "Old name", "0402", &[]);
    linked.library_symbol_name = Some("Old".to_string());
    linked.library_source_file = Some("lib.kicad_sym".to_string());
    let loose = stock_part("p2", None, "Hand", "DIP", &[]);
    let stock = vec![linked, loose];
    let items = vec![library_part("c1", "New name", "Sym"), library_part("C1", "Other", "Sym2")];
    let (links, changed) = plan_library_sync(&stock, &items).unwrap();
    assert!(changed);
    assert_eq!(links[0].name, "New name");
    assert_eq!(links[0].library_symbol_name.as_deref(), Some("Sym"));
    assert_eq!(links[0].package, "SOT-23");
    assert!(!links[0].library_missing);
    assert_eq!(links[1].name, "Hand");
    assert!(!links[1].library_missing);

    let missing_now = vec![stock_part("p3", Some("C9"), "Gone", "0402", &[])];
    let (links, changed) = plan_library_sync(&missing_now, &items).unwrap();
    assert!(changed);
    assert!(links[0].library_missing);

    let blank = vec![library_part("C1", "  ", "Sym")];
    assert_eq!(plan_library_sync(&stock, &blank).unwrap_err(), "Library value is required");
}
