use happyjlc::inventory::{allocate, find_candidates, BomRow, InventoryLocation, InventoryPart};

fn part(id: &str, supplier: Option<&str>, name: &str, package: &str, locations: Vec<InventoryLocation>) -> InventoryPart {
    InventoryPart {
        id: id.to_string(),
        library_lcsc: None,
        library_symbol_name: None,
        library_source_file: None,
        library_missing: false,
        supplier_part_number: supplier.map(|s| s.to_string()),
        name: name.to_string(),
        package: package.to_string(),
        note: String::new(),
        locations,
    }
}

#[test]
fn prefers_supplier_match_and_reports_name_package_conflicts() {
    let parts = vec![
        part("a", Some("C123"), "10uF", "0603", vec![]),
        part("b", Some("C456"), "10uF", "0603", vec![]),
    ];
    let supplier_row = BomRow {
        row_number: 2,
        identifier: String::new(),
        references: String::new(),
        supplier_part_number: Some("C456".to_string()),
        supplier_part_number_source: Some("供应商编号".to_string()),
        supplier_part_number_conflict: false,
        name: "different".to_string(),
        package: "different".to_string(),
        quantity: 1,
    };
    assert_eq!(find_candidates(&supplier_row, &parts)[0].id, "b");
    let fallback_row = BomRow {
        supplier_part_number: None,
        name: "10uF".to_string(),
        package: "0603".to_string(),
        ..supplier_row
    };
    assert_eq!(find_candidates(&fallback_row, &parts).len(), 2);
}

#[test]
fn allocates_shortage_to_last_location() {
    let part = part(
        "p",
        None,
        "R",
        "0603",
        vec![
            InventoryLocation {
                location: "A".to_string(),
                quantity: 2,
                priority: 0,
            },
            InventoryLocation {
                location: "B".to_string(),
                quantity: 1,
                priority: 1,
            },
        ],
    );
    let allocations = allocate(&part, 5);
    assert_eq!(
        allocations
            .iter()
            .map(|item| item.quantity)
            .collect::<Vec<_>>(),
        vec![2, 3]
    );
}

#[test]
fn allocation_takes_only_what_is_needed() {
    let part = part(
        "p",
        None,
        "R",
        "0603",
        vec![
            InventoryLocation { location: "B".to_string(), quantity: 5, priority: 2 },
            InventoryLocation { location: "A".to_string(), quantity: 5, priority: 1 },
        ],
    );
    let allocations = allocate(&part, 3);
    assert_eq!(allocations.len(), 1);
    assert_eq!(allocations[0].location, "A");
    assert_eq!(allocations[0].quantity, 3);
}
