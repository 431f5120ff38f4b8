use happyjlc::controller::{normalize_direct_lcsc_parts, parse_imported_parts_text};

#[test]
fn normalize_direct_lcsc_parts_deduplicates_and_rejects_invalid_values() {
    let parsed = normalize_direct_lcsc_parts(vec![
        "C123".to_string(),
        "c123".to_string(),
        " C456 ".to_string(),
        "junk".to_string(),
        "XC789".to_string(),
    ]);

    assert_eq!(
        parsed.normalized_parts,
        vec!["C123".to_string(), "C456".to_string()]
    );
    assert_eq!(parsed.matched_part_count, 3);
    assert_eq!(parsed.duplicate_part_count, 1);
    assert_eq!(parsed.invalid_entry_count, 2);
}

#[test]
fn parse_imported_parts_text_reports_unique_duplicates_and_invalid_lines() {
    let parsed = parse_imported_parts_text("C123\njunk\nc123 C456\n\nC456\nXC789\n")
        .expect("the id pattern compiles");

    assert_eq!(
        parsed.normalized_parts,
        vec!["C123".to_string(), "C456".to_string()]
    );
    assert_eq!(parsed.matched_part_count, 4);
    assert_eq!(parsed.duplicate_part_count, 2);
    assert_eq!(parsed.invalid_entry_count, 2);
}
