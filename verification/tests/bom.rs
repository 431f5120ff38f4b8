use happyjlc::bom::{parse_bom_csv, parse_u64};
use happyjlc::inventory::package_key;

#[test]
fn parses_semicolon_csv_with_bom_and_trailing_empty_column() {
    let rows = parse_bom_csv("\u{feff}\"编号\";\"位号\";\"封装\";\"数量\";\"名称\";\"供应商编号\";\n1;\"C1, C2\";\"C_0603\";2;\"10uf\";;\n").unwrap();
    assert_eq!(rows.len(), 1);
    assert_eq!(rows[0].identifier, "1");
    assert_eq!(rows[0].references, "C1, C2");
    assert_eq!(rows[0].quantity, 2);
}

#[test]
fn extracts_lcsc_from_package_and_reports_conflicts() {
    let rows = parse_bom_csv(
        "编号;位号;封装;数量;名称;供应商编号\n1;U1;ESP32-C3-MINI-1-N4_C2838502;1;ESP32-C3-MINI-1-N4;;\n2;U2;PART_C123;1;PART;;\n3;U3;PART_C123;1;PART;C456\n",
    )
    .unwrap();
    assert_eq!(rows[0].supplier_part_number.as_deref(), Some("C2838502"));
    assert_eq!(rows[0].supplier_part_number_source.as_deref(), Some("封装"));
    assert!(!rows[0].supplier_part_number_conflict);
    assert!(rows[2].supplier_part_number_conflict);
}

#[test]
fn normalizes_lcsc_spacing_and_package_separators_without_merging_pins() {
    let rows = parse_bom_csv("数量;名称;封装;供应商编号\n1;R;Package_SO:SOT_23_3; c 123 \n1;R;SOT-23-5;C124\n").unwrap();
    assert_eq!(rows[0].supplier_part_number.as_deref(), Some("C123"));
    assert_eq!(rows[1].supplier_part_number.as_deref(), Some("C124"));
    assert_ne!(package_key("Package_SO:SOT_23_3"), package_key("SOT-23-5"));
    assert_eq!(package_key("Package_SO:SOT_23_3"), package_key("SOT-23-3"));
}

#[test]
fn rejects_missing_required_column_and_invalid_quantity() {
    assert!(parse_bom_csv("名称;封装\nR;0603\n").unwrap_err().contains("数量"));
    assert!(parse_bom_csv("数量;名称;封装\nnope;R;0603\n").unwrap_err().contains("Invalid"));
}

#[test]
fn bom_rows_are_numbered_and_checked() {
    let rows = parse_bom_csv("Quantity,Value,Footprint\n\n2,R1,0603\n , , \n3,C1,0805\n").unwrap();
    assert_eq!(rows.len(), 2);
    assert_eq!(rows[0].row_number, 2);
    assert_eq!(rows[1].row_number, 4);
    assert_eq!(
        parse_bom_csv("数量;名称;封装\n0;R;0603\n").unwrap_err(),
        "数量 must be greater than zero at CSV row 2"
    );
    assert_eq!(
        parse_bom_csv("数量;名称;封装\n1;;0603\n").unwrap_err(),
        "名称 and 封装 are required at CSV row 2"
    );
    assert_eq!(parse_bom_csv("数量;名称;封装\n").unwrap_err(), "CSV has no data rows");
    assert_eq!(parse_bom_csv("名称;数量\n").unwrap_err(), "CSV is missing 封装 column");
}

#[test]
fn parse_u64_reads_plain_decimals() {
    let digits: Vec<char> = "+42".chars().collect();
    assert_eq!(parse_u64(&digits), Some(42));
    let big: Vec<char> = "18446744073709551616".chars().collect();
    assert_eq!(parse_u64(&big), None);
    let max: Vec<char> = "18446744073709551615".chars().collect();
    assert_eq!(parse_u64(&max), Some(u64::MAX));
    assert_eq!(parse_u64(&['-', '1']), None);
}
