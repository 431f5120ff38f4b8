use happyjlc::imported_symbols::{
    parse_kicad_library_file, parse_kicad_symbol_lib, ImportedSymbol, LibraryFile,
};
use happyjlc::symbol_catalog::unique_lcsc_parts;

fn symbol_block(symbol_name: &str, lcsc_part: Option<&str>) -> String {
    let default_child = format!("{symbol_name}_0_1");
    symbol_block_with_children(symbol_name, lcsc_part, &[default_child.as_str()])
}

fn symbol_block_with_children(
    symbol_name: &str,
    lcsc_part: Option<&str>,
    child_names: &[&str],
) -> String {
    let lcsc_property = lcsc_part
        .map(|part| {
            format!(
                "    (property\n      \"LCSC Part\"\n      \"{}\"\n      (id 5)\n      (at 0 0 0)\n      (effects (font (size 1.27 1.27) ) hide)\n    )\n",
                part
            )
        })
        .unwrap_or_default();
    let child_blocks = child_names
        .iter()
        .map(|child_name| format!("    (symbol \"{}\"\n    )\n", child_name))
        .collect::<String>();

    format!(
        "  (symbol \"{}\"\n    (property\n      \"Reference\"\n      \"U\"\n      (id 0)\n      (at 0 0 0)\n      (effects (font (size 1.27 1.27) ) )\n    )\n{}{}  )\n",
        symbol_name, lcsc_property, child_blocks
    )
}

fn wrap_library(blocks: &[String]) -> String {
    format!(
        "(kicad_symbol_lib\n  (version 20211014)\n  (generator happyjlc-test)\n{}\n)\n",
        blocks.join("")
    )
}

fn item(key: &str, lcsc: &str, name: &str, file: &str) -> ImportedSymbol {
    ImportedSymbol {
        library_key: key.to_string(),
        lcsc_part: lcsc.to_string(),
        value: name.to_string(),
        symbol_name: name.to_string(),
        package: String::new(),
        source_file: file.to_string(),
        source_kind: "export".to_string(),
        editable: true,
        model_available: false,
        models: Vec::new(),
    }
}

#[test]
fn parses_minimal_symbol_library_with_source_file() {
    let content = wrap_library(&[symbol_block("Device_C123", Some("C123"))]);

    let parsed =
        parse_kicad_symbol_lib(&content, "alpha.kicad_sym").expect("parse should succeed");

    assert_eq!(
        parsed,
        vec![ImportedSymbol {
            library_key: "symbol:alpha.kicad_sym:Device_C123".to_string(),
            lcsc_part: "C123".to_string(),
            value: "Device_C123".to_string(),
            symbol_name: "Device_C123".to_string(),
            package: String::new(),
            source_file: "alpha.kicad_sym".to_string(),
            source_kind: "export".to_string(),
            editable: true,
            model_available: false,
            models: Vec::new(),
        }]
    );
}

#[test]
fn parses_value_and_package_metadata() {
    let content = wrap_library(&["  (symbol \"R_C123\"\n    (property \"Value\" \"10k\" (id 1) (at 0 0 0))\n    (property \"Package\" \"R_0603\" (id 2) (at 0 0 0))\n    (property \"LCSC Part\" \"C123\" (id 3) (at 0 0 0))\n    (symbol \"R_C123_0_1\")\n  )\n".to_string()]);
    let parsed =
        parse_kicad_symbol_lib(&content, "alpha.kicad_sym").expect("parse should succeed");

    assert_eq!(parsed[0].value, "10k");
    assert_eq!(parsed[0].package, "R_0603");
}

#[test]
fn parses_standard_footprint_without_lcsc_as_read_only_candidate() {
    let content = "(footprint \"LED_0603_1608Metric_Red\"\n  (property \"Package\" \"LED_0603_1608Metric_Red\")\n  (fp_text value \"LED_0603_1608Metric_Red\")\n)\n";
    let library_file = LibraryFile {
        path: "LED_0603_1608Metric_Red.kicad_mod".to_string(),
        source_file: "LED_0603_1608Metric_Red.kicad_mod".to_string(),
        source_kind: "kicad_standard".to_string(),
        editable: false,
    };
    let parsed = parse_kicad_library_file(content, &library_file).unwrap();
    assert_eq!(parsed[0].lcsc_part, "");
    assert_eq!(parsed[0].package, "LED_0603_1608Metric_Red");
    assert_eq!(parsed[0].source_kind, "kicad_standard");
    assert!(!parsed[0].editable);
}

#[test]
fn ignores_symbols_without_lcsc_part() {
    let content = wrap_library(&[
        symbol_block("Device_C123", Some("C123")),
        symbol_block("Graphic_Only", None),
    ]);

    let parsed =
        parse_kicad_symbol_lib(&content, "alpha.kicad_sym").expect("parse should succeed");

    assert_eq!(parsed.len(), 2);
    assert_eq!(parsed[0].symbol_name, "Device_C123");
    assert_eq!(parsed[1].lcsc_part, "");
}

#[test]
fn unique_lcsc_parts_preserves_first_sorted_occurrence() {
    let parts = unique_lcsc_parts(&[
        item("symbol:alpha.kicad_sym:Alpha", "C123", "Alpha", "alpha.kicad_sym"),
        item("symbol:beta.kicad_sym:Beta", "C123", "Beta", "beta.kicad_sym"),
        item("symbol:beta.kicad_sym:Gamma", "C456", "Gamma", "beta.kicad_sym"),
    ]);

    assert_eq!(parts, vec!["C123".to_string(), "C456".to_string()]);
}

#[test]
fn symbol_library_with_unclosed_block_is_refused() {
    let content = "(kicad_symbol_lib\n  (symbol \"A\"\n";
    assert!(parse_kicad_symbol_lib(content, "a.kicad_sym").is_err());
}
