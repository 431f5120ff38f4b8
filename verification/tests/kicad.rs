use happyjlc::fill_color::{SymbolExporter, SymbolFillColor};
use happyjlc::kicad::{escape_kicad_string, map_layer, map_pad_layers_smd, map_pad_layers_tht};

#[test]
fn test_map_layer() {
    assert_eq!(map_layer(1), "F.Cu");
    assert_eq!(map_layer(2), "B.Cu");
    assert_eq!(map_layer(3), "F.SilkS");
    assert_eq!(map_layer(13), "F.Fab");
}

#[test]
fn test_map_pad_layers_smd() {
    let layers = map_pad_layers_smd(1);
    assert_eq!(layers, vec!["F.Cu", "F.Paste", "F.Mask"]);

    let layers = map_pad_layers_smd(2);
    assert_eq!(layers, vec!["B.Cu", "B.Paste", "B.Mask"]);
}

#[test]
fn test_map_pad_layers_tht() {
    let layers = map_pad_layers_tht(1);
    assert_eq!(layers, vec!["F.Cu", "F.Mask"]);

    let layers = map_pad_layers_tht(11);
    assert_eq!(layers, vec!["*.Cu", "*.Mask"]);
}

#[test]
fn escapes_kicad_string_controls() {
    assert_eq!(
        escape_kicad_string("A\\B\"C\nD\rE\tF"),
        "A\\\\B\\\"C\\nD\\rE\\tF"
    );
}

#[test]
fn parses_rgb_without_alpha_as_fully_opaque() {
    let color = SymbolFillColor::parse("#005C8F").expect("color should parse");

    assert_eq!(
        color.to_kicad_fill(),
        "(fill (type color) (color 0 92 143 1))"
    );
}

#[test]
fn fill_color_alpha_and_errors() {
    let color = SymbolFillColor::parse("005C8F80").expect("color should parse");
    assert_eq!(color.alpha_to_kicad(), "0.502");
    assert!(SymbolFillColor::parse("#12345").is_err());
    let exporter = SymbolExporter::new(None);
    assert_eq!(exporter.rectangle_fill(false), "(fill (type none))");
}
