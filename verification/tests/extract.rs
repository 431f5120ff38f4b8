use happyjlc::extract::extract_by_keyword;

#[test]
fn full_info_block() {
    let content = "\u{540d}\u{79f0}\u{ff1a}6*6*9.5\u{63d2}\u{4ef6}\n\u{578b}\u{53f7}\u{ff1a}ZX-QC66-9.5CJ\n\u{54c1}\u{724c}\u{ff1a}Megastar\n\u{5c01}\u{88c5}\u{ff1a}\u{63d2}\u{4ef6}-4P\n\u{7f16}\u{53f7}\u{ff1a}C7470135";
    let kw = r"regex:\u{7f16}\u{53f7}[\u{ff1a}:]\s*(C\d+)||regex:(?m)^(C\d{3,})$";
    assert_eq!(extract_by_keyword(content, kw), Some("C7470135".into()));
}

#[test]
fn bare_ccode() {
    let kw = r"regex:\u{7f16}\u{53f7}[\u{ff1a}:]\s*(C\d+)||regex:(?m)^(C\d{3,})$";
    assert_eq!(extract_by_keyword("C2040", kw), Some("C2040".into()));
}

#[test]
fn bare_ccode_long() {
    let kw = r"regex:\u{7f16}\u{53f7}[\u{ff1a}:]\s*(C\d+)||regex:(?m)^(C\d{3,})$";
    assert_eq!(extract_by_keyword("C7470135", kw), Some("C7470135".into()));
}

#[test]
fn no_false_match_model() {
    let content = "\u{578b}\u{53f7}\u{ff1a}ZX-QC66-9.5CJ";
    let kw = r"regex:\u{7f16}\u{53f7}[\u{ff1a}:]\s*(C\d+)||regex:(?m)^(C\d{3,})$";
    assert_eq!(extract_by_keyword(content, kw), None);
}

#[test]
fn multi_pattern_first_wins() {
    let kw = "regex:A(\\d+)||regex:B(\\d+)";
    assert_eq!(extract_by_keyword("A123 B456", kw), Some("123".into()));
}

#[test]
fn literal_keyword() {
    assert_eq!(
        extract_by_keyword(
            "\u{7f16}\u{53f7}\u{ff1a}C12345 foo",
            "\u{7f16}\u{53f7}\u{ff1a}"
        ),
        Some("C12345".into())
    );
}

#[test]
fn literal_keyword_keeps_only_id_characters() {
    assert_eq!(extract_by_keyword("id: C1,2 x", "id:"), Some("C12".into()));
    assert_eq!(extract_by_keyword("nothing here", "id:"), None);
}

#[test]
fn a_compiled_regex_part_gives_its_first_match() {
    let keyword = "regex:编号[：:]\\s*(C\\d+)||regex:(?m)^(C\\d{3,})$";
    assert_eq!(extract_by_keyword("C2040", keyword).as_deref(), Some("C2040"));
    assert_eq!(extract_by_keyword("型号：ZX-QC66-9.5CJ", keyword), None);
    assert_eq!(extract_by_keyword("A123 B456", "regex:A(\\d+)||regex:B(\\d+)").as_deref(), Some("123"));
    assert_eq!(extract_by_keyword("A123 B456", "regex:(||regex:B(\\d+)").as_deref(), Some("456"));
}
