use happyjlc::vendor_import::{
    append_symbols, expand_user_path, extract_symbol_names, extract_top_level_symbols,
    footprint_name_set, parse_quoted_or_atom, parse_symbol_name, plan_symbol_import,
    quote_kicad_string, rewrite_model_paths, rewrite_symbol_footprints, target_path,
    validate_nickname, CommandLine, Config, ImportPlan, ModelPathMode,
};

fn plan_for_lib() -> ImportPlan {
    ImportPlan {
        symbol_files: Vec::new(),
        footprint_files: Vec::new(),
        model_files: Vec::new(),
        symbol_library: "/lib/personal.kicad_sym".to_string(),
        footprint_dir: "/lib/personal.pretty".to_string(),
        model_dir: "/lib/personal.3dshapes".to_string(),
    }
}

fn config(mode: ModelPathMode) -> Config {
    Config {
        source: "/src".to_string(),
        library_root: "/lib".to_string(),
        nickname: "personal".to_string(),
        model_path_mode: mode,
        dry_run: false,
    }
}

#[test]
fn rewrites_footprint_property_to_library_qualified_name() {
    let footprints = vec!["SOP65P640X120-28N".to_string()];

    let rewritten = rewrite_symbol_footprints(
        "(symbol \"BM3451\"\n  (property \"Footprint\" \"SOP65P640X120-28N\" (at 0 0 0))\n)",
        "personal",
        &footprints,
    );

    assert!(rewritten.contains("\"personal:SOP65P640X120-28N\""));
}

#[test]
fn rewrites_model_path_to_absolute_target() {
    let config = config(ModelPathMode::Absolute);
    let plan = plan_for_lib();
    let models = vec!["BM3451TNDC-T28A.stp".to_string()];

    let rewritten = rewrite_model_paths(
        "  (model BM3451TNDC-T28A.stp\n    (at (xyz 0 0 0))\n  )\n",
        &config,
        &plan,
        &models,
    );

    assert!(rewritten.contains("(model \"/lib/personal.3dshapes/BM3451TNDC-T28A.stp\""));
}

#[test]
fn extracts_top_level_symbols() {
    let content = "(kicad_symbol_lib\n  (symbol \"A\" (property \"Value\" \"A\"))\n  (symbol \"B\" (property \"Value\" \"B\"))\n)\n";

    let symbols = extract_top_level_symbols(content).expect("symbols should parse");

    assert_eq!(symbols.len(), 2);
    assert_eq!(parse_symbol_name(&symbols[0]).as_deref(), Some("A"));
    assert_eq!(parse_symbol_name(&symbols[1]).as_deref(), Some("B"));
}

#[test]
fn vendor_model_path_uses_kiprjmod_when_asked() {
    let config = config(ModelPathMode::Kiprjmod);
    let plan = plan_for_lib();
    let models = vec!["part.wrl".to_string()];
    let rewritten = rewrite_model_paths(
        "\t(model \"./3d/part.wrl\" (offset))\n(model other.wrl)\n",
        &config,
        &plan,
        &models,
    );
    assert_eq!(
        rewritten,
        "\t(model \"${KIPRJMOD}/personal.3dshapes/part.wrl\"\n(model other.wrl)\n"
    );
}

#[test]
fn vendor_nested_symbols_stay_inside_their_parent() {
    let content = "(lib (symbol \"P\" (symbol \"P_0_1\" (x)) (y \"a)\")) (symbol Q))";
    let symbols = extract_top_level_symbols(content).unwrap();
    assert_eq!(symbols.len(), 2);
    assert_eq!(symbols[0], "(symbol \"P\" (symbol \"P_0_1\" (x)) (y \"a)\"))");
    assert_eq!(parse_symbol_name(&symbols[1]).as_deref(), Some("Q"));
}

#[test]
fn vendor_unclosed_symbol_is_an_error() {
    let err = extract_top_level_symbols("(symbol \"A\" (x)").unwrap_err();
    assert_eq!(err, "failed to parse KiCad symbol file: unmatched parenthesis");
    assert!(extract_symbol_names("(symbol \"A\"").is_empty());
}

#[test]
fn vendor_quoted_or_atom_names() {
    assert_eq!(parse_quoted_or_atom("  \"R 1\" rest").as_deref(), Some("R 1"));
    assert_eq!(parse_quoted_or_atom("Name))").as_deref(), Some("Name"));
    assert_eq!(parse_quoted_or_atom("\"open"), None);
    assert_eq!(parse_quoted_or_atom("   "), None);
    assert_eq!(parse_symbol_name("(sym \"A\")"), None);
}

#[test]
fn vendor_quote_escapes_backslashes_and_quotes() {
    assert_eq!(quote_kicad_string("a\\b\"c"), "\"a\\\\b\\\"c\"");
}

#[test]
fn vendor_append_symbols_goes_before_final_paren() {
    let lib = "(kicad_symbol_lib (version 1)  \n)\n";
    let out = append_symbols(lib, &["(symbol \"A\")  \n".to_string()]).unwrap();
    assert_eq!(out, "(kicad_symbol_lib (version 1)\n(symbol \"A\")\n)\n");
    assert_eq!(
        append_symbols("no closing", &[]).unwrap_err(),
        "target symbol library is not a KiCad symbol library"
    );
}

#[test]
fn vendor_nickname_rules() {
    assert!(validate_nickname("personal").is_ok());
    assert_eq!(validate_nickname("").unwrap_err(), "nickname cannot be empty");
    assert_eq!(
        validate_nickname("my lib").unwrap_err(),
        "nickname cannot contain whitespace, ':', '/', or '\\'"
    );
    assert!(validate_nickname("a:b").is_err());
}

#[test]
fn vendor_expands_home_in_paths() {
    assert_eq!(expand_user_path(" ~/pkg ", Some("/home/u")), "/home/u/pkg");
    assert_eq!(expand_user_path("~", Some("/home/u")), "/home/u");
    assert_eq!(expand_user_path("~/pkg", None), "~/pkg");
    assert_eq!(expand_user_path("/abs", Some("/home/u")), "/abs");
}

#[test]
fn vendor_parses_command_line() {
    let args: Vec<String> = ["pkg", "--nickname", "mine", "--model-path-mode", "kiprjmod", "--dry-run"]
        .iter()
        .map(|s| s.to_string())
        .collect();
    match Config::parse(&args, Some("/home/u")).unwrap() {
        CommandLine::Import(c) => {
            assert_eq!(c.source, "pkg");
            assert_eq!(c.library_root, "/home/u/Documents/KiCad/libs/personal");
            assert_eq!(c.nickname, "mine");
            assert_eq!(c.model_path_mode, ModelPathMode::Kiprjmod);
            assert!(c.dry_run);
        }
        CommandLine::Help => panic!("expected an import"),
    }
    let help = vec!["--help".to_string()];
    assert!(matches!(Config::parse(&help, None).unwrap(), CommandLine::Help));
    let none: Vec<String> = Vec::new();
    assert_eq!(Config::parse(&none, None).unwrap_err(), "missing source vendor package path");
    let bad = vec!["--bogus".to_string()];
    assert_eq!(Config::parse(&bad, None).unwrap_err(), "unknown option: --bogus");
    let two = vec!["a".to_string(), "b".to_string()];
    assert_eq!(Config::parse(&two, None).unwrap_err(), "unexpected extra argument: b");
    let mode = vec!["a".to_string(), "--model-path-mode".to_string(), "x".to_string()];
    assert_eq!(
        Config::parse(&mode, None).unwrap_err(),
        "--model-path-mode must be either absolute or kiprjmod"
    );
}

#[test]
fn vendor_discovers_files_by_extension() {
    let files: Vec<String> = ["/p/a.kicad_sym", "/p/f.kicad_mod", "/p/m.STEP", "/p/m.wrl", "/p/readme.txt"]
        .iter()
        .map(|s| s.to_string())
        .collect();
    let plan = ImportPlan::discover(&config(ModelPathMode::Absolute), &files);
    assert_eq!(plan.symbol_files, vec!["/p/a.kicad_sym".to_string()]);
    assert_eq!(plan.footprint_files, vec!["/p/f.kicad_mod".to_string()]);
    assert_eq!(plan.model_files, vec!["/p/m.STEP".to_string(), "/p/m.wrl".to_string()]);
    assert_eq!(plan.symbol_library, "/lib/personal.kicad_sym");
    assert_eq!(plan.footprint_dir, "/lib/personal.pretty");
    assert!(!plan.is_empty());
    assert_eq!(target_path("/lib/personal.pretty", "/p/f.kicad_mod").unwrap(), "/lib/personal.pretty/f.kicad_mod");
}

#[test]
fn vendor_footprint_names_form_a_sorted_set() {
    let files: Vec<String> = ["/p/b.kicad_mod", "/p/a.kicad_mod", "/q/b.kicad_mod"]
        .iter()
        .map(|s| s.to_string())
        .collect();
    assert_eq!(footprint_name_set(&files).unwrap(), vec!["a".to_string(), "b".to_string()]);
    assert_eq!(
        footprint_name_set(&["/p/..".to_string()]).unwrap_err(),
        "invalid footprint file name: /p/.."
    );
}

#[test]
fn vendor_import_skips_existing_symbols() {
    let existing = "(kicad_symbol_lib (symbol \"A\" (x))\n)\n";
    let files = vec![(
        "/p/s.kicad_sym".to_string(),
        "(kicad_symbol_lib (symbol \"A\") (symbol \"B\"\n  (property \"Footprint\" \"F\"))\n)".to_string(),
    )];
    let result = plan_symbol_import(existing, &files, "personal", &["F".to_string()]);
    assert_eq!(result.skipped, vec!["A".to_string()]);
    assert_eq!(
        result.library.unwrap().unwrap(),
        "(kicad_symbol_lib (symbol \"A\" (x))\n(symbol \"B\"\n  (property \"Footprint\" \"personal:F\"))\n)\n"
    );
    let again = plan_symbol_import(existing, &[("/p/t".to_string(), "(symbol \"A\")".to_string())], "personal", &[]);
    assert_eq!(again.library.unwrap(), None);
}

#[test]
fn an_import_takes_each_symbol_name_once() {
    let existing = "(kicad_symbol_lib (symbol \"A\" (x))\n)\n";
    let files = vec![
        ("/p/one.kicad_sym".to_string(), "(symbol \"A\" (a)) (symbol \"B\" (b1))".to_string()),
        ("/p/two.kicad_sym".to_string(), "(symbol \"B\" (b2)) (symbol \"C\" (c))".to_string()),
    ];
    let result = plan_symbol_import(existing, &files, "personal", &[]);
    assert_eq!(result.skipped, vec!["A".to_string(), "B".to_string()]);
    let library = result.library.unwrap().unwrap();
    assert_eq!(extract_symbol_names(&library), vec!["A".to_string(), "B".to_string(), "C".to_string()]);
    assert!(library.contains("(b1)"));
    assert!(!library.contains("(b2)"));
}
