use happyjlc::cli::{dedupe_lcsc_ids, exit_code_for_failures, resolve_lcsc_ids, validate_cli, Cli};
use happyjlc::error::{AppError, EasyedaError};

fn base() -> Cli {
    Cli {
        lcsc_id: Some("C2040".to_string()),
        batch: None,
        symbol: true,
        footprint: false,
        model_3d: false,
        full: false,
        output: ".".to_string(),
        overwrite: false,
        overwrite_symbol: false,
        overwrite_footprint: false,
        overwrite_model_3d: false,
        project_relative: false,
        symbol_fill_color: None,
        debug: false,
        continue_on_error: false,
        parallel: 4,
    }
}

#[test]
fn failed_components_produce_nonzero_exit_code() {
    assert_eq!(exit_code_for_failures(0), 0);
    assert_eq!(exit_code_for_failures(1), 1);
}

#[test]
fn cli_requires_a_source_an_asset_and_a_valid_id() {
    assert!(validate_cli(&base()).is_ok());
    let mut c = base();
    c.lcsc_id = None;
    assert_eq!(
        validate_cli(&c).unwrap_err(),
        AppError::Other("Either --lcsc-id or --batch must be specified".to_string())
    );
    let mut c = base();
    c.lcsc_id = Some("C".to_string());
    assert_eq!(
        validate_cli(&c).unwrap_err(),
        AppError::Easyeda(EasyedaError::InvalidLcscId("C".to_string()))
    );
    let mut c = base();
    c.symbol = false;
    assert!(matches!(validate_cli(&c), Err(AppError::Other(_))));
    let mut c = base();
    c.symbol_fill_color = Some("#12".to_string());
    assert!(validate_cli(&c).is_err());
}

#[test]
fn cli_batch_ids_are_deduplicated_in_order() {
    let mut c = base();
    c.lcsc_id = None;
    c.batch = Some("ids.txt".to_string());
    let ids = resolve_lcsc_ids(&c, Some("C1 C22\nx C1 C3")).unwrap();
    assert_eq!(ids, vec!["C1".to_string(), "C22".to_string(), "C3".to_string()]);
    assert_eq!(
        resolve_lcsc_ids(&c, Some("none")).unwrap_err(),
        AppError::Other("No valid LCSC IDs found in batch file".to_string())
    );
    assert_eq!(
        dedupe_lcsc_ids(vec!["a".to_string(), "b".to_string(), "a".to_string()]),
        vec!["a".to_string(), "b".to_string()]
    );
}

#[test]
fn cli_request_selects_all_assets_with_full() {
    let mut c = base();
    c.full = true;
    c.overwrite = true;
    c.parallel = 2;
    let q = c.into_request(None).unwrap();
    assert_eq!(q.lcsc_ids, vec!["C2040".to_string()]);
    assert!(q.component.convert_symbol && q.component.convert_footprint && q.component.convert_model_3d);
    assert!(q.component.footprint.include_3d_model);
    assert!(q.component.model_3d.overwrite);
    assert_eq!(q.run.parallel, 2);
    let mut z = base();
    z.parallel = 0;
    assert!(z.into_request(None).is_err());
}
