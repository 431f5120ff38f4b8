use happyjlc::checkpoint::CompletedAssets;
use happyjlc::export_options::{
    ComponentConversionRequest, FootprintExportOptions, Model3dExportOptions, RunOptions,
    RunRequest, SymbolExportOptions,
};
use happyjlc::runner::filter_pending_lcsc_ids;

fn component_request() -> ComponentConversionRequest {
    ComponentConversionRequest::new(
        true,
        true,
        true,
        SymbolExportOptions::new(None, true),
        FootprintExportOptions::new(true, true, true),
        Model3dExportOptions::new(true),
    )
    .unwrap()
}

#[test]
fn run_request_keeps_explicit_options() {
    let request = RunRequest::new(
        vec!["C123456".to_string()],
        RunOptions {
            output: "out".to_string(),
            continue_on_error: true,
            parallel: 8,
        },
        component_request(),
    )
    .unwrap();
    assert_eq!(request.lcsc_ids, vec!["C123456"]);
    assert!(request.component.convert_symbol);
    assert_eq!(request.run.output, "out");
}

#[test]
fn component_request_requires_an_asset() {
    assert!(
        ComponentConversionRequest::new(
            false,
            false,
            false,
            SymbolExportOptions::new(None, false),
            FootprintExportOptions::new(false, false, false),
            Model3dExportOptions::new(false),
        )
        .is_err()
    );
}

#[test]
fn run_request_refuses_empty_runs() {
    let run = RunOptions { output: "out".to_string(), continue_on_error: false, parallel: 0 };
    assert!(RunRequest::new(vec![], run.clone(), component_request()).is_err());
    assert!(RunRequest::new(vec!["C1".to_string()], run, component_request()).is_err());
}

#[test]
fn batch_resume_skips_completed_ids_without_overwrite() {
    let ids = vec!["C1".to_string(), "C2".to_string(), "C3".to_string()];
    let completed = vec![("C2".to_string(), CompletedAssets::all())];

    let filtered = filter_pending_lcsc_ids(ids, &completed, true, CompletedAssets::all(), false);

    assert_eq!(filtered, vec!["C1".to_string(), "C3".to_string()]);
}

#[test]
fn batch_resume_keeps_completed_ids_when_overwrite_is_enabled() {
    let ids = vec!["C1".to_string(), "C2".to_string(), "C3".to_string()];
    let completed = vec![("C2".to_string(), CompletedAssets::all())];

    let filtered =
        filter_pending_lcsc_ids(ids.clone(), &completed, true, CompletedAssets::all(), true);

    assert_eq!(filtered, ids);
}

#[test]
fn batch_resume_keeps_ids_when_checkpoint_does_not_cover_requested_assets() {
    let ids = vec!["C1".to_string(), "C2".to_string()];
    let completed = vec![(
        "C2".to_string(),
        CompletedAssets {
            symbol: true,
            footprint: false,
            model_3d: false,
        },
    )];

    let filtered = filter_pending_lcsc_ids(
        ids.clone(),
        &completed,
        true,
        CompletedAssets {
            symbol: false,
            footprint: true,
            model_3d: false,
        },
        false,
    );

    assert_eq!(filtered, ids);
}
