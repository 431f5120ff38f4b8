use happyjlc::easyeda::{
    component_data, ApiAnswer, after_failed_attempt, component_description, component_url, datasheet_url,
    download_failure, extract_3d_model_from_svgnode, model_url, normalized_base_url, retry_note,
    Model3dInfo, RetryDecision,
};
use happyjlc::error::{AppError, EasyedaError};

#[test]
fn component_address_uses_the_trimmed_base() {
    let base = normalized_base_url("https://easyeda.com//");
    assert_eq!(base, "https://easyeda.com");
    assert_eq!(
        component_url(&base, "C2040"),
        "https://easyeda.com/api/products/C2040/components?version=6.4.19.5"
    );
}

#[test]
fn description_falls_back_to_known_metadata() {
    assert_eq!(component_description(Some("N-channel MOSFET"), "Alpha", "AO3400A", "SOT-23"), "N-channel MOSFET");
    assert_eq!(component_description(Some(""), "Alpha", "AO3400A", "SOT-23"), "Alpha AO3400A SOT-23");
    assert_eq!(component_description(None, "", "AO3400A", ""), "AO3400A");
    assert_eq!(component_description(None, "", "", ""), "");
}

#[test]
fn datasheet_prefers_the_given_address() {
    assert_eq!(datasheet_url(Some("https://example.test/C2040"), "AO3400A", Some(2040)), "https://example.test/C2040");
    assert_eq!(
        datasheet_url(None, "AO3400A", Some(2040)),
        "https://item.szlcsc.com/datasheet/AO3400A/2040.html"
    );
    assert_eq!(datasheet_url(None, "AO3400A", None), "");
}

#[test]
fn model_downloads_have_known_kinds_and_three_tries() {
    assert_eq!(model_url("OBJ", "u1").unwrap(), "https://modules.easyeda.com/3dmodel/u1");
    assert_eq!(
        model_url("STEP", "u1").unwrap(),
        "https://modules.easyeda.com/qAxj6KHrDKw4blvCG8QJPs7Y/u1"
    );
    assert_eq!(
        model_url("WRL", "u1").unwrap_err(),
        AppError::Easyeda(EasyedaError::InvalidData("Unknown model type: WRL".to_string()))
    );
    assert_eq!(after_failed_attempt(1), RetryDecision::RetryAfter(1000));
    assert_eq!(after_failed_attempt(2), RetryDecision::RetryAfter(2000));
    assert_eq!(after_failed_attempt(3), RetryDecision::GiveUp);
    assert_eq!(retry_note(1), "");
    assert_eq!(retry_note(2), " (retry 2/3)");
    assert_eq!(
        download_failure("OBJ", "u1").message(),
        "Invalid component data: Failed to download OBJ: u1"
    );
}

#[test]
fn finds_the_outline_model_in_svg_nodes() {
    let shapes = vec![
        "TRACK~1 2 3 4".to_string(),
        "SVGNODE~not json".to_string(),
        "SVGNODE~{\"attrs\":{\"c_etype\":\"other\",\"uuid\":\"x\",\"title\":\"y\"}}".to_string(),
        "SVGNODE~{\"attrs\":{\"c_etype\":\"outline3D\",\"uuid\":\"abc\",\"title\":\"SOT-23\"}}~rest".to_string(),
    ];
    assert_eq!(
        extract_3d_model_from_svgnode(&shapes),
        Some(Model3dInfo { uuid: "abc".to_string(), title: "SOT-23".to_string() })
    );
    assert_eq!(extract_3d_model_from_svgnode(&shapes[..2]), None);
}

fn answer() -> ApiAnswer {
    ApiAnswer {
        success: true,
        has_result: true,
        has_data_str: true,
        title: Some("AO3400A".to_string()),
        description: None,
        manufacturer: "Alpha".to_string(),
        package: "SOT-23".to_string(),
        jlc_id: "Basic".to_string(),
        datasheet_url: None,
        szlcsc_id: Some(42),
        shapes: vec!["P~show~0".to_string()],
        package_shapes: vec![
            "TRACK~1~3".to_string(),
            "SVGNODE~{\"attrs\":{\"c_etype\":\"outline3D\",\"uuid\":\"u1\",\"title\":\"SOT-23-3\"}}".to_string(),
        ],
    }
}

#[test]
fn component_data_derives_metadata_from_the_answer() {
    let data = component_data("C344010", answer()).unwrap();
    assert_eq!(data.lcsc_id, "C344010");
    assert_eq!(data.title, "AO3400A");
    assert_eq!(data.description, "Alpha AO3400A SOT-23");
    assert_eq!(data.datasheet, "https://item.szlcsc.com/datasheet/AO3400A/42.html");
    assert_eq!(data.jlc_id, "Basic");
    assert_eq!(data.data_str, vec!["P~show~0".to_string()]);
    assert_eq!(data.package_detail.len(), 2);
    assert_eq!(
        data.model_3d,
        Some(Model3dInfo { uuid: "u1".to_string(), title: "SOT-23-3".to_string() })
    );
}

#[test]
fn component_data_refuses_incomplete_answers() {
    let mut failed = answer();
    failed.success = false;
    assert!(matches!(
        component_data("C1", failed),
        Err(AppError::Easyeda(EasyedaError::ComponentNotFound(id))) if id == "C1"
    ));

    let mut no_result = answer();
    no_result.has_result = false;
    assert!(matches!(
        component_data("C1", no_result),
        Err(AppError::Easyeda(EasyedaError::InvalidData(m))) if m == "Missing result field"
    ));

    let mut no_data = answer();
    no_data.has_data_str = false;
    assert!(matches!(
        component_data("C1", no_data),
        Err(AppError::Easyeda(EasyedaError::InvalidData(m))) if m == "Missing dataStr field"
    ));

    let mut no_title = answer();
    no_title.title = None;
    assert!(matches!(
        component_data("C1", no_title),
        Err(AppError::Easyeda(EasyedaError::InvalidData(m))) if m == "Missing title field"
    ));
}
