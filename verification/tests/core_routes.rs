use ferrite_nn::{build_model_options, default_layer_rows, error_html, image_section,
    is_safe_model_name, numeric_section, route_of, sanitize_model_name, split_path_query, Route};

#[test]
fn routes_dispatch_by_method_and_path() {
    assert_eq!(route_of("GET", "/"), Route::RootRedirect);
    assert_eq!(route_of("GET", "/architect"), Route::ArchitectGet);
    assert_eq!(route_of("POST", "/architect/save"), Route::ArchitectSave);
    assert_eq!(route_of("GET", "/dataset"), Route::DatasetGet);
    assert_eq!(route_of("POST", "/dataset/upload"), Route::DatasetUpload);
    assert_eq!(route_of("POST", "/dataset/upload-idx"), Route::DatasetUploadIdx);
    assert_eq!(route_of("POST", "/dataset/builtin"), Route::DatasetBuiltin);
    assert_eq!(route_of("GET", "/train"), Route::TrainGet);
    assert_eq!(route_of("POST", "/train/start"), Route::TrainStart);
    assert_eq!(route_of("POST", "/train/stop"), Route::TrainStop);
    assert_eq!(route_of("GET", "/train/events"), Route::SseEvents);
    assert_eq!(route_of("GET", "/evaluate"), Route::EvaluateGet);
    assert_eq!(route_of("GET", "/evaluate/export"), Route::EvaluateExport);
    assert_eq!(route_of("GET", "/test"), Route::TestGet);
    assert_eq!(route_of("POST", "/test/infer"), Route::TestInfer);
    assert_eq!(route_of("POST", "/test/import-model"), Route::TestImportModel);
    assert_eq!(route_of("GET", "/nowhere"), Route::NotFound);
    assert_eq!(route_of("POST", "/"), Route::NotFound);
    assert_eq!(route_of("PUT", "/train"), Route::NotFound);
}

#[test]
fn model_download_route_extracts_the_stem() {
    assert_eq!(
        route_of("GET", "/models/xor_net/download"),
        Route::ModelDownload { name: "xor_net".to_string() }
    );
    assert_eq!(route_of("POST", "/models/xor/download"), Route::NotFound);
    assert_eq!(
        route_of("GET", "/models/download"),
        Route::ModelDownload { name: "".to_string() }
    );
}

#[test]
fn urls_split_at_the_first_question_mark() {
    assert_eq!(split_path_query("/test?model=a"), ("/test".to_string(), "model=a".to_string()));
    assert_eq!(split_path_query("/test"), ("/test".to_string(), "".to_string()));
    assert_eq!(split_path_query("/t?a=1?b=2"), ("/t".to_string(), "a=1?b=2".to_string()));
}

#[test]
fn model_names_are_checked_for_traversal() {
    assert!(is_safe_model_name("mnist_v2"));
    assert!(!is_safe_model_name(""));
    assert!(!is_safe_model_name("a/b"));
    assert!(!is_safe_model_name("a\\b"));
    assert!(!is_safe_model_name(".."));
    assert!(!is_safe_model_name("x..y"));
}

#[test]
fn file_stems_sanitize_to_model_names() {
    assert_eq!(sanitize_model_name("My Model (v2)"), "My_Model__v2_");
    assert_eq!(sanitize_model_name("ok-name_9"), "ok-name_9");
    assert_eq!(sanitize_model_name(""), "imported_model");
}

#[test]
fn page_fragments_have_the_expected_shapes() {
    assert_eq!(
        error_html("No image file was uploaded."),
        "<div class=\"result-card\"><h2>Error</h2><div class=\"error-box\">No image file was uploaded.</div></div>"
    );
    let (enc, numeric) = numeric_section();
    assert_eq!(enc, "application/x-www-form-urlencoded");
    assert!(numeric.contains("textarea"));
    let (enc2, image) = image_section(28, 14, "Grayscale");
    assert_eq!(enc2, "multipart/form-data");
    assert!(image.contains("Grayscale image — will be resized to 28x14 and normalized."));
    assert!(default_layer_rows().contains("lr-2"));
}

#[test]
fn model_options_escape_and_select() {
    let models = vec!["a<b".to_string(), "xor".to_string()];
    let html = build_model_options(&models, "xor");
    assert_eq!(
        html,
        "<option value=\"a&lt;b\">a&lt;b</option>\n<option value=\"xor\" selected>xor</option>"
    );
    let none = build_model_options(&Vec::new(), "");
    assert_eq!(none, "<option disabled>No models found in trained_models/</option>");
}
