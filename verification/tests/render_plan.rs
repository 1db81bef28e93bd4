use typst_gateway::render::{
    compile_args, content_disposition, is_source_document, plan_render, scratch_output_path,
};

#[test]
fn source_documents_are_recognized_by_extension() {
    assert!(is_source_document("a.typ"));
    assert!(is_source_document(".typ"));
    assert!(!is_source_document("a.typc"));
    assert!(!is_source_document("a.pdf"));
    assert!(!is_source_document("typ"));
    assert!(!is_source_document(""));
}

#[test]
fn disposition_names_the_served_file() {
    assert_eq!(content_disposition("a.typ"), "inline; filename=\"a.typ\"");
    assert_eq!(content_disposition(""), "inline; filename=\"\"");
}

#[test]
fn source_documents_are_compiled_and_served_as_pdf() {
    let plan = plan_render("a.typ", "/srv/docs/a.typ");
    assert!(plan.compile);
    assert_eq!(plan.content_type, "application/pdf");
    assert_eq!(plan.content_disposition, "inline; filename=\"a.typ\"");
}

#[test]
fn raw_files_get_their_guessed_content_type() {
    let plan = plan_render("a.png", "/srv/docs/a.png");
    assert!(!plan.compile);
    assert_eq!(plan.content_type, "image/png");
}

#[test]
fn unknown_extensions_default_to_text_plain() {
    let plan = plan_render("a.zzznope", "/srv/docs/a.zzznope");
    assert!(!plan.compile);
    assert_eq!(plan.content_type, "text/plain");
}

#[test]
fn scratch_paths_follow_the_request_id() {
    assert_eq!(scratch_output_path("out", 0), "out/0.pdf");
    assert_eq!(scratch_output_path("out", 1234), "out/1234.pdf");
    assert_eq!(scratch_output_path("scratch", 18446744073709551615), "scratch/18446744073709551615.pdf");
}

#[test]
fn concurrent_requests_get_distinct_scratch_paths() {
    // The regression the per-request scratch location exists for: two
    // different requests must never write the same artifact path.
    let a = scratch_output_path("out", 7);
    let b = scratch_output_path("out", 8);
    assert_ne!(a, b);
    let mut seen = std::collections::HashSet::new();
    for id in 0..1000u64 {
        assert!(seen.insert(scratch_output_path("out", id)));
    }
}

#[test]
fn compiler_arguments_are_in_order() {
    let args = compile_args("/srv/docs/a.typ", "/srv/docs", "out/1.pdf");
    assert_eq!(
        args,
        vec![
            "compile".to_string(),
            "/srv/docs/a.typ".to_string(),
            "--root".to_string(),
            "/srv/docs".to_string(),
            "out/1.pdf".to_string()
        ]
    );
}
