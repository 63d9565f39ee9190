use cc_convo::search::build_context_preview;

#[test]
fn build_context_preview_falls_back_to_ellipsized_text() {
    let text = "alpha beta gamma delta epsilon";
    let preview = build_context_preview(text, "notfound", 5, false);
    assert!(preview.contains("..."));
    assert!(preview.len() <= 13);
}
