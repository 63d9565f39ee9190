use cc_convo::export::{
    build_export_document, bundle_export_name, export_file_name, html_escape, render_html,
    render_markdown, ExportFormat,
};
use cc_convo::normalize::NormalizedEvent;
use cc_convo::session::Session;

fn session(id: &str, project: &str) -> Session {
    Session {
        index: 1,
        id: id.to_string(),
        id_short: id.chars().take(8).collect(),
        project: project.to_string(),
        path: "/src/a.jsonl".to_string(),
        modified_iso: "2026-02-21T10:00:00Z".to_string(),
        modified_epoch: 5,
        size_bytes: 3,
    }
}

fn event(role: &str, ts: Option<&str>, content: &str) -> NormalizedEvent {
    NormalizedEvent {
        role: role.to_string(),
        source_type: role.to_string(),
        timestamp: ts.map(|t| t.to_string()),
        content: content.to_string(),
    }
}

#[test]
fn html_escapes_project_ampersand() {
    let doc = build_export_document(&session("id1", "R&D"), &vec![]);
    let html = render_html(&vec![doc]);
    assert!(html.contains("project=R&amp;D "));
    assert!(!html.contains("R&D"));
}

#[test]
fn html_never_holds_script_tags_from_content() {
    let doc = build_export_document(
        &session("id1", "p"),
        &vec![event("user", None, "<script>alert('x')</script>")],
    );
    let html = render_html(&vec![doc]);
    assert!(!html.contains("<script>"));
    assert!(html.contains("<pre>&lt;script&gt;alert(&#39;x&#39;)&lt;/script&gt;</pre>"));
    assert!(html.starts_with("<!doctype html>"));
    assert!(html.ends_with("</body></html>"));
}

#[test]
fn html_escape_writes_all_five_entities() {
    assert_eq!(html_escape(r#"a&b<c>d"e'f"#), "a&amp;b&lt;c&gt;d&quot;e&#39;f");
}

#[test]
fn markdown_of_one_document() {
    let doc = build_export_document(
        &session("abc", "proj"),
        &vec![event("user", Some("T1"), "hi"), event("assistant", None, "yo")],
    );
    assert_eq!(doc.event_count, 2);
    let md = render_markdown(&vec![doc]);
    let expected = "# cc-convo export\n\n- Session: `abc`\n- Project: `proj`\n- Modified: `2026-02-21T10:00:00Z`\n- Source: `/src/a.jsonl`\n- Events: `2`\n\n## [user] T1\n\nhi\n\n## [assistant] -\n\nyo\n\n";
    assert_eq!(md, expected);
}

#[test]
fn markdown_separates_documents_with_a_rule() {
    let a = build_export_document(&session("a", "p"), &vec![]);
    let b = build_export_document(&session("b", "p"), &vec![]);
    let md = render_markdown(&vec![a, b]);
    assert_eq!(md.matches("\n\n---\n\n").count(), 1);
    assert_eq!(md.matches("# cc-convo export").count(), 2);
    assert!(render_markdown(&vec![]).is_empty());
}

#[test]
fn export_file_names() {
    let doc = build_export_document(&session("0123456789abcdef", "p"), &vec![]);
    assert_eq!(export_file_name(&doc, ExportFormat::Markdown), "cc-convo-2026-02-21-01234567.md");
    assert_eq!(export_file_name(&doc, ExportFormat::Json), "cc-convo-2026-02-21-01234567.json");
    assert_eq!(bundle_export_name("2030-01-01T00:00:00Z", ExportFormat::Html), "cc-convo-bundle-2030-01-01.html");
    assert_eq!(bundle_export_name("nodate", ExportFormat::Json), "cc-convo-bundle-nodate.json");
}
