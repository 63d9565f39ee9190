use cc_convo::json::JsonValue;
use cc_convo::normalize::{count_summary_record, summarize_session, SessionSummary};
use cc_convo::session::Session;

fn session(id: &str) -> Session {
    Session {
        index: 1,
        id: id.to_string(),
        id_short: id.chars().take(8).collect(),
        project: "proj".to_string(),
        path: format!("/p/{}.jsonl", id),
        modified_iso: "2026-01-02T03:04:05Z".to_string(),
        modified_epoch: 1,
        size_bytes: 10,
    }
}

#[test]
fn summary_counts_records_and_previews_first_user_text() {
    let lines: Vec<String> = [
        r#"{"type":"user","message":{"content":[{"type":"tool_result","content":"x"}]}}"#,
        r#"{"type":"user","message":{"content":"  first\nquestion  "}}"#,
        r#"{"type":"assistant","message":{"content":"a"}}"#,
        r#"{"type":"progress"}"#,
        r#"{"message":{}}"#,
        "bad",
        r#"{"type":"user","message":{"content":"second"}}"#,
    ]
    .iter()
    .map(|s| s.to_string())
    .collect();
    let s = session("abc");
    let summary = summarize_session(&s, &lines, true);
    assert_eq!(summary.user_messages, 3);
    assert_eq!(summary.assistant_messages, 1);
    assert_eq!(summary.other_records, 2);
    assert_eq!(summary.preview.as_deref(), Some("first question"));
    assert_eq!(summary.session.id, "abc");
    let plain = summarize_session(&s, &lines, false);
    assert_eq!(plain.preview, None);
}

#[test]
fn one_parsed_record_is_counted_into_a_summary() {
    let mut summary = SessionSummary {
        session: session("x"),
        user_messages: 0,
        assistant_messages: 0,
        other_records: 0,
        preview: None,
    };
    let user = JsonValue::Object(vec![
        ("message".to_string(), JsonValue::Object(vec![(
            "content".to_string(),
            JsonValue::Str("hi\nthere".to_string()),
        )])),
        ("type".to_string(), JsonValue::Str("user".to_string())),
    ]);
    count_summary_record(&mut summary, &user, true);
    count_summary_record(&mut summary, &JsonValue::Null, true);
    assert_eq!(summary.user_messages, 1);
    assert_eq!(summary.other_records, 1);
    assert_eq!(summary.preview.as_deref(), Some("hi there"));
}
