use cc_convo::normalize::parse_session_events;

fn lines(raw: &[&str]) -> Vec<String> {
    raw.iter().map(|l| l.to_string()).collect()
}

#[test]
fn parse_default_mode_extracts_text_only() {
    let file = lines(&[
        r#"{"type":"user","timestamp":"2026-02-21T00:00:00Z","message":{"content":[{"type":"text","text":"hello user"}]}}"#,
        r#"{"type":"assistant","timestamp":"2026-02-21T00:00:01Z","message":{"content":[{"type":"thinking","thinking":"private"},{"type":"tool_use","name":"x","input":{"a":1}},{"type":"text","text":"hello assistant"}]}}"#,
        r#"{"type":"progress","timestamp":"2026-02-21T00:00:02Z","data":{"type":"tool","hookName":"h"}}"#,
    ]);

    let parsed = parse_session_events(&file, false);
    assert_eq!(parsed.parse_errors, 0);
    assert_eq!(parsed.events.len(), 2);
    assert_eq!(parsed.events[0].role, "user");
    assert_eq!(parsed.events[0].content, "hello user");
    assert_eq!(parsed.events[1].role, "assistant");
    assert_eq!(parsed.events[1].content, "hello assistant");
}

#[test]
fn parse_detailed_mode_includes_operational_blocks() {
    let file = lines(&[
        r#"{"type":"assistant","timestamp":"2026-02-21T00:00:01Z","message":{"content":[{"type":"thinking","thinking":"private"},{"type":"tool_use","name":"x","input":{"a":1}},{"type":"tool_result","tool_use_id":"abc","content":"done"},{"type":"text","text":"visible"}]}}"#,
        r#"{"type":"progress","timestamp":"2026-02-21T00:00:02Z","data":{"type":"tool","hookName":"h"}}"#,
    ]);

    let parsed = parse_session_events(&file, true);
    assert_eq!(parsed.parse_errors, 0);
    assert_eq!(parsed.events.len(), 2);
    assert_eq!(parsed.events[0].role, "assistant");
    assert!(parsed.events[0].content.contains("[thinking]"));
    assert!(parsed.events[0].content.contains("[tool_use] x"));
    assert!(parsed.events[0].content.contains("[tool_result] abc"));
    assert!(parsed.events[0].content.contains("visible"));
    assert_eq!(parsed.events[1].role, "progress");
    assert!(parsed.events[1].content.contains("progress:tool"));
}

#[test]
fn user_text_block_yields_one_event() {
    let file = lines(&[
        r#"{"type":"user","timestamp":"T0","message":{"content":[{"type":"text","text":"hello user"}]}}"#,
    ]);
    let parsed = parse_session_events(&file, false);
    assert_eq!(parsed.parse_errors, 0);
    assert_eq!(parsed.events.len(), 1);
    assert_eq!(parsed.events[0].role, "user");
    assert_eq!(parsed.events[0].source_type, "user");
    assert_eq!(parsed.events[0].timestamp.as_deref(), Some("T0"));
    assert_eq!(parsed.events[0].content, "hello user");
}

#[test]
fn detail_mode_concatenates_blocks_in_order() {
    let file = lines(&[
        r#"{"type":"user","timestamp":"T0","message":{"content":[{"type":"text","text":"hello user"}]}}"#,
        r#"{"type":"assistant","message":{"content":[{"type":"thinking","thinking":"hmm"},{"type":"tool_use","name":"grep","input":{"a":1}},{"type":"text","text":"visible"}]}}"#,
    ]);
    let terse = parse_session_events(&file, false);
    assert_eq!(terse.events.len(), 2);
    assert_eq!(terse.events[1].content, "visible");
    let detailed = parse_session_events(&file, true);
    assert_eq!(detailed.events.len(), 2);
    assert_eq!(
        detailed.events[1].content,
        "[thinking]\nhmm\n[tool_use] grep\n{\n  \"a\": 1\n}\nvisible"
    );
    assert_eq!(detailed.events[1].timestamp, None);
}

#[test]
fn invalid_json_line_is_counted_and_skipped() {
    let file = lines(&[
        "{not json",
        r#"{"type":"user","message":{"content":"kept"}}"#,
    ]);
    let parsed = parse_session_events(&file, false);
    assert_eq!(parsed.parse_errors, 1);
    assert_eq!(parsed.events.len(), 1);
    assert_eq!(parsed.events[0].content, "kept");
}

#[test]
fn blank_lines_are_neither_events_nor_errors() {
    let file = lines(&["", "   \t", r#"{"type":"user","message":{"content":"x"}}"#]);
    let parsed = parse_session_events(&file, true);
    assert_eq!(parsed.parse_errors, 0);
    assert_eq!(parsed.events.len(), 1);
}

#[test]
fn whitespace_only_text_surfaces_no_event() {
    let file = lines(&[r#"{"type":"assistant","message":{"content":[{"type":"text","text":"  \n "}]}}"#]);
    let parsed = parse_session_events(&file, false);
    assert_eq!(parsed.events.len(), 0);
}

#[test]
fn normalizing_twice_gives_identical_events() {
    let file = lines(&[
        r#"{"type":"user","timestamp":"a","message":{"content":"one"}}"#,
        r#"{"type":"progress","data":{"type":"bash","command":"ls"}}"#,
        "oops",
    ]);
    for detailed in [false, true] {
        let a = parse_session_events(&file, detailed);
        let b = parse_session_events(&file, detailed);
        assert_eq!(a.parse_errors, b.parse_errors);
        assert_eq!(a.events.len(), b.events.len());
        for (x, y) in a.events.iter().zip(b.events.iter()) {
            assert_eq!(x.role, y.role);
            assert_eq!(x.timestamp, y.timestamp);
            assert_eq!(x.content, y.content);
        }
    }
}

#[test]
fn detail_mode_keeps_terse_dialog_text() {
    let file = lines(&[
        r#"{"type":"assistant","message":{"content":[{"type":"thinking","thinking":"only thoughts"}]}}"#,
        r#"{"type":"assistant","message":{"content":[{"type":"text","text":"a"},{"type":"image"},{"type":"text","text":"b"}]}}"#,
        r#"{"type":"system","subtype":"x"}"#,
    ]);
    let terse = parse_session_events(&file, false);
    let detailed = parse_session_events(&file, true);
    assert_eq!(terse.events.len(), 1);
    assert_eq!(terse.events[0].content, "a\nb");
    let dialog: Vec<_> = detailed
        .events
        .iter()
        .filter(|e| e.role == "user" || e.role == "assistant")
        .collect();
    assert_eq!(dialog.len(), 2);
    assert_eq!(dialog[1].content, "a\n[image omitted]\nb");
}

#[test]
fn non_dialog_records_are_summarized_in_detail_mode() {
    let long_cmd = "x".repeat(130);
    let progress = format!(
        r#"{{"type":"progress","data":{{"type":"hook_progress","hookName":"pre","command":"{}"}}}}"#,
        long_cmd
    );
    let file = lines(&[
        &progress,
        r#"{"type":"system","subtype":"stop"}"#,
        r#"{"type":"queue-operation","operation":"enqueue"}"#,
        r#"{"type":"file-history-snapshot","snapshot":{}}"#,
        r#"{"type":"system"}"#,
    ]);
    let terse = parse_session_events(&file, false);
    assert_eq!(terse.events.len(), 0);
    let parsed = parse_session_events(&file, true);
    assert_eq!(parsed.events.len(), 5);
    let expected = format!("progress:hook_progress hook=pre cmd={}...", "x".repeat(117));
    assert_eq!(parsed.events[0].content, expected);
    assert_eq!(parsed.events[1].content, "system:stop");
    assert_eq!(parsed.events[2].content, "queue-operation:enqueue");
    assert_eq!(parsed.events[3].content, "file-history-snapshot");
    assert_eq!(parsed.events[4].content, "system:unknown");
    assert_eq!(parsed.events[2].role, "queue-operation");
}

#[test]
fn unknown_record_kind_renders_as_json_in_detail_mode() {
    let file = lines(&[r#"{"zeta":1,"alpha":"b"}"#, r#"{"type":"summary","summary":"s"}"#]);
    let parsed = parse_session_events(&file, true);
    assert_eq!(parsed.events.len(), 2);
    assert_eq!(parsed.events[0].role, "unknown");
    assert_eq!(parsed.events[0].content, r#"{"alpha":"b","zeta":1}"#);
    assert_eq!(parsed.events[1].role, "summary");
    assert_eq!(parsed.events[1].content, r#"{"summary":"s","type":"summary"}"#);
    assert!(parse_session_events(&file, false).events.is_empty());
}

#[test]
fn content_shapes_other_than_blocks() {
    let file = lines(&[
        r#"{"type":"user","message":{"content":"plain string"}}"#,
        r#"{"type":"user","message":{"content":{"k":[1,2]}}}"#,
        r#"{"type":"user","message":{"content":["bare", {"type":"text","text":"t"}, 5]}}"#,
        r#"{"type":"user","message":{"content":[{"type":"document"},{"type":"tool_result","tool_use_id":"id9"},{"type":"tool_use"}]}}"#,
    ]);
    let parsed = parse_session_events(&file, true);
    assert_eq!(parsed.events.len(), 4);
    assert_eq!(parsed.events[0].content, "plain string");
    assert_eq!(parsed.events[1].content, r#"{"k":[1,2]}"#);
    assert_eq!(parsed.events[2].content, "bare\nt");
    assert_eq!(
        parsed.events[3].content,
        "[document omitted]\n[tool_result] id9\nnull\n[tool_use] unknown\n{}"
    );
}

#[test]
fn long_tool_result_is_cut_to_its_limit() {
    let body = "y".repeat(1300);
    let line = format!(
        r#"{{"type":"user","message":{{"content":[{{"type":"tool_result","tool_use_id":"t","content":"{}"}}]}}}}"#,
        body
    );
    let parsed = parse_session_events(&lines(&[&line]), true);
    let expected = format!("[tool_result] t\n\"{}...", "y".repeat(1196));
    assert_eq!(parsed.events[0].content, expected);
}
