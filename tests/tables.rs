use cc_convo::doctor::{check_path_exists, CheckResult};
use cc_convo::inventory::{
    build_time_filter, canonical_path, csv_escape, describe_field, record_shape, value_shape, PathSeg,
    TimeFilterError,
};
use cc_convo::json::JsonValue;
use cc_convo::stats::{increment_count, tally_lines, tally_record, top_n_sorted_map, CorpusStats};
use cc_convo::text::ellipsize;

#[test]
fn counts_increase_per_key() {
    let mut map: Vec<(String, u64)> = Vec::new();
    increment_count(&mut map, "a".to_string());
    increment_count(&mut map, "b".to_string());
    increment_count(&mut map, "a".to_string());
    assert_eq!(map, vec![("a".to_string(), 2), ("b".to_string(), 1)]);
}

#[test]
fn top_entries_by_count_then_key() {
    let map = vec![
        ("b".to_string(), 2),
        ("c".to_string(), 5),
        ("a".to_string(), 2),
        ("d".to_string(), 1),
    ];
    let top = top_n_sorted_map(map.clone(), 3);
    assert_eq!(top, vec![("c".to_string(), 5), ("a".to_string(), 2), ("b".to_string(), 2)]);
    assert_eq!(top_n_sorted_map(map, 10).len(), 4);
}

#[test]
fn corpus_tally_counts_types_blocks_and_models() {
    let lines: Vec<String> = [
        r#"{"type":"assistant","message":{"model":"m1","content":[{"type":"text"},{"type":"tool_use"},{"x":1}]}}"#,
        r#"{"type":"assistant","message":{"model":"m1","content":"s"}}"#,
        r#"{"type":"user","message":{"model":"ignored","content":[{"type":"text"}]}}"#,
        r#"{"message":1}"#,
        "nope",
        "",
    ]
    .iter()
    .map(|s| s.to_string())
    .collect();
    let mut stats = CorpusStats::new();
    tally_lines(&mut stats, &lines);
    assert_eq!(stats.total_records, 4);
    assert_eq!(stats.parse_errors, 1);
    assert_eq!(
        stats.record_types,
        vec![("assistant".to_string(), 2), ("user".to_string(), 1), ("<missing>".to_string(), 1)]
    );
    assert_eq!(stats.block_types, vec![("text".to_string(), 2), ("tool_use".to_string(), 1)]);
    assert_eq!(stats.models, vec![("m1".to_string(), 2)]);
}

#[test]
fn canonical_paths_replace_backup_keys() {
    let segs = vec![
        PathSeg::Key("snapshot".to_string()),
        PathSeg::Key("trackedFileBackups".to_string()),
        PathSeg::Key("/home/me/file.rs".to_string()),
        PathSeg::Key("version".to_string()),
    ];
    assert_eq!(canonical_path(&segs), "snapshot.trackedFileBackups.{path}.version");
    let arr = vec![PathSeg::Key("message".to_string()), PathSeg::Key("content".to_string()), PathSeg::Array, PathSeg::Key("type".to_string())];
    assert_eq!(canonical_path(&arr), "message.content[].type");
    assert_eq!(canonical_path(&[]), "");
}

#[test]
fn csv_fields_are_quoted() {
    assert_eq!(csv_escape(r#"say "hi""#), r#""say ""hi""""#);
    assert_eq!(csv_escape(""), "\"\"");
}

#[test]
fn time_filters() {
    let (desc, cut) = build_time_filter(Some(2), None, 10_000).ok().unwrap();
    assert_eq!(desc, "last 2 hour(s)");
    assert_eq!(cut, Some(10_000 - 7200));
    let (desc, cut) = build_time_filter(None, Some(1), 50).ok().unwrap();
    assert_eq!(desc, "last 1 day(s)");
    assert_eq!(cut, Some(0));
    let (desc, cut) = build_time_filter(None, None, 50).ok().unwrap();
    assert_eq!((desc.as_str(), cut), ("none", None));
    assert!(matches!(build_time_filter(Some(0), None, 1), Err(TimeFilterError::ZeroHours)));
    assert!(matches!(build_time_filter(None, Some(0), 1), Err(TimeFilterError::ZeroDays)));
    assert!(matches!(build_time_filter(Some(1), Some(1), 1), Err(TimeFilterError::BothGiven)));
    let (_, cut) = build_time_filter(Some(u64::MAX), None, 100).ok().unwrap();
    assert_eq!(cut, Some(0));
}

#[test]
fn check_results_keep_their_parts() {
    let c = CheckResult::new("n".to_string(), true, "d".to_string());
    assert_eq!((c.name.as_str(), c.ok, c.details.as_str()), ("n", true, "d"));
    let p = check_path_exists("exists", false, "/nowhere");
    assert_eq!((p.name.as_str(), p.ok, p.details.as_str()), ("exists", false, "/nowhere"));
}

#[test]
fn ellipsize_cuts_to_the_limit() {
    assert_eq!(ellipsize("abcdef", 6), "abcdef");
    assert_eq!(ellipsize("abcdefg", 6), "abc...");
    assert_eq!(ellipsize("abcdefg", 2), "...");
}

#[test]
fn field_descriptions_come_from_the_first_matching_rule() {
    assert_eq!(describe_field("type"), "Top-level record category.");
    assert_eq!(
        describe_field("message.usage.input_tokens"),
        "Token/service usage accounting for this assistant message."
    );
    assert_eq!(
        describe_field("snapshot.trackedFileBackups.{path}.version"),
        "Tracked backup metadata for a specific file path (path key is canonicalized)."
    );
    assert_eq!(
        describe_field("data.items[].value"),
        "Auto-generated: field value in path data.items[].value."
    );
    assert_eq!(describe_field("list[]"), "Auto-generated: field list in path list[].");
    assert_eq!(describe_field("typed"), "Auto-generated: field typed in path typed.");
}

#[test]
fn record_shapes_list_every_member_path() {
    let shape = record_shape(r#"{"type":"user","message":{"content":[{"type":"text"},{"id":1}]}}"#).unwrap();
    assert_eq!(shape.kind, "user");
    assert_eq!(
        shape.paths,
        vec![
            "message",
            "message.content",
            "message.content[].type",
            "message.content[].id",
            "type",
        ]
    );
    let bare = record_shape("[1,{\"a\":{}}]").unwrap();
    assert_eq!(bare.kind, "<missing>");
    assert_eq!(bare.paths, vec!["[].a"]);
    assert!(record_shape("{").is_none());
}

#[test]
fn one_parsed_record_is_tallied() {
    let record = JsonValue::Object(vec![
        ("message".to_string(), JsonValue::Object(vec![
            ("content".to_string(), JsonValue::Array(vec![JsonValue::Object(vec![(
                "type".to_string(),
                JsonValue::Str("thinking".to_string()),
            )])])),
            ("model".to_string(), JsonValue::Str("m2".to_string())),
        ])),
        ("type".to_string(), JsonValue::Str("assistant".to_string())),
    ]);
    let mut stats = CorpusStats::new();
    tally_record(&mut stats, &record);
    tally_record(&mut stats, &record);
    assert_eq!(stats.total_records, 2);
    assert_eq!(stats.record_types, vec![("assistant".to_string(), 2)]);
    assert_eq!(stats.block_types, vec![("thinking".to_string(), 2)]);
    assert_eq!(stats.models, vec![("m2".to_string(), 2)]);
    let shape = value_shape(&record);
    assert_eq!(shape.kind, "assistant");
    assert_eq!(
        shape.paths,
        vec!["message", "message.content", "message.content[].type", "message.model", "type"]
    );
}
