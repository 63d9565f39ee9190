use cc_convo::session::{
    order_sessions, parse_index, resolve_session_target, select_sessions_for_export,
    session_matches_project, short_id, ExportSelection, ResolveError, SelectError, Session,
};

fn session(index: usize, id: &str, epoch: i64, path: &str) -> Session {
    Session {
        index,
        id: id.to_string(),
        id_short: short_id(id),
        project: "My-Project".to_string(),
        path: path.to_string(),
        modified_iso: "2026-01-01T00:00:00Z".to_string(),
        modified_epoch: epoch,
        size_bytes: 0,
    }
}

fn listed() -> Vec<Session> {
    vec![
        session(1, "aaaaaaaa-1111", 30, "/x/a"),
        session(2, "bbbbbbbb-2222", 20, "/x/b"),
        session(3, "cccccccc-3333", 10, "/x/c"),
    ]
}

fn selection() -> ExportSelection {
    ExportSelection { sessions: vec![], indices: vec![], recent: None, all: false, search: None }
}

#[test]
fn short_id_keeps_eight_characters() {
    assert_eq!(short_id("0123456789"), "01234567");
    assert_eq!(short_id("abc"), "abc");
    assert_eq!(short_id(""), "");
}

#[test]
fn index_parsing_follows_usize_from_str() {
    assert_eq!(parse_index("42"), Some(42));
    assert_eq!(parse_index("+7"), Some(7));
    assert_eq!(parse_index("0"), Some(0));
    assert_eq!(parse_index(""), None);
    assert_eq!(parse_index("+"), None);
    assert_eq!(parse_index("-1"), None);
    assert_eq!(parse_index("4a"), None);
    assert_eq!(parse_index("99999999999999999999999"), None);
    assert_eq!(parse_index(&usize::MAX.to_string()), Some(usize::MAX));
}

#[test]
fn targets_resolve_by_index_or_id() {
    let s = listed();
    assert_eq!(resolve_session_target(&s, "2").ok().unwrap().id, "bbbbbbbb-2222");
    assert_eq!(resolve_session_target(&s, "cccccccc").ok().unwrap().index, 3);
    assert_eq!(resolve_session_target(&s, "aaaaaaaa-1111").ok().unwrap().index, 1);
    assert!(matches!(resolve_session_target(&s, "0"), Err(ResolveError::ZeroIndex)));
    assert!(matches!(resolve_session_target(&s, "4"), Err(ResolveError::InvalidIndex(4))));
    match resolve_session_target(&s, "zzz") {
        Err(ResolveError::NotFound(t)) => assert_eq!(t, "zzz"),
        _ => panic!("an unknown id must not resolve"),
    }
}

#[test]
fn selection_gathers_unique_sessions_in_index_order() {
    let s = listed();
    let mut sel = selection();
    sel.sessions = vec!["cccccccc".to_string()];
    sel.indices = vec![1, 3];
    let chosen = select_sessions_for_export(&s, &sel, &vec![]).ok().unwrap();
    let ids: Vec<usize> = chosen.iter().map(|x| x.index).collect();
    assert_eq!(ids, vec![1, 3]);
    let mut recent = selection();
    recent.recent = Some(2);
    let chosen = select_sessions_for_export(&s, &recent, &vec![]).ok().unwrap();
    assert_eq!(chosen.len(), 2);
    let mut all = selection();
    all.all = true;
    assert_eq!(select_sessions_for_export(&s, &all, &vec![]).ok().unwrap().len(), 3);
    let mut searched = selection();
    searched.search = Some("q".to_string());
    let hits = vec!["bbbbbbbb-2222".to_string(), "bbbbbbbb-2222".to_string()];
    let chosen = select_sessions_for_export(&s, &searched, &hits).ok().unwrap();
    assert_eq!(chosen.len(), 1);
    assert_eq!(chosen[0].index, 2);
}

#[test]
fn selection_errors() {
    let s = listed();
    let mut sel = selection();
    sel.sessions = vec!["nope".to_string()];
    sel.indices = vec![0];
    match select_sessions_for_export(&s, &sel, &vec![]) {
        Err(SelectError::SessionNotFound(id)) => assert_eq!(id, "nope"),
        _ => panic!("an unknown id must fail first"),
    }
    sel.sessions = vec![];
    assert!(matches!(select_sessions_for_export(&s, &sel, &vec![]), Err(SelectError::ZeroIndex)));
    sel.indices = vec![9];
    assert!(matches!(
        select_sessions_for_export(&s, &sel, &vec![]),
        Err(SelectError::InvalidIndex(9))
    ));
    assert!(matches!(
        select_sessions_for_export(&s, &selection(), &vec![]),
        Err(SelectError::NothingSelected)
    ));
    let mut searched = selection();
    searched.search = Some("q".to_string());
    assert!(matches!(
        select_sessions_for_export(&s, &searched, &vec![]),
        Err(SelectError::NothingSelected)
    ));
}

#[test]
fn discovered_sessions_are_listed_newest_first() {
    let found = vec![
        session(0, "old", 5, "/b"),
        session(0, "tie-b", 9, "/z"),
        session(0, "tie-a", 9, "/a"),
        session(0, "new", 12, "/c"),
    ];
    let ordered = order_sessions(found);
    let ids: Vec<&str> = ordered.iter().map(|s| s.id.as_str()).collect();
    assert_eq!(ids, vec!["new", "tie-a", "tie-b", "old"]);
    let idx: Vec<usize> = ordered.iter().map(|s| s.index).collect();
    assert_eq!(idx, vec![1, 2, 3, 4]);
}

#[test]
fn project_filter_ignores_case() {
    let s = session(1, "id", 1, "/home/Work/file.jsonl");
    assert!(session_matches_project(&s, "my-proj"));
    assert!(session_matches_project(&s, "WORK"));
    assert!(!session_matches_project(&s, "other"));
}
