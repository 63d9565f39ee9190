use cc_convo::search::{
    build_context_preview, clean_preview, matched_session_ids, preview_from_folded, score_event, search_sessions,
    Relevance, SearchArgs, SearchError, SearchMode, SpeakerFilter,
};
use cc_convo::session::{LoadedSession, Session};
use cc_convo::text::{split_words, to_chars};

fn session(id: &str) -> Session {
    Session {
        index: 1,
        id: id.to_string(),
        id_short: id.chars().take(8).collect(),
        project: "proj".to_string(),
        path: format!("/p/{}.jsonl", id),
        modified_iso: "2026-01-02T03:04:05Z".to_string(),
        modified_epoch: 1,
        size_bytes: 10,
    }
}

fn loaded(id: &str, raw: &[&str]) -> LoadedSession {
    LoadedSession { session: session(id), lines: raw.iter().map(|s| s.to_string()).collect() }
}

fn user(text: &str) -> String {
    format!(r#"{{"type":"user","message":{{"content":"{}"}}}}"#, text)
}

fn assistant(text: &str) -> String {
    format!(r#"{{"type":"assistant","message":{{"content":"{}"}}}}"#, text)
}

fn args(query: &str, mode: SearchMode) -> SearchArgs {
    SearchArgs {
        query: query.to_string(),
        mode,
        speaker: SpeakerFilter::Both,
        case_sensitive: false,
        max_results: 30,
        context_chars: 150,
    }
}

fn value(r: Relevance) -> f64 {
    r.num as f64 / r.den as f64
}

fn smart_score(text: &str, query: &str) -> Option<Relevance> {
    let hay = to_chars(text);
    let needle = to_chars(query);
    let toks = split_words(&needle);
    score_event(SearchMode::Smart, &hay, &needle, &toks, false)
}

#[test]
fn smart_partial_match_scores_the_word_fraction() {
    let r = smart_score("only alpha here", "alpha beta").unwrap();
    assert_eq!((r.num, r.den), (4, 20));
    assert!((value(r) - 0.2).abs() < 1e-12);
}

#[test]
fn smart_whole_query_match_scores_full() {
    let r = smart_score("say alpha beta now", "alpha beta").unwrap();
    assert_eq!(value(r), 1.0);
    assert!(smart_score("nothing", "alpha beta").is_none());
    let two_of_three = smart_score("one two", "one two three").unwrap();
    assert_eq!((two_of_three.num, two_of_three.den), (8, 30));
    assert!(smart_score("one", "one two three").is_none());
}

#[test]
fn exact_score_grows_with_occurrences_up_to_one() {
    let hay = to_chars("ab ab ab");
    let needle = to_chars("ab");
    let toks = split_words(&needle);
    let r = score_event(SearchMode::Exact, &hay, &needle, &toks, false).unwrap();
    assert_eq!((r.num, r.den), (8, 10));
    let many = to_chars("ababababababab");
    let r = score_event(SearchMode::Exact, &many, &needle, &toks, false).unwrap();
    assert_eq!(value(r), 1.0);
    let overlapping = to_chars("aaaa");
    let aa = to_chars("aa");
    let r = score_event(SearchMode::Exact, &overlapping, &aa, &split_words(&aa), false).unwrap();
    assert_eq!((r.num, r.den), (7, 10));
}

#[test]
fn regex_score_follows_the_match() {
    let hay = to_chars("x");
    let needle = to_chars("y");
    let toks = split_words(&needle);
    let r = score_event(SearchMode::Regex, &hay, &needle, &toks, true).unwrap();
    assert_eq!((r.num, r.den), (8, 10));
    assert!(score_event(SearchMode::Regex, &hay, &needle, &toks, false).is_none());
}

#[test]
fn exact_search_for_absent_query_is_empty() {
    let sessions = vec![loaded("s1", &[&user("hello there"), &assistant("general kenobi")])];
    let hits = search_sessions(&sessions, &args("absent", SearchMode::Exact)).ok().unwrap();
    assert!(hits.is_empty());
}

#[test]
fn smart_search_finds_partial_match() {
    let sessions = vec![loaded("s1", &[&user("alpha only")])];
    let hits = search_sessions(&sessions, &args("alpha beta", SearchMode::Smart)).ok().unwrap();
    assert_eq!(hits.len(), 1);
    assert!((value(hits[0].relevance) - 0.2).abs() < 1e-12);
    assert_eq!(hits[0].speaker, "user");
    assert_eq!(hits[0].preview, "alpha only");
}

#[test]
fn search_ranks_by_relevance_then_session_id() {
    let sessions = vec![
        loaded("zeta", &[&user("needle")]),
        loaded("alpha", &[&user("needle needle needle")]),
        loaded("beta", &[&user("needle")]),
    ];
    let hits = search_sessions(&sessions, &args("needle", SearchMode::Exact)).ok().unwrap();
    let order: Vec<&str> = hits.iter().map(|h| h.session_id.as_str()).collect();
    assert_eq!(order, vec!["alpha", "beta", "zeta"]);
    for h in &hits {
        assert!(h.relevance.num <= h.relevance.den);
    }
    let again = search_sessions(&sessions, &args("needle", SearchMode::Exact)).ok().unwrap();
    let order2: Vec<&str> = again.iter().map(|h| h.session_id.as_str()).collect();
    assert_eq!(order, order2);
}

#[test]
fn search_is_case_insensitive_unless_asked() {
    let sessions = vec![loaded("s", &[&user("Hello World")])];
    let hits = search_sessions(&sessions, &args("hello", SearchMode::Exact)).ok().unwrap();
    assert_eq!(hits.len(), 1);
    let mut strict = args("hello", SearchMode::Exact);
    strict.case_sensitive = true;
    assert!(search_sessions(&sessions, &strict).ok().unwrap().is_empty());
}

#[test]
fn speaker_filter_and_result_limit() {
    let sessions = vec![loaded("s", &[&user("topic"), &assistant("topic"), &assistant("topic")])];
    let mut a = args("topic", SearchMode::Exact);
    a.speaker = SpeakerFilter::Assistant;
    let hits = search_sessions(&sessions, &a).ok().unwrap();
    assert_eq!(hits.len(), 2);
    assert!(hits.iter().all(|h| h.speaker == "assistant"));
    a.max_results = 1;
    assert_eq!(search_sessions(&sessions, &a).ok().unwrap().len(), 1);
    a.speaker = SpeakerFilter::User;
    a.max_results = 30;
    assert_eq!(search_sessions(&sessions, &a).ok().unwrap().len(), 1);
}

#[test]
fn regex_search_matches_and_rejects_bad_patterns() {
    let sessions = vec![loaded("s", &[&user("error 404 here"), &user("fine")])];
    let hits = search_sessions(&sessions, &args("[0-9]+", SearchMode::Regex)).ok().unwrap();
    assert_eq!(hits.len(), 1);
    assert!((value(hits[0].relevance) - 0.8).abs() < 1e-12);
    let upper = search_sessions(&sessions, &args("ERROR", SearchMode::Regex)).ok().unwrap();
    assert_eq!(upper.len(), 1);
    match search_sessions(&sessions, &args("(", SearchMode::Regex)) {
        Err(SearchError::InvalidRegex { query, reason }) => {
            assert_eq!(query, "(");
            assert!(!reason.is_empty());
        }
        Ok(_) => panic!("an unbalanced group must not compile"),
    }
}

#[test]
fn matched_ids_follow_the_hits() {
    let sessions = vec![loaded("one", &[&user("nothing")]), loaded("two", &[&user("the word")])];
    let ids = matched_session_ids(&sessions, "word".to_string());
    assert_eq!(ids, vec!["two".to_string()]);
}

#[test]
fn preview_windows_around_the_first_match() {
    let text = "0123456789 target 0123456789";
    let p = build_context_preview(text, "TARGET", 3, false);
    assert_eq!(p, "...89 target 01...");
    let whole = build_context_preview("a\ntarget\nb", "target", 10, false);
    assert_eq!(whole, "a target b");
    let strict = build_context_preview(text, "TARGET", 3, true);
    assert_eq!(strict, "012...");
}

#[test]
fn clean_preview_flattens_trims_and_cuts() {
    assert_eq!(clean_preview("  line one\nline two \n"), "line one line two");
    let long = "w".repeat(200);
    let p = clean_preview(&long);
    assert_eq!(p.chars().count(), 140);
    assert!(p.ends_with("..."));
}

#[test]
fn preview_from_folded_texts_windows_the_original() {
    let p = preview_from_folded("Hello BIG World", "hello big world", "big", 2);
    assert_eq!(p, "...o BIG W...");
    let none = preview_from_folded("Hello\nWorld", "hello\nworld", "zzz", 3);
    assert_eq!(none, "Hel...");
}

#[test]
fn bad_line_in_the_middle_counts_once() {
    let good: Vec<String> = vec![user("a"), assistant("b")];
    let mut with_bad = good.clone();
    with_bad.insert(1, "{broken".to_string());
    let a = cc_convo::normalize::parse_session_events(&good, false);
    let b = cc_convo::normalize::parse_session_events(&with_bad, false);
    assert_eq!(b.parse_errors, a.parse_errors + 1);
    assert_eq!(a.events.len(), b.events.len());
}
