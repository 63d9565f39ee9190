//! The event normalizer: a file's lines in, an ordered list of events and a count of
//! unparseable lines out.
use crate::json::{parse_json, parsed_json, get_str, same_text, str_field, text_or, JsonValue};
use crate::json::field;
use crate::record::{
    block_part, block_parts, extract_message_text, join_lines, message_text,
    non_dialog_summary, summarize_non_dialog_record, truncate_value, truncated_json,
    RECORD_JSON_LIMIT,
};
use crate::search::{clean_preview, message_preview};
use crate::session::Session;
use crate::text::{blank, from_chars, is_blank, is_ws, str_is_blank, to_chars};
use vstd::prelude::*;

verus! {

/// One normalized unit of conversation.
pub struct NormalizedEvent {
    pub role: String,
    pub source_type: String,
    pub timestamp: Option<String>,
    pub content: String,
}

/// What an event holds, as texts.
pub struct EventView {
    pub role: Seq<char>,
    pub source_type: Seq<char>,
    pub timestamp: Option<Seq<char>>,
    pub content: Seq<char>,
}

/// The text of an optional string.
pub open spec fn opt_view(s: Option<String>) -> Option<Seq<char>> {
    match s {
        Some(t) => Some(t@),
        None => None,
    }
}

impl View for NormalizedEvent {
    type V = EventView;

    open spec fn view(&self) -> EventView {
        EventView {
            role: self.role@,
            source_type: self.source_type@,
            timestamp: opt_view(self.timestamp),
            content: self.content@,
        }
    }
}

/// The events of one file, in line order, and the number of lines that were not JSON.
pub struct ParseOutput {
    pub events: Vec<NormalizedEvent>,
    pub parse_errors: u64,
}

/// The views of a list of events.
pub open spec fn event_views(events: Seq<NormalizedEvent>) -> Seq<EventView> {
    events.map_values(|e: NormalizedEvent| e@)
}

/// The texts of a list of lines.
pub open spec fn line_views(lines: Seq<String>) -> Seq<Seq<char>> {
    lines.map_values(|l: String| l@)
}

/// The record kinds that are not dialog and get a one-line summary.
pub open spec fn is_non_dialog_kind(t: Seq<char>) -> bool {
    t == "system"@ || t == "progress"@ || t == "queue-operation"@ || t
        == "file-history-snapshot"@
}

/// The record's `type`; `unknown` when it has none.
pub open spec fn record_kind(record: JsonValue) -> Seq<char> {
    text_or(str_field(record, "type"@), "unknown"@)
}

/// The event that a parsed record surfaces, if any.
pub open spec fn record_event(record: JsonValue, detailed: bool) -> Option<EventView> {
    let t = record_kind(record);
    let ts = str_field(record, "timestamp"@);
    if t == "user"@ || t == "assistant"@ {
        let text = message_text(record, detailed);
        if blank(text) {
            None
        } else {
            Some(EventView { role: t, source_type: t, timestamp: ts, content: text })
        }
    } else if !detailed {
        None
    } else {
        let text = if is_non_dialog_kind(t) {
            non_dialog_summary(record)
        } else {
            truncated_json(record, RECORD_JSON_LIMIT as nat)
        };
        if blank(text) {
            None
        } else {
            Some(EventView { role: t, source_type: t, timestamp: ts, content: text })
        }
    }
}

/// The events of a file's lines, and the number of non-blank lines that were not JSON.
/// Blank lines are skipped.
pub open spec fn normalized(lines: Seq<Seq<char>>, detailed: bool) -> (Seq<EventView>, nat)
    decreases lines.len(),
{
    if lines.len() == 0 {
        (seq![], 0)
    } else {
        let (events, errors) = normalized(lines.drop_last(), detailed);
        let line = lines.last();
        if blank(line) {
            (events, errors)
        } else {
            match parsed_json(line) {
                None => (events, errors + 1),
                Some(record) => match record_event(record, detailed) {
                    Some(e) => (events.push(e), errors),
                    None => (events, errors),
                },
            }
        }
    }
}

/// What holds of every surfaced event: its content is not blank, its role is its record
/// kind, and without detail only users and assistants speak.
pub open spec fn surfaced(e: EventView, detailed: bool) -> bool {
    !blank(e.content) && e.role == e.source_type && (!detailed ==> (e.role == "user"@ || e.role
        == "assistant"@))
}

/// Every event of normalized lines is surfaced.
pub proof fn lemma_normalized_surfaced(lines: Seq<Seq<char>>, detailed: bool)
    ensures
        forall|i: int|
            0 <= i < normalized(lines, detailed).0.len() ==> surfaced(
                #[trigger] normalized(lines, detailed).0[i],
                detailed,
            ),
    decreases lines.len(),
{
    if lines.len() > 0 {
        lemma_normalized_surfaced(lines.drop_last(), detailed);
        let before = normalized(lines.drop_last(), detailed).0;
        let now = normalized(lines, detailed).0;
        assert forall|i: int| 0 <= i < now.len() implies surfaced(#[trigger] now[i], detailed) by {
            if i < before.len() {
                assert(now[i] == before[i]);
            }
        }
    }
}

/// The event that a parsed record surfaces, if any.
pub fn normalize_record(record: &JsonValue, detailed: bool) -> (r: Option<NormalizedEvent>)
    ensures
        r is Some == record_event(*record, detailed) is Some,
        r is Some ==> r->0@ == record_event(*record, detailed)->0,
{
    let kind = match get_str(record, "type") {
        Some(t) => t.clone(),
        None => from_chars(to_chars("unknown").as_slice()),
    };
    let timestamp = match get_str(record, "timestamp") {
        Some(t) => Some(t.clone()),
        None => None,
    };
    if same_text(kind.as_str(), "user") || same_text(kind.as_str(), "assistant") {
        let text = extract_message_text(record, detailed);
        if is_blank(text.as_slice()) {
            None
        } else {
            Some(
                NormalizedEvent {
                    role: kind.clone(),
                    source_type: kind,
                    timestamp,
                    content: from_chars(text.as_slice()),
                },
            )
        }
    } else if !detailed {
        None
    } else if same_text(kind.as_str(), "system") || same_text(kind.as_str(), "progress")
        || same_text(kind.as_str(), "queue-operation") || same_text(
        kind.as_str(),
        "file-history-snapshot",
    ) {
        let short = summarize_non_dialog_record(record);
        if is_blank(short.as_slice()) {
            return None;
        }
        Some(
            NormalizedEvent {
                role: kind.clone(),
                source_type: kind,
                timestamp,
                content: from_chars(short.as_slice()),
            },
        )
    } else {
        let text = truncate_value(record, RECORD_JSON_LIMIT);
        if is_blank(text.as_slice()) {
            return None;
        }
        Some(
            NormalizedEvent {
                role: kind.clone(),
                source_type: kind,
                timestamp,
                content: from_chars(text.as_slice()),
            },
        )
    }
}

/// Normalizes a file's lines: blank lines are skipped, a line that is not JSON is
/// counted and skipped, and each other line surfaces at most one event, in line order.
pub fn parse_session_events(lines: &Vec<String>, detailed: bool) -> (r: ParseOutput)
    ensures
        event_views(r.events@) == normalized(line_views(lines@), detailed).0,
        r.parse_errors as nat == normalized(line_views(lines@), detailed).1,
        forall|i: int|
            0 <= i < r.events@.len() ==> surfaced(#[trigger] r.events@[i]@, detailed),
{
    proof {
        lemma_normalized_surfaced(line_views(lines@), detailed);
    }
    let mut events: Vec<NormalizedEvent> = Vec::new();
    let mut parse_errors: u64 = 0;
    let mut i: usize = 0;
    while i < lines.len()
        invariant
            i <= lines.len(),
            parse_errors <= i,
            event_views(events@) == normalized(line_views(lines@.take(i as int)), detailed).0,
            parse_errors as nat == normalized(line_views(lines@.take(i as int)), detailed).1,
        decreases lines.len() - i,
    {
        let ghost before = line_views(lines@.take(i as int));
        assert(line_views(lines@.take(i + 1)).drop_last() =~= before);
        assert(line_views(lines@.take(i + 1)).last() == lines@[i as int]@);
        let line = &lines[i];
        if !str_is_blank(line.as_str()) {
            match parse_json(line.as_str()) {
                None => {
                    parse_errors = parse_errors + 1;
                },
                Some(record) => {
                    match normalize_record(&record, detailed) {
                        Some(e) => {
                            events.push(e);
                            assert(event_views(events@) =~= normalized(before, detailed).0.push(
                                e@,
                            ));
                        },
                        None => {},
                    }
                },
            }
        }
        i = i + 1;
    }
    assert(lines@.take(i as int) =~= lines@);
    assert forall|k: int| 0 <= k < events@.len() implies surfaced(#[trigger] events@[k]@, detailed) by {
        assert(event_views(events@)[k] == events@[k]@);
    }
    ParseOutput { events, parse_errors }
}

/// Normalizing the same lines twice with the same detail flag gives the same events, in
/// the same order, and the same error count.
pub proof fn lemma_normalize_idempotent(first: Seq<Seq<char>>, second: Seq<Seq<char>>, detailed: bool)
    requires
        first == second,
    ensures
        normalized(first, detailed) == normalized(second, detailed),
{
}

/// `a` is a subsequence of `b`: `b` holds the elements of `a`, in order, perhaps with
/// others between them.
pub open spec fn is_subseq<A>(a: Seq<A>, b: Seq<A>) -> bool
    decreases b.len(),
{
    if a.len() == 0 {
        true
    } else if b.len() == 0 {
        false
    } else {
        (a.last() == b.last() && is_subseq(a.drop_last(), b.drop_last())) || is_subseq(
            a,
            b.drop_last(),
        )
    }
}

proof fn lemma_subseq_refl<A>(a: Seq<A>)
    ensures
        is_subseq(a, a),
    decreases a.len(),
{
    if a.len() > 0 {
        lemma_subseq_refl(a.drop_last());
    }
}

proof fn lemma_subseq_extend<A>(a: Seq<A>, b: Seq<A>, c: Seq<A>)
    requires
        is_subseq(a, b),
    ensures
        is_subseq(a, b + c),
    decreases c.len(),
{
    if c.len() == 0 {
        assert(b + c =~= b);
    } else {
        lemma_subseq_extend(a, b, c.drop_last());
        assert((b + c).drop_last() =~= b + c.drop_last());
    }
}

proof fn lemma_subseq_concat<A>(a1: Seq<A>, b1: Seq<A>, a2: Seq<A>, b2: Seq<A>)
    requires
        is_subseq(a1, b1),
        is_subseq(a2, b2),
    ensures
        is_subseq(a1 + a2, b1 + b2),
    decreases b2.len(),
{
    if a2.len() == 0 {
        assert(a1 + a2 =~= a1);
        lemma_subseq_extend(a1, b1, b2);
    } else {
        assert((a1 + a2).drop_last() =~= a1 + a2.drop_last());
        assert((b1 + b2).drop_last() =~= b1 + b2.drop_last());
        if a2.last() == b2.last() && is_subseq(a2.drop_last(), b2.drop_last()) {
            lemma_subseq_concat(a1, b1, a2.drop_last(), b2.drop_last());
        } else {
            lemma_subseq_concat(a1, b1, a2, b2.drop_last());
        }
    }
}

proof fn lemma_join_kept(p: Seq<Seq<char>>, q: Seq<Seq<char>>)
    requires
        is_subseq(p, q),
    ensures
        is_subseq(join_lines(p), join_lines(q)),
    decreases q.len(),
{
    if p.len() > 0 {
        let (p0, q0, last) = (p.drop_last(), q.drop_last(), q.last());
        if p.last() == last && is_subseq(p0, q0) {
            if p0.len() == 0 {
                lemma_subseq_refl(last);
                if q0.len() > 0 {
                    lemma_subseq_concat(seq![], join_lines(q0) + seq!['\n'], last, last);
                    assert(Seq::<char>::empty() + last =~= last);
                }
            } else {
                lemma_join_kept(p0, q0);
                lemma_subseq_refl(seq!['\n'] + last);
                lemma_subseq_concat(join_lines(p0), join_lines(q0), seq!['\n'] + last, seq!['\n'] + last);
                assert(join_lines(p0) + (seq!['\n'] + last) =~= join_lines(p0) + seq!['\n'] + last);
                assert(join_lines(q0) + (seq!['\n'] + last) =~= join_lines(q0) + seq!['\n'] + last);
            }
        } else {
            lemma_join_kept(p, q0);
            lemma_subseq_extend(join_lines(p), join_lines(q0), seq!['\n'] + last);
            assert(join_lines(q0) + (seq!['\n'] + last) =~= join_lines(q0) + seq!['\n'] + last);
        }
    }
}

proof fn lemma_parts_kept(items: Seq<crate::json::JsonValue>)
    ensures
        is_subseq(block_parts(items, false), block_parts(items, true)),
    decreases items.len(),
{
    if items.len() > 0 {
        lemma_parts_kept(items.drop_last());
        let p0 = block_parts(items.drop_last(), false);
        let q0 = block_parts(items.drop_last(), true);
        let x = items.last();
        match block_part(x, false) {
            Some(part) => {
                assert(block_part(x, true) == Some(part));
                assert(block_parts(items, false).drop_last() =~= p0);
                assert(block_parts(items, true).drop_last() =~= q0);
            },
            None => {
                if let Some(extra) = block_part(x, true) {
                    assert(block_parts(items, true).drop_last() =~= q0);
                }
            },
        }
    }
}

/// `b` keeps the text parts of `a`: the two are equal, or both are parts joined by line
/// breaks and the parts of `a` are among those of `b`, whole and in order.
pub open spec fn parts_kept(a: Seq<char>, b: Seq<char>) -> bool {
    a == b || exists|p: Seq<Seq<char>>, q: Seq<Seq<char>>|
        #[trigger] is_subseq(p, q) && a == join_lines(p) && b == join_lines(q)
}

proof fn lemma_message_kept(record: crate::json::JsonValue)
    ensures
        is_subseq(message_text(record, false), message_text(record, true)),
        parts_kept(message_text(record, false), message_text(record, true)),
{
    lemma_subseq_refl(message_text(record, false));
    if let Some(m) = field(record, "message"@) {
        if let Some(c) = field(m, "content"@) {
            if let crate::json::JsonValue::Array(items) = c {
                let p = block_parts(items@, false);
                let q = block_parts(items@, true);
                lemma_parts_kept(items@);
                lemma_join_kept(p, q);
                assert(is_subseq(p, q) && message_text(record, false) == join_lines(p)
                    && message_text(record, true) == join_lines(q));
            }
        }
    }
}

proof fn lemma_not_blank_kept(a: Seq<char>, b: Seq<char>)
    requires
        is_subseq(a, b),
        !blank(a),
    ensures
        !blank(b),
    decreases b.len(),
{
    let k = choose|k: int| 0 <= k < a.len() && !is_ws(#[trigger] a[k]);
    if a.last() == b.last() && is_subseq(a.drop_last(), b.drop_last()) {
        if is_ws(a.last()) {
            assert(a.drop_last()[k] == a[k]);
            lemma_not_blank_kept(a.drop_last(), b.drop_last());
            let j = choose|j: int| 0 <= j < b.drop_last().len() && !is_ws(#[trigger] b.drop_last()[j]);
            assert(b[j] == b.drop_last()[j]);
        } else {
            assert(!is_ws(b[b.len() - 1]));
        }
    } else {
        lemma_not_blank_kept(a, b.drop_last());
        let j = choose|j: int| 0 <= j < b.drop_last().len() && !is_ws(#[trigger] b.drop_last()[j]);
        assert(b[j] == b.drop_last()[j]);
    }
}

/// An event of a user or an assistant.
pub open spec fn is_dialog(e: EventView) -> bool {
    e.role == "user"@ || e.role == "assistant"@
}

/// The dialog events, in order.
pub open spec fn dialog_events(es: Seq<EventView>) -> Seq<EventView>
    decreases es.len(),
{
    if es.len() == 0 {
        seq![]
    } else if is_dialog(es.last()) {
        dialog_events(es.drop_last()).push(es.last())
    } else {
        dialog_events(es.drop_last())
    }
}

/// `b` is the same event as `a` with at least its text: same role, kind and timestamp;
/// the text parts of `a` are among those of `b`, whole and in order; and so the content
/// of `a` is a subsequence of that of `b`.
pub open spec fn event_kept(a: EventView, b: EventView) -> bool {
    a.role == b.role && a.source_type == b.source_type && a.timestamp == b.timestamp
        && parts_kept(a.content, b.content) && is_subseq(a.content, b.content)
}

/// Each event of `a` is kept, in order, by an event of `b`.
pub open spec fn events_kept(a: Seq<EventView>, b: Seq<EventView>) -> bool
    decreases b.len(),
{
    if a.len() == 0 {
        true
    } else if b.len() == 0 {
        false
    } else {
        (event_kept(a.last(), b.last()) && events_kept(a.drop_last(), b.drop_last()))
            || events_kept(a, b.drop_last())
    }
}

/// Detail mode keeps what terse mode shows: the terse dialog events are kept, in order,
/// by detail dialog events with the same role and timestamp, the text parts of each terse
/// content occurring whole and in order in the detail content.
pub proof fn lemma_detail_keeps_dialog(lines: Seq<Seq<char>>)
    ensures
        events_kept(
            dialog_events(normalized(lines, false).0),
            dialog_events(normalized(lines, true).0),
        ),
    decreases lines.len(),
{
    if lines.len() > 0 {
        lemma_detail_keeps_dialog(lines.drop_last());
        let a = normalized(lines.drop_last(), false).0;
        let b = normalized(lines.drop_last(), true).0;
        let line = lines.last();
        if !blank(line) {
            if let Some(record) = parsed_json(line) {
                match record_event(record, false) {
                    Some(e1) => {
                        lemma_message_kept(record);
                        lemma_not_blank_kept(message_text(record, false), message_text(record, true));
                        let e2 = record_event(record, true)->0;
                        assert(event_kept(e1, e2));
                        assert(is_dialog(e1) && is_dialog(e2));
                        assert(a.push(e1).drop_last() =~= a);
                        assert(b.push(e2).drop_last() =~= b);
                        assert(dialog_events(a.push(e1)).drop_last() =~= dialog_events(a));
                        assert(dialog_events(b.push(e2)).drop_last() =~= dialog_events(b));
                    },
                    None => {
                        if let Some(e2) = record_event(record, true) {
                            assert(b.push(e2).drop_last() =~= b);
                            if is_dialog(e2) {
                                assert(dialog_events(b.push(e2)).drop_last() =~= dialog_events(b));
                            } else {
                                assert(b.push(e2).drop_last() =~= b);
                            }
                        }
                    },
                }
            }
        }
    }
}

/// A session with counts of its records and, if asked for, a preview of its first user
/// message.
pub struct SessionSummary {
    pub session: Session,
    pub user_messages: u64,
    pub assistant_messages: u64,
    pub other_records: u64,
    pub preview: Option<String>,
}

/// The counts of user, assistant and other records among the lines that parse, and the
/// preview of the first user message with visible text (when `with_preview`).
pub open spec fn tally(lines: Seq<Seq<char>>, with_preview: bool) -> (nat, nat, nat, Option<Seq<char>>)
    decreases lines.len(),
{
    if lines.len() == 0 {
        (0, 0, 0, None)
    } else {
        let before = tally(lines.drop_last(), with_preview);
        let line = lines.last();
        if blank(line) {
            before
        } else {
            match parsed_json(line) {
                None => before,
                Some(record) => tally_step(before, record, with_preview),
            }
        }
    }
}

/// The counts after one more parsed record: a user, an assistant or another record, and
/// the preview of the first user message with visible text (when `with_preview`).
pub open spec fn tally_step(
    counts: (nat, nat, nat, Option<Seq<char>>),
    record: JsonValue,
    with_preview: bool,
) -> (nat, nat, nat, Option<Seq<char>>) {
    let (u, a, o, p) = counts;
    let t = str_field(record, "type"@);
    if t == Some("user"@) {
        let text = message_text(record, false);
        let p2 = if with_preview && p is None && !blank(text) {
            Some(message_preview(text))
        } else {
            p
        };
        (u + 1, a, o, p2)
    } else if t == Some("assistant"@) {
        (u, a + 1, o, p)
    } else {
        (u, a, o + 1, p)
    }
}

/// The counts and preview that a summary holds.
pub open spec fn summary_counts(s: SessionSummary) -> (nat, nat, nat, Option<Seq<char>>) {
    (s.user_messages as nat, s.assistant_messages as nat, s.other_records as nat, opt_view(s.preview))
}

/// Counts one parsed record into a summary.
pub fn count_summary_record(summary: &mut SessionSummary, record: &JsonValue, with_preview: bool)
    requires
        old(summary).user_messages < u64::MAX,
        old(summary).assistant_messages < u64::MAX,
        old(summary).other_records < u64::MAX,
    ensures
        summary_counts(*final(summary)) == tally_step(summary_counts(*old(summary)), *record, with_preview),
        final(summary).session == old(summary).session,
{
    let t = get_str(record, "type");
    let is_user = match t {
        Some(k) => same_text(k.as_str(), "user"),
        None => false,
    };
    let is_assistant = match t {
        Some(k) => same_text(k.as_str(), "assistant"),
        None => false,
    };
    if is_user {
        summary.user_messages = summary.user_messages + 1;
        if with_preview && summary.preview.is_none() {
            let text = extract_message_text(record, false);
            if !is_blank(text.as_slice()) {
                summary.preview = Some(clean_preview(from_chars(text.as_slice()).as_str()));
            }
        }
    } else if is_assistant {
        summary.assistant_messages = summary.assistant_messages + 1;
    } else {
        summary.other_records = summary.other_records + 1;
    }
}

/// Counts a session's user, assistant and other records, and previews its first user
/// message when asked.
pub fn summarize_session(session: &Session, lines: &Vec<String>, with_preview: bool) -> (r: SessionSummary)
    ensures
        r.session == *session,
        summary_counts(r) == tally(line_views(lines@), with_preview),
{
    let mut summary = SessionSummary {
        session: crate::session::copy_session(session),
        user_messages: 0,
        assistant_messages: 0,
        other_records: 0,
        preview: None,
    };
    let mut i: usize = 0;
    while i < lines.len()
        invariant
            i <= lines.len(),
            summary.session == *session,
            summary.user_messages + summary.assistant_messages + summary.other_records <= i,
            summary_counts(summary) == tally(line_views(lines@.take(i as int)), with_preview),
        decreases lines.len() - i,
    {
        assert(line_views(lines@.take(i + 1)).drop_last() =~= line_views(lines@.take(i as int)));
        assert(line_views(lines@.take(i + 1)).last() == lines@[i as int]@);
        let line = &lines[i];
        if !str_is_blank(line.as_str()) {
            match parse_json(line.as_str()) {
                None => {},
                Some(record) => {
                    count_summary_record(&mut summary, &record, with_preview);
                },
            }
        }
        i = i + 1;
    }
    assert(lines@.take(i as int) =~= lines@);
    summary
}

/// A non-blank line that is not JSON, put anywhere among a file's lines, adds one to the
/// error count and nothing to the events.
pub proof fn lemma_bad_line_counts_once(lines: Seq<Seq<char>>, bad: Seq<char>, at: int, detailed: bool)
    requires
        0 <= at <= lines.len(),
        !blank(bad),
        parsed_json(bad) is None,
    ensures
        normalized(lines.take(at) + seq![bad] + lines.skip(at), detailed) == (
            normalized(lines, detailed).0,
            normalized(lines, detailed).1 + 1,
        ),
    decreases lines.len() - at,
{
    let with = lines.take(at) + seq![bad] + lines.skip(at);
    if at == lines.len() {
        assert(with.drop_last() =~= lines);
        assert(lines.take(at) =~= lines);
    } else {
        lemma_bad_line_counts_once(lines.drop_last(), bad, at, detailed);
        assert(with.drop_last() =~= lines.drop_last().take(at) + seq![bad] + lines.drop_last().skip(
            at,
        ));
        assert(with.last() == lines.last());
    }
}

} // verus!
