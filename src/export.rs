//! The export renderer: Markdown and HTML documents, and the names of export files.
use crate::normalize::{event_views, opt_view, EventView, NormalizedEvent};
use crate::session::Session;
use crate::text::{
    contains, decimal, first_occurrence, from_chars, lemma_first_occurrence_occurs, occurs_at,
    push_decimal,
    push_str, to_chars,
};
use vstd::prelude::*;

verus! {

/// The file formats of an export.
#[derive(Clone, Copy, PartialEq, Eq, Structural)]
pub enum ExportFormat {
    Markdown,
    Json,
    Html,
}

/// One session's events, as an export holds them.
pub struct ExportDocument {
    pub session_id: String,
    pub session_short: String,
    pub project: String,
    pub source_path: String,
    pub modified_iso: String,
    pub event_count: usize,
    pub events: Vec<NormalizedEvent>,
}

/// What a document holds, as texts.
pub struct DocView {
    pub session_id: Seq<char>,
    pub session_short: Seq<char>,
    pub project: Seq<char>,
    pub source_path: Seq<char>,
    pub modified_iso: Seq<char>,
    pub event_count: usize,
    pub events: Seq<EventView>,
}

impl View for ExportDocument {
    type V = DocView;

    open spec fn view(&self) -> DocView {
        DocView {
            session_id: self.session_id@,
            session_short: self.session_short@,
            project: self.project@,
            source_path: self.source_path@,
            modified_iso: self.modified_iso@,
            event_count: self.event_count,
            events: event_views(self.events@),
        }
    }
}

/// The views of a list of documents.
pub open spec fn doc_views(docs: Seq<ExportDocument>) -> Seq<DocView> {
    docs.map_values(|d: ExportDocument| d@)
}

/// A copy of an event.
pub fn copy_event(e: &NormalizedEvent) -> (r: NormalizedEvent)
    ensures
        r@ == e@,
{
    NormalizedEvent {
        role: e.role.clone(),
        source_type: e.source_type.clone(),
        timestamp: match &e.timestamp {
            Some(t) => Some(t.clone()),
            None => None,
        },
        content: e.content.clone(),
    }
}

/// The document of a session: its identity and all its events.
pub fn build_export_document(session: &Session, events: &Vec<NormalizedEvent>) -> (r: ExportDocument)
    ensures
        r@ == (DocView {
            session_id: session.id@,
            session_short: session.id_short@,
            project: session.project@,
            source_path: session.path@,
            modified_iso: session.modified_iso@,
            event_count: events.len(),
            events: event_views(events@),
        }),
{
    let mut copies: Vec<NormalizedEvent> = Vec::new();
    let mut i: usize = 0;
    while i < events.len()
        invariant
            i <= events.len(),
            event_views(copies@) == event_views(events@.take(i as int)),
        decreases events.len() - i,
    {
        let ghost prev = copies@;
        let c = copy_event(&events[i]);
        copies.push(c);
        assert(event_views(copies@) =~= event_views(prev).push(events@[i as int]@));
        assert(events@.take(i + 1) =~= events@.take(i as int).push(events@[i as int]));
        assert(event_views(events@.take(i + 1)) =~= event_views(events@.take(i as int)).push(
            events@[i as int]@,
        ));
        i = i + 1;
    }
    assert(events@.take(i as int) =~= events@);
    ExportDocument {
        session_id: session.id.clone(),
        session_short: session.id_short.clone(),
        project: session.project.clone(),
        source_path: session.path.clone(),
        modified_iso: session.modified_iso.clone(),
        event_count: events.len(),
        events: copies,
    }
}

/// An event's timestamp, or `-` when it has none.
pub open spec fn stamp_or_dash(t: Option<Seq<char>>) -> Seq<char> {
    match t {
        Some(s) => s,
        None => "-"@,
    }
}

/// The Markdown section of one event.
pub open spec fn markdown_event(e: EventView) -> Seq<char> {
    "## ["@ + e.role + "] "@ + stamp_or_dash(e.timestamp) + "\n\n"@ + e.content + "\n\n"@
}

/// The Markdown sections of a list of events.
pub open spec fn markdown_events(es: Seq<EventView>) -> Seq<char>
    decreases es.len(),
{
    if es.len() == 0 {
        seq![]
    } else {
        markdown_events(es.drop_last()) + markdown_event(es.last())
    }
}

/// The Markdown of one document: a header, metadata lines, then one section per event.
pub open spec fn markdown_doc(d: DocView) -> Seq<char> {
    "# cc-convo export\n\n"@ + "- Session: `"@ + d.session_id + "`\n"@ + "- Project: `"@
        + d.project + "`\n"@ + "- Modified: `"@ + d.modified_iso + "`\n"@ + "- Source: `"@
        + d.source_path + "`\n"@ + "- Events: `"@ + decimal(d.event_count as nat) + "`\n\n"@
        + markdown_events(d.events)
}

/// The Markdown of a list of documents, a horizontal rule between each two.
pub open spec fn markdown_docs(ds: Seq<DocView>) -> Seq<char>
    decreases ds.len(),
{
    if ds.len() == 0 {
        seq![]
    } else if ds.len() == 1 {
        markdown_doc(ds[0])
    } else {
        markdown_docs(ds.drop_last()) + "\n\n---\n\n"@ + markdown_doc(ds.last())
    }
}

/// Appends a string's characters.
fn push_string(out: &mut Vec<char>, s: &String)
    ensures
        final(out)@ == old(out)@ + s@,
{
    push_str(out, s.as_str());
}

/// Appends an event's timestamp, or `-`.
fn push_stamp(out: &mut Vec<char>, t: &Option<String>)
    ensures
        final(out)@ == old(out)@ + stamp_or_dash(opt_view(*t)),
{
    match t {
        Some(s) => push_str(out, s.as_str()),
        None => push_str(out, "-"),
    }
}

/// Appends the Markdown of one document.
fn push_markdown_doc(out: &mut Vec<char>, doc: &ExportDocument)
    ensures
        final(out)@ == old(out)@ + markdown_doc(doc@),
{
    let ghost start = out@;
    push_str(out, "# cc-convo export\n\n");
    push_str(out, "- Session: `");
    push_string(out, &doc.session_id);
    push_str(out, "`\n");
    push_str(out, "- Project: `");
    push_string(out, &doc.project);
    push_str(out, "`\n");
    push_str(out, "- Modified: `");
    push_string(out, &doc.modified_iso);
    push_str(out, "`\n");
    push_str(out, "- Source: `");
    push_string(out, &doc.source_path);
    push_str(out, "`\n");
    push_str(out, "- Events: `");
    push_decimal(out, doc.event_count as u64);
    push_str(out, "`\n\n");
    let ghost head = out@;
    let mut i: usize = 0;
    while i < doc.events.len()
        invariant
            i <= doc.events.len(),
            out@ == head + markdown_events(event_views(doc.events@.take(i as int))),
        decreases doc.events.len() - i,
    {
        let e = &doc.events[i];
        let ghost before = out@;
        push_str(out, "## [");
        push_string(out, &e.role);
        push_str(out, "] ");
        push_stamp(out, &e.timestamp);
        push_str(out, "\n\n");
        push_string(out, &e.content);
        push_str(out, "\n\n");
        assert(event_views(doc.events@.take(i + 1)).drop_last() =~= event_views(
            doc.events@.take(i as int),
        ));
        assert(out@ =~= before + markdown_event(e@));
        i = i + 1;
    }
    assert(doc.events@.take(i as int) =~= doc.events@);
    assert(out@ =~= start + markdown_doc(doc@));
}

/// The Markdown of the documents, a horizontal rule between each two.
pub fn render_markdown(docs: &Vec<ExportDocument>) -> (r: String)
    ensures
        r@ == markdown_docs(doc_views(docs@)),
{
    let mut out: Vec<char> = Vec::new();
    let mut i: usize = 0;
    while i < docs.len()
        invariant
            i <= docs.len(),
            out@ == markdown_docs(doc_views(docs@.take(i as int))),
        decreases docs.len() - i,
    {
        let ghost prev = out@;
        if i > 0 {
            push_str(&mut out, "\n\n---\n\n");
        }
        push_markdown_doc(&mut out, &docs[i]);
        assert(doc_views(docs@.take(i + 1)).drop_last() =~= doc_views(docs@.take(i as int)));
        proof {
            if i == 0 {
                assert(prev =~= Seq::<char>::empty());
                assert(out@ =~= markdown_docs(doc_views(docs@.take(i + 1))));
            } else {
                assert(out@ =~= markdown_docs(doc_views(docs@.take(i + 1))));
            }
        }
        i = i + 1;
    }
    assert(docs@.take(i as int) =~= docs@);
    from_chars(out.as_slice())
}

/// The HTML form of one character: the five markup characters as entities.
pub open spec fn escape_char(c: char) -> Seq<char> {
    if c == '&' {
        seq!['&', 'a', 'm', 'p', ';']
    } else if c == '<' {
        seq!['&', 'l', 't', ';']
    } else if c == '>' {
        seq!['&', 'g', 't', ';']
    } else if c == '"' {
        seq!['&', 'q', 'u', 'o', 't', ';']
    } else if c == '\'' {
        seq!['&', '#', '3', '9', ';']
    } else {
        seq![c]
    }
}

/// `s` with `&`, `<`, `>`, `"` and `'` written as entities.
pub open spec fn escaped(s: Seq<char>) -> Seq<char>
    decreases s.len(),
{
    if s.len() == 0 {
        seq![]
    } else {
        escaped(s.drop_last()) + escape_char(s.last())
    }
}

/// Appends the HTML form of one character.
fn push_escaped_char(out: &mut Vec<char>, c: char)
    ensures
        final(out)@ == old(out)@ + escape_char(c),
{
    let ghost start = out@;
    if c == '&' {
        out.push('&');
        out.push('a');
        out.push('m');
        out.push('p');
        out.push(';');
    } else if c == '<' {
        out.push('&');
        out.push('l');
        out.push('t');
        out.push(';');
    } else if c == '>' {
        out.push('&');
        out.push('g');
        out.push('t');
        out.push(';');
    } else if c == '"' {
        out.push('&');
        out.push('q');
        out.push('u');
        out.push('o');
        out.push('t');
        out.push(';');
    } else if c == '\'' {
        out.push('&');
        out.push('#');
        out.push('3');
        out.push('9');
        out.push(';');
    } else {
        out.push(c);
    }
    assert(out@ =~= start + escape_char(c));
}

/// Appends `s` with the markup characters written as entities.
fn push_escaped(out: &mut Vec<char>, s: &str)
    ensures
        final(out)@ == old(out)@ + escaped(s@),
{
    let ghost start = out@;
    let v = to_chars(s);
    let mut i: usize = 0;
    while i < v.len()
        invariant
            i <= v.len(),
            v@ == s@,
            out@ == start + escaped(v@.take(i as int)),
        decreases v.len() - i,
    {
        push_escaped_char(out, v[i]);
        assert(v@.take(i + 1).drop_last() =~= v@.take(i as int));
        i = i + 1;
        assert(out@ =~= start + escaped(v@.take(i as int)));
    }
    assert(v@.take(i as int) =~= v@);
}

/// `input` with `&`, `<`, `>`, `"` and `'` written as entities.
pub fn html_escape(input: &str) -> (r: String)
    ensures
        r@ == escaped(input@),
{
    let mut out: Vec<char> = Vec::new();
    push_escaped(&mut out, input);
    from_chars(out.as_slice())
}

/// The start of an HTML export: head, inline style, and title.
pub open spec fn html_head() -> Seq<char> {
    "<!doctype html><html><head><meta charset=\"utf-8\"><title>cc-convo export</title>"@
        + "<style>body{font-family:ui-sans-serif,system-ui;margin:2rem;background:#f7f8fa;color:#1e2430} .card{background:#fff;border-radius:12px;padding:16px 20px;margin:0 0 16px 0;box-shadow:0 1px 2px rgba(0,0,0,.06)} .meta{color:#5c667a;font-size:.92rem} pre{white-space:pre-wrap;word-break:break-word;margin:0} h1,h2{margin:.2rem 0 .8rem} </style>"@
        + "</head><body><h1>cc-convo export</h1>"@
}

/// The card of one event.
pub open spec fn html_event(e: EventView) -> Seq<char> {
    "<div class=\"card\">"@ + "<h2>["@ + escaped(e.role) + "] "@ + escaped(
        stamp_or_dash(e.timestamp),
    ) + "</h2><pre>"@ + escaped(e.content) + "</pre>"@ + "</div>"@
}

/// The cards of a list of events.
pub open spec fn html_events(es: Seq<EventView>) -> Seq<char>
    decreases es.len(),
{
    if es.len() == 0 {
        seq![]
    } else {
        html_events(es.drop_last()) + html_event(es.last())
    }
}

/// The header card of one document, then its event cards.
pub open spec fn html_doc(d: DocView) -> Seq<char> {
    "<div class=\"card\">"@ + "<h2>"@ + escaped(d.session_id)
        + "</h2><div class=\"meta\">project="@ + escaped(d.project) + " modified="@ + escaped(
        d.modified_iso,
    ) + " source="@ + escaped(d.source_path) + " events="@ + decimal(d.event_count as nat)
        + "</div>"@ + "</div>"@ + html_events(d.events)
}

/// The cards of a list of documents.
pub open spec fn html_docs(ds: Seq<DocView>) -> Seq<char>
    decreases ds.len(),
{
    if ds.len() == 0 {
        seq![]
    } else {
        html_docs(ds.drop_last()) + html_doc(ds.last())
    }
}

/// Appends the HTML of one document.
fn push_html_doc(out: &mut Vec<char>, doc: &ExportDocument)
    ensures
        final(out)@ == old(out)@ + html_doc(doc@),
{
    let ghost start = out@;
    push_str(out, "<div class=\"card\">");
    push_str(out, "<h2>");
    push_escaped(out, doc.session_id.as_str());
    push_str(out, "</h2><div class=\"meta\">project=");
    push_escaped(out, doc.project.as_str());
    push_str(out, " modified=");
    push_escaped(out, doc.modified_iso.as_str());
    push_str(out, " source=");
    push_escaped(out, doc.source_path.as_str());
    push_str(out, " events=");
    push_decimal(out, doc.event_count as u64);
    push_str(out, "</div>");
    push_str(out, "</div>");
    let ghost head = out@;
    let mut i: usize = 0;
    while i < doc.events.len()
        invariant
            i <= doc.events.len(),
            out@ == head + html_events(event_views(doc.events@.take(i as int))),
        decreases doc.events.len() - i,
    {
        let e = &doc.events[i];
        let ghost before = out@;
        push_str(out, "<div class=\"card\">");
        push_str(out, "<h2>[");
        push_escaped(out, e.role.as_str());
        push_str(out, "] ");
        let mut stamp: Vec<char> = Vec::new();
        push_stamp(&mut stamp, &e.timestamp);
        push_escaped(out, from_chars(stamp.as_slice()).as_str());
        push_str(out, "</h2><pre>");
        push_escaped(out, e.content.as_str());
        push_str(out, "</pre>");
        push_str(out, "</div>");
        assert(event_views(doc.events@.take(i + 1)).drop_last() =~= event_views(
            doc.events@.take(i as int),
        ));
        assert(out@ =~= before + html_event(e@));
        i = i + 1;
    }
    assert(doc.events@.take(i as int) =~= doc.events@);
    assert(out@ =~= start + html_doc(doc@));
}

/// A self-contained HTML page: one card per document header and one per event, every
/// interpolated text escaped.
pub fn render_html(docs: &Vec<ExportDocument>) -> (r: String)
    ensures
        r@ == html_head() + html_docs(doc_views(docs@)) + "</body></html>"@,
        !contains(r@, script_tag()),
{
    proof {
        lemma_html_page_has_no_script(doc_views(docs@));
    }
    let mut out: Vec<char> = Vec::new();
    push_str(&mut out, "<!doctype html><html><head><meta charset=\"utf-8\"><title>cc-convo export</title>");
    push_str(&mut out, "<style>body{font-family:ui-sans-serif,system-ui;margin:2rem;background:#f7f8fa;color:#1e2430} .card{background:#fff;border-radius:12px;padding:16px 20px;margin:0 0 16px 0;box-shadow:0 1px 2px rgba(0,0,0,.06)} .meta{color:#5c667a;font-size:.92rem} pre{white-space:pre-wrap;word-break:break-word;margin:0} h1,h2{margin:.2rem 0 .8rem} </style>");
    push_str(&mut out, "</head><body><h1>cc-convo export</h1>");
    assert(out@ =~= html_head());
    let mut i: usize = 0;
    while i < docs.len()
        invariant
            i <= docs.len(),
            out@ == html_head() + html_docs(doc_views(docs@.take(i as int))),
        decreases docs.len() - i,
    {
        push_html_doc(&mut out, &docs[i]);
        assert(doc_views(docs@.take(i + 1)).drop_last() =~= doc_views(docs@.take(i as int)));
        i = i + 1;
        assert(out@ =~= html_head() + html_docs(doc_views(docs@.take(i as int))));
    }
    assert(docs@.take(i as int) =~= docs@);
    push_str(&mut out, "</body></html>");
    from_chars(out.as_slice())
}

/// The file extension of a format.
pub open spec fn extension_of(format: ExportFormat) -> Seq<char> {
    match format {
        ExportFormat::Markdown => "md"@,
        ExportFormat::Json => "json"@,
        ExportFormat::Html => "html"@,
    }
}

/// The date part of an ISO timestamp: what precedes the first `T` (all of it when there
/// is none).
pub open spec fn date_part(iso: Seq<char>) -> Seq<char>
    decreases iso.len(),
{
    if iso.len() == 0 {
        seq![]
    } else if iso[0] == 'T' {
        seq![]
    } else {
        seq![iso[0]] + date_part(iso.drop_first())
    }
}

/// The file extension of a format.
pub fn extension(format: ExportFormat) -> (r: &'static str)
    ensures
        r@ == extension_of(format),
{
    match format {
        ExportFormat::Markdown => "md",
        ExportFormat::Json => "json",
        ExportFormat::Html => "html",
    }
}

/// Appends the date part of an ISO timestamp.
fn push_date(out: &mut Vec<char>, iso: &str)
    ensures
        final(out)@ == old(out)@ + date_part(iso@),
{
    let ghost start = out@;
    let v = to_chars(iso);
    let mut i: usize = 0;
    assert(v@.skip(0) =~= v@);
    while i < v.len() && v[i] != 'T'
        invariant
            i <= v.len(),
            v@ == iso@,
            start + date_part(v@) == out@ + date_part(v@.skip(i as int)),
        decreases v.len() - i,
    {
        out.push(v[i]);
        assert(v@.skip(i as int).drop_first() =~= v@.skip(i + 1));
        assert(v@.skip(i as int)[0] == v@[i as int]);
        i = i + 1;
    }
    if i < v.len() {
        assert(v@.skip(i as int)[0] == v@[i as int]);
    }
    assert(out@ =~= start + date_part(v@));
}

/// The name of a document's own export file: `cc-convo-<date>-<short id>.<ext>`, the
/// date taken from the session's modification time.
pub open spec fn single_file_name(d: DocView, format: ExportFormat) -> Seq<char> {
    "cc-convo-"@ + date_part(d.modified_iso) + "-"@ + d.session_short + "."@ + extension_of(
        format,
    )
}

/// The name of a bundle file: `cc-convo-bundle-<date>.<ext>`, the date taken from the
/// time of export.
pub open spec fn bundle_file_name(now_iso: Seq<char>, format: ExportFormat) -> Seq<char> {
    "cc-convo-bundle-"@ + date_part(now_iso) + "."@ + extension_of(format)
}

/// The name of a document's own export file.
pub fn export_file_name(doc: &ExportDocument, format: ExportFormat) -> (r: String)
    ensures
        r@ == single_file_name(doc@, format),
{
    let mut out: Vec<char> = Vec::new();
    push_str(&mut out, "cc-convo-");
    push_date(&mut out, doc.modified_iso.as_str());
    push_str(&mut out, "-");
    push_str(&mut out, doc.session_short.as_str());
    push_str(&mut out, ".");
    push_str(&mut out, extension(format));
    assert(out@ =~= single_file_name(doc@, format));
    from_chars(out.as_slice())
}

/// The name of a bundle file exported at `now_iso`.
pub fn bundle_export_name(now_iso: &str, format: ExportFormat) -> (r: String)
    ensures
        r@ == bundle_file_name(now_iso@, format),
{
    let mut out: Vec<char> = Vec::new();
    push_str(&mut out, "cc-convo-bundle-");
    push_date(&mut out, now_iso);
    push_str(&mut out, ".");
    push_str(&mut out, extension(format));
    assert(out@ =~= bundle_file_name(now_iso@, format));
    from_chars(out.as_slice())
}

/// Escaped text holds no `<` and no `>`.
pub proof fn lemma_escaped_has_no_markup(s: Seq<char>)
    ensures
        forall|i: int|
            0 <= i < escaped(s).len() ==> #[trigger] escaped(s)[i] != '<' && escaped(s)[i] != '>',
    decreases s.len(),
{
    if s.len() > 0 {
        lemma_escaped_has_no_markup(s.drop_last());
        let a = escaped(s.drop_last());
        let b = escape_char(s.last());
        assert forall|i: int| 0 <= i < escaped(s).len() implies #[trigger] escaped(s)[i] != '<'
            && escaped(s)[i] != '>' by {
            if i >= a.len() {
                assert(escaped(s)[i] == b[i - a.len()]);
            } else {
                assert(escaped(s)[i] == a[i]);
            }
        }
    }
}

/// Text that starts with `<`, such as `<script>`, never occurs in escaped text.
pub proof fn lemma_escaped_hides_tags(s: Seq<char>, tag: Seq<char>)
    requires
        tag.len() > 0,
        tag[0] == '<',
    ensures
        !contains(escaped(s), tag),
{
    lemma_escaped_has_no_markup(s);
    if contains(escaped(s), tag) {
        lemma_first_occurrence_occurs(escaped(s), tag, 0);
        let k = first_occurrence(escaped(s), tag)->0;
        assert(escaped(s).subrange(k, k + tag.len())[0] == escaped(s)[k]);
    }
}

/// Each `<` is followed, within the text, by two characters that are not `sc`.
pub open spec fn tags_named_safely(a: Seq<char>) -> bool {
    forall|i: int|
        0 <= i < a.len() && #[trigger] a[i] == '<' ==> i + 2 < a.len() && !(a[i + 1] == 's' && a[i
            + 2] == 'c')
}

/// The tag that must not appear in an HTML export.
pub open spec fn script_tag() -> Seq<char> {
    seq!['<', 's', 'c', 'r', 'i', 'p', 't', '>']
}

/// `a` holds no `<script>`, and does not end with a beginning of one.
pub open spec fn tag_clean(a: Seq<char>) -> bool {
    &&& forall|i: int| !occurs_at(a, script_tag(), i)
    &&& forall|i: int|
        0 <= i < a.len() && a.len() - i < 8 ==> #[trigger] a.subrange(i, a.len() as int)
            != script_tag().take(a.len() - i)
}

proof fn lemma_safe_is_clean(a: Seq<char>)
    requires
        tags_named_safely(a),
    ensures
        tag_clean(a),
{
    let t = script_tag();
    assert forall|i: int| !occurs_at(a, t, i) by {
        if occurs_at(a, t, i) {
            assert(a.subrange(i, i + 8)[0] == a[i]);
            assert(a.subrange(i, i + 8)[1] == a[i + 1]);
            assert(a.subrange(i, i + 8)[2] == a[i + 2]);
        }
    }
    assert forall|i: int| 0 <= i < a.len() && a.len() - i < 8 implies #[trigger] a.subrange(
        i,
        a.len() as int,
    ) != t.take(a.len() - i) by {
        let k = a.len() - i;
        if a.subrange(i, a.len() as int) == t.take(k) {
            assert(a.subrange(i, a.len() as int)[0] == a[i]);
            assert(a[i] == '<');
            assert(a.subrange(i, a.len() as int)[1] == a[i + 1]);
            assert(a.subrange(i, a.len() as int)[2] == a[i + 2]);
        }
    }
}

proof fn lemma_clean_concat(a: Seq<char>, b: Seq<char>)
    requires
        tag_clean(a),
        tag_clean(b),
    ensures
        tag_clean(a + b),
{
    let t = script_tag();
    let c = a + b;
    let n = a.len() as int;
    assert forall|i: int| !occurs_at(c, t, i) by {
        if occurs_at(c, t, i) {
            if i >= n {
                assert(c.subrange(i, i + 8) =~= b.subrange(i - n, i - n + 8));
                assert(occurs_at(b, t, i - n));
            } else if i + 8 <= n {
                assert(c.subrange(i, i + 8) =~= a.subrange(i, i + 8));
                assert(occurs_at(a, t, i));
            } else {
                assert(a.subrange(i, n) =~= c.subrange(i, i + 8).take(n - i));
                assert(a.subrange(i, n) == t.take(n - i));
            }
        }
    }
    assert forall|i: int| 0 <= i < c.len() && c.len() - i < 8 implies #[trigger] c.subrange(
        i,
        c.len() as int,
    ) != t.take(c.len() - i) by {
        if c.subrange(i, c.len() as int) == t.take(c.len() - i) {
            if i >= n {
                assert(c.subrange(i, c.len() as int) =~= b.subrange(i - n, b.len() as int));
                assert(b.subrange(i - n, b.len() as int) == t.take(b.len() - (i - n)));
            } else {
                assert(a.subrange(i, n) =~= c.subrange(i, c.len() as int).take(n - i));
                assert(t.take(c.len() - i).take(n - i) =~= t.take(n - i));
                assert(a.subrange(i, n) == t.take(n - i));
            }
        }
    }
}

proof fn lemma_escaped_clean(s: Seq<char>)
    ensures
        tag_clean(escaped(s)),
{
    lemma_escaped_has_no_markup(s);
    lemma_safe_is_clean(escaped(s));
}

proof fn lemma_decimal_clean(n: nat)
    ensures
        tag_clean(decimal(n)),
    decreases n,
{
    lemma_decimal_digits(n);
    lemma_safe_is_clean(decimal(n));
}

proof fn lemma_decimal_digits(n: nat)
    ensures
        forall|i: int| 0 <= i < decimal(n).len() ==> #[trigger] decimal(n)[i] != '<',
    decreases n,
{
    if n >= 10 {
        lemma_decimal_digits(n / 10);
        assert forall|i: int| 0 <= i < decimal(n).len() implies #[trigger] decimal(n)[i] != '<' by {
            if i < decimal(n / 10).len() {
                assert(decimal(n)[i] == decimal(n / 10)[i]);
            }
        }
    }
}

proof fn lemma_literal_clean(a: Seq<char>)
    requires
        tags_named_safely(a),
    ensures
        tag_clean(a),
{
    lemma_safe_is_clean(a);
}

proof fn lemma_event_clean(e: EventView)
    ensures
        tag_clean(html_event(e)),
{
    reveal_strlit("<div class=\"card\">");
    lemma_literal_clean("<div class=\"card\">"@);
    reveal_strlit("<h2>[");
    lemma_literal_clean("<h2>["@);
    reveal_strlit("] ");
    lemma_literal_clean("] "@);
    reveal_strlit("</h2><pre>");
    lemma_literal_clean("</h2><pre>"@);
    reveal_strlit("</pre>");
    lemma_literal_clean("</pre>"@);
    reveal_strlit("</div>");
    lemma_literal_clean("</div>"@);
    lemma_escaped_clean(e.role);
    lemma_escaped_clean(stamp_or_dash(e.timestamp));
    lemma_escaped_clean(e.content);
    let p1 = "<div class=\"card\">"@ + "<h2>["@;
    lemma_clean_concat("<div class=\"card\">"@, "<h2>["@);
    let p2 = p1 + escaped(e.role);
    lemma_clean_concat(p1, escaped(e.role));
    let p3 = p2 + "] "@;
    lemma_clean_concat(p2, "] "@);
    let p4 = p3 + escaped(stamp_or_dash(e.timestamp));
    lemma_clean_concat(p3, escaped(stamp_or_dash(e.timestamp)));
    let p5 = p4 + "</h2><pre>"@;
    lemma_clean_concat(p4, "</h2><pre>"@);
    let p6 = p5 + escaped(e.content);
    lemma_clean_concat(p5, escaped(e.content));
    let p7 = p6 + "</pre>"@;
    lemma_clean_concat(p6, "</pre>"@);
    lemma_clean_concat(p7, "</div>"@);
}

proof fn lemma_events_clean(es: Seq<EventView>)
    ensures
        tag_clean(html_events(es)),
    decreases es.len(),
{
    if es.len() == 0 {
        assert(tag_clean(html_events(es)));
    } else {
        lemma_events_clean(es.drop_last());
        lemma_event_clean(es.last());
        lemma_clean_concat(html_events(es.drop_last()), html_event(es.last()));
    }
}

proof fn lemma_doc_clean(d: DocView)
    ensures
        tag_clean(html_doc(d)),
{
    reveal_strlit("<div class=\"card\">");
    lemma_literal_clean("<div class=\"card\">"@);
    reveal_strlit("<h2>");
    lemma_literal_clean("<h2>"@);
    reveal_strlit("</h2><div class=\"meta\">project=");
    lemma_literal_clean("</h2><div class=\"meta\">project="@);
    reveal_strlit(" modified=");
    lemma_literal_clean(" modified="@);
    reveal_strlit(" source=");
    lemma_literal_clean(" source="@);
    reveal_strlit(" events=");
    lemma_literal_clean(" events="@);
    reveal_strlit("</div>");
    lemma_literal_clean("</div>"@);
    lemma_escaped_clean(d.session_id);
    lemma_escaped_clean(d.project);
    lemma_escaped_clean(d.modified_iso);
    lemma_escaped_clean(d.source_path);
    lemma_decimal_clean(d.event_count as nat);
    lemma_events_clean(d.events);
    let p1 = "<div class=\"card\">"@ + "<h2>"@;
    lemma_clean_concat("<div class=\"card\">"@, "<h2>"@);
    let p2 = p1 + escaped(d.session_id);
    lemma_clean_concat(p1, escaped(d.session_id));
    let p3 = p2 + "</h2><div class=\"meta\">project="@;
    lemma_clean_concat(p2, "</h2><div class=\"meta\">project="@);
    let p4 = p3 + escaped(d.project);
    lemma_clean_concat(p3, escaped(d.project));
    let p5 = p4 + " modified="@;
    lemma_clean_concat(p4, " modified="@);
    let p6 = p5 + escaped(d.modified_iso);
    lemma_clean_concat(p5, escaped(d.modified_iso));
    let p7 = p6 + " source="@;
    lemma_clean_concat(p6, " source="@);
    let p8 = p7 + escaped(d.source_path);
    lemma_clean_concat(p7, escaped(d.source_path));
    let p9 = p8 + " events="@;
    lemma_clean_concat(p8, " events="@);
    let p10 = p9 + decimal(d.event_count as nat);
    lemma_clean_concat(p9, decimal(d.event_count as nat));
    let p11 = p10 + "</div>"@;
    lemma_clean_concat(p10, "</div>"@);
    let p12 = p11 + "</div>"@;
    lemma_clean_concat(p11, "</div>"@);
    lemma_clean_concat(p12, html_events(d.events));
}

proof fn lemma_docs_clean(ds: Seq<DocView>)
    ensures
        tag_clean(html_docs(ds)),
    decreases ds.len(),
{
    if ds.len() == 0 {
        assert(tag_clean(html_docs(ds)));
    } else {
        lemma_docs_clean(ds.drop_last());
        lemma_doc_clean(ds.last());
        lemma_clean_concat(html_docs(ds.drop_last()), html_doc(ds.last()));
    }
}

/// An HTML export never holds `<script>`, whatever its documents hold: the page template
/// names no such tag, and every interpolated text is escaped.
pub proof fn lemma_html_page_has_no_script(docs: Seq<DocView>)
    ensures
        !contains(html_head() + html_docs(docs) + "</body></html>"@, script_tag()),
{
    let page = html_head() + html_docs(docs) + "</body></html>"@;
    reveal_strlit("<!doctype html><html><head><meta charset=\"utf-8\"><title>cc-convo export</title>");
    reveal_strlit("<style>body{font-family:ui-sans-serif,system-ui;margin:2rem;background:#f7f8fa;color:#1e2430} .card{background:#fff;border-radius:12px;padding:16px 20px;margin:0 0 16px 0;box-shadow:0 1px 2px rgba(0,0,0,.06)} .meta{color:#5c667a;font-size:.92rem} pre{white-space:pre-wrap;word-break:break-word;margin:0} h1,h2{margin:.2rem 0 .8rem} </style>");
    reveal_strlit("</head><body><h1>cc-convo export</h1>");
    reveal_strlit("</body></html>");
    lemma_literal_clean(html_head());
    lemma_literal_clean("</body></html>"@);
    lemma_docs_clean(docs);
    lemma_clean_concat(html_head(), html_docs(docs));
    lemma_clean_concat(html_head() + html_docs(docs), "</body></html>"@);
    if contains(page, script_tag()) {
        lemma_first_occurrence_occurs(page, script_tag(), 0);
    }
}

} // verus!
