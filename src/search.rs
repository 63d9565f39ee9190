//! The search engine: matching and scoring event text, context previews, ranking.
use crate::normalize::{
    event_views, line_views, normalized, parse_session_events, EventView, NormalizedEvent,
};
use crate::session::{LoadedSession, Session};
use crate::text::{
    char_views, contains, contains_chars, count_occurrences_up_to, dots, ellipsize_chars,
    ellipsized, find_chars, first_occurrence, flatten_lines, flatten_newlines, folded,
    folded_chars, from_chars, is_ws, lemma_lex_irreflexive, lemma_lex_total,
    lemma_lex_transitive, lex_less, occurrences, push_range, push_str, split_words, text_less,
    to_chars, trim, trimmed, words,
};
use vstd::prelude::*;

verus! {

/// Longest preview of a session's first user message.
pub const PREVIEW_LIMIT: usize = 140;

/// How event text is matched against the query.
#[derive(Clone, Copy, PartialEq, Eq, Structural)]
pub enum SearchMode {
    Smart,
    Exact,
    Regex,
}

/// Whose events are searched.
#[derive(Clone, Copy, PartialEq, Eq, Structural)]
pub enum SpeakerFilter {
    User,
    Assistant,
    Both,
}

/// A relevance score, the fraction `num / den`.
#[derive(Clone, Copy, PartialEq, Eq, Structural)]
pub struct Relevance {
    pub num: u128,
    pub den: u128,
}

/// A score in the unit interval, over a positive denominator.
pub open spec fn within_unit(r: Relevance) -> bool {
    0 < r.den && r.num <= r.den
}

/// The words of the (folded) query that occur in the (folded) text.
pub open spec fn words_found(toks: Seq<Seq<char>>, hay: Seq<char>) -> nat
    decreases toks.len(),
{
    if toks.len() == 0 {
        0
    } else {
        words_found(toks.drop_last(), hay) + if contains(hay, toks.last()) {
            1nat
        } else {
            0nat
        }
    }
}

/// The score of an event text under `mode`, or `None` when it is not a hit. `hay` and
/// `needle` are the text and the query, both folded alike; `regex_hit` says whether the
/// compiled query matches the unfolded text.
pub open spec fn event_score(mode: SearchMode, hay: Seq<char>, needle: Seq<char>, regex_hit: bool) -> Option<Relevance> {
    match mode {
        SearchMode::Exact => if contains(hay, needle) {
            let count = occurrences(hay, needle);
            Some(Relevance { num: if count >= 5 { 10 } else { (5 + count) as u128 }, den: 10 })
        } else {
            None
        },
        SearchMode::Regex => if regex_hit {
            Some(Relevance { num: 8, den: 10 })
        } else {
            None
        },
        SearchMode::Smart => {
            let toks = words(needle);
            let n = toks.len();
            let whole: nat = if contains(hay, needle) { 1 } else { 0 };
            let r = if n == 0 {
                Relevance { num: (6 * whole) as u128, den: 10 }
            } else {
                Relevance { num: (6 * whole * n + 4 * words_found(toks, hay)) as u128, den: (10 * n) as u128 }
            };
            // included when the score exceeds 0.15
            if 20 * r.num > 3 * r.den {
                Some(r)
            } else {
                None
            }
        },
    }
}

/// The number of the query's words that occur in the text.
fn count_words_found(toks: &Vec<Vec<char>>, hay: &[char]) -> (r: usize)
    ensures
        r as nat == words_found(char_views(toks@), hay@),
{
    let mut found: usize = 0;
    let mut i: usize = 0;
    while i < toks.len()
        invariant
            i <= toks.len(),
            found <= i,
            found as nat == words_found(char_views(toks@.take(i as int)), hay@),
        decreases toks.len() - i,
    {
        assert(char_views(toks@.take(i + 1)).drop_last() =~= char_views(toks@.take(i as int)));
        if contains_chars(hay, toks[i].as_slice()) {
            found = found + 1;
        }
        i = i + 1;
    }
    assert(toks@.take(i as int) =~= toks@);
    found
}

/// The number of words of `s` is at most its length.
proof fn lemma_words_len(s: Seq<char>)
    ensures
        words(s).len() <= s.len(),
        s.len() > 0 && !is_ws(s.last()) ==> words(s).len() > 0,
    decreases s.len(),
{
    if s.len() > 0 {
        lemma_words_len(s.drop_last());
        if s.len() >= 2 {
            assert(s.drop_last().last() == s[s.len() - 2]);
        }
    }
}

/// The number of words found is at most the number of words.
proof fn lemma_words_found_bound(toks: Seq<Seq<char>>, hay: Seq<char>)
    ensures
        words_found(toks, hay) <= toks.len(),
    decreases toks.len(),
{
    if toks.len() > 0 {
        lemma_words_found_bound(toks.drop_last(), hay);
    }
}

/// The score of one event text. `hay` and `needle` are the text and the query, folded
/// alike, `toks` the words of `needle`, and `regex_hit` whether the compiled query
/// matches the unfolded text.
pub fn score_event(
    mode: SearchMode,
    hay: &[char],
    needle: &[char],
    toks: &Vec<Vec<char>>,
    regex_hit: bool,
) -> (r: Option<Relevance>)
    requires
        char_views(toks@) == words(needle@),
    ensures
        r == event_score(mode, hay@, needle@, regex_hit),
        r is Some ==> within_unit(r->0),
{
    match mode {
        SearchMode::Exact => {
            if contains_chars(hay, needle) {
                let count = count_occurrences_up_to(hay, needle, 5);
                Some(Relevance { num: 5 + count as u128, den: 10 })
            } else {
                None
            }
        },
        SearchMode::Regex => {
            if regex_hit {
                Some(Relevance { num: 8, den: 10 })
            } else {
                None
            }
        },
        SearchMode::Smart => {
            proof {
                lemma_words_len(needle@);
                lemma_words_found_bound(char_views(toks@), hay@);
            }
            assert(toks@.len() == char_views(toks@).len());
            let whole: u128 = if contains_chars(hay, needle) {
                1
            } else {
                0
            };
            let n = toks.len() as u128;
            let r = if n == 0 {
                Relevance { num: 6 * whole, den: 10 }
            } else {
                let found = count_words_found(toks, hay) as u128;
                assert(6 * whole * n + 4 * found <= 10 * n) by (nonlinear_arith)
                    requires
                        whole <= 1,
                        found <= n,
                ;
                assert(n <= u64::MAX);
                Relevance { num: 6 * whole * n + 4 * found, den: 10 * n }
            };
            if 20 * r.num > 3 * r.den {
                Some(r)
            } else {
                None
            }
        },
    }
}

/// The preview around the first match of `query` in `text`: up to `width` characters
/// on either side of it, `...` where text was cut, line breaks as spaces. Without a
/// match, the text's first `2 * width` characters.
pub open spec fn context_preview(text: Seq<char>, query: Seq<char>, width: nat, case_sensitive: bool) -> Seq<char> {
    preview_around(text, folded(text, case_sensitive), folded(query, case_sensitive), width)
}

/// The preview of `text` around the first occurrence of `needle` in `hay`, the text and
/// the query folded alike; without one, the first `2 * width` characters of `text`.
pub open spec fn preview_around(text: Seq<char>, hay: Seq<char>, needle: Seq<char>, width: nat) -> Seq<char> {
    match first_occurrence(hay, needle) {
        Some(pos) => {
            let start: int = if pos > width { pos - width } else { 0 };
            let far: int = pos + needle.len() + width;
            let end: int = if far < text.len() { far } else { text.len() as int };
            let slice = if start <= end { text.subrange(start, end) } else { text };
            let head = if start > 0 { dots() } else { seq![] };
            let tail = if end < text.len() { dots() } else { seq![] };
            flatten_lines(head + slice + tail)
        },
        None => ellipsized(flatten_lines(text), 2 * width),
    }
}

/// A one-line preview of a message: line breaks as spaces, trimmed, at most 140 characters.
pub open spec fn message_preview(s: Seq<char>) -> Seq<char> {
    ellipsized(trim(flatten_lines(s)), PREVIEW_LIMIT as nat)
}

/// The preview around the first match of `query` in `text`.
pub fn build_context_preview(text: &str, query: &str, context_chars: usize, case_sensitive: bool) -> (r: String)
    ensures
        r@ == context_preview(text@, query@, context_chars as nat, case_sensitive),
{
    let t = to_chars(text);
    let hay = folded_chars(text, case_sensitive);
    let needle = folded_chars(query, case_sensitive);
    from_chars(preview_chars(t.as_slice(), hay.as_slice(), needle.as_slice(), context_chars).as_slice())
}

/// The preview of `text` around the first occurrence of `folded_query` in `folded_text`.
pub fn preview_from_folded(text: &str, folded_text: &str, folded_query: &str, context_chars: usize) -> (r: String)
    ensures
        r@ == preview_around(text@, folded_text@, folded_query@, context_chars as nat),
{
    let t = to_chars(text);
    let hay = to_chars(folded_text);
    let needle = to_chars(folded_query);
    from_chars(preview_chars(t.as_slice(), hay.as_slice(), needle.as_slice(), context_chars).as_slice())
}

/// The preview of `t` around the first occurrence of `needle` in `hay`.
fn preview_chars(t: &[char], hay: &[char], needle: &[char], context_chars: usize) -> (r: Vec<char>)
    ensures
        r@ == preview_around(t@, hay@, needle@, context_chars as nat),
{
    match find_chars(hay, needle) {
        Some(pos) => {
            let start: usize = if pos > context_chars {
                pos - context_chars
            } else {
                0
            };
            let end: usize = if needle.len() >= t.len() || pos >= t.len() - needle.len()
                || context_chars >= t.len() - needle.len() - pos {
                t.len()
            } else {
                pos + needle.len() + context_chars
            };
            let mut out: Vec<char> = Vec::new();
            if start > 0 {
                push_str(&mut out, "...");
            }
            if start <= end {
                push_range(&mut out, t, start, end);
            } else {
                push_range(&mut out, t, 0, t.len());
            }
            if end < t.len() {
                push_str(&mut out, "...");
            }
            proof {
                reveal_strlit("...");
            }
            assert("..."@ =~= dots());
            assert(t@.subrange(0, t@.len() as int) =~= t@);
            flatten_newlines(out.as_slice())
        },
        None => {
            let flat = flatten_newlines(t);
            let max: usize = if context_chars > usize::MAX / 2 {
                usize::MAX
            } else {
                context_chars * 2
            };
            let cut = ellipsize_chars(flat.as_slice(), max);
            assert(flat@.len() == t@.len());
            assert(flat@.len() == flat.len() as nat);
            assert(ellipsized(flat@, max as nat) == ellipsized(flat@, 2 * context_chars as nat));
            cut
        },
    }
}

/// A one-line preview of a message.
pub fn clean_preview(s: &str) -> (r: String)
    ensures
        r@ == message_preview(s@),
{
    let flat = flatten_newlines(to_chars(s).as_slice());
    let t = trimmed(flat.as_slice());
    from_chars(ellipsize_chars(t.as_slice(), PREVIEW_LIMIT).as_slice())
}

/// The search parameters.
pub struct SearchArgs {
    pub query: String,
    pub mode: SearchMode,
    pub speaker: SpeakerFilter,
    pub case_sensitive: bool,
    pub max_results: usize,
    pub context_chars: usize,
}

/// One matching event.
pub struct SearchHit {
    pub session_id: String,
    pub project: String,
    pub path: String,
    pub speaker: String,
    pub timestamp: Option<String>,
    pub relevance: Relevance,
    pub preview: String,
}

/// What a hit holds, as texts.
pub struct HitView {
    pub session_id: Seq<char>,
    pub project: Seq<char>,
    pub path: Seq<char>,
    pub speaker: Seq<char>,
    pub timestamp: Option<Seq<char>>,
    pub relevance: Relevance,
    pub preview: Seq<char>,
}

impl View for SearchHit {
    type V = HitView;

    open spec fn view(&self) -> HitView {
        HitView {
            session_id: self.session_id@,
            project: self.project@,
            path: self.path@,
            speaker: self.speaker@,
            timestamp: crate::normalize::opt_view(self.timestamp),
            relevance: self.relevance,
            preview: self.preview@,
        }
    }
}

/// Why a search could not run.
pub enum SearchError {
    /// The query is not a valid regular expression; `reason` is what the regex engine said.
    InvalidRegex { query: String, reason: String },
}

/// Whether the regex engine accepts `pattern` (compiled case-insensitively or not).
pub uninterp spec fn regex_compiles(pattern: Seq<char>, case_insensitive: bool) -> bool;

/// Whether the compiled `pattern` matches somewhere in `text`.
pub uninterp spec fn regex_finds(pattern: Seq<char>, case_insensitive: bool, text: Seq<char>) -> bool;

/// A compiled regular expression, with the pattern and flag it was compiled from.
pub struct QueryRegex {
    re: regex::Regex,
    pub(crate) pattern: Ghost<Seq<char>>,
    pub(crate) case_insensitive: Ghost<bool>,
}

#[verifier::external_type_specification]
#[verifier::external_body]
pub struct ExRegex(regex::Regex);

/// Relies on `regex::RegexBuilder::build`: whether a pattern compiles depends on the
/// pattern and the case flag alone; the error is rendered as text.
#[verifier::external_body]
fn compile_regex(pattern: &str, case_insensitive: bool) -> (r: Result<QueryRegex, String>)
    ensures
        r is Ok == regex_compiles(pattern@, case_insensitive),
        r is Ok ==> r->Ok_0.pattern@ == pattern@ && r->Ok_0.case_insensitive@ == case_insensitive,
{
    match regex::RegexBuilder::new(pattern).case_insensitive(case_insensitive).build() {
        Ok(re) => Ok(QueryRegex { re, pattern: Ghost(pattern@), case_insensitive: Ghost(case_insensitive) }),
        Err(e) => Err(e.to_string()),
    }
}

/// Relies on `regex::Regex::find`: whether there is a match depends on the compiled
/// pattern and the text alone.
#[verifier::external_body]
fn regex_find(re: &QueryRegex, text: &str) -> (r: bool)
    ensures
        r == regex_finds(re.pattern@, re.case_insensitive@, text@),
{
    re.re.find(text).is_some()
}

/// Whether the speaker filter lets an event of `role` through.
pub open spec fn speaker_allows(filter: SpeakerFilter, role: Seq<char>) -> bool {
    match filter {
        SpeakerFilter::Both => true,
        SpeakerFilter::User => role == "user"@,
        SpeakerFilter::Assistant => role == "assistant"@,
    }
}

/// The hit that an event gives, if any.
pub open spec fn event_hit(session: Session, e: EventView, args: SearchArgs) -> Option<HitView> {
    let cs = args.case_sensitive;
    if !speaker_allows(args.speaker, e.role) {
        None
    } else {
        match event_score(
            args.mode,
            folded(e.content, cs),
            folded(args.query@, cs),
            regex_finds(args.query@, !cs, e.content),
        ) {
            Some(r) => Some(
                HitView {
                    session_id: session.id@,
                    project: session.project@,
                    path: session.path@,
                    speaker: e.role,
                    timestamp: e.timestamp,
                    relevance: r,
                    preview: context_preview(e.content, args.query@, args.context_chars as nat, cs),
                },
            ),
            None => None,
        }
    }
}

/// The hits of a session's events, in event order.
pub open spec fn session_hits(session: Session, events: Seq<EventView>, args: SearchArgs) -> Seq<HitView>
    decreases events.len(),
{
    if events.len() == 0 {
        seq![]
    } else {
        let before = session_hits(session, events.drop_last(), args);
        match event_hit(session, events.last(), args) {
            Some(h) => before.push(h),
            None => before,
        }
    }
}

/// The hits of all sessions, session by session, each over its events at terse detail.
pub open spec fn all_hits(sessions: Seq<LoadedSession>, args: SearchArgs) -> Seq<HitView>
    decreases sessions.len(),
{
    if sessions.len() == 0 {
        seq![]
    } else {
        let s = sessions.last();
        all_hits(sessions.drop_last(), args) + session_hits(
            s.session,
            normalized(line_views(s.lines@), false).0,
            args,
        )
    }
}

/// `a` ranks strictly before `b`: higher relevance, or equal relevance and a smaller
/// session id.
pub open spec fn ranks_before(a: HitView, b: HitView) -> bool {
    let x = a.relevance.num * b.relevance.den;
    let y = b.relevance.num * a.relevance.den;
    x > y || (x == y && lex_less(a.session_id, b.session_id))
}

/// `h` placed into the ranked list `s`: after every hit that it does not rank before.
pub open spec fn insert_ranked(s: Seq<HitView>, h: HitView) -> Seq<HitView>
    decreases s.len(),
{
    if s.len() == 0 || !ranks_before(h, s.last()) {
        s.push(h)
    } else {
        insert_ranked(s.drop_last(), h).push(s.last())
    }
}

/// The hits in rank order; hits that rank alike keep their order.
pub open spec fn ranked(hs: Seq<HitView>) -> Seq<HitView>
    decreases hs.len(),
{
    if hs.len() == 0 {
        seq![]
    } else {
        insert_ranked(ranked(hs.drop_last()), hs.last())
    }
}

/// Whether hit `a` ranks strictly before hit `b`, for hits scored alike.
fn hit_ranks_before(a: &SearchHit, b: &SearchHit) -> (r: bool)
    requires
        a.relevance.den == b.relevance.den,
        a.relevance.den > 0,
    ensures
        r == ranks_before(a@, b@),
{
    let ghost d = a.relevance.den as int;
    let ghost (x, y) = (a.relevance.num as int, b.relevance.num as int);
    assert(x > y <==> x * d > y * d) by (nonlinear_arith)
        requires
            d > 0,
    ;
    assert(x == y <==> x * d == y * d) by (nonlinear_arith)
        requires
            d > 0,
    ;
    a.relevance.num > b.relevance.num || (a.relevance.num == b.relevance.num && text_less(
        a.session_id.as_str(),
        b.session_id.as_str(),
    ))
}

/// The views of a list of hits.
pub open spec fn hit_views(hs: Seq<SearchHit>) -> Seq<HitView> {
    hs.map_values(|h: SearchHit| h@)
}

/// Every hit is scored over the denominator `d`.
pub open spec fn scored_over(hs: Seq<HitView>, d: u128) -> bool {
    forall|i: int| 0 <= i < hs.len() ==> (#[trigger] hs[i]).relevance.den == d
}

/// Places `h` into the ranked list `v`.
fn insert_hit(v: &mut Vec<SearchHit>, h: SearchHit) -> (j: usize)
    requires
        scored_over(hit_views(old(v)@), h.relevance.den),
        h.relevance.den > 0,
    ensures
        hit_views(final(v)@) == insert_ranked(hit_views(old(v)@), h@),
        j <= old(v)@.len(),
        final(v)@ == old(v)@.insert(j as int, h),
{
    let ghost s = hit_views(v@);
    let mut j: usize = v.len();
    assert(s.take(j as int) =~= s);
    assert(s.skip(j as int) =~= Seq::<HitView>::empty());
    let mut done = false;
    while !done
        invariant
            j <= v.len(),
            s == hit_views(v@),
            scored_over(s, h.relevance.den),
            h.relevance.den > 0,
            insert_ranked(s, h@) == insert_ranked(s.take(j as int), h@) + s.skip(j as int),
            done ==> (j == 0 || !ranks_before(h@, s[j - 1])),
        decreases j + if done {
            0int
        } else {
            1int
        },
    {
        if j == 0 {
            done = true;
        } else {
            assert(s[j - 1].relevance.den == h.relevance.den);
            if hit_ranks_before(&h, &v[j - 1]) {
                assert(s.take(j as int).drop_last() =~= s.take(j - 1));
                assert(s.take(j as int).last() == s[j - 1]);
                assert(s.take(j - 1).push(s[j - 1]) + s.skip(j as int) =~= s.take(j - 1) + s.skip(
                    j - 1,
                ));
                assert(insert_ranked(s.take(j - 1), h@).push(s[j - 1]) + s.skip(j as int)
                    =~= insert_ranked(s.take(j - 1), h@) + s.skip(j - 1));
                j = j - 1;
            } else {
                done = true;
            }
        }
    }
    proof {
        if j > 0 {
            assert(s.take(j as int).last() == s[j - 1]);
        }
    }
    v.insert(j, h);
    assert(hit_views(v@) =~= s.take(j as int).push(h@) + s.skip(j as int));
    j
}

/// The denominator of every score in a search for `needle` under `mode`.
pub open spec fn search_den(mode: SearchMode, needle: Seq<char>) -> u128 {
    match mode {
        SearchMode::Smart => if words(needle).len() == 0 {
            10
        } else {
            (10 * words(needle).len()) as u128
        },
        _ => 10,
    }
}

/// The hit that an event gives, if any.
fn hit_for_event(
    session: &Session,
    e: &NormalizedEvent,
    args: &SearchArgs,
    needle: &Vec<char>,
    toks: &Vec<Vec<char>>,
    regex: &Option<QueryRegex>,
) -> (r: Option<SearchHit>)
    requires
        needle@ == folded(args.query@, args.case_sensitive),
        char_views(toks@) == words(needle@),
        args.mode == SearchMode::Regex ==> regex is Some && regex->0.pattern@ == args.query@
            && regex->0.case_insensitive@ == !args.case_sensitive,
    ensures
        r is Some == event_hit(*session, e@, *args) is Some,
        r is Some ==> r->0@ == event_hit(*session, e@, *args)->0,
        r is Some ==> r->0.relevance.den == search_den(args.mode, needle@),
        r is Some ==> within_unit(r->0.relevance),
{
    let allowed = match args.speaker {
        SpeakerFilter::Both => true,
        SpeakerFilter::User => crate::json::same_text(e.role.as_str(), "user"),
        SpeakerFilter::Assistant => crate::json::same_text(e.role.as_str(), "assistant"),
    };
    if !allowed {
        return None;
    }
    let hay = folded_chars(e.content.as_str(), args.case_sensitive);
    let regex_hit = match regex {
        Some(re) => regex_find(re, e.content.as_str()),
        None => false,
    };
    let ghost exact_regex = regex_finds(args.query@, !args.case_sensitive, e.content@);
    assert(args.mode == SearchMode::Regex ==> regex_hit == exact_regex);
    assert(event_score(args.mode, hay@, needle@, regex_hit) == event_score(
        args.mode,
        hay@,
        needle@,
        exact_regex,
    ));
    match score_event(args.mode, hay.as_slice(), needle.as_slice(), toks, regex_hit) {
        Some(relevance) => {
            assert(toks@.len() == char_views(toks@).len());
            Some(
                SearchHit {
                    session_id: session.id.clone(),
                    project: session.project.clone(),
                    path: session.path.clone(),
                    speaker: e.role.clone(),
                    timestamp: match &e.timestamp {
                        Some(t) => Some(t.clone()),
                        None => None,
                    },
                    relevance,
                    preview: build_context_preview(
                        e.content.as_str(),
                        args.query.as_str(),
                        args.context_chars,
                        args.case_sensitive,
                    ),
                },
            )
        },
        None => None,
    }
}

/// The outcome of a search: the ranked hits, at most `max_results` of them.
pub open spec fn search_result(sessions: Seq<LoadedSession>, args: SearchArgs) -> Seq<HitView> {
    let hs = ranked(all_hits(sessions, args));
    if hs.len() <= args.max_results {
        hs
    } else {
        hs.take(args.max_results as int)
    }
}

/// Whether a search under `args` can run: a regex query must compile.
pub open spec fn search_runs(args: SearchArgs) -> bool {
    args.mode != SearchMode::Regex || regex_compiles(args.query@, !args.case_sensitive)
}

/// Searches the sessions' events (at terse detail) for the query; the hits come ranked
/// and cut to `max_results`. Fails, before any session is read, when the query of a
/// regex search does not compile.
pub fn search_sessions(sessions: &Vec<LoadedSession>, args: &SearchArgs) -> (r: Result<
    Vec<SearchHit>,
    SearchError,
>)
    ensures
        r is Ok == search_runs(*args),
        r matches Err(SearchError::InvalidRegex { query, .. }) ==> query@ == args.query@,
        r is Ok ==> hit_views(r->Ok_0@) == search_result(sessions@, *args),
        r is Ok ==> forall|i: int|
            0 <= i < r->Ok_0@.len() ==> within_unit(#[trigger] r->Ok_0@[i].relevance),
        r is Ok ==> rank_sorted(hit_views(r->Ok_0@)),
{
    let regex = if args.mode == SearchMode::Regex {
        match compile_regex(args.query.as_str(), !args.case_sensitive) {
            Ok(re) => Some(re),
            Err(reason) => {
                return Err(SearchError::InvalidRegex { query: args.query.clone(), reason });
            },
        }
    } else {
        None
    };
    let needle = folded_chars(args.query.as_str(), args.case_sensitive);
    let toks = split_words(needle.as_slice());
    let ghost d = search_den(args.mode, needle@);
    let mut hits: Vec<SearchHit> = Vec::new();
    let mut k: usize = 0;
    while k < sessions.len()
        invariant
            k <= sessions.len(),
            needle@ == folded(args.query@, args.case_sensitive),
            char_views(toks@) == words(needle@),
            args.mode == SearchMode::Regex ==> regex is Some && regex->0.pattern@ == args.query@
                && regex->0.case_insensitive@ == !args.case_sensitive,
            d == search_den(args.mode, needle@),
            hit_views(hits@) == ranked(all_hits(sessions@.take(k as int), *args)),
            scored_over(hit_views(hits@), d),
            scored_over(all_hits(sessions@.take(k as int), *args), d),
            forall|i: int| 0 <= i < hits@.len() ==> within_unit(#[trigger] hits@[i].relevance),
        decreases sessions.len() - k,
    {
        let loaded = &sessions[k];
        let parsed = parse_session_events(&loaded.lines, false);
        let ghost events = normalized(line_views(loaded.lines@), false).0;
        let ghost base = all_hits(sessions@.take(k as int), *args);
        assert(sessions@.take(k + 1).drop_last() =~= sessions@.take(k as int));
        assert(sessions@.take(k + 1).last() == sessions@[k as int]);
        let mut i: usize = 0;
        assert(events.take(0) =~= Seq::<EventView>::empty());
        assert(base + seq![] =~= base);
        while i < parsed.events.len()
            invariant
                i <= parsed.events.len(),
                event_views(parsed.events@) == events,
                needle@ == folded(args.query@, args.case_sensitive),
                char_views(toks@) == words(needle@),
                args.mode == SearchMode::Regex ==> regex is Some && regex->0.pattern@
                    == args.query@ && regex->0.case_insensitive@ == !args.case_sensitive,
                d == search_den(args.mode, needle@),
                hit_views(hits@) == ranked(
                    base + session_hits(loaded.session, events.take(i as int), *args),
                ),
                scored_over(hit_views(hits@), d),
                scored_over(base + session_hits(loaded.session, events.take(i as int), *args), d),
                forall|j: int| 0 <= j < hits@.len() ==> within_unit(#[trigger] hits@[j].relevance),
            decreases parsed.events.len() - i,
        {
            let ghost acc = base + session_hits(loaded.session, events.take(i as int), *args);
            assert(events.take(i + 1).drop_last() =~= events.take(i as int));
            assert(events[i as int] == parsed.events@[i as int]@);
            match hit_for_event(&loaded.session, &parsed.events[i], args, &needle, &toks, &regex) {
                Some(h) => {
                    assert(d > 0) by {
                        assert(toks@.len() == char_views(toks@).len());
                    }
                    let ghost hv = h@;
                    let ghost hr = h.relevance;
                    let ghost old_hits = hits@;
                    let at = insert_hit(&mut hits, h);
                    assert(acc.push(hv).drop_last() =~= acc);
                    assert(base + session_hits(loaded.session, events.take(i + 1), *args)
                        =~= acc.push(hv));
                    assert forall|j: int| 0 <= j < hits@.len() implies within_unit(
                        #[trigger] hits@[j].relevance,
                    ) && hits@[j].relevance.den == d by {
                        if j < at {
                            assert(hits@[j] == old_hits[j]);
                            assert(hit_views(old_hits)[j].relevance == old_hits[j].relevance);
                        } else if j > at {
                            assert(hits@[j] == old_hits[j - 1]);
                            assert(hit_views(old_hits)[j - 1].relevance == old_hits[j - 1].relevance);
                        }
                    }
                    assert(scored_over(hit_views(hits@), d));
                    assert(scored_over(acc.push(hv), d)) by {
                        assert forall|j: int| 0 <= j < acc.push(hv).len() implies (
                        #[trigger] acc.push(hv)[j]).relevance.den == d by {
                            if j < acc.len() {
                                assert(acc.push(hv)[j] == acc[j]);
                            }
                        }
                    }
                },
                None => {
                    assert(base + session_hits(loaded.session, events.take(i + 1), *args)
                        =~= acc);
                },
            }
            i = i + 1;
        }
        assert(events.take(i as int) =~= events);
        k = k + 1;
    }
    assert(sessions@.take(k as int) =~= sessions@);
    proof {
        assert(d > 0) by {
            assert(toks@.len() == char_views(toks@).len());
            assert(toks@.len() == toks.len() as nat);
        }
        lemma_ranked_sorted(all_hits(sessions@, *args), d);
    }
    let ghost all = hit_views(hits@);
    hits.truncate(args.max_results);
    assert(hit_views(hits@) =~= search_result(sessions@, *args));
    assert(rank_sorted(hit_views(hits@))) by {
        assert forall|i: int, j: int| 0 <= i < j < hit_views(hits@).len() implies !ranks_before(
            #[trigger] hit_views(hits@)[j],
            #[trigger] hit_views(hits@)[i],
        ) by {
            assert(hit_views(hits@)[i] == all[i]);
            assert(hit_views(hits@)[j] == all[j]);
        }
    }
    Ok(hits)
}

/// No hit ranks strictly before one that precedes it.
pub open spec fn rank_sorted(hs: Seq<HitView>) -> bool {
    forall|i: int, j: int| 0 <= i < j < hs.len() ==> !ranks_before(#[trigger] hs[j], #[trigger] hs[i])
}

/// For hits scored over one positive denominator, ranking compares numerators, then ids.
proof fn lemma_ranks_by_num(a: HitView, b: HitView)
    requires
        a.relevance.den == b.relevance.den,
        a.relevance.den > 0,
    ensures
        ranks_before(a, b) <==> (a.relevance.num > b.relevance.num || (a.relevance.num
            == b.relevance.num && lex_less(a.session_id, b.session_id))),
{
    let d = a.relevance.den as int;
    let (x, y) = (a.relevance.num as int, b.relevance.num as int);
    assert(x > y <==> x * d > y * d) by (nonlinear_arith)
        requires
            d > 0,
    ;
    assert(x == y <==> x * d == y * d) by (nonlinear_arith)
        requires
            d > 0,
    ;
}

/// Ranking before is asymmetric and negatively transitive over one denominator.
proof fn lemma_rank_order(a: HitView, b: HitView, c: HitView)
    requires
        a.relevance.den == b.relevance.den,
        b.relevance.den == c.relevance.den,
        a.relevance.den > 0,
    ensures
        ranks_before(a, b) ==> !ranks_before(b, a),
        ranks_before(a, c) ==> ranks_before(a, b) || ranks_before(b, c),
{
    lemma_ranks_by_num(a, b);
    lemma_ranks_by_num(b, a);
    lemma_ranks_by_num(a, c);
    lemma_ranks_by_num(b, c);
    let (x, y, z) = (a.session_id, b.session_id, c.session_id);
    if lex_less(x, y) && lex_less(y, x) {
        lemma_lex_transitive(x, y, x);
        lemma_lex_irreflexive(x);
    }
    if ranks_before(a, c) && !ranks_before(a, b) && !ranks_before(b, c) {
        lemma_lex_irreflexive(x);
        if x != y {
            lemma_lex_total(x, y);
        }
        if y != z {
            lemma_lex_total(y, z);
        }
        if x != y && y != z {
            lemma_lex_transitive(z, y, x);
            lemma_lex_transitive(x, z, x);
        }
    }
}

/// Placing a hit into a ranked list inserts it at one position, and keeps the list
/// sorted.
proof fn lemma_insert_ranked(s: Seq<HitView>, h: HitView) -> (p: int)
    requires
        scored_over(s, h.relevance.den),
        h.relevance.den > 0,
    ensures
        0 <= p <= s.len(),
        insert_ranked(s, h) == s.insert(p, h),
        rank_sorted(s) ==> rank_sorted(insert_ranked(s, h)),
    decreases s.len(),
{
    if s.len() == 0 || !ranks_before(h, s.last()) {
        let r = s.push(h);
        assert(r =~= s.insert(s.len() as int, h));
        if rank_sorted(s) {
            assert forall|i: int, j: int| 0 <= i < j < r.len() implies !ranks_before(
                #[trigger] r[j],
                #[trigger] r[i],
            ) by {
                if j == s.len() && i < s.len() - 1 {
                    lemma_rank_order(h, s.last(), s[i]);
                    assert(!ranks_before(s[s.len() - 1], s[i]));
                }
            }
        }
        s.len() as int
    } else {
        let t = s.drop_last();
        let last = s.last();
        let q = lemma_insert_ranked(t, h);
        let r = insert_ranked(s, h);
        assert(r =~= s.insert(q, h));
        if rank_sorted(s) {
            assert(rank_sorted(t));
            assert forall|i: int, j: int| 0 <= i < j < r.len() implies !ranks_before(
                #[trigger] r[j],
                #[trigger] r[i],
            ) by {
                if j == r.len() - 1 {
                    lemma_rank_order(h, last, h);
                    if i < q {
                        assert(r[i] == s[i]);
                    } else if i > q {
                        assert(r[i] == s[i - 1]);
                    }
                } else {
                    assert(r[i] == t.insert(q, h)[i]);
                    assert(r[j] == t.insert(q, h)[j]);
                }
            }
        }
        q
    }
}

/// Ranked hits are sorted: by descending relevance, ties by ascending session id.
/// Hits of one search share a denominator.
pub proof fn lemma_ranked_sorted(hs: Seq<HitView>, d: u128)
    requires
        scored_over(hs, d),
        d > 0,
    ensures
        rank_sorted(ranked(hs)),
        scored_over(ranked(hs), d),
    decreases hs.len(),
{
    if hs.len() > 0 {
        lemma_ranked_sorted(hs.drop_last(), d);
        let s = ranked(hs.drop_last());
        let p = lemma_insert_ranked(s, hs.last());
        assert forall|i: int| 0 <= i < ranked(hs).len() implies (#[trigger] ranked(hs)[i]).relevance.den == d by {
            if i < p {
                assert(ranked(hs)[i] == s[i]);
            } else if i > p {
                assert(ranked(hs)[i] == s[i - 1]);
            }
        }
    }
}

/// The width of the previews of a selection search.
pub const SELECTION_CONTEXT: usize = 150;

/// The search that selects sessions for export: smart mode, both speakers, case-insensitive,
/// no limit on the number of hits.
pub open spec fn selection_search(query: String) -> SearchArgs {
    SearchArgs {
        query,
        mode: SearchMode::Smart,
        speaker: SpeakerFilter::Both,
        case_sensitive: false,
        max_results: usize::MAX,
        context_chars: SELECTION_CONTEXT,
    }
}

/// The session ids of the hits of a selection search for `query`, in rank order.
pub fn matched_session_ids(sessions: &Vec<LoadedSession>, query: String) -> (r: Vec<String>)
    ensures
        r@.map_values(|s: String| s@) == search_result(sessions@, selection_search(query)).map_values(
            |h: HitView| h.session_id,
        ),
{
    let args = SearchArgs {
        query,
        mode: SearchMode::Smart,
        speaker: SpeakerFilter::Both,
        case_sensitive: false,
        max_results: usize::MAX,
        context_chars: SELECTION_CONTEXT,
    };
    let mut ids: Vec<String> = Vec::new();
    match search_sessions(sessions, &args) {
        Ok(hits) => {
            let ghost hv = hit_views(hits@);
            let mut i: usize = 0;
            while i < hits.len()
                invariant
                    i <= hits.len(),
                    hv == hit_views(hits@),
                    ids@.map_values(|s: String| s@) == hv.take(i as int).map_values(
                        |h: HitView| h.session_id,
                    ),
                decreases hits.len() - i,
            {
                assert(hv[i as int] == hits@[i as int]@);
                let ghost before = ids@;
                ids.push(hits[i].session_id.clone());
                assert(ids@.map_values(|s: String| s@) =~= before.map_values(|s: String| s@).push(
                    hv[i as int].session_id,
                ));
                assert(hv.take(i + 1).map_values(|h: HitView| h.session_id) =~= hv.take(
                    i as int,
                ).map_values(|h: HitView| h.session_id).push(hv[i as int].session_id));
                i = i + 1;
                assert(ids@.map_values(|s: String| s@) =~= hv.take(i as int).map_values(
                    |h: HitView| h.session_id,
                ));
            }
            assert(hv.take(i as int) =~= hv);
        },
        Err(_) => {},
    }
    ids
}

/// No event of the session matches the exact query.
pub open spec fn no_exact_match(events: Seq<EventView>, args: SearchArgs) -> bool {
    forall|i: int|
        0 <= i < events.len() ==> !contains(
            folded((#[trigger] events[i]).content, args.case_sensitive),
            folded(args.query@, args.case_sensitive),
        )
}

proof fn lemma_session_hits_empty(session: Session, events: Seq<EventView>, args: SearchArgs)
    requires
        args.mode == SearchMode::Exact,
        no_exact_match(events, args),
    ensures
        session_hits(session, events, args).len() == 0,
    decreases events.len(),
{
    if events.len() > 0 {
        assert(no_exact_match(events.drop_last(), args)) by {
            assert forall|i: int| 0 <= i < events.drop_last().len() implies !contains(
                folded((#[trigger] events.drop_last()[i]).content, args.case_sensitive),
                folded(args.query@, args.case_sensitive),
            ) by {
                assert(events.drop_last()[i] == events[i]);
            }
        }
        lemma_session_hits_empty(session, events.drop_last(), args);
        assert(events.last() == events[events.len() - 1]);
    }
}

proof fn lemma_all_hits_empty(sessions: Seq<LoadedSession>, args: SearchArgs)
    requires
        args.mode == SearchMode::Exact,
        forall|k: int|
            0 <= k < sessions.len() ==> no_exact_match(
                normalized(line_views((#[trigger] sessions[k]).lines@), false).0,
                args,
            ),
    ensures
        all_hits(sessions, args).len() == 0,
    decreases sessions.len(),
{
    if sessions.len() > 0 {
        assert forall|k: int| 0 <= k < sessions.drop_last().len() implies no_exact_match(
            normalized(line_views((#[trigger] sessions.drop_last()[k]).lines@), false).0,
            args,
        ) by {
            assert(sessions.drop_last()[k] == sessions[k]);
        }
        lemma_all_hits_empty(sessions.drop_last(), args);
        let s = sessions[sessions.len() - 1];
        lemma_session_hits_empty(s.session, normalized(line_views(s.lines@), false).0, args);
    }
}

/// An exact search for a query that no event holds finds nothing: the ranked list is
/// empty.
pub proof fn lemma_exact_without_match_is_empty(sessions: Seq<LoadedSession>, args: SearchArgs)
    requires
        args.mode == SearchMode::Exact,
        forall|k: int|
            0 <= k < sessions.len() ==> no_exact_match(
                normalized(line_views((#[trigger] sessions[k]).lines@), false).0,
                args,
            ),
    ensures
        search_result(sessions, args).len() == 0,
{
    lemma_all_hits_empty(sessions, args);
    assert(ranked(all_hits(sessions, args)) =~= Seq::<HitView>::empty());
}

} // verus!
