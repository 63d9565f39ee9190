//! Frequency tables: counts by key, and their top entries.
use crate::json::{field, get_field, get_str, parse_json, parsed_json, same_text, str_field, text_or, JsonValue};
use crate::normalize::line_views;
use crate::text::{blank, from_chars, lex_less, str_is_blank, text_less, to_chars};
use vstd::prelude::*;

verus! {

/// The texts and counts of a table.
pub open spec fn count_views(v: Seq<(String, u64)>) -> Seq<(Seq<char>, u64)> {
    v.map_values(|p: (String, u64)| (p.0@, p.1))
}

/// Every key occurs once.
pub open spec fn keys_unique(v: Seq<(Seq<char>, u64)>) -> bool {
    forall|i: int, j: int| 0 <= i < j < v.len() ==> v[i].0 != v[j].0
}

/// Counts one more occurrence of `key`: its entry goes up by one (stopping at the
/// largest `u64`), or a new entry with count one is appended.
pub fn increment_count(map: &mut Vec<(String, u64)>, key: String)
    ensures
        ({
            let before = count_views(old(map)@);
            let after = count_views(final(map)@);
            match choose_index(before, key@) {
                Some(i) => after == before.update(
                    i,
                    (key@, if before[i].1 == u64::MAX { u64::MAX } else { (before[i].1 + 1) as u64 }),
                ),
                None => after == before.push((key@, 1u64)),
            }
        }),
        keys_unique(count_views(old(map)@)) ==> keys_unique(count_views(final(map)@)),
{
    let ghost before = count_views(map@);
    let mut i: usize = 0;
    while i < map.len()
        invariant
            i <= map.len(),
            map@ == old(map)@,
            before == count_views(map@),
            forall|j: int| 0 <= j < i ==> before[j].0 != key@,
        decreases map.len() - i,
    {
        if crate::json::same_text(map[i].0.as_str(), key.as_str()) {
            let c = map[i].1;
            let next = if c == u64::MAX {
                c
            } else {
                c + 1
            };
            assert(before[i as int] == (map@[i as int].0@, c));
            assert(before[i as int].0 == key@);
            map.set(i, (key, next));
            assert(choose_index(before, key@) == Some(i as int)) by {
                lemma_first_index(before, key@, i as int);
            }
            assert(count_views(map@) =~= before.update(i as int, (key@, next)));
            assert(keys_unique(before) ==> keys_unique(count_views(map@))) by {
                if keys_unique(before) {
                    assert forall|a: int, b: int|
                        0 <= a < b < count_views(map@).len() implies count_views(map@)[a].0
                        != count_views(map@)[b].0 by {
                        assert(before[a].0 != before[b].0);
                    }
                }
            }
            return;
        }
        i = i + 1;
    }
    map.push((key, 1));
    assert(choose_index(before, key@) is None) by {
        lemma_no_index(before, key@);
    }
    assert(count_views(map@) =~= before.push((key@, 1u64)));
}

/// The position of the first entry for `key`.
pub open spec fn choose_index(v: Seq<(Seq<char>, u64)>, key: Seq<char>) -> Option<int>
    decreases v.len(),
{
    if v.len() == 0 {
        None
    } else {
        match choose_index(v.drop_last(), key) {
            Some(i) => Some(i),
            None => if v.last().0 == key {
                Some(v.len() - 1)
            } else {
                None
            },
        }
    }
}

proof fn lemma_first_index(v: Seq<(Seq<char>, u64)>, key: Seq<char>, i: int)
    requires
        0 <= i < v.len(),
        v[i].0 == key,
        forall|j: int| 0 <= j < i ==> v[j].0 != key,
    ensures
        choose_index(v, key) == Some(i),
    decreases v.len(),
{
    if i < v.len() - 1 {
        lemma_first_index(v.drop_last(), key, i);
    } else {
        lemma_no_index(v.drop_last(), key);
    }
}

proof fn lemma_no_index(v: Seq<(Seq<char>, u64)>, key: Seq<char>)
    requires
        forall|j: int| 0 <= j < v.len() ==> v[j].0 != key,
    ensures
        choose_index(v, key) is None,
    decreases v.len(),
{
    if v.len() > 0 {
        lemma_no_index(v.drop_last(), key);
    }
}

/// Entry `a` comes before entry `b`: a larger count, or an equal count and a smaller key.
pub open spec fn count_before(a: (Seq<char>, u64), b: (Seq<char>, u64)) -> bool {
    a.1 > b.1 || (a.1 == b.1 && lex_less(a.0, b.0))
}

/// `e` placed into the ordered table `s`, after every entry it does not come before.
pub open spec fn insert_count(s: Seq<(Seq<char>, u64)>, e: (Seq<char>, u64)) -> Seq<(Seq<char>, u64)>
    decreases s.len(),
{
    if s.len() == 0 || !count_before(e, s.last()) {
        s.push(e)
    } else {
        insert_count(s.drop_last(), e).push(s.last())
    }
}

/// The entries ordered by descending count, then ascending key.
pub open spec fn counts_ordered(v: Seq<(Seq<char>, u64)>) -> Seq<(Seq<char>, u64)>
    decreases v.len(),
{
    if v.len() == 0 {
        seq![]
    } else {
        insert_count(counts_ordered(v.drop_last()), v.last())
    }
}

/// The first `n` entries by descending count, then ascending key.
pub fn top_n_sorted_map(map: Vec<(String, u64)>, n: usize) -> (r: Vec<(String, u64)>)
    ensures
        ({
            let all = counts_ordered(count_views(map@));
            count_views(r@) == if all.len() <= n {
                all
            } else {
                all.take(n as int)
            }
        }),
{
    let mut out: Vec<(String, u64)> = Vec::new();
    let mut rest = map;
    let ghost items = count_views(rest@);
    let mut i: usize = 0;
    while i < rest.len()
        invariant
            i <= rest.len(),
            items == count_views(rest@),
            count_views(out@) == counts_ordered(items.take(i as int)),
        decreases rest.len() - i,
    {
        let key = rest[i].0.clone();
        let count = rest[i].1;
        let ghost s = count_views(out@);
        let ghost e = (key@, count);
        let mut j: usize = out.len();
        let mut done = false;
        assert(s.take(j as int) =~= s);
        assert(s.skip(j as int) =~= Seq::<(Seq<char>, u64)>::empty());
        while !done
            invariant
                j <= out.len(),
                e == (key@, count),
                s == count_views(out@),
                insert_count(s, e) == insert_count(s.take(j as int), e) + s.skip(j as int),
                done ==> (j == 0 || !count_before(e, s[j - 1])),
            decreases j + if done {
                0int
            } else {
                1int
            },
        {
            if j == 0 {
                done = true;
            } else {
                assert(s[j - 1] == (out@[j - 1].0@, out@[j - 1].1));
                let before = count > out[j - 1].1 || (count == out[j - 1].1 && text_less(
                    key.as_str(),
                    out[j - 1].0.as_str(),
                ));
                if before {
                    assert(s.take(j as int).drop_last() =~= s.take(j - 1));
                    assert(s.take(j as int).last() == s[j - 1]);
                    assert(insert_count(s.take(j - 1), e).push(s[j - 1]) + s.skip(j as int)
                        =~= insert_count(s.take(j - 1), e) + s.skip(j - 1));
                    j = j - 1;
                } else {
                    done = true;
                }
            }
        }
        proof {
            if j > 0 {
                assert(s.take(j as int).last() == s[j - 1]);
            }
        }
        out.insert(j, (key, count));
        assert(count_views(out@) =~= s.take(j as int).push(e) + s.skip(j as int));
        assert(items.take(i + 1).drop_last() =~= items.take(i as int));
        assert(items[i as int] == e);
        i = i + 1;
    }
    assert(items.take(i as int) =~= items);
    out.truncate(n);
    assert(count_views(out@) =~= {
        let all = counts_ordered(items);
        if all.len() <= n {
            all
        } else {
            all.take(n as int)
        }
    });
    out
}

/// The table with one more occurrence of `key` (stopping at the largest `u64`).
pub open spec fn bumped(v: Seq<(Seq<char>, u64)>, key: Seq<char>) -> Seq<(Seq<char>, u64)> {
    match choose_index(v, key) {
        Some(i) => v.update(
            i,
            (key, if v[i].1 == u64::MAX { u64::MAX } else { (v[i].1 + 1) as u64 }),
        ),
        None => v.push((key, 1u64)),
    }
}

/// One more, stopping at the largest `u64`.
pub open spec fn plus_one(n: u64) -> u64 {
    if n == u64::MAX {
        n
    } else {
        (n + 1) as u64
    }
}

/// Frequencies over a corpus: records, parse errors, record types, content block types,
/// and the models of assistant records.
pub struct CorpusStats {
    pub total_records: u64,
    pub parse_errors: u64,
    pub record_types: Vec<(String, u64)>,
    pub block_types: Vec<(String, u64)>,
    pub models: Vec<(String, u64)>,
}

impl CorpusStats {
    /// Statistics of an empty corpus.
    pub fn new() -> (r: CorpusStats)
        ensures
            r@.total_records == 0,
            r@.parse_errors == 0,
            r@.record_types.len() == 0,
            r@.block_types.len() == 0,
            r@.models.len() == 0,
            r.wf(),
    {
        CorpusStats {
            total_records: 0,
            parse_errors: 0,
            record_types: Vec::new(),
            block_types: Vec::new(),
            models: Vec::new(),
        }
    }
}

/// What the statistics hold, as texts.
pub struct StatsView {
    pub total_records: u64,
    pub parse_errors: u64,
    pub record_types: Seq<(Seq<char>, u64)>,
    pub block_types: Seq<(Seq<char>, u64)>,
    pub models: Seq<(Seq<char>, u64)>,
}

impl CorpusStats {
    /// Each table holds every key once.
    pub open spec fn wf(&self) -> bool {
        keys_unique(count_views(self.record_types@)) && keys_unique(count_views(self.block_types@))
            && keys_unique(count_views(self.models@))
    }
}

impl View for CorpusStats {
    type V = StatsView;

    open spec fn view(&self) -> StatsView {
        StatsView {
            total_records: self.total_records,
            parse_errors: self.parse_errors,
            record_types: count_views(self.record_types@),
            block_types: count_views(self.block_types@),
            models: count_views(self.models@),
        }
    }
}

/// The block types of a content array counted into `v`.
pub open spec fn with_block_types(v: Seq<(Seq<char>, u64)>, items: Seq<JsonValue>) -> Seq<(Seq<char>, u64)>
    decreases items.len(),
{
    if items.len() == 0 {
        v
    } else {
        let w = with_block_types(v, items.drop_last());
        match str_field(items.last(), "type"@) {
            Some(t) => bumped(w, t),
            None => w,
        }
    }
}

/// The statistics after one more parsed record.
pub open spec fn with_record(st: StatsView, record: JsonValue) -> StatsView {
    let t = str_field(record, "type"@);
    let model = match field(record, "message"@) {
        Some(m) => str_field(m, "model"@),
        None => None,
    };
    let models = if t == Some("assistant"@) && model is Some {
        bumped(st.models, model->0)
    } else {
        st.models
    };
    let blocks = match field(record, "message"@) {
        Some(m) => match field(m, "content"@) {
            Some(JsonValue::Array(items)) => with_block_types(st.block_types, items@),
            _ => st.block_types,
        },
        None => st.block_types,
    };
    StatsView {
        total_records: plus_one(st.total_records),
        parse_errors: st.parse_errors,
        record_types: bumped(st.record_types, text_or(t, "<missing>"@)),
        block_types: blocks,
        models,
    }
}

/// The statistics after a file's lines: blank lines skipped, lines that are not JSON
/// counted as errors.
pub open spec fn with_lines(st: StatsView, lines: Seq<Seq<char>>) -> StatsView
    decreases lines.len(),
{
    if lines.len() == 0 {
        st
    } else {
        let before = with_lines(st, lines.drop_last());
        let line = lines.last();
        if blank(line) {
            before
        } else {
            match parsed_json(line) {
                None => StatsView { parse_errors: plus_one(before.parse_errors), ..before },
                Some(record) => with_record(before, record),
            }
        }
    }
}

/// Counts one more occurrence of the key `text`.
fn bump(map: &mut Vec<(String, u64)>, text: &str)
    ensures
        count_views(final(map)@) == bumped(count_views(old(map)@), text@),
        keys_unique(count_views(old(map)@)) ==> keys_unique(count_views(final(map)@)),
{
    increment_count(map, from_chars(to_chars(text).as_slice()));
}

/// Counts the records of a file's lines into the statistics.
pub fn tally_lines(stats: &mut CorpusStats, lines: &Vec<String>)
    ensures
        final(stats)@ == with_lines(old(stats)@, line_views(lines@)),
        old(stats).wf() ==> final(stats).wf(),
{
    let mut i: usize = 0;
    while i < lines.len()
        invariant
            i <= lines.len(),
            stats@ == with_lines(old(stats)@, line_views(lines@.take(i as int))),
            old(stats).wf() ==> stats.wf(),
        decreases lines.len() - i,
    {
        assert(line_views(lines@.take(i + 1)).drop_last() =~= line_views(lines@.take(i as int)));
        assert(line_views(lines@.take(i + 1)).last() == lines@[i as int]@);
        let line = &lines[i];
        if !str_is_blank(line.as_str()) {
            match parse_json(line.as_str()) {
                None => {
                    if stats.parse_errors < u64::MAX {
                        stats.parse_errors = stats.parse_errors + 1;
                    }
                },
                Some(record) => {
                    tally_record(stats, &record);
                },
            }
        }
        i = i + 1;
    }
    assert(lines@.take(i as int) =~= lines@);
}

/// Counts one parsed record into the statistics.
pub fn tally_record(stats: &mut CorpusStats, record: &JsonValue)
    ensures
        final(stats)@ == with_record(old(stats)@, *record),
        old(stats).wf() ==> final(stats).wf(),
{
    let ghost goal = with_record(stats@, *record);
    if stats.total_records < u64::MAX {
        stats.total_records = stats.total_records + 1;
    }
    let t = get_str(record, "type");
    match t {
        Some(k) => bump(&mut stats.record_types, k.as_str()),
        None => bump(&mut stats.record_types, "<missing>"),
    }
    let message = get_field(record, "message");
    let is_assistant = match t {
        Some(k) => same_text(k.as_str(), "assistant"),
        None => false,
    };
    if is_assistant {
        match message {
            Some(m) => match get_str(m, "model") {
                Some(model) => bump(&mut stats.models, model.as_str()),
                None => {},
            },
            None => {},
        }
    }
    match message {
        Some(m) => match get_field(m, "content") {
            Some(JsonValue::Array(items)) => {
                let ghost start = count_views(stats.block_types@);
                let ghost snap = stats@;
                let mut j: usize = 0;
                while j < items.len()
                    invariant
                        j <= items.len(),
                        stats@.total_records == snap.total_records,
                        stats@.parse_errors == snap.parse_errors,
                        stats@.record_types == snap.record_types,
                        stats@.models == snap.models,
                        snap.record_types == count_views(stats.record_types@),
                        snap.models == count_views(stats.models@),
                        old(stats).wf() ==> keys_unique(count_views(stats.record_types@)),
                        old(stats).wf() ==> keys_unique(count_views(stats.models@)),
                        old(stats).wf() ==> keys_unique(count_views(stats.block_types@)),
                        count_views(stats.block_types@) == with_block_types(start, items@.take(j as int)),
                    decreases items.len() - j,
                {
                    assert(items@.take(j + 1).drop_last() =~= items@.take(j as int));
                    match get_str(&items[j], "type") {
                        Some(bt) => bump(&mut stats.block_types, bt.as_str()),
                        None => {},
                    }
                    j = j + 1;
                }
                assert(items@.take(j as int) =~= items@);
            },
            _ => {},
        },
        None => {},
    }
    assert(stats@.total_records == goal.total_records);
    assert(stats@.parse_errors == goal.parse_errors);
    assert(stats@.record_types == goal.record_types);
    assert(stats@.models == goal.models);
    assert(stats@.block_types == goal.block_types);
}

} // verus!
