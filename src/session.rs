//! Sessions: one transcript file each, as discovery hands them over.
use crate::json::same_text;
use crate::text::{contains, contains_chars, folded_chars, from_chars, lex_less, lower_of, text_less, to_chars};
use vstd::prelude::*;

verus! {

/// One transcript file. `index` is the 1-based rank after sorting by modification time.
pub struct Session {
    pub index: usize,
    pub id: String,
    pub id_short: String,
    pub project: String,
    pub path: String,
    pub modified_iso: String,
    pub modified_epoch: i64,
    pub size_bytes: u64,
}

/// A session together with the lines of its file.
pub struct LoadedSession {
    pub session: Session,
    pub lines: Vec<String>,
}

/// The length of a short session id.
pub const SHORT_ID_LEN: usize = 8;

/// The first eight characters of an id (all of it when shorter).
pub open spec fn short_of(full: Seq<char>) -> Seq<char> {
    if full.len() <= SHORT_ID_LEN {
        full
    } else {
        full.take(SHORT_ID_LEN as int)
    }
}

/// The short form of a session id: its first eight characters.
pub fn short_id(full: &str) -> (r: String)
    ensures
        r@ == short_of(full@),
{
    let v = to_chars(full);
    let mut out: Vec<char> = Vec::new();
    let mut i: usize = 0;
    while i < v.len() && i < SHORT_ID_LEN
        invariant
            i <= v.len(),
            i <= SHORT_ID_LEN,
            v@ == full@,
            out@ == v@.take(i as int),
        decreases v.len() - i,
    {
        out.push(v[i]);
        i = i + 1;
        assert(out@ =~= v@.take(i as int));
    }
    assert(v@.len() <= SHORT_ID_LEN ==> v@.take(i as int) =~= v@);
    from_chars(out.as_slice())
}

/// A copy of a session.
pub fn copy_session(s: &Session) -> (r: Session)
    ensures
        r == *s,
{
    Session {
        index: s.index,
        id: s.id.clone(),
        id_short: s.id_short.clone(),
        project: s.project.clone(),
        path: s.path.clone(),
        modified_iso: s.modified_iso.clone(),
        modified_epoch: s.modified_epoch,
        size_bytes: s.size_bytes,
    }
}

/// The session's id or short id is `key`.
pub open spec fn names_session(s: Session, key: Seq<char>) -> bool {
    s.id@ == key || s.id_short@ == key
}

/// The position of the first session whose id or short id is `key`.
pub open spec fn find_session(ss: Seq<Session>, key: Seq<char>) -> Option<int>
    decreases ss.len(),
{
    if ss.len() == 0 {
        None
    } else {
        match find_session(ss.drop_last(), key) {
            Some(i) => Some(i),
            None => if names_session(ss.last(), key) {
                Some(ss.len() - 1)
            } else {
                None
            },
        }
    }
}

proof fn lemma_find_first(ss: Seq<Session>, key: Seq<char>, i: int)
    requires
        0 <= i < ss.len(),
        names_session(ss[i], key),
        forall|j: int| 0 <= j < i ==> !names_session(#[trigger] ss[j], key),
    ensures
        find_session(ss, key) == Some(i),
    decreases ss.len(),
{
    if i < ss.len() - 1 {
        lemma_find_first(ss.drop_last(), key, i);
    } else {
        lemma_find_none(ss.drop_last(), key);
    }
}

proof fn lemma_find_none(ss: Seq<Session>, key: Seq<char>)
    requires
        forall|j: int| 0 <= j < ss.len() ==> !names_session(#[trigger] ss[j], key),
    ensures
        find_session(ss, key) is None,
    decreases ss.len(),
{
    if ss.len() > 0 {
        lemma_find_none(ss.drop_last(), key);
    }
}

/// The first session whose id or short id is `key`.
fn find_by_id(sessions: &Vec<Session>, key: &str) -> (r: Option<usize>)
    ensures
        r is Some == find_session(sessions@, key@) is Some,
        r is Some ==> r->0 as int == find_session(sessions@, key@)->0,
        r is Some ==> r->0 < sessions.len(),
{
    let mut i: usize = 0;
    while i < sessions.len()
        invariant
            i <= sessions.len(),
            forall|j: int|
                0 <= j < i ==> !names_session(#[trigger] sessions@[j], key@),
        decreases sessions.len() - i,
    {
        if same_text(sessions[i].id.as_str(), key) || same_text(sessions[i].id_short.as_str(), key) {
            proof {
                lemma_find_first(sessions@, key@, i as int);
            }
            return Some(i);
        }
        assert(!names_session(sessions@[i as int], key@));
        i = i + 1;
    }
    proof {
        lemma_find_none(sessions@, key@);
    }
    None
}

/// What selects sessions for export.
pub struct ExportSelection {
    pub sessions: Vec<String>,
    pub indices: Vec<usize>,
    pub recent: Option<usize>,
    pub all: bool,
    pub search: Option<String>,
}

/// Why no sessions could be selected.
pub enum SelectError {
    /// No session has this id or short id.
    SessionNotFound(String),
    /// Indices start at 1.
    ZeroIndex,
    /// No session has this index.
    InvalidIndex(usize),
    /// Nothing asked for any session.
    NothingSelected,
}

/// Why no sessions could be selected, as texts.
pub enum SelectFailure {
    SessionNotFound(Seq<char>),
    ZeroIndex,
    InvalidIndex(usize),
    NothingSelected,
}

/// The failure that an error stands for.
pub open spec fn failure_of(e: SelectError) -> SelectFailure {
    match e {
        SelectError::SessionNotFound(s) => SelectFailure::SessionNotFound(s@),
        SelectError::ZeroIndex => SelectFailure::ZeroIndex,
        SelectError::InvalidIndex(i) => SelectFailure::InvalidIndex(i),
        SelectError::NothingSelected => SelectFailure::NothingSelected,
    }
}

/// The sessions named by id or short id, in order; the first name without a session fails.
pub open spec fn by_ids(ss: Seq<Session>, keys: Seq<Seq<char>>) -> Result<Seq<Session>, SelectFailure>
    decreases keys.len(),
{
    if keys.len() == 0 {
        Ok(seq![])
    } else {
        match by_ids(ss, keys.drop_last()) {
            Err(e) => Err(e),
            Ok(found) => match find_session(ss, keys.last()) {
                Some(i) => Ok(found.push(ss[i])),
                None => Err(SelectFailure::SessionNotFound(keys.last())),
            },
        }
    }
}

/// The sessions named by 1-based index, in order; the first bad index fails.
pub open spec fn by_indices(ss: Seq<Session>, idxs: Seq<usize>) -> Result<Seq<Session>, SelectFailure>
    decreases idxs.len(),
{
    if idxs.len() == 0 {
        Ok(seq![])
    } else {
        match by_indices(ss, idxs.drop_last()) {
            Err(e) => Err(e),
            Ok(found) => {
                let k = idxs.last();
                if k == 0 {
                    Err(SelectFailure::ZeroIndex)
                } else if k > ss.len() {
                    Err(SelectFailure::InvalidIndex(k))
                } else {
                    Ok(found.push(ss[k - 1]))
                }
            },
        }
    }
}

/// Whether some session in `d` has id `id`.
pub open spec fn has_id(d: Seq<Session>, id: Seq<char>) -> bool {
    exists|k: int| 0 <= k < d.len() && (#[trigger] d[k]).id@ == id
}

/// The sessions with repeated ids dropped, first ones kept.
pub open spec fn unique_by_id(c: Seq<Session>) -> Seq<Session>
    decreases c.len(),
{
    if c.len() == 0 {
        seq![]
    } else {
        let d = unique_by_id(c.drop_last());
        if has_id(d, c.last().id@) {
            d
        } else {
            d.push(c.last())
        }
    }
}

/// The sessions whose id is among `ids`, in session order.
pub open spec fn with_ids(ss: Seq<Session>, ids: Seq<Seq<char>>) -> Seq<Session>
    decreases ss.len(),
{
    if ss.len() == 0 {
        seq![]
    } else if ids.contains(ss.last().id@) {
        with_ids(ss.drop_last(), ids).push(ss.last())
    } else {
        with_ids(ss.drop_last(), ids)
    }
}

/// `x` placed into `s` after every session whose index is not larger.
pub open spec fn insert_by_index(s: Seq<Session>, x: Session) -> Seq<Session>
    decreases s.len(),
{
    if s.len() == 0 || s.last().index <= x.index {
        s.push(x)
    } else {
        insert_by_index(s.drop_last(), x).push(s.last())
    }
}

/// The sessions ordered by index; equal indices keep their order.
pub open spec fn by_index_order(s: Seq<Session>) -> Seq<Session>
    decreases s.len(),
{
    if s.len() == 0 {
        seq![]
    } else {
        insert_by_index(by_index_order(s.drop_last()), s.last())
    }
}

/// The texts of a list of strings.
pub open spec fn text_views(v: Seq<String>) -> Seq<Seq<char>> {
    v.map_values(|s: String| s@)
}

/// The sessions an export selects: those named by id, then by index, then the most
/// recent ones, then all, then those the search matched (`matched` holds their ids);
/// repeats dropped, ordered by index.
pub open spec fn selection(ss: Seq<Session>, args: ExportSelection, matched: Seq<Seq<char>>) -> Result<Seq<Session>, SelectFailure> {
    match by_ids(ss, text_views(args.sessions@)) {
        Err(e) => Err(e),
        Ok(named) => match by_indices(ss, args.indices@) {
            Err(e) => Err(e),
            Ok(indexed) => {
                let recent = match args.recent {
                    Some(r) => if r < ss.len() {
                        ss.take(r as int)
                    } else {
                        ss
                    },
                    None => seq![],
                };
                let all = if args.all {
                    ss
                } else {
                    seq![]
                };
                let searched = if args.search is Some {
                    with_ids(ss, matched)
                } else {
                    seq![]
                };
                let picked = unique_by_id(named + indexed + recent + all + searched);
                if picked.len() == 0 {
                    Err(SelectFailure::NothingSelected)
                } else {
                    Ok(by_index_order(picked))
                }
            },
        },
    }
}

/// Appends copies of `ss[from..to]`.
fn push_sessions(out: &mut Vec<Session>, ss: &Vec<Session>, from: usize, to: usize)
    requires
        from <= to <= ss.len(),
    ensures
        final(out)@ == old(out)@ + ss@.subrange(from as int, to as int),
{
    let ghost start = out@;
    let mut i: usize = from;
    while i < to
        invariant
            from <= i <= to <= ss.len(),
            out@ == start + ss@.subrange(from as int, i as int),
        decreases to - i,
    {
        out.push(copy_session(&ss[i]));
        i = i + 1;
        assert(out@ =~= start + ss@.subrange(from as int, i as int));
    }
}

/// Whether `text` is among `list`.
fn list_has(list: &Vec<String>, text: &str) -> (r: bool)
    ensures
        r == text_views(list@).contains(text@),
{
    let mut i: usize = 0;
    while i < list.len()
        invariant
            i <= list.len(),
            forall|j: int| 0 <= j < i ==> (#[trigger] list@[j])@ != text@,
        decreases list.len() - i,
    {
        if same_text(list[i].as_str(), text) {
            assert(text_views(list@)[i as int] == text@);
            return true;
        }
        i = i + 1;
    }
    assert forall|j: int| 0 <= j < text_views(list@).len() implies text_views(list@)[j] != text@ by {
        assert(text_views(list@)[j] == list@[j]@);
    }
    false
}

/// Selects the sessions to export. `matched` holds the ids of the sessions that the
/// selection's search query matched; it is read only when there is a query.
pub fn select_sessions_for_export(sessions: &Vec<Session>, args: &ExportSelection, matched: &Vec<String>) -> (r: Result<Vec<Session>, SelectError>)
    ensures
        match selection(sessions@, *args, text_views(matched@)) {
            Ok(chosen) => r is Ok && r->Ok_0@ == chosen,
            Err(f) => r is Err && failure_of(r->Err_0) == f,
        },
{
    let mut cands: Vec<Session> = Vec::new();
    let mut i: usize = 0;
    while i < args.sessions.len()
        invariant
            i <= args.sessions.len(),
            by_ids(sessions@, text_views(args.sessions@.take(i as int))) == Ok::<Seq<Session>, SelectFailure>(cands@),
        decreases args.sessions.len() - i,
    {
        assert(text_views(args.sessions@.take(i + 1)).drop_last() =~= text_views(args.sessions@.take(i as int)));
        assert(text_views(args.sessions@.take(i + 1)).last() == args.sessions@[i as int]@);
        match find_by_id(sessions, args.sessions[i].as_str()) {
            Some(k) => {
                cands.push(copy_session(&sessions[k]));
            },
            None => {
                assert(text_views(args.sessions@).take(i as int) =~= text_views(
                    args.sessions@.take(i as int),
                ));
                proof {
                    lemma_by_ids_fails(sessions@, text_views(args.sessions@), i as int);
                }
                return Err(SelectError::SessionNotFound(args.sessions[i].clone()));
            },
        }
        i = i + 1;
    }
    assert(args.sessions@.take(i as int) =~= args.sessions@);
    let ghost named = cands@;
    let mut j: usize = 0;
    assert(cands@.subrange(named.len() as int, cands@.len() as int) =~= Seq::<Session>::empty());
    assert(cands@.subrange(0, named.len() as int) =~= named);
    assert(args.indices@.take(0) =~= Seq::<usize>::empty());
    while j < args.indices.len()
        invariant
            j <= args.indices.len(),
            by_ids(sessions@, text_views(args.sessions@)) == Ok::<Seq<Session>, SelectFailure>(named),
            by_indices(sessions@, args.indices@.take(j as int)) == Ok::<Seq<Session>, SelectFailure>(
                cands@.subrange(named.len() as int, cands@.len() as int)),
            named.len() <= cands@.len(),
            cands@.subrange(0, named.len() as int) == named,
        decreases args.indices.len() - j,
    {
        assert(args.indices@.take(j + 1).drop_last() =~= args.indices@.take(j as int));
        let k = args.indices[j];
        if k == 0 {
            proof {
                lemma_by_indices_fails(sessions@, args.indices@, j as int);
            }
            return Err(SelectError::ZeroIndex);
        }
        if k > sessions.len() {
            proof {
                lemma_by_indices_fails(sessions@, args.indices@, j as int);
            }
            return Err(SelectError::InvalidIndex(k));
        }
        let ghost before = cands@;
        cands.push(copy_session(&sessions[k - 1]));
        assert(cands@.subrange(named.len() as int, cands@.len() as int) =~= before.subrange(
            named.len() as int,
            before.len() as int,
        ).push(sessions@[k - 1]));
        assert(cands@.subrange(0, named.len() as int) =~= before.subrange(0, named.len() as int));
        j = j + 1;
    }
    assert(args.indices@.take(j as int) =~= args.indices@);
    assert(cands@ =~= named + cands@.subrange(named.len() as int, cands@.len() as int));
    match args.recent {
        Some(r) => {
            let to = if r < sessions.len() {
                r
            } else {
                sessions.len()
            };
            push_sessions(&mut cands, sessions, 0, to);
            assert(sessions@.subrange(0, to as int) =~= if r < sessions.len() {
                sessions@.take(r as int)
            } else {
                sessions@
            });
        },
        None => {},
    }
    if args.all {
        push_sessions(&mut cands, sessions, 0, sessions.len());
        assert(sessions@.subrange(0, sessions.len() as int) =~= sessions@);
    }
    if args.search.is_some() {
        let ghost before = cands@;
        let mut k: usize = 0;
        while k < sessions.len()
            invariant
                k <= sessions.len(),
                before.len() <= cands@.len(),
                cands@ == before + with_ids(sessions@.take(k as int), text_views(matched@)),
            decreases sessions.len() - k,
        {
            assert(sessions@.take(k + 1).drop_last() =~= sessions@.take(k as int));
            assert(sessions@.take(k + 1).last() == sessions@[k as int]);
            if list_has(matched, sessions[k].id.as_str()) {
                cands.push(copy_session(&sessions[k]));
            }
            k = k + 1;
            assert(cands@ =~= before + with_ids(sessions@.take(k as int), text_views(matched@)));
        }
        assert(sessions@.take(k as int) =~= sessions@);
    }
    let picked = unique_sessions(&cands);
    if picked.len() == 0 {
        return Err(SelectError::NothingSelected);
    }
    proof {
        assert(cands@ =~= {
            let ss = sessions@;
            let recent = match args.recent {
                Some(r) => if r < ss.len() {
                    ss.take(r as int)
                } else {
                    ss
                },
                None => seq![],
            };
            let all = if args.all {
                ss
            } else {
                seq![]
            };
            let searched = if args.search is Some {
                with_ids(ss, text_views(matched@))
            } else {
                seq![]
            };
            named + by_indices(ss, args.indices@)->Ok_0 + recent + all + searched
        });
    }
    Ok(order_by_index(picked))
}

proof fn lemma_by_ids_fails(ss: Seq<Session>, keys: Seq<Seq<char>>, i: int)
    requires
        0 <= i < keys.len(),
        by_ids(ss, keys.take(i)) is Ok,
        find_session(ss, keys[i]) is None,
    ensures
        by_ids(ss, keys) == Err::<Seq<Session>, SelectFailure>(SelectFailure::SessionNotFound(keys[i])),
    decreases keys.len(),
{
    if i == keys.len() - 1 {
        assert(keys.drop_last() =~= keys.take(i));
    } else {
        assert(keys.drop_last().take(i) =~= keys.take(i));
        lemma_by_ids_fails(ss, keys.drop_last(), i);
    }
}

proof fn lemma_by_indices_fails(ss: Seq<Session>, idxs: Seq<usize>, j: int)
    requires
        0 <= j < idxs.len(),
        by_indices(ss, idxs.take(j)) is Ok,
        idxs[j] == 0 || idxs[j] > ss.len(),
    ensures
        by_indices(ss, idxs) == Err::<Seq<Session>, SelectFailure>(
            if idxs[j] == 0 {
                SelectFailure::ZeroIndex
            } else {
                SelectFailure::InvalidIndex(idxs[j])
            },
        ),
    decreases idxs.len(),
{
    if j == idxs.len() - 1 {
        assert(idxs.drop_last() =~= idxs.take(j));
    } else {
        assert(idxs.drop_last().take(j) =~= idxs.take(j));
        lemma_by_indices_fails(ss, idxs.drop_last(), j);
    }
}

/// The sessions with repeated ids dropped, first ones kept.
fn unique_sessions(c: &Vec<Session>) -> (r: Vec<Session>)
    ensures
        r@ == unique_by_id(c@),
{
    let mut out: Vec<Session> = Vec::new();
    let mut i: usize = 0;
    while i < c.len()
        invariant
            i <= c.len(),
            out@ == unique_by_id(c@.take(i as int)),
        decreases c.len() - i,
    {
        assert(c@.take(i + 1).drop_last() =~= c@.take(i as int));
        assert(c@.take(i + 1).last() == c@[i as int]);
        let mut seen = false;
        let mut k: usize = 0;
        while k < out.len()
            invariant
                i < c.len(),
                out@ == unique_by_id(c@.take(i as int)),
                k <= out.len(),
                seen == exists|m: int| 0 <= m < k && (#[trigger] out@[m]).id@ == c@[i as int].id@,
            decreases out.len() - k,
        {
            if same_text(out[k].id.as_str(), c[i].id.as_str()) {
                seen = true;
            }
            k = k + 1;
        }
        assert(seen == has_id(out@, c@[i as int].id@));
        if !seen {
            out.push(copy_session(&c[i]));
        }
        i = i + 1;
    }
    assert(c@.take(i as int) =~= c@);
    out
}

/// The sessions ordered by index; equal indices keep their order.
fn order_by_index(v: Vec<Session>) -> (r: Vec<Session>)
    ensures
        r@ == by_index_order(v@),
{
    let mut out: Vec<Session> = Vec::new();
    let mut i: usize = 0;
    while i < v.len()
        invariant
            i <= v.len(),
            out@ == by_index_order(v@.take(i as int)),
        decreases v.len() - i,
    {
        let x = copy_session(&v[i]);
        let ghost s = out@;
        let mut j: usize = out.len();
        let mut done = false;
        assert(s.take(j as int) =~= s);
        assert(s.skip(j as int) =~= Seq::<Session>::empty());
        while !done
            invariant
                j <= out.len(),
                s == out@,
                insert_by_index(s, x) == insert_by_index(s.take(j as int), x) + s.skip(j as int),
                done ==> (j == 0 || s[j - 1].index <= x.index),
            decreases j + if done {
                0int
            } else {
                1int
            },
        {
            if j == 0 {
                done = true;
            } else if out[j - 1].index <= x.index {
                done = true;
            } else {
                assert(s.take(j as int).drop_last() =~= s.take(j - 1));
                assert(s.take(j as int).last() == s[j - 1]);
                assert(insert_by_index(s.take(j - 1), x).push(s[j - 1]) + s.skip(j as int)
                    =~= insert_by_index(s.take(j - 1), x) + s.skip(j - 1));
                j = j - 1;
            }
        }
        proof {
            if j > 0 {
                assert(s.take(j as int).last() == s[j - 1]);
            }
        }
        out.insert(j, x);
        assert(out@ =~= s.take(j as int).push(x) + s.skip(j as int));
        assert(v@.take(i + 1).drop_last() =~= v@.take(i as int));
        i = i + 1;
    }
    assert(v@.take(i as int) =~= v@);
    out
}

/// An ASCII decimal digit.
pub open spec fn is_digit(c: char) -> bool {
    '0' <= c && c <= '9'
}

/// The value of a string of decimal digits.
pub open spec fn digits_value(s: Seq<char>) -> nat
    decreases s.len(),
{
    if s.len() == 0 {
        0
    } else {
        digits_value(s.drop_last()) * 10 + (s.last() as int - '0' as int) as nat
    }
}

/// The digits of an index: the text without one leading `+`.
pub open spec fn index_digits(t: Seq<char>) -> Seq<char> {
    if t.len() > 0 && t[0] == '+' {
        t.drop_first()
    } else {
        t
    }
}

/// The number that `usize::from_str` reads from `t`: one or more decimal digits after an
/// optional `+`, with a value that fits in `usize`.
pub open spec fn parsed_index(t: Seq<char>) -> Option<nat> {
    let d = index_digits(t);
    if d.len() > 0 && (forall|i: int| 0 <= i < d.len() ==> is_digit(#[trigger] d[i]))
        && digits_value(d) <= usize::MAX {
        Some(digits_value(d))
    } else {
        None
    }
}

proof fn lemma_digits_prefix(s: Seq<char>, j: int)
    requires
        0 <= j <= s.len(),
        forall|i: int| 0 <= i < s.len() ==> is_digit(#[trigger] s[i]),
    ensures
        digits_value(s.take(j)) <= digits_value(s),
    decreases s.len(),
{
    if j < s.len() {
        assert(s.drop_last().take(j) =~= s.take(j));
        assert(forall|i: int| 0 <= i < s.drop_last().len() ==> s.drop_last()[i] == s[i]);
        lemma_digits_prefix(s.drop_last(), j);
    } else {
        assert(s.take(j) =~= s);
    }
}

/// The number that `usize::from_str` reads from `t`, if any.
pub fn parse_index(t: &str) -> (r: Option<usize>)
    ensures
        r is Some == parsed_index(t@) is Some,
        r is Some ==> r->0 as nat == parsed_index(t@)->0,
{
    let v = to_chars(t);
    let start: usize = if v.len() > 0 && v[0] == '+' {
        1
    } else {
        0
    };
    let ghost d = index_digits(t@);
    assert(d =~= v@.subrange(start as int, v@.len() as int));
    if start == v.len() {
        return None;
    }
    let mut value: usize = 0;
    let mut i: usize = start;
    while i < v.len()
        invariant
            start <= i <= v.len(),
            v@ == t@,
            d == index_digits(t@),
            d == v@.subrange(start as int, v@.len() as int),
            forall|k: int| 0 <= k < i - start ==> is_digit(#[trigger] d[k]),
            value as nat == digits_value(d.take(i - start)),
        decreases v.len() - i,
    {
        let c = v[i];
        assert(d[i - start] == c);
        if !('0' <= c && c <= '9') {
            assert(!is_digit(d[i - start]));
            assert(!(forall|k: int| 0 <= k < d.len() ==> is_digit(#[trigger] d[k])));
            assert(index_digits(t@) == d);
            return None;
        }
        let digit = (c as u32 - '0' as u32) as usize;
        assert(digit as int == c as int - '0' as int);
        assert(d.take(i + 1 - start).drop_last() =~= d.take(i - start));
        assert(d.take(i + 1 - start).last() == c);
        if value > (usize::MAX - digit) / 10 {
            assert(value * 10 + digit > usize::MAX) by (nonlinear_arith)
                requires
                    value > (usize::MAX - digit) / 10,
                    digit <= 9,
            ;
            assert(digits_value(d.take(i + 1 - start)) == value * 10 + digit);
            proof {
                if forall|k: int| 0 <= k < d.len() ==> is_digit(#[trigger] d[k]) {
                    lemma_digits_prefix(d, i + 1 - start);
                }
            }
            assert(index_digits(t@) == d);
            return None;
        }
        assert(value * 10 + digit <= usize::MAX) by (nonlinear_arith)
            requires
                value <= (usize::MAX - digit) / 10,
                digit <= 9,
        ;
        value = value * 10 + digit;
        i = i + 1;
    }
    assert(d.take(i - start) =~= d);
    Some(value)
}

/// Why a session target did not resolve.
pub enum ResolveError {
    /// Indices start at 1.
    ZeroIndex,
    /// No session has this index.
    InvalidIndex(usize),
    /// No session has this id or short id.
    NotFound(String),
}

/// The session a target names: a 1-based index when the target reads as a number,
/// otherwise the first session whose id or short id it is.
pub fn resolve_session_target<'a>(sessions: &'a Vec<Session>, target: &str) -> (r: Result<
    &'a Session,
    ResolveError,
>)
    ensures
        match parsed_index(target@) {
            Some(n) => if n == 0 {
                r matches Err(ResolveError::ZeroIndex)
            } else if n > sessions.len() {
                r matches Err(ResolveError::InvalidIndex(k)) && k == n
            } else {
                r is Ok && *r->Ok_0 == sessions@[n - 1]
            },
            None => match find_session(sessions@, target@) {
                Some(i) => r is Ok && *r->Ok_0 == sessions@[i],
                None => r matches Err(ResolveError::NotFound(s)) && s@ == target@,
            },
        },
{
    match parse_index(target) {
        Some(n) => {
            if n == 0 {
                Err(ResolveError::ZeroIndex)
            } else if n > sessions.len() {
                Err(ResolveError::InvalidIndex(n))
            } else {
                Ok(&sessions[n - 1])
            }
        },
        None => match find_by_id(sessions, target) {
            Some(i) => Ok(&sessions[i]),
            None => Err(ResolveError::NotFound(from_chars(to_chars(target).as_slice()))),
        },
    }
}

/// Session `a` is listed before `b`: modified later, or at the same second with a
/// smaller path.
pub open spec fn listed_before(a: Session, b: Session) -> bool {
    a.modified_epoch > b.modified_epoch || (a.modified_epoch == b.modified_epoch && lex_less(
        a.path@,
        b.path@,
    ))
}

/// `x` placed into the listing `s`, after every session it is not listed before.
pub open spec fn insert_listed(s: Seq<Session>, x: Session) -> Seq<Session>
    decreases s.len(),
{
    if s.len() == 0 || !listed_before(x, s.last()) {
        s.push(x)
    } else {
        insert_listed(s.drop_last(), x).push(s.last())
    }
}

/// The sessions newest first, ties by path; sessions that compare alike keep their order.
pub open spec fn listing(s: Seq<Session>) -> Seq<Session>
    decreases s.len(),
{
    if s.len() == 0 {
        seq![]
    } else {
        insert_listed(listing(s.drop_last()), s.last())
    }
}

proof fn lemma_listing_len(s: Seq<Session>)
    ensures
        listing(s).len() == s.len(),
    decreases s.len(),
{
    if s.len() > 0 {
        lemma_listing_len(s.drop_last());
        lemma_insert_listed_len(listing(s.drop_last()), s.last());
    }
}

proof fn lemma_insert_listed_len(s: Seq<Session>, x: Session)
    ensures
        insert_listed(s, x).len() == s.len() + 1,
    decreases s.len(),
{
    if s.len() > 0 && listed_before(x, s.last()) {
        lemma_insert_listed_len(s.drop_last(), x);
    }
}

/// `a` and `b` agree in everything but the index.
pub open spec fn same_but_index(a: Session, b: Session) -> bool {
    a.id == b.id && a.id_short == b.id_short && a.project == b.project && a.path == b.path
        && a.modified_iso == b.modified_iso && a.modified_epoch == b.modified_epoch
        && a.size_bytes == b.size_bytes
}

/// Lists the discovered sessions newest first (ties by path) and numbers them from 1 in
/// that order.
pub fn order_sessions(found: Vec<Session>) -> (r: Vec<Session>)
    ensures
        r@.len() == found@.len(),
        forall|i: int|
            0 <= i < r@.len() ==> (#[trigger] r@[i]).index == i + 1 && same_but_index(
                r@[i],
                listing(found@)[i],
            ),
{
    let mut out: Vec<Session> = Vec::new();
    let mut i: usize = 0;
    while i < found.len()
        invariant
            i <= found.len(),
            out@ == listing(found@.take(i as int)),
        decreases found.len() - i,
    {
        let x = copy_session(&found[i]);
        let ghost s = out@;
        let mut j: usize = out.len();
        let mut done = false;
        assert(s.take(j as int) =~= s);
        assert(s.skip(j as int) =~= Seq::<Session>::empty());
        while !done
            invariant
                j <= out.len(),
                s == out@,
                insert_listed(s, x) == insert_listed(s.take(j as int), x) + s.skip(j as int),
                done ==> (j == 0 || !listed_before(x, s[j - 1])),
            decreases j + if done {
                0int
            } else {
                1int
            },
        {
            if j == 0 {
                done = true;
            } else {
                let prev = &out[j - 1];
                let first = x.modified_epoch > prev.modified_epoch || (x.modified_epoch
                    == prev.modified_epoch && text_less(x.path.as_str(), prev.path.as_str()));
                if first {
                    assert(s.take(j as int).drop_last() =~= s.take(j - 1));
                    assert(s.take(j as int).last() == s[j - 1]);
                    assert(insert_listed(s.take(j - 1), x).push(s[j - 1]) + s.skip(j as int)
                        =~= insert_listed(s.take(j - 1), x) + s.skip(j - 1));
                    j = j - 1;
                } else {
                    done = true;
                }
            }
        }
        proof {
            if j > 0 {
                assert(s.take(j as int).last() == s[j - 1]);
            }
        }
        out.insert(j, x);
        assert(out@ =~= s.take(j as int).push(x) + s.skip(j as int));
        assert(found@.take(i + 1).drop_last() =~= found@.take(i as int));
        i = i + 1;
    }
    assert(found@.take(i as int) =~= found@);
    let ghost listed = out@;
    proof {
        lemma_listing_len(found@);
    }
    let mut k: usize = 0;
    while k < out.len()
        invariant
            k <= out.len(),
            out@.len() == listed.len(),
            listed == listing(found@),
            listed.len() == found@.len(),
            forall|m: int|
                0 <= m < out@.len() ==> same_but_index(#[trigger] out@[m], listed[m]),
            forall|m: int| 0 <= m < k ==> (#[trigger] out@[m]).index == m + 1,
        decreases out.len() - k,
    {
        let mut s = copy_session(&out[k]);
        s.index = k + 1;
        out.set(k, s);
        k = k + 1;
    }
    out
}

/// Whether a session's project or path holds `filter`, ignoring case.
pub fn session_matches_project(session: &Session, filter: &str) -> (r: bool)
    ensures
        r == (contains(lower_of(session.project@), lower_of(filter@)) || contains(
            lower_of(session.path@),
            lower_of(filter@),
        )),
{
    let needle = folded_chars(filter, false);
    let project = folded_chars(session.project.as_str(), false);
    if contains_chars(project.as_slice(), needle.as_slice()) {
        return true;
    }
    let path = folded_chars(session.path.as_str(), false);
    contains_chars(path.as_slice(), needle.as_slice())
}

} // verus!
