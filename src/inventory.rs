//! Pieces of the schema inventory: canonical field paths, CSV quoting, time filters.
use crate::json::{get_str, parse_json, parsed_json, same_text, str_field, text_or, JsonValue};
use crate::text::{decimal, from_chars, occurs_at, occurs_at_exec, push_decimal, push_range, push_str, to_chars};
use vstd::prelude::*;

verus! {

/// Seconds in an hour.
pub const SECONDS_PER_HOUR: u64 = 3600;

/// Seconds in a day.
pub const SECONDS_PER_DAY: u64 = 86_400;

/// One step of a path into a JSON value: an object member, or any array element.
pub enum PathSeg {
    Key(String),
    Array,
}

/// The name that stands for any key under `trackedFileBackups`.
pub open spec fn path_placeholder() -> Seq<char> {
    "{path}"@
}

/// The canonical path of the steps, and whether the next key is one under
/// `trackedFileBackups` (and so is replaced by `{path}`).
pub open spec fn canonical_state(segs: Seq<PathSeg>) -> (Seq<char>, bool)
    decreases segs.len(),
{
    if segs.len() == 0 {
        (seq![], false)
    } else {
        let (r, after) = canonical_state(segs.drop_last());
        match segs.last() {
            PathSeg::Array => (r + "[]"@, after),
            PathSeg::Key(k) => {
                let part = if after {
                    path_placeholder()
                } else {
                    k@
                };
                let sep = if r.len() > 0 {
                    seq!['.']
                } else {
                    seq![]
                };
                (r + sep + part, part == "trackedFileBackups"@)
            },
        }
    }
}

/// The canonical path of the steps: keys joined by `.`, `[]` for array elements, and
/// `{path}` for the key right under `trackedFileBackups`.
pub fn canonical_path(segs: &[PathSeg]) -> (r: String)
    ensures
        r@ == canonical_state(segs@).0,
{
    let mut out: Vec<char> = Vec::new();
    let mut after = false;
    let mut i: usize = 0;
    while i < segs.len()
        invariant
            i <= segs.len(),
            (out@, after) == canonical_state(segs@.take(i as int)),
        decreases segs.len() - i,
    {
        assert(segs@.take(i + 1).drop_last() =~= segs@.take(i as int));
        match &segs[i] {
            PathSeg::Array => {
                push_str(&mut out, "[]");
            },
            PathSeg::Key(k) => {
                let part: &str = if after {
                    "{path}"
                } else {
                    k.as_str()
                };
                if out.len() > 0 {
                    out.push('.');
                }
                push_str(&mut out, part);
                after = crate::json::same_text(part, "trackedFileBackups");
            },
        }
        i = i + 1;
        assert(out@ =~= canonical_state(segs@.take(i as int)).0);
    }
    assert(segs@.take(i as int) =~= segs@);
    from_chars(out.as_slice())
}

/// Each double quote doubled.
pub open spec fn doubled_quotes(s: Seq<char>) -> Seq<char>
    decreases s.len(),
{
    if s.len() == 0 {
        seq![]
    } else {
        doubled_quotes(s.drop_last()) + if s.last() == '"' {
            seq!['"', '"']
        } else {
            seq![s.last()]
        }
    }
}

/// A CSV field: the text in double quotes, each double quote in it doubled.
pub fn csv_escape(input: &str) -> (r: String)
    ensures
        r@ == seq!['"'] + doubled_quotes(input@) + seq!['"'],
{
    let v = to_chars(input);
    let mut out: Vec<char> = Vec::new();
    out.push('"');
    let mut i: usize = 0;
    while i < v.len()
        invariant
            i <= v.len(),
            v@ == input@,
            out@ == seq!['"'] + doubled_quotes(v@.take(i as int)),
        decreases v.len() - i,
    {
        if v[i] == '"' {
            out.push('"');
        }
        out.push(v[i]);
        assert(v@.take(i + 1).drop_last() =~= v@.take(i as int));
        i = i + 1;
        assert(out@ =~= seq!['"'] + doubled_quotes(v@.take(i as int)));
    }
    assert(v@.take(i as int) =~= v@);
    out.push('"');
    from_chars(out.as_slice())
}

/// Why a time filter was refused.
pub enum TimeFilterError {
    ZeroHours,
    ZeroDays,
    BothGiven,
}

/// `now - amount * unit`, each step stopping at the bounds of `u64`.
pub open spec fn cutoff(now: u64, amount: u64, unit: u64) -> u64 {
    let span: int = if amount * unit > u64::MAX {
        u64::MAX as int
    } else {
        amount * unit
    };
    if span > now {
        0
    } else {
        (now - span) as u64
    }
}

/// The time filter of a scan: a description and the earliest modification time kept.
/// `now` is the current time in epoch seconds.
pub fn build_time_filter(since_hours: Option<u64>, since_days: Option<u64>, now: u64) -> (r: Result<(String, Option<u64>), TimeFilterError>)
    ensures
        match (since_hours, since_days) {
            (Some(h), None) => if h == 0 {
                r matches Err(TimeFilterError::ZeroHours)
            } else {
                r is Ok && r->Ok_0.0@ == "last "@ + decimal(h as nat) + " hour(s)"@
                    && r->Ok_0.1 == Some(cutoff(now, h, SECONDS_PER_HOUR))
            },
            (None, Some(d)) => if d == 0 {
                r matches Err(TimeFilterError::ZeroDays)
            } else {
                r is Ok && r->Ok_0.0@ == "last "@ + decimal(d as nat) + " day(s)"@
                    && r->Ok_0.1 == Some(cutoff(now, d, SECONDS_PER_DAY))
            },
            (None, None) => r is Ok && r->Ok_0.0@ == "none"@ && r->Ok_0.1 is None,
            (Some(_), Some(_)) => r matches Err(TimeFilterError::BothGiven),
        },
{
    match (since_hours, since_days) {
        (Some(h), None) => {
            if h == 0 {
                return Err(TimeFilterError::ZeroHours);
            }
            let span = match h.checked_mul(SECONDS_PER_HOUR) {
                Some(x) => x,
                None => u64::MAX,
            };
            let mut desc: Vec<char> = Vec::new();
            push_str(&mut desc, "last ");
            push_decimal(&mut desc, h);
            push_str(&mut desc, " hour(s)");
            Ok((from_chars(desc.as_slice()), Some(now.saturating_sub(span))))
        },
        (None, Some(d)) => {
            if d == 0 {
                return Err(TimeFilterError::ZeroDays);
            }
            let span = match d.checked_mul(SECONDS_PER_DAY) {
                Some(x) => x,
                None => u64::MAX,
            };
            let mut desc: Vec<char> = Vec::new();
            push_str(&mut desc, "last ");
            push_decimal(&mut desc, d);
            push_str(&mut desc, " day(s)");
            Ok((from_chars(desc.as_slice()), Some(now.saturating_sub(span))))
        },
        (None, None) => Ok((from_chars(to_chars("none").as_slice()), None)),
        (Some(_), Some(_)) => Err(TimeFilterError::BothGiven),
    }
}


/// A description rule: a field path, whether it also covers the paths that start with it,
/// and the description.
pub type FieldRule = (&'static str, bool, &'static str);

/// The texts of the description rules.
pub open spec fn rule_views(v: Seq<FieldRule>) -> Seq<(Seq<char>, bool, Seq<char>)> {
    v.map_values(|r: FieldRule| (r.0@, r.1, r.2@))
}

/// The description rules of known field paths, the first match winning.
pub open spec fn field_rules() -> Seq<(Seq<char>, bool, Seq<char>)> {
    seq![
        ("type"@, false, "Top-level record category."@),
        ("timestamp"@, false, "Event timestamp in ISO-8601 format."@),
        ("uuid"@, false, "Unique identifier for this log record."@),
        ("sessionId"@, false, "Conversation/session identifier."@),
        ("parentUuid"@, false, "Parent log record identifier."@),
        ("version"@, false, "Assistant runtime version string."@),
        ("cwd"@, false, "Working directory at event time."@),
        ("gitBranch"@, false, "Active git branch at event time."@),
        ("slug"@, false, "Human-readable session slug."@),
        ("message"@, false, "Top-level message payload."@),
        ("message.role"@, false, "Speaker role inside message payload."@),
        ("message.content"@, false, "Message content container."@),
        ("message.content[].type"@, false, "Typed content block category (text, thinking, tool_use, tool_result, image, document)."@),
        ("message.content[].text"@, false, "Plain text content from a message block."@),
        ("message.content[].thinking"@, false, "Model reasoning/thinking text block."@),
        ("message.content[].signature"@, false, "Signature metadata for thinking blocks."@),
        ("message.content[].tool_use_id"@, false, "Tool invocation identifier referenced by a tool result."@),
        ("message.content[].name"@, false, "Tool name for tool_use blocks."@),
        ("message.content[].id"@, false, "Tool-use content block identifier."@),
        ("message.content[].input"@, true, "Tool invocation input payload (shape varies by tool)."@),
        ("message.content[].caller"@, true, "Origin metadata for a tool invocation."@),
        ("message.content[].content"@, false, "Tool result content payload."@),
        ("message.content[].is_error"@, false, "Flag indicating tool result represents an error."@),
        ("message.model"@, false, "Model identifier used for this assistant response."@),
        ("message.id"@, false, "Model message identifier."@),
        ("message.stop_reason"@, false, "Why model output stopped."@),
        ("message.stop_sequence"@, false, "Matched stop sequence, when present."@),
        ("message.usage"@, true, "Token/service usage accounting for this assistant message."@),
        ("requestId"@, false, "Backend request identifier."@),
        ("toolUseID"@, false, "Primary tool-use identifier for progress/system records."@),
        ("parentToolUseID"@, false, "Parent tool-use identifier."@),
        ("sourceToolAssistantUUID"@, false, "Assistant UUID that originated a tool use/result."@),
        ("toolUseResult"@, true, "Serialized local tool execution result payload."@),
        ("data"@, false, "Progress payload container."@),
        ("data.type"@, false, "Progress subtype (hook_progress, bash_progress, agent_progress, etc)."@),
        ("data.command"@, false, "Command associated with hook/progress events."@),
        ("data.hookEvent"@, false, "Lifecycle stage for hook progress."@),
        ("data.hookName"@, false, "Hook identifier."@),
        ("data.totalLines"@, false, "Line count reported by streamed command output."@),
        ("data.output"@, false, "Incremental command output content."@),
        ("data.fullOutput"@, false, "Full command output snapshot."@),
        ("data.elapsedTimeSeconds"@, false, "Execution duration in seconds."@),
        ("data.timeoutMs"@, false, "Timeout in milliseconds for operation."@),
        ("data.prompt"@, false, "Prompt text for background/agent task."@),
        ("data.agentId"@, false, "Background agent identifier."@),
        ("data.normalizedMessages"@, true, "Normalized message payload emitted by agent progress."@),
        ("data.message"@, true, "Embedded message record within progress events."@),
        ("subtype"@, false, "Subtype field for system events."@),
        ("permissionMode"@, false, "Permission mode in effect for user action."@),
        ("level"@, false, "Severity/suggestion level for system events."@),
        ("stopReason"@, false, "Stop reason summary for stop-hook system messages."@),
        ("preventedContinuation"@, false, "Whether a hook prevented continuation."@),
        ("hasOutput"@, false, "Whether a hook produced output."@),
        ("hookCount"@, false, "Count of hooks involved in a summary event."@),
        ("hookInfos"@, true, "Hook execution metadata list."@),
        ("hookErrors"@, false, "Hook error list."@),
        ("todos"@, false, "Todo list captured on user records."@),
        ("thinkingMetadata"@, true, "Reasoning mode metadata for a user request."@),
        ("snapshot"@, false, "File-history snapshot payload."@),
        ("messageId"@, false, "Message identifier referenced by snapshot/system records."@),
        ("isSnapshotUpdate"@, false, "Whether file-history snapshot is incremental."@),
        ("snapshot.timestamp"@, false, "Timestamp of file-history snapshot."@),
        ("snapshot.messageId"@, false, "Message identifier that produced this snapshot."@),
        ("snapshot.trackedFileBackups"@, false, "Map of file backup entries captured at snapshot time."@),
        ("snapshot.trackedFileBackups.{path}"@, true, "Tracked backup metadata for a specific file path (path key is canonicalized)."@),
        ("operation"@, false, "Queue operation type (enqueue, dequeue, remove, popAll)."@),
        ("isMeta"@, false, "Flag indicating metadata-only user record."@),
        ("summary"@, false, "Conversation summary text."@),
        ("leafUuid"@, false, "Leaf UUID associated with summary records."@),
        ("customTitle"@, false, "User-defined session title."@),
        ("prUrl"@, false, "Pull request URL referenced by session metadata."@),
        ("prNumber"@, false, "Pull request number referenced by session metadata."@),
        ("prRepository"@, false, "Repository slug for PR metadata."@)
    ]
}

/// The description rules of known field paths, the first match winning.
pub fn field_rule_table() -> (r: Vec<FieldRule>)
    ensures
        rule_views(r@) == field_rules(),
{
    let v: Vec<FieldRule> = vec![
        ("type", false, "Top-level record category."),
        ("timestamp", false, "Event timestamp in ISO-8601 format."),
        ("uuid", false, "Unique identifier for this log record."),
        ("sessionId", false, "Conversation/session identifier."),
        ("parentUuid", false, "Parent log record identifier."),
        ("version", false, "Assistant runtime version string."),
        ("cwd", false, "Working directory at event time."),
        ("gitBranch", false, "Active git branch at event time."),
        ("slug", false, "Human-readable session slug."),
        ("message", false, "Top-level message payload."),
        ("message.role", false, "Speaker role inside message payload."),
        ("message.content", false, "Message content container."),
        ("message.content[].type", false, "Typed content block category (text, thinking, tool_use, tool_result, image, document)."),
        ("message.content[].text", false, "Plain text content from a message block."),
        ("message.content[].thinking", false, "Model reasoning/thinking text block."),
        ("message.content[].signature", false, "Signature metadata for thinking blocks."),
        ("message.content[].tool_use_id", false, "Tool invocation identifier referenced by a tool result."),
        ("message.content[].name", false, "Tool name for tool_use blocks."),
        ("message.content[].id", false, "Tool-use content block identifier."),
        ("message.content[].input", true, "Tool invocation input payload (shape varies by tool)."),
        ("message.content[].caller", true, "Origin metadata for a tool invocation."),
        ("message.content[].content", false, "Tool result content payload."),
        ("message.content[].is_error", false, "Flag indicating tool result represents an error."),
        ("message.model", false, "Model identifier used for this assistant response."),
        ("message.id", false, "Model message identifier."),
        ("message.stop_reason", false, "Why model output stopped."),
        ("message.stop_sequence", false, "Matched stop sequence, when present."),
        ("message.usage", true, "Token/service usage accounting for this assistant message."),
        ("requestId", false, "Backend request identifier."),
        ("toolUseID", false, "Primary tool-use identifier for progress/system records."),
        ("parentToolUseID", false, "Parent tool-use identifier."),
        ("sourceToolAssistantUUID", false, "Assistant UUID that originated a tool use/result."),
        ("toolUseResult", true, "Serialized local tool execution result payload."),
        ("data", false, "Progress payload container."),
        ("data.type", false, "Progress subtype (hook_progress, bash_progress, agent_progress, etc)."),
        ("data.command", false, "Command associated with hook/progress events."),
        ("data.hookEvent", false, "Lifecycle stage for hook progress."),
        ("data.hookName", false, "Hook identifier."),
        ("data.totalLines", false, "Line count reported by streamed command output."),
        ("data.output", false, "Incremental command output content."),
        ("data.fullOutput", false, "Full command output snapshot."),
        ("data.elapsedTimeSeconds", false, "Execution duration in seconds."),
        ("data.timeoutMs", false, "Timeout in milliseconds for operation."),
        ("data.prompt", false, "Prompt text for background/agent task."),
        ("data.agentId", false, "Background agent identifier."),
        ("data.normalizedMessages", true, "Normalized message payload emitted by agent progress."),
        ("data.message", true, "Embedded message record within progress events."),
        ("subtype", false, "Subtype field for system events."),
        ("permissionMode", false, "Permission mode in effect for user action."),
        ("level", false, "Severity/suggestion level for system events."),
        ("stopReason", false, "Stop reason summary for stop-hook system messages."),
        ("preventedContinuation", false, "Whether a hook prevented continuation."),
        ("hasOutput", false, "Whether a hook produced output."),
        ("hookCount", false, "Count of hooks involved in a summary event."),
        ("hookInfos", true, "Hook execution metadata list."),
        ("hookErrors", false, "Hook error list."),
        ("todos", false, "Todo list captured on user records."),
        ("thinkingMetadata", true, "Reasoning mode metadata for a user request."),
        ("snapshot", false, "File-history snapshot payload."),
        ("messageId", false, "Message identifier referenced by snapshot/system records."),
        ("isSnapshotUpdate", false, "Whether file-history snapshot is incremental."),
        ("snapshot.timestamp", false, "Timestamp of file-history snapshot."),
        ("snapshot.messageId", false, "Message identifier that produced this snapshot."),
        ("snapshot.trackedFileBackups", false, "Map of file backup entries captured at snapshot time."),
        ("snapshot.trackedFileBackups.{path}", true, "Tracked backup metadata for a specific file path (path key is canonicalized)."),
        ("operation", false, "Queue operation type (enqueue, dequeue, remove, popAll)."),
        ("isMeta", false, "Flag indicating metadata-only user record."),
        ("summary", false, "Conversation summary text."),
        ("leafUuid", false, "Leaf UUID associated with summary records."),
        ("customTitle", false, "User-defined session title."),
        ("prUrl", false, "Pull request URL referenced by session metadata."),
        ("prNumber", false, "Pull request number referenced by session metadata."),
        ("prRepository", false, "Repository slug for PR metadata.")
    ];
    assert(rule_views(v@) =~= field_rules());
    v
}

/// The rule covers `path`: equal to it, or a prefix of it for a prefix rule.
pub open spec fn rule_matches(rule: (Seq<char>, bool, Seq<char>), path: Seq<char>) -> bool {
    if rule.1 {
        occurs_at(path, rule.0, 0)
    } else {
        path == rule.0
    }
}

/// The description of the first rule that covers `path`.
pub open spec fn first_rule(rules: Seq<(Seq<char>, bool, Seq<char>)>, path: Seq<char>) -> Option<Seq<char>>
    decreases rules.len(),
{
    if rules.len() == 0 {
        None
    } else if rule_matches(rules[0], path) {
        Some(rules[0].2)
    } else {
        first_rule(rules.drop_first(), path)
    }
}

/// What follows the last `.` of a path (all of it when there is none).
pub open spec fn last_segment(path: Seq<char>) -> Seq<char>
    decreases path.len(),
{
    if path.len() == 0 {
        path
    } else if path.last() == '.' {
        seq![]
    } else {
        last_segment(path.drop_last()).push(path.last())
    }
}

/// `s` with each `[]` removed, left to right.
pub open spec fn without_brackets(s: Seq<char>) -> Seq<char>
    decreases s.len(),
{
    if s.len() == 0 {
        s
    } else if s.len() >= 2 && s[0] == '[' && s[1] == ']' {
        without_brackets(s.skip(2))
    } else {
        seq![s[0]] + without_brackets(s.drop_first())
    }
}

/// The description of a canonical field path: that of the first rule that covers it, or
/// one made from its last segment.
pub open spec fn field_description(path: Seq<char>) -> Seq<char> {
    match first_rule(field_rules(), path) {
        Some(d) => d,
        None => "Auto-generated: field "@ + without_brackets(last_segment(path)) + " in path "@
            + path + "."@,
    }
}

/// What follows the last `.` of a path.
fn last_segment_of(v: &[char]) -> (r: Vec<char>)
    ensures
        r@ == last_segment(v@),
{
    let mut j: usize = v.len();
    assert(v@.take(j as int) =~= v@);
    while j > 0 && v[j - 1] != '.'
        invariant
            j <= v.len(),
            last_segment(v@) == last_segment(v@.take(j as int)) + v@.subrange(j as int, v@.len() as int),
        decreases j,
    {
        assert(v@.take(j as int).drop_last() =~= v@.take(j - 1));
        assert(v@.take(j as int).last() == v@[j - 1]);
        assert(last_segment(v@.take(j - 1)).push(v@[j - 1]) + v@.subrange(j as int, v@.len() as int)
            =~= last_segment(v@.take(j - 1)) + v@.subrange(j - 1, v@.len() as int));
        j = j - 1;
    }
    if j > 0 {
        assert(v@.take(j as int).last() == v@[j - 1]);
    }
    let mut out: Vec<char> = Vec::new();
    push_range(&mut out, v, j, v.len());
    assert(out@ =~= last_segment(v@));
    out
}

/// `v` with each `[]` removed, left to right.
fn strip_brackets(v: &[char]) -> (r: Vec<char>)
    ensures
        r@ == without_brackets(v@),
{
    let mut out: Vec<char> = Vec::new();
    let mut i: usize = 0;
    assert(v@.skip(0) =~= v@);
    while i < v.len()
        invariant
            i <= v.len(),
            out@ + without_brackets(v@.skip(i as int)) == without_brackets(v@),
        decreases v.len() - i,
    {
        let ghost rest = v@.skip(i as int);
        if i + 1 < v.len() && v[i] == '[' && v[i + 1] == ']' {
            assert(rest.skip(2) =~= v@.skip(i + 2));
            i = i + 2;
        } else {
            assert(rest.drop_first() =~= v@.skip(i + 1));
            assert(rest[0] == v@[i as int]);
            let ghost before = out@;
            out.push(v[i]);
            assert(before + (seq![v@[i as int]] + without_brackets(v@.skip(i + 1))) =~= out@
                + without_brackets(v@.skip(i + 1)));
            i = i + 1;
        }
    }
    assert(v@.skip(i as int) =~= Seq::<char>::empty());
    assert(out@ + Seq::<char>::empty() =~= out@);
    out
}

/// The description of a canonical field path.
pub fn describe_field(path: &str) -> (r: String)
    ensures
        r@ == field_description(path@),
{
    let rules = field_rule_table();
    let p = to_chars(path);
    let ghost all = rule_views(rules@);
    let mut i: usize = 0;
    assert(all.skip(0) =~= all);
    while i < rules.len()
        invariant
            i <= rules.len(),
            all == rule_views(rules@),
            all == field_rules(),
            p@ == path@,
            first_rule(all, path@) == first_rule(all.skip(i as int), path@),
        decreases rules.len() - i,
    {
        let (pattern, prefix, description) = rules[i];
        assert(all[i as int] == (pattern@, prefix, description@));
        assert(all.skip(i as int)[0] == all[i as int]);
        assert(all.skip(i as int).drop_first() =~= all.skip(i + 1));
        let hit = if prefix {
            occurs_at_exec(p.as_slice(), to_chars(pattern).as_slice(), 0)
        } else {
            same_text(path, pattern)
        };
        if hit {
            return from_chars(to_chars(description).as_slice());
        }
        i = i + 1;
    }
    let mut out: Vec<char> = Vec::new();
    push_str(&mut out, "Auto-generated: field ");
    let last = last_segment_of(p.as_slice());
    let stripped = strip_brackets(last.as_slice());
    crate::text::push_chars(&mut out, stripped.as_slice());
    push_str(&mut out, " in path ");
    push_str(&mut out, path);
    push_str(&mut out, ".");
    assert(out@ =~= field_description(path@));
    from_chars(out.as_slice())
}

/// The canonical paths of every member below `v`, reached by the steps `segs`, in
/// walking order: a member's own path, then those below it.
pub open spec fn value_paths(v: JsonValue, segs: Seq<PathSeg>) -> Seq<Seq<char>>
    decreases v, 0nat,
{
    match v {
        JsonValue::Object(members) => member_paths(members@, segs),
        JsonValue::Array(items) => item_paths(items@, segs),
        _ => seq![],
    }
}

/// The paths below the members of an object.
pub open spec fn member_paths(members: Seq<(String, JsonValue)>, segs: Seq<PathSeg>) -> Seq<Seq<char>>
    decreases members, members.len(),
{
    if members.len() == 0 {
        seq![]
    } else {
        let (k, child) = members.last();
        let here = segs.push(PathSeg::Key(k));
        member_paths(members.drop_last(), segs) + seq![canonical_state(here).0] + value_paths(child, here)
    }
}

/// The paths below the elements of an array.
pub open spec fn item_paths(items: Seq<JsonValue>, segs: Seq<PathSeg>) -> Seq<Seq<char>>
    decreases items, items.len(),
{
    if items.len() == 0 {
        seq![]
    } else {
        item_paths(items.drop_last(), segs) + value_paths(items.last(), segs.push(PathSeg::Array))
    }
}

/// The texts of a list of strings.
pub open spec fn string_views(v: Seq<String>) -> Seq<Seq<char>> {
    v.map_values(|s: String| s@)
}

/// Appends the canonical paths below `v`, reached by the steps `segs`.
fn walk_paths(v: &JsonValue, segs: &mut Vec<PathSeg>, out: &mut Vec<String>)
    ensures
        final(segs)@ == old(segs)@,
        string_views(final(out)@) == string_views(old(out)@) + value_paths(*v, old(segs)@),
    decreases v, 0nat,
{
    let ghost start = string_views(out@);
    let ghost base = segs@;
    match v {
        JsonValue::Object(members) => {
            let mut i: usize = 0;
            while i < members.len()
                invariant
                    i <= members.len(),
                    segs@ == base,
                    string_views(out@) == start + member_paths(members@.take(i as int), base),
                    *v == JsonValue::Object(*members),
                decreases members.len() - i,
            {
                let ghost before = string_views(out@);
                assert(members@.take(i + 1).drop_last() =~= members@.take(i as int));
                assert(members@.take(i + 1).last() == members@[i as int]);
                let key = members[i].0.clone();
                segs.push(PathSeg::Key(key));
                let ghost here_segs = segs@;
                assert(here_segs == base.push(PathSeg::Key(members@[i as int].0)));
                let here = canonical_path(segs.as_slice());
                let ghost here_text = here@;
                out.push(here);
                assert(string_views(out@) =~= before.push(here_text));
                proof {
                    broadcast use vstd::std_specs::vec::axiom_vec_decreases_to_view, vstd::seq::axiom_seq_index_decreases;
                    assert(decreases_to!(*v => v->Object_0));
                    assert(v->Object_0 == *members);
                    assert(decreases_to!(*members => members@));
                    assert(decreases_to!(members@ => members@[i as int]));
                    assert(decreases_to!(members@[i as int] => members@[i as int].1));
                    assert(decreases_to!(*v => members@[i as int].1));
                }
                walk_paths(&members[i].1, segs, out);
                assert(string_views(out@) =~= before + seq![here_text] + value_paths(
                    members@[i as int].1,
                    here_segs,
                ));
                segs.pop();
                assert(segs@ =~= base);
                assert(string_views(out@) =~= start + member_paths(members@.take(i + 1), base));
                i = i + 1;
            }
            assert(members@.take(i as int) =~= members@);
        },
        JsonValue::Array(items) => {
            let mut i: usize = 0;
            while i < items.len()
                invariant
                    i <= items.len(),
                    segs@ == base,
                    string_views(out@) == start + item_paths(items@.take(i as int), base),
                    *v == JsonValue::Array(*items),
                decreases items.len() - i,
            {
                assert(items@.take(i + 1).drop_last() =~= items@.take(i as int));
                assert(items@.take(i + 1).last() == items@[i as int]);
                segs.push(PathSeg::Array);
                proof {
                    broadcast use vstd::std_specs::vec::axiom_vec_decreases_to_view, vstd::seq::axiom_seq_index_decreases;
                    assert(decreases_to!(*v => v->Array_0));
                    assert(v->Array_0 == *items);
                    assert(decreases_to!(*items => items@));
                    assert(decreases_to!(items@ => items@[i as int]));
                    assert(decreases_to!(*v => items@[i as int]));
                }
                walk_paths(&items[i], segs, out);
                segs.pop();
                assert(segs@ =~= base);
                assert(string_views(out@) =~= start + item_paths(items@.take(i + 1), base));
                i = i + 1;
            }
            assert(items@.take(i as int) =~= items@);
        },
        _ => {
            assert(string_views(out@) =~= start + value_paths(*v, base));
        },
    }
}

/// The shape of a record: its `type` (`<missing>` when it has none) and the canonical
/// paths of all its members, in walking order.
pub struct RecordShape {
    pub kind: String,
    pub paths: Vec<String>,
}

/// The shape of a parsed record.
pub fn value_shape(v: &JsonValue) -> (r: RecordShape)
    ensures
        r.kind@ == text_or(str_field(*v, "type"@), "<missing>"@),
        string_views(r.paths@) == value_paths(*v, seq![]),
{
    let kind = match get_str(v, "type") {
        Some(t) => t.clone(),
        None => from_chars(to_chars("<missing>").as_slice()),
    };
    let mut segs: Vec<PathSeg> = Vec::new();
    let mut paths: Vec<String> = Vec::new();
    walk_paths(v, &mut segs, &mut paths);
    assert(string_views(paths@) =~= value_paths(*v, seq![]));
    RecordShape { kind, paths }
}

/// The shape of the record on a line; `None` when the line is not JSON.
pub fn record_shape(line: &str) -> (r: Option<RecordShape>)
    ensures
        match parsed_json(line@) {
            None => r is None,
            Some(v) => r is Some && r->0.kind@ == text_or(str_field(v, "type"@), "<missing>"@)
                && string_views(r->0.paths@) == value_paths(v, seq![]),
        },
{
    match parse_json(line) {
        None => None,
        Some(v) => Some(value_shape(&v)),
    }
}

} // verus!
