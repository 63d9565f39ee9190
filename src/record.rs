//! Flat text out of one transcript record: content blocks and non-dialog summaries.
use crate::json::{
    compact_json, field, get_field, get_str, pretty_json, render_compact, render_pretty,
    same_text, str_field, text_or, JsonValue,
};
use crate::text::{ellipsize_chars, ellipsized, from_chars, push_chars, push_str, to_chars};
use vstd::prelude::*;

verus! {

/// Longest rendering of a tool result, or of message content of another shape.
pub const CONTENT_JSON_LIMIT: usize = 1200;

/// Longest rendering of a record of a kind that the normalizer does not know.
pub const RECORD_JSON_LIMIT: usize = 500;

/// Longest rendering of a non-dialog record that has no summary of its own.
pub const SUMMARY_JSON_LIMIT: usize = 300;

/// Longest command shown in a progress summary.
pub const COMMAND_LIMIT: usize = 120;

/// The kinds of content block, by their `type` member.
pub enum BlockKind {
    Text,
    Thinking,
    ToolUse,
    ToolResult,
    Image,
    Document,
    Unknown,
}

/// The kind that a block's `type` names.
pub open spec fn kind_named(t: Seq<char>) -> BlockKind {
    if t == "text"@ {
        BlockKind::Text
    } else if t == "thinking"@ {
        BlockKind::Thinking
    } else if t == "tool_use"@ {
        BlockKind::ToolUse
    } else if t == "tool_result"@ {
        BlockKind::ToolResult
    } else if t == "image"@ {
        BlockKind::Image
    } else if t == "document"@ {
        BlockKind::Document
    } else {
        BlockKind::Unknown
    }
}

/// The compact JSON of `v`, cut to `max` characters.
pub open spec fn truncated_json(v: JsonValue, max: nat) -> Seq<char> {
    ellipsized(text_or(compact_json(v), "<invalid-json>"@), max)
}

/// The pretty-printed JSON of a tool's input; `{}` when there is none.
pub open spec fn tool_input_text(block: JsonValue) -> Seq<char> {
    match field(block, "input"@) {
        Some(v) => text_or(pretty_json(v), "{}"@),
        None => "{}"@,
    }
}

/// What one element of a content array contributes, if anything.
pub open spec fn block_part(item: JsonValue, detailed: bool) -> Option<Seq<char>> {
    match item {
        JsonValue::Str(s) => Some(s@),
        JsonValue::Object(_) => match kind_named(text_or(str_field(item, "type"@), seq![])) {
            BlockKind::Text => str_field(item, "text"@),
            BlockKind::Thinking => if detailed {
                Some("[thinking]\n"@ + text_or(str_field(item, "thinking"@), seq![]))
            } else {
                None
            },
            BlockKind::ToolUse => if detailed {
                Some(
                    "[tool_use] "@ + text_or(str_field(item, "name"@), "unknown"@) + "\n"@
                        + tool_input_text(item),
                )
            } else {
                None
            },
            BlockKind::ToolResult => if detailed {
                Some(
                    "[tool_result] "@ + text_or(str_field(item, "tool_use_id"@), "unknown"@)
                        + "\n"@ + truncated_json(
                        match field(item, "content"@) {
                            Some(c) => c,
                            None => JsonValue::Null,
                        },
                        CONTENT_JSON_LIMIT as nat,
                    ),
                )
            } else {
                None
            },
            BlockKind::Image => if detailed {
                Some("[image omitted]"@)
            } else {
                None
            },
            BlockKind::Document => if detailed {
                Some("[document omitted]"@)
            } else {
                None
            },
            BlockKind::Unknown => None,
        },
        _ => None,
    }
}

/// The parts that the elements of a content array contribute, in order.
pub open spec fn block_parts(items: Seq<JsonValue>, detailed: bool) -> Seq<Seq<char>>
    decreases items.len(),
{
    if items.len() == 0 {
        seq![]
    } else {
        let before = block_parts(items.drop_last(), detailed);
        match block_part(items.last(), detailed) {
            Some(p) => before.push(p),
            None => before,
        }
    }
}

/// The parts joined, a line break between each two.
pub open spec fn join_lines(parts: Seq<Seq<char>>) -> Seq<char>
    decreases parts.len(),
{
    if parts.len() == 0 {
        seq![]
    } else if parts.len() == 1 {
        parts[0]
    } else {
        join_lines(parts.drop_last()) + seq!['\n'] + parts.last()
    }
}

/// The flat text of a `message.content` value.
pub open spec fn content_text(content: JsonValue, detailed: bool) -> Seq<char> {
    match content {
        JsonValue::Str(s) => s@,
        JsonValue::Array(items) => join_lines(block_parts(items@, detailed)),
        _ => truncated_json(content, CONTENT_JSON_LIMIT as nat),
    }
}

/// The flat text of a record's `message.content`; empty when there is none.
pub open spec fn message_text(record: JsonValue, detailed: bool) -> Seq<char> {
    match field(record, "message"@) {
        Some(m) => match field(m, "content"@) {
            Some(c) => content_text(c, detailed),
            None => seq![],
        },
        None => seq![],
    }
}

/// The string member `inner` of the member `outer` of `v`.
pub open spec fn nested_str(v: JsonValue, outer: Seq<char>, inner: Seq<char>) -> Option<
    Seq<char>,
> {
    match field(v, outer) {
        Some(o) => str_field(o, inner),
        None => None,
    }
}

/// The one-line summary of a progress record.
pub open spec fn progress_summary(record: JsonValue) -> Seq<char> {
    let kind = text_or(nested_str(record, "data"@, "type"@), "unknown"@);
    let hook = text_or(nested_str(record, "data"@, "hookName"@), seq![]);
    let cmd = text_or(nested_str(record, "data"@, "command"@), seq![]);
    let s = "progress:"@ + kind;
    let s = if hook.len() > 0 {
        s + " hook="@ + hook
    } else {
        s
    };
    if cmd.len() > 0 {
        s + " cmd="@ + ellipsized(cmd, COMMAND_LIMIT as nat)
    } else {
        s
    }
}

/// The one-line summary of a non-dialog record.
pub open spec fn non_dialog_summary(record: JsonValue) -> Seq<char> {
    let t = text_or(str_field(record, "type"@), "unknown"@);
    if t == "progress"@ {
        progress_summary(record)
    } else if t == "system"@ {
        "system:"@ + text_or(str_field(record, "subtype"@), "unknown"@)
    } else if t == "queue-operation"@ {
        "queue-operation:"@ + text_or(str_field(record, "operation"@), "unknown"@)
    } else if t == "file-history-snapshot"@ {
        "file-history-snapshot"@
    } else {
        truncated_json(record, SUMMARY_JSON_LIMIT as nat)
    }
}

/// The kind that a block's `type` names.
pub fn block_kind(t: &str) -> (r: BlockKind)
    ensures
        r == kind_named(t@),
{
    if same_text(t, "text") {
        BlockKind::Text
    } else if same_text(t, "thinking") {
        BlockKind::Thinking
    } else if same_text(t, "tool_use") {
        BlockKind::ToolUse
    } else if same_text(t, "tool_result") {
        BlockKind::ToolResult
    } else if same_text(t, "image") {
        BlockKind::Image
    } else if same_text(t, "document") {
        BlockKind::Document
    } else {
        BlockKind::Unknown
    }
}

/// Appends the string member `key` of `v`, or `default` when it has none.
fn push_str_or(out: &mut Vec<char>, v: &JsonValue, key: &str, default: &str)
    ensures
        final(out)@ == old(out)@ + text_or(str_field(*v, key@), default@),
{
    match get_str(v, key) {
        Some(s) => push_str(out, s.as_str()),
        None => push_str(out, default),
    }
}

/// The compact JSON of `v`, cut to `max` characters.
pub fn truncate_value(v: &JsonValue, max: usize) -> (r: Vec<char>)
    ensures
        r@ == truncated_json(*v, max as nat),
        r@.len() > 0,
{
    proof {
        reveal_strlit("<invalid-json>");
    }
    let full = match render_compact(v) {
        Some(s) => to_chars(s.as_str()),
        None => to_chars("<invalid-json>"),
    };
    ellipsize_chars(full.as_slice(), max)
}

/// What one element of a content array contributes, if anything.
pub fn extract_block(item: &JsonValue, detailed: bool) -> (r: Option<Vec<char>>)
    ensures
        r is Some == block_part(*item, detailed) is Some,
        r is Some ==> r->0@ == block_part(*item, detailed)->0,
{
    match item {
        JsonValue::Str(s) => Some(to_chars(s.as_str())),
        JsonValue::Object(_) => {
            let kind = match get_str(item, "type") {
                Some(t) => block_kind(t.as_str()),
                None => {
                    proof {
                        reveal_strlit("");
                    }
                    assert(""@ =~= Seq::<char>::empty());
                    block_kind("")
                },
            };
            let mut out: Vec<char> = Vec::new();
            match kind {
                BlockKind::Text => {
                    return match get_str(item, "text") {
                        Some(t) => Some(to_chars(t.as_str())),
                        None => None,
                    };
                },
                BlockKind::Thinking => {
                    if !detailed {
                        return None;
                    }
                    push_str(&mut out, "[thinking]\n");
                    push_str_or(&mut out, item, "thinking", "");
                    proof {
                        reveal_strlit("");
                    }
                    assert(""@ =~= Seq::<char>::empty());
                },
                BlockKind::ToolUse => {
                    if !detailed {
                        return None;
                    }
                    push_str(&mut out, "[tool_use] ");
                    push_str_or(&mut out, item, "name", "unknown");
                    push_str(&mut out, "\n");
                    match get_field(item, "input") {
                        Some(input) => match render_pretty(input) {
                            Some(p) => push_str(&mut out, p.as_str()),
                            None => push_str(&mut out, "{}"),
                        },
                        None => push_str(&mut out, "{}"),
                    }
                },
                BlockKind::ToolResult => {
                    if !detailed {
                        return None;
                    }
                    push_str(&mut out, "[tool_result] ");
                    push_str_or(&mut out, item, "tool_use_id", "unknown");
                    push_str(&mut out, "\n");
                    let rendered = match get_field(item, "content") {
                        Some(c) => truncate_value(c, CONTENT_JSON_LIMIT),
                        None => truncate_value(&JsonValue::Null, CONTENT_JSON_LIMIT),
                    };
                    push_chars(&mut out, rendered.as_slice());
                },
                BlockKind::Image => {
                    if !detailed {
                        return None;
                    }
                    push_str(&mut out, "[image omitted]");
                },
                BlockKind::Document => {
                    if !detailed {
                        return None;
                    }
                    push_str(&mut out, "[document omitted]");
                },
                BlockKind::Unknown => {
                    return None;
                },
            }
            Some(out)
        },
        _ => None,
    }
}

/// The flat text of a `message.content` value.
pub fn extract_content_text(content: &JsonValue, detailed: bool) -> (r: Vec<char>)
    ensures
        r@ == content_text(*content, detailed),
{
    match content {
        JsonValue::Str(s) => to_chars(s.as_str()),
        JsonValue::Array(items) => {
            let mut out: Vec<char> = Vec::new();
            let mut any = false;
            let mut i: usize = 0;
            while i < items.len()
                invariant
                    i <= items.len(),
                    any == (block_parts(items@.take(i as int), detailed).len() > 0),
                    out@ == join_lines(block_parts(items@.take(i as int), detailed)),
                decreases items.len() - i,
            {
                let ghost before = block_parts(items@.take(i as int), detailed);
                assert(items@.take(i + 1).drop_last() =~= items@.take(i as int));
                match extract_block(&items[i], detailed) {
                    Some(part) => {
                        if any {
                            out.push('\n');
                        }
                        push_chars(&mut out, part.as_slice());
                        any = true;
                        assert(block_parts(items@.take(i + 1), detailed) == before.push(part@));
                        assert(before.push(part@).drop_last() =~= before);
                        proof {
                            if before.len() == 0 {
                                assert(out@ =~= join_lines(before.push(part@)));
                            } else {
                                assert(out@ =~= join_lines(before.push(part@)));
                            }
                        }
                    },
                    None => {},
                }
                i = i + 1;
            }
            assert(items@.take(i as int) =~= items@);
            out
        },
        _ => truncate_value(content, CONTENT_JSON_LIMIT),
    }
}

/// The flat text of a record's `message.content`; empty when there is none.
pub fn extract_message_text(record: &JsonValue, detailed: bool) -> (r: Vec<char>)
    ensures
        r@ == message_text(*record, detailed),
{
    match get_field(record, "message") {
        Some(m) => match get_field(m, "content") {
            Some(c) => extract_content_text(c, detailed),
            None => Vec::new(),
        },
        None => Vec::new(),
    }
}

/// The string member `inner` of the member `outer` of `v`, or `default`.
fn nested_str_or(v: &JsonValue, outer: &str, inner: &str, default: &str) -> (r: Vec<char>)
    ensures
        r@ == text_or(nested_str(*v, outer@, inner@), default@),
{
    match get_field(v, outer) {
        Some(o) => match get_str(o, inner) {
            Some(s) => to_chars(s.as_str()),
            None => to_chars(default),
        },
        None => to_chars(default),
    }
}

/// The one-line summary of a non-dialog record.
pub fn summarize_non_dialog_record(record: &JsonValue) -> (r: Vec<char>)
    ensures
        r@ == non_dialog_summary(*record),
        r@.len() > 0,
{
    proof {
        reveal_strlit("");
        reveal_strlit("progress:");
        reveal_strlit("system:");
        reveal_strlit("queue-operation:");
        reveal_strlit("file-history-snapshot");
    }
    assert(""@ =~= Seq::<char>::empty());
    let t = match get_str(record, "type") {
        Some(t) => to_chars(t.as_str()),
        None => to_chars("unknown"),
    };
    let t = from_chars(t.as_slice());
    let mut out: Vec<char> = Vec::new();
    if same_text(t.as_str(), "progress") {
        push_str(&mut out, "progress:");
        let kind = nested_str_or(record, "data", "type", "unknown");
        push_chars(&mut out, kind.as_slice());
        let hook = nested_str_or(record, "data", "hookName", "");
        if hook.len() > 0 {
            push_str(&mut out, " hook=");
            push_chars(&mut out, hook.as_slice());
        }
        let cmd = nested_str_or(record, "data", "command", "");
        if cmd.len() > 0 {
            push_str(&mut out, " cmd=");
            let short = ellipsize_chars(cmd.as_slice(), COMMAND_LIMIT);
            push_chars(&mut out, short.as_slice());
        }
    } else if same_text(t.as_str(), "system") {
        push_str(&mut out, "system:");
        push_str_or(&mut out, record, "subtype", "unknown");
    } else if same_text(t.as_str(), "queue-operation") {
        push_str(&mut out, "queue-operation:");
        push_str_or(&mut out, record, "operation", "unknown");
    } else if same_text(t.as_str(), "file-history-snapshot") {
        push_str(&mut out, "file-history-snapshot");
    } else {
        out = truncate_value(record, SUMMARY_JSON_LIMIT);
    }
    out
}

} // verus!
