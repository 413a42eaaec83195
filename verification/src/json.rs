//! JSON documents as pcurl reads them, and their colored, indented rendering.

use vstd::prelude::*;
use crate::render::{Out, Span, Style, emit, emit_chars, emit_nl, emit_str, nl, piece, spans};
use crate::text::{push_str, slice_chars};

verus! {

/// A JSON value. Numbers keep the text serde_json writes for them and, when
/// the number is a non-negative integer that fits, its `u64` value.
pub enum JsonValue {
    Null,
    Bool(bool),
    Number { text: String, as_u64: Option<u64> },
    Str(String),
    Array(Vec<JsonValue>),
    /// Members in the order serde_json's map yields them.
    Object(Vec<(String, JsonValue)>),
}

#[verifier::external_type_specification]
#[verifier::external_body]
pub struct ExSerdeValue(serde_json::Value);

/// What `serde_json::from_str::<serde_json::Value>` makes of a text, as a
/// `JsonValue`: `None` when the text is not one JSON document.
pub uninterp spec fn json_document(text: Seq<char>) -> Option<JsonValue>;

/// Converts serde_json's tree into a `JsonValue`, node for node. It is the
/// conversion step of `parse_json`: each number keeps its `Display` text and
/// `as_u64`, each object its members in the map's order.
#[verifier::external_body]
fn json_from_serde(v: serde_json::Value) -> JsonValue {
    match v {
        serde_json::Value::Null => JsonValue::Null,
        serde_json::Value::Bool(b) => JsonValue::Bool(b),
        serde_json::Value::Number(n) => JsonValue::Number { text: n.to_string(), as_u64: n.as_u64() },
        serde_json::Value::String(s) => JsonValue::Str(s),
        serde_json::Value::Array(a) => JsonValue::Array(a.into_iter().map(json_from_serde).collect()),
        serde_json::Value::Object(m) => JsonValue::Object(
            m.into_iter().map(|(k, x)| (k, json_from_serde(x))).collect(),
        ),
    }
}

/// Parses a text as one JSON document with `serde_json::from_str`. The
/// contract names the result (`json_document`) and claims nothing else of
/// serde_json's parser.
#[verifier::external_body]
pub(crate) fn parse_json(text: &str) -> (r: Option<JsonValue>)
    ensures
        r == json_document(text@),
{
    serde_json::from_str::<serde_json::Value>(text).ok().map(json_from_serde)
}

/// `n` levels of two-space indentation.
pub open spec fn indent(n: nat) -> Seq<char> {
    Seq::new(2 * n, |i: int| ' ')
}

/// The comma after a value that is not the last of its container (empty otherwise).
pub open spec fn comma(is_last: bool) -> Seq<char> {
    if is_last {
        ""@
    } else {
        ","@
    }
}

/// `true` or `false`.
pub open spec fn bool_text(b: bool) -> Seq<char> {
    if b {
        "true"@
    } else {
        "false"@
    }
}

/// The rendering of a JSON value at depth `depth` (indentation of its
/// members) in the body view: containers open on the current line, members
/// are indented one level deeper, the closing bracket goes one level less,
/// keys are cyan, strings green, numbers yellow, booleans magenta and `null`
/// red. Every value ends its line, so each member stands on a line of its
/// own; an empty container is written inline as `{}` or `[]`.
pub open spec fn json_out(v: JsonValue, depth: nat, is_last: bool) -> Out
    decreases v, 1int,
{
    match v {
        JsonValue::Object(entries) => if entries@.len() == 0 {
            piece(Style::Dim, "{}"@) + piece(Style::Dim, comma(is_last)) + nl()
        } else {
            piece(Style::Dim, "{"@) + nl() + members_out(entries, depth, 0) + piece(
                Style::Plain,
                indent((depth - 1) as nat),
            ) + piece(Style::Plain, "}"@) + piece(Style::Dim, comma(is_last)) + nl()
        },
        JsonValue::Array(items) => if items@.len() == 0 {
            piece(Style::Dim, "[]"@) + piece(Style::Dim, comma(is_last)) + nl()
        } else {
            piece(Style::Dim, "["@) + nl() + items_out(items, depth, 0) + piece(
                Style::Plain,
                indent((depth - 1) as nat),
            ) + piece(Style::Plain, "]"@) + piece(Style::Dim, comma(is_last)) + nl()
        },
        JsonValue::Str(s) => piece(Style::Green, "\""@ + s@ + "\""@) + piece(
            Style::Dim,
            comma(is_last),
        ) + nl(),
        JsonValue::Number { text, as_u64 } => piece(Style::Yellow, text@) + piece(
            Style::Dim,
            comma(is_last),
        ) + nl(),
        JsonValue::Bool(b) => piece(Style::Magenta, bool_text(b)) + piece(Style::Dim, comma(is_last))
            + nl(),
        JsonValue::Null => piece(Style::RedDim, "null"@) + piece(Style::Dim, comma(is_last)) + nl(),
    }
}

/// The members of an object from index `i` on: indentation, the quoted key
/// and a colon, a space, then the value one level deeper.
pub open spec fn members_out(entries: Vec<(String, JsonValue)>, depth: nat, i: int) -> Out
    decreases entries, 0int, entries@.len() - i,
{
    if i < 0 || i >= entries@.len() {
        Seq::empty()
    } else {
        piece(Style::Plain, indent(depth)) + piece(Style::Cyan, "\""@ + entries@[i].0@ + "\":"@)
            + piece(Style::Plain, " "@) + json_out(entries@[i].1, depth + 1, i == entries@.len() - 1)
            + members_out(entries, depth, i + 1)
    }
}

/// The items of an array from index `i` on: indentation, then the value one level deeper.
pub open spec fn items_out(items: Vec<JsonValue>, depth: nat, i: int) -> Out
    decreases items, 0int, items@.len() - i,
{
    if i < 0 || i >= items@.len() {
        Seq::empty()
    } else {
        piece(Style::Plain, indent(depth)) + json_out(items@[i], depth + 1, i == items@.len() - 1)
            + items_out(items, depth, i + 1)
    }
}


/// Every JSON value of the body view ends its line: an object member or an
/// array item is followed by a line break, so the next one starts a line of
/// its own, and a closing bracket never follows a value on its line.
pub proof fn law_json_value_ends_line(v: JsonValue, depth: nat, is_last: bool)
    ensures
        json_out(v, depth, is_last).len() > 0,
        json_out(v, depth, is_last).last() == (Style::Plain, "\n"@),
{
}

/// `pad` with one more level of indentation.
fn deeper(pad: &Vec<char>) -> (r: Vec<char>)
    ensures
        r@ == pad@ + seq![' ', ' '],
{
    let mut r = slice_chars(pad, 0, pad.len());
    r.push(' ');
    r.push(' ');
    assert(r@ =~= pad@ + seq![' ', ' ']);
    r
}

proof fn lemma_indent_next(n: nat)
    ensures
        indent(n) + seq![' ', ' '] == indent(n + 1),
{
    assert(indent(n) + seq![' ', ' '] =~= indent(n + 1));
}

/// Appends a quoted text: `"` + `s` + `"`, followed by `suffix`.
fn quoted(s: &String, suffix: &str) -> (r: String)
    ensures
        r@ == "\""@ + s@ + suffix@,
{
    let mut r = "\"".to_owned();
    push_str(&mut r, s.as_str());
    push_str(&mut r, suffix);
    r
}

fn comma_str(is_last: bool) -> (r: &'static str)
    ensures
        r@ == comma(is_last),
{
    if is_last {
        ""
    } else {
        ","
    }
}

/// Appends the rendering of `value` at depth `depth`; `pad` and `pad_c` are
/// the indentation of that depth and of one level less.
fn render_json(
    value: &JsonValue,
    pad: &Vec<char>,
    pad_c: &Vec<char>,
    is_last: bool,
    out: &mut Vec<Span>,
    Ghost(depth): Ghost<nat>,
)
    requires
        pad@ == indent(depth),
        pad_c@ == indent((depth - 1) as nat),
    ensures
        spans(final(out)@) == spans(old(out)@) + json_out(*value, depth, is_last),
    decreases value,
{
    let ghost start = spans(out@);
    match value {
        JsonValue::Object(entries) => {
            if entries.len() == 0 {
                emit_str(out, Style::Dim, "{}");
                emit_str(out, Style::Dim, comma_str(is_last));
                emit_nl(out);
                assert(spans(out@) =~= start + json_out(*value, depth, is_last));
                return;
            }
            emit_str(out, Style::Dim, "{");
            emit_nl(out);
            let inner = deeper(pad);
            proof {
                lemma_indent_next(depth);
            }
            let ghost base = spans(out@);
            let n = entries.len();
            let mut i: usize = 0;
            assert(base + members_out(*entries, depth, 0) =~= base + members_out(*entries, depth, 0));
            while i < n
                invariant
                    n == entries@.len(),
                    *value == JsonValue::Object(*entries),
                    i <= n,
                    pad@ == indent(depth),
                    inner@ == indent(depth + 1),
                    spans(out@) + members_out(*entries, depth, i as int) == base + members_out(
                        *entries,
                        depth,
                        0,
                    ),
                decreases n - i,
            {
                let ghost before = spans(out@);
                emit_chars(out, Style::Plain, pad);
                emit(out, Style::Cyan, quoted(&entries[i].0, "\":"));
                emit_str(out, Style::Plain, " ");
                proof {
                    assert(decreases_to!(*value => (*value)->Object_0));
                    assert(decreases_to!(*entries => entries@));
                    assert(decreases_to!(entries@ => entries@[i as int]));
                    assert(decreases_to!(entries@[i as int] => entries@[i as int].1));
                }
                render_json(&entries[i].1, &inner, pad, i == n - 1, out, Ghost(depth + 1));
                i = i + 1;
                assert(spans(out@) + members_out(*entries, depth, i as int) =~= before
                    + members_out(*entries, depth, (i - 1) as int));
            }
            emit_chars(out, Style::Plain, pad_c);
            emit_str(out, Style::Plain, "}");
            emit_str(out, Style::Dim, comma_str(is_last));
            emit_nl(out);
            assert(spans(out@) =~= start + json_out(*value, depth, is_last));
        },
        JsonValue::Array(items) => {
            if items.len() == 0 {
                emit_str(out, Style::Dim, "[]");
                emit_str(out, Style::Dim, comma_str(is_last));
                emit_nl(out);
                assert(spans(out@) =~= start + json_out(*value, depth, is_last));
                return;
            }
            emit_str(out, Style::Dim, "[");
            emit_nl(out);
            let inner = deeper(pad);
            proof {
                lemma_indent_next(depth);
            }
            let ghost base = spans(out@);
            let n = items.len();
            let mut i: usize = 0;
            while i < n
                invariant
                    n == items@.len(),
                    *value == JsonValue::Array(*items),
                    i <= n,
                    pad@ == indent(depth),
                    inner@ == indent(depth + 1),
                    spans(out@) + items_out(*items, depth, i as int) == base + items_out(
                        *items,
                        depth,
                        0,
                    ),
                decreases n - i,
            {
                let ghost before = spans(out@);
                emit_chars(out, Style::Plain, pad);
                proof {
                    assert(decreases_to!(*value => (*value)->Array_0));
                    assert(decreases_to!(*items => items@));
                    assert(decreases_to!(items@ => items@[i as int]));
                }
                render_json(&items[i], &inner, pad, i == n - 1, out, Ghost(depth + 1));
                i = i + 1;
                assert(spans(out@) + items_out(*items, depth, i as int) =~= before + items_out(
                    *items,
                    depth,
                    (i - 1) as int,
                ));
            }
            emit_chars(out, Style::Plain, pad_c);
            emit_str(out, Style::Plain, "]");
            emit_str(out, Style::Dim, comma_str(is_last));
            emit_nl(out);
            assert(spans(out@) =~= start + json_out(*value, depth, is_last));
        },
        JsonValue::Str(s) => {
            emit(out, Style::Green, quoted(s, "\""));
            emit_str(out, Style::Dim, comma_str(is_last));
            emit_nl(out);
            assert(spans(out@) =~= start + json_out(*value, depth, is_last));
        },
        JsonValue::Number { text, as_u64 } => {
            emit(out, Style::Yellow, text.as_str().to_owned());
            emit_str(out, Style::Dim, comma_str(is_last));
            emit_nl(out);
            assert(spans(out@) =~= start + json_out(*value, depth, is_last));
        },
        JsonValue::Bool(b) => {
            if *b {
                emit_str(out, Style::Magenta, "true");
            } else {
                emit_str(out, Style::Magenta, "false");
            }
            emit_str(out, Style::Dim, comma_str(is_last));
            emit_nl(out);
            assert(spans(out@) =~= start + json_out(*value, depth, is_last));
        },
        JsonValue::Null => {
            emit_str(out, Style::RedDim, "null");
            emit_str(out, Style::Dim, comma_str(is_last));
            emit_nl(out);
            assert(spans(out@) =~= start + json_out(*value, depth, is_last));
        },
    }
}

/// The rendering of a top-level JSON body: the value at depth one, as the
/// last value, followed by a line break.
pub open spec fn json_body_out(v: JsonValue) -> Out {
    json_out(v, 1, true) + nl()
}

/// Renders a JSON value as the body view shows it.
pub fn render_json_body(value: &JsonValue) -> (out: Vec<Span>)
    ensures
        spans(out@) == json_body_out(*value),
{
    let mut out: Vec<Span> = Vec::new();
    let pad = deeper(&Vec::new());
    let pad_c: Vec<char> = Vec::new();
    assert(pad@ =~= indent(1));
    assert(pad_c@ =~= indent(0));
    assert(spans(out@) =~= Seq::empty());
    render_json(value, &pad, &pad_c, true, &mut out, Ghost(1));
    emit_nl(&mut out);
    assert(spans(out@) =~= json_body_out(*value));
    out
}


/// The rendering of a JSON value in a WebSocket session: like the body view
/// but without commas, every scalar on a line of its own followed by a
/// blank line, and an empty container on a line of its own.
pub open spec fn pretty_out(v: JsonValue, depth: nat) -> Out
    decreases v, 1int,
{
    match v {
        JsonValue::Object(entries) => if entries@.len() == 0 {
            piece(Style::Dim, "{}"@) + nl()
        } else {
            piece(Style::Dim, "{"@) + nl() + pretty_members_out(entries, depth, 0) + piece(
                Style::Plain,
                indent((depth - 1) as nat),
            ) + piece(Style::Plain, "}"@) + nl()
        },
        JsonValue::Array(items) => if items@.len() == 0 {
            piece(Style::Dim, "[]"@) + nl()
        } else {
            piece(Style::Dim, "["@) + nl() + pretty_items_out(items, depth, 0) + piece(
                Style::Plain,
                indent((depth - 1) as nat),
            ) + piece(Style::Plain, "]"@) + nl()
        },
        JsonValue::Str(s) => piece(Style::Green, "\""@ + s@ + "\""@) + nl() + nl(),
        JsonValue::Number { text, as_u64 } => piece(Style::Yellow, text@) + nl() + nl(),
        JsonValue::Bool(b) => piece(Style::Magenta, bool_text(b)) + nl() + nl(),
        JsonValue::Null => piece(Style::RedDim, "null"@) + nl() + nl(),
    }
}

/// The members of an object from index `i` on, in a WebSocket session.
pub open spec fn pretty_members_out(entries: Vec<(String, JsonValue)>, depth: nat, i: int) -> Out
    decreases entries, 0int, entries@.len() - i,
{
    if i < 0 || i >= entries@.len() {
        Seq::empty()
    } else {
        piece(Style::Plain, indent(depth)) + piece(Style::Cyan, "\""@ + entries@[i].0@ + "\":"@)
            + piece(Style::Plain, " "@) + pretty_out(entries@[i].1, depth + 1) + pretty_members_out(
            entries,
            depth,
            i + 1,
        )
    }
}

/// The items of an array from index `i` on, in a WebSocket session.
pub open spec fn pretty_items_out(items: Vec<JsonValue>, depth: nat, i: int) -> Out
    decreases items, 0int, items@.len() - i,
{
    if i < 0 || i >= items@.len() {
        Seq::empty()
    } else {
        piece(Style::Plain, indent(depth)) + pretty_out(items@[i], depth + 1) + pretty_items_out(
            items,
            depth,
            i + 1,
        )
    }
}

fn render_pretty(
    value: &JsonValue,
    pad: &Vec<char>,
    pad_c: &Vec<char>,
    out: &mut Vec<Span>,
    Ghost(depth): Ghost<nat>,
)
    requires
        pad@ == indent(depth),
        pad_c@ == indent((depth - 1) as nat),
    ensures
        spans(final(out)@) == spans(old(out)@) + pretty_out(*value, depth),
    decreases value,
{
    let ghost start = spans(out@);
    match value {
        JsonValue::Object(entries) => {
            if entries.len() == 0 {
                emit_str(out, Style::Dim, "{}");
                emit_nl(out);
                assert(spans(out@) =~= start + pretty_out(*value, depth));
                return;
            }
            emit_str(out, Style::Dim, "{");
            emit_nl(out);
            let inner = deeper(pad);
            proof {
                lemma_indent_next(depth);
            }
            let ghost base = spans(out@);
            let n = entries.len();
            let mut i: usize = 0;
            while i < n
                invariant
                    n == entries@.len(),
                    *value == JsonValue::Object(*entries),
                    i <= n,
                    pad@ == indent(depth),
                    inner@ == indent(depth + 1),
                    spans(out@) + pretty_members_out(*entries, depth, i as int) == base
                        + pretty_members_out(*entries, depth, 0),
                decreases n - i,
            {
                let ghost before = spans(out@);
                emit_chars(out, Style::Plain, pad);
                emit(out, Style::Cyan, quoted(&entries[i].0, "\":"));
                emit_str(out, Style::Plain, " ");
                proof {
                    assert(decreases_to!(*value => (*value)->Object_0));
                    assert(decreases_to!(*entries => entries@));
                    assert(decreases_to!(entries@ => entries@[i as int]));
                    assert(decreases_to!(entries@[i as int] => entries@[i as int].1));
                }
                render_pretty(&entries[i].1, &inner, pad, out, Ghost(depth + 1));
                i = i + 1;
                assert(spans(out@) + pretty_members_out(*entries, depth, i as int) =~= before
                    + pretty_members_out(*entries, depth, (i - 1) as int));
            }
            emit_chars(out, Style::Plain, pad_c);
            emit_str(out, Style::Plain, "}");
            emit_nl(out);
            assert(spans(out@) =~= start + pretty_out(*value, depth));
        },
        JsonValue::Array(items) => {
            if items.len() == 0 {
                emit_str(out, Style::Dim, "[]");
                emit_nl(out);
                assert(spans(out@) =~= start + pretty_out(*value, depth));
                return;
            }
            emit_str(out, Style::Dim, "[");
            emit_nl(out);
            let inner = deeper(pad);
            proof {
                lemma_indent_next(depth);
            }
            let ghost base = spans(out@);
            let n = items.len();
            let mut i: usize = 0;
            while i < n
                invariant
                    n == items@.len(),
                    *value == JsonValue::Array(*items),
                    i <= n,
                    pad@ == indent(depth),
                    inner@ == indent(depth + 1),
                    spans(out@) + pretty_items_out(*items, depth, i as int) == base
                        + pretty_items_out(*items, depth, 0),
                decreases n - i,
            {
                let ghost before = spans(out@);
                emit_chars(out, Style::Plain, pad);
                proof {
                    assert(decreases_to!(*value => (*value)->Array_0));
                    assert(decreases_to!(*items => items@));
                    assert(decreases_to!(items@ => items@[i as int]));
                }
                render_pretty(&items[i], &inner, pad, out, Ghost(depth + 1));
                i = i + 1;
                assert(spans(out@) + pretty_items_out(*items, depth, i as int) =~= before
                    + pretty_items_out(*items, depth, (i - 1) as int));
            }
            emit_chars(out, Style::Plain, pad_c);
            emit_str(out, Style::Plain, "]");
            emit_nl(out);
            assert(spans(out@) =~= start + pretty_out(*value, depth));
        },
        JsonValue::Str(s) => {
            emit(out, Style::Green, quoted(s, "\""));
            emit_nl(out);
            emit_nl(out);
            assert(spans(out@) =~= start + pretty_out(*value, depth));
        },
        JsonValue::Number { text, as_u64 } => {
            emit(out, Style::Yellow, text.as_str().to_owned());
            emit_nl(out);
            emit_nl(out);
            assert(spans(out@) =~= start + pretty_out(*value, depth));
        },
        JsonValue::Bool(b) => {
            if *b {
                emit_str(out, Style::Magenta, "true");
            } else {
                emit_str(out, Style::Magenta, "false");
            }
            emit_nl(out);
            emit_nl(out);
            assert(spans(out@) =~= start + pretty_out(*value, depth));
        },
        JsonValue::Null => {
            emit_str(out, Style::RedDim, "null");
            emit_nl(out);
            emit_nl(out);
            assert(spans(out@) =~= start + pretty_out(*value, depth));
        },
    }
}

/// Appends the rendering of a JSON message of a WebSocket session, at depth one.
pub fn render_json_pretty(value: &JsonValue, out: &mut Vec<Span>)
    ensures
        spans(final(out)@) == spans(old(out)@) + pretty_out(*value, 1),
{
    let pad = deeper(&Vec::new());
    let pad_c: Vec<char> = Vec::new();
    assert(pad@ =~= indent(1));
    assert(pad_c@ =~= indent(0));
    render_pretty(value, &pad, &pad_c, out, Ghost(1));
}
} // verus!
