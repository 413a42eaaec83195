//! Compact JSON text of a `JsonValue`, written as serde_json writes a value
//! (`Value`'s `Display`): no spaces, strings escaped as serde_json escapes them.

use vstd::prelude::*;
use crate::json::JsonValue;
use crate::numbers::{digit_char, digit_exec};
use crate::text::{chars_of, push_char, push_str};

verus! {

/// How serde_json writes a character inside a string: `"` and `\` get a
/// backslash, backspace, tab, line feed, form feed and carriage return
/// their short escapes, other control characters below U+0020 are written
/// `\u00XX` in lower-case hex, and every other character stands as it is.
pub open spec fn json_escape_char(c: char) -> Seq<char> {
    if c == '"' {
        seq!['\\', '"']
    } else if c == '\\' {
        seq!['\\', '\\']
    } else if c == '\u{8}' {
        seq!['\\', 'b']
    } else if c == '\t' {
        seq!['\\', 't']
    } else if c == '\n' {
        seq!['\\', 'n']
    } else if c == '\u{c}' {
        seq!['\\', 'f']
    } else if c == '\r' {
        seq!['\\', 'r']
    } else if (c as u32) < 0x20 {
        seq!['\\', 'u', '0', '0', digit_char((c as u32 / 16) as nat), digit_char((c as u32 % 16) as nat)]
    } else {
        seq![c]
    }
}

/// The characters of `s`, each escaped.
pub open spec fn json_escape(s: Seq<char>) -> Seq<char>
    decreases s.len(),
{
    if s.len() == 0 {
        Seq::empty()
    } else {
        json_escape(s.drop_last()) + json_escape_char(s.last())
    }
}

/// A JSON string: the escaped characters in double quotes.
pub open spec fn json_string(s: Seq<char>) -> Seq<char> {
    seq!['"'] + json_escape(s) + seq!['"']
}

/// The compact JSON text of a value: arrays and objects with their members
/// separated by commas, keys as JSON strings followed by a colon, members in
/// the order the value holds them, numbers with their text.
pub open spec fn json_text(v: JsonValue) -> Seq<char>
    decreases v, 1int,
{
    match v {
        JsonValue::Null => "null"@,
        JsonValue::Bool(b) => if b {
            "true"@
        } else {
            "false"@
        },
        JsonValue::Number { text, as_u64 } => text@,
        JsonValue::Str(s) => json_string(s@),
        JsonValue::Array(items) => seq!['['] + items_text(items, items@.len() as int) + seq![']'],
        JsonValue::Object(entries) => seq!['{'] + members_text(entries, entries@.len() as int) + seq![
            '}',
        ],
    }
}

/// The first `n` items, separated by commas.
pub open spec fn items_text(items: Vec<JsonValue>, n: int) -> Seq<char>
    decreases items, 0int, n,
{
    if n <= 0 || n > items@.len() {
        Seq::empty()
    } else if n == 1 {
        json_text(items@[0])
    } else {
        items_text(items, n - 1) + seq![','] + json_text(items@[n - 1])
    }
}

/// A member: its key as a JSON string, a colon, and its value.
pub open spec fn member_text(key: Seq<char>, v: JsonValue) -> Seq<char>
    decreases v, 2int,
{
    json_string(key) + seq![':'] + json_text(v)
}

/// The first `n` members, separated by commas.
pub open spec fn members_text(entries: Vec<(String, JsonValue)>, n: int) -> Seq<char>
    decreases entries, 0int, n,
{
    if n <= 0 || n > entries@.len() {
        Seq::empty()
    } else if n == 1 {
        member_text(entries@[0].0@, entries@[0].1)
    } else {
        members_text(entries, n - 1) + seq![','] + member_text(entries@[n - 1].0@, entries@[n - 1].1)
    }
}

/// Appends the JSON string of `s`.
pub fn push_json_string(out: &mut String, s: &str)
    ensures
        final(out)@ == old(out)@ + json_string(s@),
{
    let ghost start = out@;
    push_char(out, '"');
    let v = chars_of(s);
    let mut i: usize = 0;
    while i < v.len()
        invariant
            i <= v@.len(),
            v@ == s@,
            out@ == start + seq!['"'] + json_escape(v@.take(i as int)),
        decreases v@.len() - i,
    {
        let c = v[i];
        let ghost before = out@;
        if c == '"' {
            push_char(out, '\\');
            push_char(out, '"');
        } else if c == '\\' {
            push_char(out, '\\');
            push_char(out, '\\');
        } else if c == '\u{8}' {
            push_char(out, '\\');
            push_char(out, 'b');
        } else if c == '\t' {
            push_char(out, '\\');
            push_char(out, 't');
        } else if c == '\n' {
            push_char(out, '\\');
            push_char(out, 'n');
        } else if c == '\u{c}' {
            push_char(out, '\\');
            push_char(out, 'f');
        } else if c == '\r' {
            push_char(out, '\\');
            push_char(out, 'r');
        } else if (c as u32) < 0x20 {
            let code = c as u32;
            push_char(out, '\\');
            push_char(out, 'u');
            push_char(out, '0');
            push_char(out, '0');
            push_char(out, digit_exec((code / 16) as u128));
            push_char(out, digit_exec((code % 16) as u128));
        } else {
            push_char(out, c);
        }
        assert(out@ =~= before + json_escape_char(c));
        i = i + 1;
        assert(v@.take(i as int).drop_last() =~= v@.take(i - 1));
        assert(v@.take(i as int).last() == c);
        assert(out@ =~= start + seq!['"'] + json_escape(v@.take(i as int)));
    }
    assert(v@.take(v@.len() as int) =~= v@);
    push_char(out, '"');
    assert(out@ =~= start + json_string(s@));
}

/// Appends the compact JSON text of `v`.
pub fn push_json_text(out: &mut String, v: &JsonValue)
    ensures
        final(out)@ == old(out)@ + json_text(*v),
    decreases v,
{
    let ghost start = out@;
    match v {
        JsonValue::Null => {
            push_str(out, "null");
        },
        JsonValue::Bool(b) => {
            if *b {
                push_str(out, "true");
            } else {
                push_str(out, "false");
            }
        },
        JsonValue::Number { text, as_u64 } => {
            push_str(out, text.as_str());
        },
        JsonValue::Str(s) => {
            push_json_string(out, s.as_str());
        },
        JsonValue::Array(items) => {
            push_char(out, '[');
            let ghost base = out@;
            let n = items.len();
            let mut i: usize = 0;
            assert(items_text(*items, 0) =~= Seq::<char>::empty());
            while i < n
                invariant
                    n == items@.len(),
                    *v == JsonValue::Array(*items),
                    i <= n,
                    out@ == base + items_text(*items, i as int),
                decreases n - i,
            {
                proof {
                    assert(decreases_to!(*v => (*v)->Array_0));
                    assert(decreases_to!(*items => items@));
                    assert(decreases_to!(items@ => items@[i as int]));
                }
                if i > 0 {
                    push_char(out, ',');
                }
                push_json_text(out, &items[i]);
                i = i + 1;
                assert(out@ =~= base + items_text(*items, i as int));
            }
            push_char(out, ']');
            assert(out@ =~= start + json_text(*v));
        },
        JsonValue::Object(entries) => {
            push_char(out, '{');
            let ghost base = out@;
            let n = entries.len();
            let mut i: usize = 0;
            assert(members_text(*entries, 0) =~= Seq::<char>::empty());
            while i < n
                invariant
                    n == entries@.len(),
                    *v == JsonValue::Object(*entries),
                    i <= n,
                    out@ == base + members_text(*entries, i as int),
                decreases n - i,
            {
                proof {
                    assert(decreases_to!(*v => (*v)->Object_0));
                    assert(decreases_to!(*entries => entries@));
                    assert(decreases_to!(entries@ => entries@[i as int]));
                    assert(decreases_to!(entries@[i as int] => entries@[i as int].1));
                }
                let ghost prev = out@;
                if i > 0 {
                    push_char(out, ',');
                }
                let ghost mid = out@;
                push_json_string(out, entries[i].0.as_str());
                push_char(out, ':');
                push_json_text(out, &entries[i].1);
                let ghost mt = member_text(entries@[i as int].0@, entries@[i as int].1);
                assert(mt == json_string(entries@[i as int].0@) + seq![':'] + json_text(entries@[i as int].1));
                assert(out@ =~= mid + mt);
                i = i + 1;
                if i == 1 {
                    assert(members_text(*entries, 1) == mt);
                    assert(mid =~= base);
                } else {
                    assert(members_text(*entries, i as int) == members_text(*entries, i - 1) + seq![','] + mt);
                }
                assert(out@ =~= base + members_text(*entries, i as int));
            }
            push_char(out, '}');
            assert(out@ =~= start + json_text(*v));
        },
    }
}

/// The compact JSON text of a value.
pub fn to_json_text(v: &JsonValue) -> (r: String)
    ensures
        r@ == json_text(*v),
{
    let mut out = String::new();
    push_json_text(&mut out, v);
    assert(out@ =~= json_text(*v));
    out
}

} // verus!
