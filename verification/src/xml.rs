//! The indented rendering of an XML (or HTML) body.

use vstd::prelude::*;
use crate::json::indent;
use crate::render::{Out, Span, Style, emit, emit_chars, emit_nl, nl, piece, spans};
use crate::text::{chars_of, slice_chars, starts_with, trim, trim_chars};

verus! {

/// The first position at or after `p` that holds `c`, or the length of `s`.
pub open spec fn next_index(s: Seq<char>, c: char, p: int) -> int
    decreases s.len() - p,
{
    if p < 0 || p >= s.len() {
        s.len() as int
    } else if s[p] == c {
        p
    } else {
        next_index(s, c, p + 1)
    }
}

pub proof fn lemma_next_index_bounds(s: Seq<char>, c: char, p: int)
    requires
        0 <= p <= s.len(),
    ensures
        p <= next_index(s, c, p) <= s.len(),
        next_index(s, c, p) < s.len() ==> s[next_index(s, c, p)] == c,
        forall|k: int| p <= k < next_index(s, c, p) ==> s[k] != c,
    decreases s.len() - p,
{
    if p < s.len() && s[p] != c {
        lemma_next_index_bounds(s, c, p + 1);
    }
}

/// A closing tag: `</...>`.
pub open spec fn is_closing(tag: Seq<char>) -> bool {
    tag.len() > 0 && tag[0] == '/'
}

/// A self-closing tag: `<.../>`.
pub open spec fn is_self_closing(tag: Seq<char>) -> bool {
    tag.len() > 0 && tag.last() == '/'
}

/// A declaration, processing instruction or comment: `<?...>`, `<!...>`.
pub open spec fn is_declaration(tag: Seq<char>) -> bool {
    tag.len() > 0 && (tag[0] == '?' || tag[0] == '!')
}

/// The style of a tag: declarations dim, closing tags cyan, other tags cyan bold.
pub open spec fn tag_style(tag: Seq<char>) -> Style {
    if is_declaration(tag) {
        Style::Dim
    } else if is_closing(tag) {
        Style::Cyan
    } else {
        Style::CyanBold
    }
}

/// The nesting level after a tag read at level `level`.
pub open spec fn level_after(tag: Seq<char>, level: nat) -> nat {
    let l = if is_closing(tag) {
        if level > 0 {
            (level - 1) as nat
        } else {
            0
        }
    } else {
        level
    };
    if !is_closing(tag) && !is_self_closing(tag) && !is_declaration(tag) {
        l + 1
    } else {
        l
    }
}

/// The level at which a tag is written: one less than the current level for a closing tag.
pub open spec fn level_written(tag: Seq<char>, level: nat) -> nat {
    if is_closing(tag) && level > 0 {
        (level - 1) as nat
    } else {
        level
    }
}

/// The rendering of `s[p..]` at nesting level `level`: each tag on a line of
/// its own, indented by its level; each run of text between tags trimmed and,
/// when not empty, on a line of its own, in green.
pub open spec fn xml_from(s: Seq<char>, p: int, level: nat) -> Out
    decreases s.len() - p,
{
    if p < 0 || p >= s.len() {
        Seq::empty()
    } else if s[p] == '<' {
        let e = next_index(s, '>', p + 1);
        let tag = s.subrange(p + 1, e);
        let np = if e < s.len() {
            e + 1
        } else {
            s.len() as int
        };
        proof {
            lemma_next_index_bounds(s, '>', p + 1);
        }
        piece(Style::Plain, indent(level_written(tag, level))) + piece(
            tag_style(tag),
            "<"@ + tag + ">"@,
        ) + nl() + xml_from(s, np, level_after(tag, level))
    } else {
        let e = next_index(s, '<', p + 1);
        let t = trim(s.subrange(p, e));
        proof {
            lemma_next_index_bounds(s, '<', p + 1);
        }
        (if t.len() > 0 {
            piece(Style::Plain, indent(level)) + piece(Style::Green, t) + nl()
        } else {
            Seq::empty()
        }) + xml_from(s, e, level)
    }
}

/// The rendering of an XML body: its elements start at level one.
pub open spec fn xml_out(s: Seq<char>) -> Out {
    xml_from(s, 0, 1)
}

fn tag_text(tag: &[char]) -> (r: Vec<char>)
    ensures
        r@ == "<"@ + tag@ + ">"@,
{
    let mut r = chars_of("<");
    let mut i: usize = 0;
    while i < tag.len()
        invariant
            i <= tag@.len(),
            r@ == "<"@ + tag@.take(i as int),
        decreases tag@.len() - i,
    {
        r.push(tag[i]);
        i = i + 1;
        assert(r@ =~= "<"@ + tag@.take(i as int));
    }
    let close = chars_of(">");
    let mut j: usize = 0;
    assert(tag@.take(tag@.len() as int) =~= tag@);
    while j < close.len()
        invariant
            j <= close@.len(),
            close@ == ">"@,
            r@ == "<"@ + tag@ + close@.take(j as int),
        decreases close@.len() - j,
    {
        r.push(close[j]);
        j = j + 1;
        assert(r@ =~= "<"@ + tag@ + close@.take(j as int));
    }
    assert(close@.take(close@.len() as int) =~= close@);
    r
}

/// Renders an XML body as the body view shows it.
pub fn render_xml(xml: &str) -> (out: Vec<Span>)
    ensures
        spans(out@) == xml_out(xml@),
{
    let s = chars_of(xml);
    let n = s.len();
    let mut out: Vec<Span> = Vec::new();
    let mut pad: Vec<char> = Vec::new();
    pad.push(' ');
    pad.push(' ');
    let ghost mut level: nat = 1;
    assert(pad@ =~= indent(1));
    let mut p: usize = 0;
    assert(spans(out@) =~= Seq::empty());
    while p < n
        invariant
            n == s@.len(),
            s@ == xml@,
            p <= n,
            pad@ == indent(level),
            spans(out@) + xml_from(s@, p as int, level) == xml_out(xml@),
        decreases n - p,
    {
        let ghost before = spans(out@);
        if s[p] == '<' {
            let start = p + 1;
            let mut e = start;
            while e < n && s[e] != '>'
                invariant
                    start <= e <= n,
                    n == s@.len(),
                    next_index(s@, '>', start as int) == next_index(s@, '>', e as int),
                decreases n - e,
            {
                e = e + 1;
            }
            let tag = slice_chars(&s, start, e);
            let np = if e < n {
                e + 1
            } else {
                n
            };
            let closing = tag.len() > 0 && tag[0] == '/';
            let self_cls = tag.len() > 0 && tag[tag.len() - 1] == '/';
            let decl = tag.len() > 0 && (tag[0] == '?' || tag[0] == '!');
            if closing {
                if pad.len() >= 2 {
                    pad.pop();
                    pad.pop();
                    proof {
                        level = (level - 1) as nat;
                    }
                    assert(pad@ =~= indent(level));
                }
            }
            emit_chars(&mut out, Style::Plain, &pad);
            let style = if decl {
                Style::Dim
            } else if closing {
                Style::Cyan
            } else {
                Style::CyanBold
            };
            emit_chars(&mut out, style, &tag_text(&tag));
            emit_nl(&mut out);
            if !closing && !self_cls && !decl {
                pad.push(' ');
                pad.push(' ');
                proof {
                    level = level + 1;
                }
                assert(pad@ =~= indent(level));
            }
            p = np;
        } else {
            let mut e = p + 1;
            while e < n && s[e] != '<'
                invariant
                    p + 1 <= e <= n,
                    n == s@.len(),
                    next_index(s@, '<', (p + 1) as int) == next_index(s@, '<', e as int),
                decreases n - e,
            {
                e = e + 1;
            }
            let text = slice_chars(&s, p, e);
            let t = trim_chars(&text);
            if t.len() > 0 {
                emit_chars(&mut out, Style::Plain, &pad);
                emit_chars(&mut out, Style::Green, &t);
                emit_nl(&mut out);
            }
            p = e;
        }
    }
    assert(spans(out@) =~= spans(out@) + xml_from(s@, p as int, level));
    out
}

} // verus!
