//! The response view: status badge, headers, and a body rendered as JSON,
//! XML or plain text.

use vstd::prelude::*;
use crate::cli::OutputMode;
use crate::json::{JsonValue, json_body_out, json_document, parse_json, render_json_body};
use crate::numbers::{decimal_text, parse_u16, parse_u16_spec, radix_chars};
use crate::render::{Out, Span, Style, emit, emit_chars, emit_nl, emit_str, nl, piece, spans};
use crate::text::{
    ascii_lower, ascii_lower_eq_str, chars_of, contains, contains_chars, find_char, find_char_exec,
    is_whitespace, join, join_from, lemma_split_prefix, lines, occurs_at, slice_chars, split_lines,
    split_on, split_on_chars,
    split_whitespace, starts_with, starts_with_str, string_of, trim, trim_chars, trim_start,
    trim_start_chars, views, words,
};
use crate::xml::{render_xml, xml_out};

verus! {

// ------------------------------------------------------------------------
// Status line
// ------------------------------------------------------------------------

/// The status code of a status line: its second word read as a `u16`, or 0.
pub open spec fn status_code_of(line: Seq<char>) -> u16 {
    let w = words(line);
    if w.len() >= 2 {
        match parse_u16_spec(w[1]) {
            Some(c) => c,
            None => 0,
        }
    } else {
        0
    }
}

/// Reads the status code of a line such as `HTTP/1.1 200 OK`; 0 when there is none.
pub fn parse_status_code(line: &str) -> (code: u16)
    ensures
        code == status_code_of(line@),
{
    let s = chars_of(line);
    let w = split_whitespace(&s);
    if w.len() >= 2 {
        assert(w@[1]@ == words(line@)[1]);
        match parse_u16(&w[1]) {
            Some(c) => c,
            None => 0,
        }
    } else {
        0
    }
}

/// The icon before the status badge and its style, by status class.
pub open spec fn status_icon(code: u16) -> (Style, Seq<char>) {
    if 200 <= code <= 299 {
        (Style::GreenBold, "✓"@)
    } else if 300 <= code <= 399 {
        (Style::YellowBold, "↝"@)
    } else if 400 <= code <= 499 {
        (Style::RedBold, "✗"@)
    } else if 500 <= code <= 599 {
        (Style::BrightRedBold, "✗"@)
    } else {
        (Style::WhiteBold, "?"@)
    }
}

/// The style of the status badge, by status class.
pub open spec fn badge_style(code: u16) -> Style {
    if 200 <= code <= 299 {
        Style::BadgeSuccess
    } else if 300 <= code <= 399 {
        Style::BadgeRedirect
    } else if 400 <= code <= 499 {
        Style::BadgeClientError
    } else if 500 <= code <= 599 {
        Style::BadgeServerError
    } else {
        Style::BadgeOther
    }
}

/// The status row: icon, the status line as a badge, and the elapsed time
/// in milliseconds when it is not zero.
pub open spec fn status_out(line: Seq<char>, code: u16, elapsed_ms: u128) -> Out {
    piece(Style::Plain, "  "@) + piece(status_icon(code).0, status_icon(code).1) + piece(
        Style::Plain,
        " "@,
    ) + piece(badge_style(code), " "@ + line + " "@) + (if elapsed_ms > 0 {
        piece(Style::Plain, "  "@) + piece(Style::Dim, decimal_text(elapsed_ms as nat) + " ms"@)
    } else {
        Seq::empty()
    }) + nl()
}

/// The status row marks each status class with its own icon and badge:
/// 2xx a green check on a green badge, 3xx a yellow arrow on a yellow
/// badge, 4xx a red cross on a red badge, 5xx a bright red cross on a bright
/// red badge, anything else a white question mark on a white badge. The
/// badge holds the status line between two spaces.
pub proof fn law_status_classes(line: Seq<char>, code: u16, elapsed_ms: u128)
    ensures
        ({
            let o = status_out(line, code, elapsed_ms);
            &&& o.len() >= 5
            &&& o[0] == (Style::Plain, "  "@)
            &&& o[3].1 == " "@ + line + " "@
            &&& (200 <= code <= 299 ==> o[1] == (Style::GreenBold, "✓"@) && o[3].0 == Style::BadgeSuccess)
            &&& (300 <= code <= 399 ==> o[1] == (Style::YellowBold, "↝"@) && o[3].0 == Style::BadgeRedirect)
            &&& (400 <= code <= 499 ==> o[1] == (Style::RedBold, "✗"@) && o[3].0
                == Style::BadgeClientError)
            &&& (500 <= code <= 599 ==> o[1] == (Style::BrightRedBold, "✗"@) && o[3].0
                == Style::BadgeServerError)
            &&& (!(200 <= code <= 599) ==> o[1] == (Style::WhiteBold, "?"@) && o[3].0
                == Style::BadgeOther)
        }),
{
}

fn status_icon_exec(code: u16) -> (r: (Style, &'static str))
    ensures
        r.0 == status_icon(code).0,
        r.1@ == status_icon(code).1,
{
    if 200 <= code && code <= 299 {
        (Style::GreenBold, "✓")
    } else if 300 <= code && code <= 399 {
        (Style::YellowBold, "↝")
    } else if 400 <= code && code <= 499 {
        (Style::RedBold, "✗")
    } else if 500 <= code && code <= 599 {
        (Style::BrightRedBold, "✗")
    } else {
        (Style::WhiteBold, "?")
    }
}

fn badge_style_exec(code: u16) -> (r: Style)
    ensures
        r == badge_style(code),
{
    if 200 <= code && code <= 299 {
        Style::BadgeSuccess
    } else if 300 <= code && code <= 399 {
        Style::BadgeRedirect
    } else if 400 <= code && code <= 499 {
        Style::BadgeClientError
    } else if 500 <= code && code <= 599 {
        Style::BadgeServerError
    } else {
        Style::BadgeOther
    }
}

/// Appends the status row.
fn emit_status(out: &mut Vec<Span>, line: &[char], code: u16, elapsed_ms: u128)
    ensures
        spans(final(out)@) == spans(old(out)@) + status_out(line@, code, elapsed_ms),
{
    let ghost start = spans(out@);
    emit_str(out, Style::Plain, "  ");
    let (icon_style, icon) = status_icon_exec(code);
    emit_str(out, icon_style, icon);
    emit_str(out, Style::Plain, " ");
    let mut badge = chars_of(" ");
    let ghost b0 = badge@;
    let mut i: usize = 0;
    while i < line.len()
        invariant
            i <= line@.len(),
            badge@ == b0 + line@.take(i as int),
        decreases line@.len() - i,
    {
        badge.push(line[i]);
        i = i + 1;
        assert(badge@ =~= b0 + line@.take(i as int));
    }
    assert(line@.take(line@.len() as int) =~= line@);
    let mut badge_s = string_of(&badge);
    crate::text::push_str(&mut badge_s, " ");
    emit(out, badge_style_exec(code), badge_s);
    if elapsed_ms > 0 {
        emit_str(out, Style::Plain, "  ");
        let mut ms = string_of(&radix_chars(elapsed_ms, 10));
        crate::text::push_str(&mut ms, " ms");
        emit(out, Style::Dim, ms);
    }
    emit_nl(out);
    assert(spans(out@) =~= start + status_out(line@, code, elapsed_ms));
}

/// The status row of a status line, as `display_status` prints it.
pub fn display_status(line: &str, code: u16, elapsed_ms: u128) -> (out: Vec<Span>)
    ensures
        spans(out@) == status_out(line@, code, elapsed_ms),
{
    let mut out: Vec<Span> = Vec::new();
    assert(spans(out@) =~= Seq::empty());
    emit_status(&mut out, &chars_of(line), code, elapsed_ms);
    assert(spans(out@) =~= status_out(line@, code, elapsed_ms));
    out
}


// ------------------------------------------------------------------------
// Headers
// ------------------------------------------------------------------------

/// The horizontal rule under a section title.
pub open spec fn rule() -> Seq<char> {
    "  ──────────────────────────────────────────────────────"@
}

/// `k` padded with spaces on the right to at least `w` characters (`{:w}`).
pub open spec fn pad_right(k: Seq<char>, w: nat) -> Seq<char> {
    if k.len() >= w {
        k
    } else {
        k + Seq::new((w - k.len()) as nat, |i: int| ' ')
    }
}

/// The row of one header line `Name: value`: the trimmed name in cyan padded
/// to 30 columns, then the trimmed value in white. A line without a colon
/// shows nothing.
pub open spec fn header_row(l: Seq<char>) -> Out {
    match find_char(l, ':') {
        Some(p) => piece(Style::Plain, "  "@) + piece(Style::Cyan, pad_right(trim(l.take(p)), 30))
            + piece(Style::Plain, " "@) + piece(Style::White, trim(l.skip(p + 1))) + nl(),
        None => Seq::empty(),
    }
}

/// The rows of the header lines `ls`, in order.
pub open spec fn header_rows(ls: Seq<Seq<char>>) -> Out
    decreases ls.len(),
{
    if ls.len() == 0 {
        Seq::empty()
    } else {
        header_rows(ls.drop_last()) + header_row(ls.last())
    }
}

/// Some line after the status line holds more than whitespace.
pub open spec fn has_header_lines(ls: Seq<Seq<char>>) -> bool {
    exists|k: int| 1 <= k < ls.len() && trim(#[trigger] ls[k]).len() > 0
}

/// The headers section of a header block split into lines: a title, a rule,
/// a row per header and a blank line; nothing when there are no headers.
pub open spec fn header_section(ls: Seq<Seq<char>>) -> Out {
    if has_header_lines(ls) {
        piece(Style::Dim, "  HEADERS"@) + nl() + piece(Style::Dim, rule()) + nl() + header_rows(
            ls.skip(1),
        ) + nl()
    } else {
        Seq::empty()
    }
}

fn emit_header_row(out: &mut Vec<Span>, l: &Vec<char>)
    ensures
        spans(final(out)@) == spans(old(out)@) + header_row(l@),
{
    let ghost start = spans(out@);
    match find_char_exec(l, ':') {
        Some(p) => {
            let n = l.len();
            let name = trim_chars(&slice_chars(l, 0, p));
            let value = trim_chars(&slice_chars(l, p + 1, n));
            assert(l@.take(p as int) =~= l@.subrange(0, p as int));
            assert(l@.skip(p + 1) =~= l@.subrange(p + 1, n as int));
            let mut padded = name;
            let ghost name_v = padded@;
            let ghost k0 = padded@.len();
            while padded.len() < 30
                invariant
                    padded@.len() >= k0,
                    padded@.len() <= 30 || padded@.len() == k0,
                    padded@ == name_v + Seq::new((padded@.len() - k0) as nat, |i: int| ' '),
                    k0 == name_v.len(),
                decreases 30 - padded@.len(),
            {
                padded.push(' ');
                assert(padded@ =~= name_v + Seq::new((padded@.len() - k0) as nat, |i: int| ' '));
            }
            proof {
                if k0 >= 30 {
                    assert(padded@ =~= pad_right(name_v, 30));
                } else {
                    assert(padded@ =~= pad_right(name_v, 30));
                }
            }
            emit_str(out, Style::Plain, "  ");
            emit_chars(out, Style::Cyan, &padded);
            emit_str(out, Style::Plain, " ");
            emit_chars(out, Style::White, &value);
            emit_nl(out);
            assert(spans(out@) =~= start + header_row(l@));
        },
        None => {
            assert(spans(out@) =~= start + header_row(l@));
        },
    }
}

fn emit_header_section(out: &mut Vec<Span>, ls: &Vec<Vec<char>>)
    ensures
        spans(final(out)@) == spans(old(out)@) + header_section(views(ls@)),
{
    let ghost start = spans(out@);
    let ghost v = views(ls@);
    let mut any = false;
    let mut k: usize = 1;
    while k < ls.len()
        invariant
            1 <= k,
            k <= ls@.len() || ls@.len() == 0,
            v == views(ls@),
            any == exists|j: int| 1 <= j < k && j < v.len() && trim(#[trigger] v[j]).len() > 0,
        decreases ls@.len() - k,
    {
        let t = trim_chars(&ls[k]);
        if t.len() > 0 {
            assert(v[k as int] == ls@[k as int]@);
            any = true;
        }
        k = k + 1;
    }
    if !any {
        assert(!has_header_lines(v));
        assert(spans(out@) =~= start + header_section(v));
        return;
    }
    emit_str(out, Style::Dim, "  HEADERS");
    emit_nl(out);
    emit_str(out, Style::Dim, "  ──────────────────────────────────────────────────────");
    emit_nl(out);
    let ghost base = spans(out@);
    let mut i: usize = 1;
    assert(v.skip(1).take(0) =~= Seq::<Seq<char>>::empty());
    while i < ls.len()
        invariant
            1 <= i <= ls@.len(),
            v == views(ls@),
            spans(out@) == base + header_rows(v.skip(1).take(i - 1)),
        decreases ls@.len() - i,
    {
        emit_header_row(out, &ls[i]);
        i = i + 1;
        proof {
            let t = v.skip(1).take(i - 1);
            assert(t.drop_last() =~= v.skip(1).take(i - 2));
            assert(t.last() == ls@[i - 1]@);
        }
    }
    assert(v.skip(1).take(i - 1) =~= v.skip(1));
    emit_nl(out);
    assert(spans(out@) =~= start + header_section(v));
}

/// The first line of a header block, trimmed (empty when there is none).
pub open spec fn status_line_of(ls: Seq<Seq<char>>) -> Seq<char> {
    if ls.len() > 0 {
        trim(ls[0])
    } else {
        Seq::empty()
    }
}

/// The status row, a blank line and the headers section of a header block;
/// nothing when only the body is shown.
pub open spec fn status_and_headers_out(block: Seq<char>, elapsed_ms: u128, mode: OutputMode) -> Out {
    if mode.body_only {
        Seq::empty()
    } else {
        let ls = lines(block);
        let first = status_line_of(ls);
        status_out(first, status_code_of(first), elapsed_ms) + nl() + header_section(ls)
    }
}

fn emit_status_and_headers(out: &mut Vec<Span>, block: &[char], elapsed_ms: u128, mode: OutputMode)
    ensures
        spans(final(out)@) == spans(old(out)@) + status_and_headers_out(block@, elapsed_ms, mode),
{
    let ghost start = spans(out@);
    if mode.body_only {
        assert(spans(out@) =~= start + status_and_headers_out(block@, elapsed_ms, mode));
        return;
    }
    let ls = split_lines(block);
    let first: Vec<char> = if ls.len() > 0 {
        trim_chars(&ls[0])
    } else {
        Vec::new()
    };
    assert(first@ =~= status_line_of(views(ls@)));
    let fs = string_of(&first);
    let code = parse_status_code(fs.as_str());
    emit_status(out, &first, code, elapsed_ms);
    emit_nl(out);
    emit_header_section(out, &ls);
    assert(spans(out@) =~= start + status_and_headers_out(block@, elapsed_ms, mode));
}

/// The status row and headers of a header block, as the response view shows them.
pub fn display_status_and_headers(block: &str, elapsed_ms: u128, mode: &OutputMode) -> (out: Vec<
    Span,
>)
    ensures
        spans(out@) == status_and_headers_out(block@, elapsed_ms, *mode),
{
    let mut out: Vec<Span> = Vec::new();
    assert(spans(out@) =~= Seq::empty());
    emit_status_and_headers(&mut out, &chars_of(block), elapsed_ms, *mode);
    assert(spans(out@) =~= status_and_headers_out(block@, elapsed_ms, *mode));
    out
}

// ------------------------------------------------------------------------
// Body
// ------------------------------------------------------------------------

/// Each line of a plain-text body, indented and in white.
pub open spec fn text_lines_out(ls: Seq<Seq<char>>) -> Out
    decreases ls.len(),
{
    if ls.len() == 0 {
        Seq::empty()
    } else {
        text_lines_out(ls.drop_last()) + piece(Style::Plain, "  "@) + piece(Style::White, ls.last())
            + nl()
    }
}

/// The body looks like markup: its first non-whitespace character is `<`.
pub open spec fn looks_like_markup(body: Seq<char>) -> bool {
    starts_with(trim_start(body), "<"@)
}

/// The view of a body given what the JSON parser made of it: the JSON
/// rendering when it parsed, else the XML rendering when it looks like
/// markup, else its lines as plain text.
pub open spec fn body_view_out(body: Seq<char>, parsed: Option<JsonValue>) -> Out {
    match parsed {
        Some(v) => json_body_out(v),
        None => if looks_like_markup(body) {
            xml_out(body)
        } else {
            text_lines_out(lines(body))
        },
    }
}

/// A body that is not JSON is shown as markup exactly when its first
/// character that is not whitespace is `<` (XML and HTML alike), and as
/// plain text lines otherwise; a JSON body is shown as JSON.
pub proof fn law_body_view_choice(body: Seq<char>, parsed: Option<JsonValue>)
    ensures
        parsed matches Some(v) ==> body_view_out(body, parsed) == json_body_out(v),
        parsed is None && trim_start(body).len() > 0 && trim_start(body)[0] == '<' ==> body_view_out(
            body,
            parsed,
        ) == xml_out(body),
        parsed is None && !(trim_start(body).len() > 0 && trim_start(body)[0] == '<')
            ==> body_view_out(body, parsed) == text_lines_out(lines(body)),
{
    reveal_strlit("<");
    let t = trim_start(body);
    if t.len() > 0 && t[0] == '<' {
        assert(t.subrange(0, 1) =~= "<"@);
    }
    if starts_with(t, "<"@) {
        assert(t.subrange(0, 1)[0] == t[0]);
    }
}

/// Renders a body given what the JSON parser made of it (`parsed`, which
/// callers obtain from `parse_json` on the same body).
pub fn render_body(body: &str, parsed: &Option<JsonValue>) -> (out: Vec<Span>)
    ensures
        spans(out@) == body_view_out(body@, *parsed),
{
    match parsed {
        Some(v) => render_json_body(v),
        None => {
            let s = chars_of(body);
            let t = trim_start_chars(&s);
            if starts_with_str(&t, "<") {
                render_xml(body)
            } else {
                let ls = split_lines(&s);
                let mut out: Vec<Span> = Vec::new();
                let mut i: usize = 0;
                assert(spans(out@) =~= text_lines_out(views(ls@).take(0)));
                while i < ls.len()
                    invariant
                        i <= ls@.len(),
                        spans(out@) == text_lines_out(views(ls@).take(i as int)),
                    decreases ls@.len() - i,
                {
                    emit_str(&mut out, Style::Plain, "  ");
                    emit_chars(&mut out, Style::White, &ls[i]);
                    emit_nl(&mut out);
                    i = i + 1;
                    proof {
                        let t = views(ls@).take(i as int);
                        assert(t.drop_last() =~= views(ls@).take(i - 1));
                        assert(t.last() == ls@[i - 1]@);
                    }
                }
                assert(views(ls@).take(ls@.len() as int) =~= views(ls@));
                out
            }
        },
    }
}

/// The view of a body: JSON when `serde_json` parses it, else XML when it
/// looks like markup, else plain text lines.
pub open spec fn body_out(body: Seq<char>) -> Out {
    body_view_out(body, json_document(body))
}

/// Renders a response body.
pub fn display_body(body: &str) -> (out: Vec<Span>)
    ensures
        spans(out@) == body_out(body@),
{
    let parsed = parse_json(body);
    render_body(body, &parsed)
}

/// The body section: a title and a rule (left out when only the body is
/// shown), then the body view.
pub open spec fn body_section_out(body: Seq<char>, mode: OutputMode) -> Out {
    (if mode.body_only {
        Seq::empty()
    } else {
        piece(Style::Dim, "  BODY"@) + nl() + piece(Style::Dim, rule()) + nl()
    }) + body_out(body)
}

/// Renders the body section.
pub fn display_body_section(body: &str, mode: &OutputMode) -> (out: Vec<Span>)
    ensures
        spans(out@) == body_section_out(body@, *mode),
{
    let mut out: Vec<Span> = Vec::new();
    assert(spans(out@) =~= Seq::empty());
    if !mode.body_only {
        emit_str(&mut out, Style::Dim, "  BODY");
        emit_nl(&mut out);
        emit_str(&mut out, Style::Dim, "  ──────────────────────────────────────────────────────");
        emit_nl(&mut out);
    }
    let ghost head = spans(out@);
    let rest = display_body(body);
    let mut i: usize = 0;
    while i < rest.len()
        invariant
            i <= rest@.len(),
            spans(out@) == head + spans(rest@).take(i as int),
        decreases rest@.len() - i,
    {
        let sp = &rest[i];
        emit(&mut out, sp.style, sp.text.as_str().to_owned());
        i = i + 1;
        assert(spans(out@) =~= head + spans(rest@).take(i as int));
    }
    assert(spans(rest@).take(rest@.len() as int) =~= spans(rest@));
    assert(spans(out@) =~= body_section_out(body@, *mode));
    out
}

/// The note shown for a response without a body.
pub open spec fn empty_body_out() -> Out {
    piece(Style::Plain, "  "@) + piece(Style::DimItalic, "(empty response body)"@) + nl()
}

/// The note shown for a response without a body.
pub fn display_empty_body() -> (out: Vec<Span>)
    ensures
        spans(out@) == empty_body_out(),
{
    let mut out: Vec<Span> = Vec::new();
    assert(spans(out@) =~= Seq::empty());
    emit_str(&mut out, Style::Plain, "  ");
    emit_str(&mut out, Style::DimItalic, "(empty response body)");
    emit_nl(&mut out);
    assert(spans(out@) =~= empty_body_out());
    out
}

// ------------------------------------------------------------------------
// Whole responses (`curl -i` output)
// ------------------------------------------------------------------------

/// The separator between header blocks and body: `\r\n\r\n` when the
/// response holds one, else `\n\n`.
pub open spec fn response_separator(raw: Seq<char>) -> Seq<char> {
    if contains(raw, "\r\n\r\n"@) {
        "\r\n\r\n"@
    } else {
        "\n\n"@
    }
}

/// A block that starts (after whitespace) with `HTTP/` is a header block.
pub open spec fn is_status_block(b: Seq<char>) -> bool {
    starts_with(trim_start(b), "HTTP/"@)
}

/// The last header block among `blocks[..n]`; 0 when there is none.
pub open spec fn last_status_block(blocks: Seq<Seq<char>>, n: int) -> int
    decreases n,
{
    if n <= 0 {
        0
    } else if is_status_block(blocks[n - 1]) {
        n - 1
    } else {
        last_status_block(blocks, n - 1)
    }
}

/// The final header block of a response (after any redirects) and the body
/// after it. A response that has no separator is all body.
pub open spec fn split_response_spec(raw: Seq<char>) -> (Seq<char>, Seq<char>) {
    let sep = response_separator(raw);
    let blocks = split_on(raw, sep);
    if blocks.len() >= 2 {
        let i = last_status_block(blocks, blocks.len() as int);
        (blocks[i], join(blocks.skip(i + 1), sep))
    } else {
        (Seq::empty(), raw)
    }
}

proof fn lemma_last_status_block_bounds(blocks: Seq<Seq<char>>, n: int)
    requires
        0 <= n <= blocks.len(),
    ensures
        0 <= last_status_block(blocks, n),
        n > 0 ==> last_status_block(blocks, n) < n,
    decreases n,
{
    if n > 0 {
        lemma_last_status_block_bounds(blocks, n - 1);
    }
}

/// Splits the output of `curl -i` into the final header block and the body.
pub fn split_response(raw: &str) -> (r: (Vec<char>, Vec<char>))
    ensures
        r.0@ == split_response_spec(raw@).0,
        r.1@ == split_response_spec(raw@).1,
{
    let s = chars_of(raw);
    let crlf2 = chars_of("\r\n\r\n");
    let lf2 = chars_of("\n\n");
    proof {
        reveal_strlit("\r\n\r\n");
        reveal_strlit("\n\n");
    }
    let sep = if contains_chars(&s, &crlf2) {
        crlf2
    } else {
        lf2
    };
    assert(sep@ == response_separator(raw@));
    let blocks = split_on_chars(&s, &sep);
    let ghost bv = views(blocks@);
    if blocks.len() >= 2 {
        let n = blocks.len();
        let mut idx: usize = 0;
        let mut found = false;
        let mut k: usize = n;
        while k > 0
            invariant
                k <= n,
                n == blocks@.len(),
                bv == views(blocks@),
                found ==> idx as int == last_status_block(bv, n as int) && k == 0 && idx < n,
                !found ==> idx == 0 && last_status_block(bv, n as int) == last_status_block(
                    bv,
                    k as int,
                ),
            decreases k,
        {
            let t = trim_start_chars(&blocks[k - 1]);
            assert(bv[k - 1] == blocks@[k - 1]@);
            if starts_with_str(&t, "HTTP/") {
                idx = k - 1;
                found = true;
                k = 0;
            } else {
                k = k - 1;
            }
        }
        let head = slice_chars(&blocks[idx], 0, blocks[idx].len());
        let body = join_from(&blocks, idx + 1, &sep);
        (head, body)
    } else {
        let head: Vec<char> = Vec::new();
        assert(head@ =~= Seq::<char>::empty());
        (head, s)
    }
}

/// The body part of a response view: nothing when only headers are shown,
/// the empty-body note when the trimmed body is empty, else the body section.
pub open spec fn body_part_out(trimmed: Seq<char>, mode: OutputMode) -> Out {
    if mode.headers_only {
        Seq::empty()
    } else if trimmed.len() == 0 {
        empty_body_out()
    } else {
        body_section_out(trimmed, mode)
    }
}

/// The whole view of a `curl -i` output: a blank line, the status and
/// headers of the final header block, the body part, and a blank line.
pub open spec fn response_out(raw: Seq<char>, elapsed_ms: u128, mode: OutputMode) -> Out {
    let (h, b) = split_response_spec(raw);
    nl() + status_and_headers_out(h, elapsed_ms, mode) + body_part_out(trim(b), mode) + nl()
}

proof fn lemma_last_status_block_shift(a: Seq<char>, bs: Seq<Seq<char>>, n: int)
    requires
        0 < n <= bs.len(),
        is_status_block(bs[last_status_block(bs, n)]),
    ensures
        last_status_block(seq![a] + bs, n + 1) == last_status_block(bs, n) + 1,
    decreases n,
{
    let blocks = seq![a] + bs;
    assert(blocks[n] == bs[n - 1]);
    if !is_status_block(bs[n - 1]) {
        if n == 1 {
            assert(last_status_block(bs, 0) == 0);
        } else {
            lemma_last_status_block_shift(a, bs, n - 1);
        }
    }
}

/// Pipe mode shows the last complete response of the output: a header
/// block in front of it (a redirect's, say), separated from it as the
/// blocks of the output are and holding no separator itself, changes
/// nothing in the view.
pub proof fn law_earlier_block_dropped(front: Seq<char>, raw: Seq<char>, elapsed_ms: u128, mode: OutputMode)
    requires
        response_separator(front + response_separator(raw) + raw) == response_separator(raw),
        forall|k: int|
            0 <= k < front.len() ==> !occurs_at(
                front + response_separator(raw) + raw,
                response_separator(raw),
                k,
            ),
        split_on(raw, response_separator(raw)).len() >= 2,
        is_status_block(split_response_spec(raw).0),
    ensures
        response_out(front + response_separator(raw) + raw, elapsed_ms, mode) == response_out(
            raw,
            elapsed_ms,
            mode,
        ),
{
    let sep = response_separator(raw);
    let whole = front + sep + raw;
    reveal_strlit("\r\n\r\n");
    reveal_strlit("\n\n");
    assert(sep.len() > 0);
    lemma_split_prefix(front, sep, raw);
    let bs = split_on(raw, sep);
    let blocks = split_on(whole, sep);
    assert(blocks == seq![front] + bs);
    let j = last_status_block(bs, bs.len() as int);
    lemma_last_status_block_bounds(bs, bs.len() as int);
    lemma_last_status_block_shift(front, bs, bs.len() as int);
    assert(blocks.len() == bs.len() + 1);
    assert(last_status_block(blocks, blocks.len() as int) == j + 1);
    assert(blocks[j + 1] == bs[j]);
    assert(blocks.skip(j + 2) =~= bs.skip(j + 1));
    assert(split_response_spec(whole) == split_response_spec(raw));
}

/// `--body-only` shows the body alone: no status, no headers, no section
/// label; `--headers-only` shows the status and headers and no body.
pub proof fn law_output_modes(raw: Seq<char>, elapsed_ms: u128, mode: OutputMode)
    ensures
        mode.body_only && !mode.headers_only ==> response_out(raw, elapsed_ms, mode) == nl() + (
        if trim(split_response_spec(raw).1).len() == 0 {
            empty_body_out()
        } else {
            body_out(trim(split_response_spec(raw).1))
        }) + nl(),
        mode.headers_only && !mode.body_only ==> response_out(raw, elapsed_ms, mode) == nl()
            + status_and_headers_out(split_response_spec(raw).0, elapsed_ms, mode) + nl(),
{
    let b = trim(split_response_spec(raw).1);
    assert(Seq::<(Style, Seq<char>)>::empty() + body_out(b) =~= body_out(b));
    assert(status_and_headers_out(split_response_spec(raw).0, elapsed_ms, mode) + Seq::<(Style, Seq<char>)>::empty()
        =~= status_and_headers_out(split_response_spec(raw).0, elapsed_ms, mode));
    assert(nl() + Seq::<(Style, Seq<char>)>::empty() =~= nl());
}

/// Appends copies of all spans of `more`.
pub fn append_spans(out: &mut Vec<Span>, more: &Vec<Span>)
    ensures
        spans(final(out)@) == spans(old(out)@) + spans(more@),
{
    let ghost head = spans(out@);
    let mut i: usize = 0;
    while i < more.len()
        invariant
            i <= more@.len(),
            spans(out@) == head + spans(more@).take(i as int),
        decreases more@.len() - i,
    {
        let sp = &more[i];
        emit(out, sp.style, sp.text.as_str().to_owned());
        i = i + 1;
        assert(spans(out@) =~= head + spans(more@).take(i as int));
    }
    assert(spans(more@).take(more@.len() as int) =~= spans(more@));
}

/// Renders the output of `curl -i` (pipe mode): the final response after any
/// redirects, with status, headers and body as `mode` selects.
pub fn display_response(raw: &str, elapsed_ms: u128, mode: &OutputMode) -> (out: Vec<Span>)
    ensures
        spans(out@) == response_out(raw@, elapsed_ms, *mode),
{
    let (head, body) = split_response(raw);
    let mut out: Vec<Span> = Vec::new();
    assert(spans(out@) =~= Seq::empty());
    emit_nl(&mut out);
    emit_status_and_headers(&mut out, &head, elapsed_ms, *mode);
    let bt = trim_chars(&body);
    if !mode.headers_only {
        if bt.len() == 0 {
            append_spans(&mut out, &display_empty_body());
        } else {
            let bs = string_of(&bt);
            append_spans(&mut out, &display_body_section(bs.as_str(), mode));
        }
    }
    emit_nl(&mut out);
    assert(spans(out@) =~= response_out(raw@, elapsed_ms, *mode));
    out
}

// ------------------------------------------------------------------------
// Server-sent events
// ------------------------------------------------------------------------

/// A header line `Content-Type: ...` (name in any ASCII case) whose value
/// mentions `text/event-stream`.
pub open spec fn is_sse_header(l: Seq<char>) -> bool {
    match find_char(l, ':') {
        Some(p) => ascii_lower(trim(l.take(p))) == ascii_lower("content-type"@) && contains(
            l.skip(p + 1),
            "text/event-stream"@,
        ),
        None => false,
    }
}

/// The header block announces a stream of server-sent events.
pub open spec fn is_sse_block(block: Seq<char>) -> bool {
    exists|k: int| 0 <= k < lines(block).len() && is_sse_header(#[trigger] lines(block)[k])
}

fn is_sse_header_exec(l: &Vec<char>) -> (r: bool)
    ensures
        r == is_sse_header(l@),
{
    match find_char_exec(l, ':') {
        Some(p) => {
            let n = l.len();
            let name = trim_chars(&slice_chars(l, 0, p));
            let value = slice_chars(l, p + 1, n);
            assert(l@.take(p as int) =~= l@.subrange(0, p as int));
            assert(l@.skip(p + 1) =~= l@.subrange(p + 1, n as int));
            let pat = chars_of("text/event-stream");
            ascii_lower_eq_str(&name, "content-type") && contains_chars(&value, &pat)
        },
        None => false,
    }
}

/// Whether a header block has a `Content-Type` of `text/event-stream`.
pub fn is_sse_content_type(block: &str) -> (r: bool)
    ensures
        r == is_sse_block(block@),
{
    let s = chars_of(block);
    let ls = split_lines(&s);
    let ghost v = views(ls@);
    let mut k: usize = 0;
    while k < ls.len()
        invariant
            k <= ls@.len(),
            v == views(ls@),
            v == lines(block@),
            forall|j: int| 0 <= j < k ==> !is_sse_header(#[trigger] v[j]),
        decreases ls@.len() - k,
    {
        if is_sse_header_exec(&ls[k]) {
            assert(v[k as int] == ls@[k as int]@);
            return true;
        }
        assert(v[k as int] == ls@[k as int]@);
        k = k + 1;
    }
    false
}

/// `l` without the carriage returns and line feeds at its end.
pub open spec fn strip_line_end(l: Seq<char>) -> Seq<char>
    decreases l.len(),
{
    if l.len() > 0 && (l.last() == '\r' || l.last() == '\n') {
        strip_line_end(l.drop_last())
    } else {
        l
    }
}

/// The payload of a `data:` line, without one leading space.
pub open spec fn sse_data(l: Seq<char>) -> Option<Seq<char>> {
    if starts_with(l, "data:"@) {
        let d = l.skip("data:"@.len() as int);
        Some(
            if d.len() > 0 && d[0] == ' ' {
                d.skip(1)
            } else {
                d
            },
        )
    } else {
        None
    }
}

/// How a line of an event stream is shown: a `data:` line as `← ` and its
/// payload in green, any other non-empty line dimmed, an empty line not at all.
pub open spec fn sse_line_out(line: Seq<char>) -> Out {
    let l = strip_line_end(line);
    if l.len() == 0 {
        Seq::empty()
    } else {
        match sse_data(l) {
            Some(d) => piece(Style::Green, "← "@ + d) + nl(),
            None => piece(Style::Dim, "  "@ + l) + nl(),
        }
    }
}

/// Renders one line read from an event stream (line ending included or not).
pub fn display_sse_line(line: &str) -> (out: Vec<Span>)
    ensures
        spans(out@) == sse_line_out(line@),
{
    let s = chars_of(line);
    let mut j = s.len();
    assert(s@.take(j as int) =~= s@);
    while j > 0 && (s[j - 1] == '\r' || s[j - 1] == '\n')
        invariant
            j <= s@.len(),
            strip_line_end(s@) == strip_line_end(s@.take(j as int)),
        decreases j,
    {
        assert(s@.take(j as int).drop_last() =~= s@.take(j - 1));
        j = j - 1;
    }
    let l = slice_chars(&s, 0, j);
    assert(l@ =~= s@.take(j as int));
    assert(strip_line_end(l@) == l@);
    let mut out: Vec<Span> = Vec::new();
    assert(spans(out@) =~= Seq::empty());
    if l.len() == 0 {
        return out;
    }
    if starts_with_str(&l, "data:") {
        let prefix = chars_of("data:");
        let n = l.len();
        let mut from = prefix.len();
        assert(from <= n);
        if from < n && l[from] == ' ' {
            from = from + 1;
        }
        let d = slice_chars(&l, from, n);
        let mut text = "← ".to_owned();
        crate::text::push_str(&mut text, string_of(&d).as_str());
        let ghost dd = l@.skip(prefix@.len() as int);
        assert(d@ =~= (if dd.len() > 0 && dd[0] == ' ' {
            dd.skip(1)
        } else {
            dd
        }));
        emit(&mut out, Style::Green, text);
    } else {
        let mut text = "  ".to_owned();
        crate::text::push_str(&mut text, string_of(&l).as_str());
        emit(&mut out, Style::Dim, text);
    }
    emit_nl(&mut out);
    assert(spans(out@) =~= sse_line_out(line@));
    out
}
} // verus!
