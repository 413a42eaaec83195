//! WebSocket mode: finding the URL in a wscat-style command, and what an
//! interactive session shows and sends.

use vstd::prelude::*;
use crate::json::{JsonValue, json_document, parse_json, pretty_out, render_json_pretty};
use crate::numbers::{decimal_text, radix_chars};
use crate::render::{Out, Span, Style, emit, emit_chars, emit_nl, emit_str, nl, piece, spans};
use crate::text::{chars_of, eq_str, push_str, split_whitespace, starts_with, starts_with_str, string_of, trim, trim_chars, views, words};

verus! {

// ------------------------------------------------------------------------
// The URL of a wscat-style command
// ------------------------------------------------------------------------

/// A WebSocket URL: `ws://` or `wss://`.
pub open spec fn is_ws_url(t: Seq<char>) -> bool {
    starts_with(t, "ws://"@) || starts_with(t, "wss://"@)
}

/// The first WebSocket URL among the words `w[i..]`: the word after `-c` or
/// `--connect` when it is one, or a word that is one by itself.
pub open spec fn ws_url_from(w: Seq<Seq<char>>, i: int) -> Option<Seq<char>>
    decreases w.len() - i,
{
    if i < 0 || i >= w.len() {
        None
    } else if w[i] == "-c"@ || w[i] == "--connect"@ {
        if i + 1 < w.len() && is_ws_url(w[i + 1]) {
            Some(w[i + 1])
        } else {
            ws_url_from(w, i + 1)
        }
    } else if is_ws_url(w[i]) {
        Some(w[i])
    } else {
        ws_url_from(w, i + 1)
    }
}

/// The WebSocket URL of a command such as `wscat -c wss://host/path`.
pub open spec fn ws_url_of(command: Seq<char>) -> Option<Seq<char>> {
    ws_url_from(words(command), 0)
}

/// Finds the WebSocket URL in a command line.
pub fn extract_ws_url(command: &str) -> (r: Option<String>)
    ensures
        r.deep_view() == ws_url_of(command@),
{
    let w = split_whitespace(&chars_of(command));
    let ghost v = views(w@);
    let n = w.len();
    let mut i: usize = 0;
    while i < n
        invariant
            n == w@.len(),
            i <= n,
            v == views(w@),
            v == words(command@),
            ws_url_from(v, 0) == ws_url_from(v, i as int),
        decreases n - i,
    {
        let t = &w[i];
        assert(v[i as int] == t@);
        if eq_str(t, "-c") || eq_str(t, "--connect") {
            if i + 1 < n {
                let next = &w[i + 1];
                assert(v[i + 1] == next@);
                if starts_with_str(next, "ws://") || starts_with_str(next, "wss://") {
                    return Some(string_of(next));
                }
            }
        } else if starts_with_str(t, "ws://") || starts_with_str(t, "wss://") {
            return Some(string_of(t));
        }
        i = i + 1;
    }
    None
}

// ------------------------------------------------------------------------
// Session
// ------------------------------------------------------------------------

/// The message of the error that `url::Url::parse` reports for a text
/// (its `Display`), or `None` when the text parses as a URL.
pub uninterp spec fn url_error(text: Seq<char>) -> Option<Seq<char>>;

/// Parses a URL with `url::Url::parse` and gives the error message, if any.
/// The contract names the result (`url_error`) and claims nothing else of
/// the URL parser.
#[verifier::external_body]
fn url_parse_error(text: &str) -> (r: Option<String>)
    ensures
        r.deep_view() == url_error(text@),
{
    match url::Url::parse(text) {
        Ok(_) => None,
        Err(e) => Some(e.to_string()),
    }
}

/// A rule of 64 dashes.
pub open spec fn dashes() -> Seq<char> {
    Seq::new(64, |i: int| '─')
}

fn emit_dashes(out: &mut Vec<Span>)
    ensures
        spans(final(out)@) == spans(old(out)@) + piece(Style::Dim, dashes()),
{
    let mut rule: Vec<char> = Vec::new();
    let mut i: usize = 0;
    while i < 64
        invariant
            i <= 64,
            rule@ =~= Seq::new(i as nat, |k: int| '─'),
        decreases 64 - i,
    {
        rule.push('─');
        i = i + 1;
        assert(rule@ =~= Seq::new(i as nat, |k: int| '─'));
    }
    emit_chars(out, Style::Dim, &rule);
}

/// What a session shows before connecting, given what the URL parser said
/// of the URL: the URL and a rule when it parsed (`Ok`), else the error
/// (`Err`, for standard error) and no connection is made.
pub open spec fn ws_opening_out(url: Seq<char>, error: Option<Seq<char>>) -> Result<Out, Out> {
    match error {
        None => Ok(
            nl() + piece(Style::CyanBold, "↔"@) + piece(Style::Plain, " "@) + piece(
                Style::WhiteBold,
                url,
            ) + nl() + piece(Style::Dim, dashes()) + nl(),
        ),
        Some(e) => Err(
            piece(Style::RedBold, "✗"@) + piece(Style::Plain, " Invalid URL: "@ + e) + nl(),
        ),
    }
}

/// What a session shows before connecting, given the URL parser's answer.
pub fn ws_opening_with(url: &str, error: &Option<String>) -> (r: Result<Vec<Span>, Vec<Span>>)
    ensures
        match r {
            Ok(o) => ws_opening_out(url@, error.deep_view()) == Ok::<Out, Out>(spans(o@)),
            Err(o) => ws_opening_out(url@, error.deep_view()) == Err::<Out, Out>(spans(o@)),
        },
{
    let mut out: Vec<Span> = Vec::new();
    assert(spans(out@) =~= Seq::empty());
    match error {
        None => {
            emit_nl(&mut out);
            emit_str(&mut out, Style::CyanBold, "↔");
            emit_str(&mut out, Style::Plain, " ");
            emit(&mut out, Style::WhiteBold, url.to_owned());
            emit_nl(&mut out);
            emit_dashes(&mut out);
            emit_nl(&mut out);
            assert(spans(out@) =~= ws_opening_out(url@, error.deep_view())->Ok_0);
            Ok(out)
        },
        Some(e) => {
            emit_str(&mut out, Style::RedBold, "✗");
            let mut m = " Invalid URL: ".to_owned();
            push_str(&mut m, e.as_str());
            emit(&mut out, Style::Plain, m);
            emit_nl(&mut out);
            assert(spans(out@) =~= ws_opening_out(url@, error.deep_view())->Err_0);
            Err(out)
        },
    }
}

/// Checks the URL of a session with `url::Url::parse` and renders the opening.
pub fn ws_opening(url: &str) -> (r: Result<Vec<Span>, Vec<Span>>)
    ensures
        match r {
            Ok(o) => ws_opening_out(url@, url_error(url@)) == Ok::<Out, Out>(spans(o@)),
            Err(o) => ws_opening_out(url@, url_error(url@)) == Err::<Out, Out>(spans(o@)),
        },
{
    let error = url_parse_error(url);
    ws_opening_with(url, &error)
}

/// What a session shows once connected: the HTTP status of the handshake,
/// a rule, and how to use the session.
pub open spec fn ws_connected_out(status: u16) -> Out {
    piece(Style::GreenBold, "✓"@) + piece(Style::Plain, " "@) + piece(Style::Green, "Connected!"@)
        + piece(Style::Plain, " "@) + piece(Style::Dim, "(HTTP "@ + decimal_text(status as nat) + ")"@)
        + nl() + piece(Style::Dim, dashes()) + nl() + piece(
        Style::Dim,
        "Type messages and press Enter. /quit to exit."@,
    ) + nl() + nl()
}

/// Renders the lines shown once connected.
pub fn ws_connected(status: u16) -> (out: Vec<Span>)
    ensures
        spans(out@) == ws_connected_out(status),
{
    let mut out: Vec<Span> = Vec::new();
    assert(spans(out@) =~= Seq::empty());
    emit_str(&mut out, Style::GreenBold, "✓");
    emit_str(&mut out, Style::Plain, " ");
    emit_str(&mut out, Style::Green, "Connected!");
    emit_str(&mut out, Style::Plain, " ");
    let mut m = "(HTTP ".to_owned();
    push_str(&mut m, string_of(&radix_chars(status as u128, 10)).as_str());
    push_str(&mut m, ")");
    emit(&mut out, Style::Dim, m);
    emit_nl(&mut out);
    emit_dashes(&mut out);
    emit_nl(&mut out);
    emit_str(&mut out, Style::Dim, "Type messages and press Enter. /quit to exit.");
    emit_nl(&mut out);
    emit_nl(&mut out);
    assert(spans(out@) =~= ws_connected_out(status));
    out
}

/// What to do with a line typed by the user.
pub enum InputAction {
    /// `/quit`: close the connection.
    Quit,
    /// Send the trimmed line.
    Send(String),
    /// A blank line: nothing.
    Skip,
}

/// The mathematical content of an `InputAction`.
pub enum LineAction {
    Quit,
    Send(Seq<char>),
    Skip,
}

impl View for InputAction {
    type V = LineAction;

    open spec fn view(&self) -> LineAction {
        match self {
            InputAction::Quit => LineAction::Quit,
            InputAction::Send(m) => LineAction::Send(m@),
            InputAction::Skip => LineAction::Skip,
        }
    }
}

/// The action for a typed line: trimmed, `/quit` quits, a blank line is
/// skipped, anything else is sent.
pub open spec fn input_action_spec(line: Seq<char>) -> LineAction {
    let t = trim(line);
    if t == "/quit"@ {
        LineAction::Quit
    } else if t.len() > 0 {
        LineAction::Send(t)
    } else {
        LineAction::Skip
    }
}

/// Decides what to do with a typed line.
pub fn input_action(line: &str) -> (r: InputAction)
    ensures
        r@ == input_action_spec(line@),
{
    let t = trim_chars(&chars_of(line));
    if eq_str(&t, "/quit") {
        InputAction::Quit
    } else if t.len() > 0 {
        InputAction::Send(string_of(&t))
    } else {
        InputAction::Skip
    }
}

/// A text message of the session: an arrow, then the JSON rendering when
/// the message parsed as JSON, else the text itself in the arrow's color.
pub open spec fn ws_text_out(
    arrow: Seq<char>,
    arrow_style: Style,
    text_style: Style,
    text: Seq<char>,
    parsed: Option<JsonValue>,
) -> Out {
    match parsed {
        Some(v) => piece(arrow_style, arrow) + piece(Style::Plain, " "@) + nl() + pretty_out(v, 1),
        None => piece(arrow_style, arrow) + piece(Style::Plain, " "@) + piece(text_style, text) + nl(),
    }
}

fn emit_ws_text(
    out: &mut Vec<Span>,
    arrow: &str,
    arrow_style: Style,
    text_style: Style,
    text: &str,
    parsed: &Option<JsonValue>,
)
    ensures
        spans(final(out)@) == spans(old(out)@) + ws_text_out(
            arrow@,
            arrow_style,
            text_style,
            text@,
            *parsed,
        ),
{
    let ghost start = spans(out@);
    emit_str(out, arrow_style, arrow);
    emit_str(out, Style::Plain, " ");
    match parsed {
        Some(v) => {
            emit_nl(out);
            render_json_pretty(v, out);
        },
        None => {
            emit(out, text_style, text.to_owned());
            emit_nl(out);
        },
    }
    assert(spans(out@) =~= start + ws_text_out(arrow@, arrow_style, text_style, text@, *parsed));
}

/// An incoming text message, given what the JSON parser made of it.
pub fn ws_incoming_text_with(text: &str, parsed: &Option<JsonValue>) -> (out: Vec<Span>)
    ensures
        spans(out@) == ws_text_out("←"@, Style::GreenBold, Style::Green, text@, *parsed),
{
    let mut out: Vec<Span> = Vec::new();
    assert(spans(out@) =~= Seq::empty());
    emit_ws_text(&mut out, "←", Style::GreenBold, Style::Green, text, parsed);
    out
}

/// An incoming text message: JSON is rendered, other text shown as it is.
pub fn ws_incoming_text(text: &str) -> (out: Vec<Span>)
    ensures
        spans(out@) == ws_text_out("←"@, Style::GreenBold, Style::Green, text@, json_document(text@)),
{
    let parsed = parse_json(text);
    ws_incoming_text_with(text, &parsed)
}

/// A message that was sent, given what the JSON parser made of its trimmed text.
pub fn ws_outgoing_text_with(msg: &str, parsed: &Option<JsonValue>) -> (out: Vec<Span>)
    ensures
        spans(out@) == ws_text_out("→"@, Style::CyanBold, Style::Cyan, trim(msg@), *parsed),
{
    let t = string_of(&trim_chars(&chars_of(msg)));
    let mut out: Vec<Span> = Vec::new();
    assert(spans(out@) =~= Seq::empty());
    emit_ws_text(&mut out, "→", Style::CyanBold, Style::Cyan, t.as_str(), parsed);
    out
}

/// A message that was sent, trimmed: JSON is rendered, other text shown as it is.
pub fn ws_outgoing_text(msg: &str) -> (out: Vec<Span>)
    ensures
        spans(out@) == ws_text_out(
            "→"@,
            Style::CyanBold,
            Style::Cyan,
            trim(msg@),
            json_document(trim(msg@)),
        ),
{
    let t = string_of(&trim_chars(&chars_of(msg)));
    let parsed = parse_json(t.as_str());
    let mut out: Vec<Span> = Vec::new();
    assert(spans(out@) =~= Seq::empty());
    emit_ws_text(&mut out, "→", Style::CyanBold, Style::Cyan, t.as_str(), &parsed);
    out
}

/// A frame other than text, as received.
pub enum WsFrame {
    Binary { len: u64 },
    Close { reason: Option<String> },
    Ping { len: u64 },
    Pong { len: u64 },
    Raw,
}

/// How a non-text frame is shown: binary data by its size, a close with its
/// reason, pings and pongs by their size only in verbose mode, raw frames not at all.
pub open spec fn ws_frame_out(f: WsFrame, verbose: bool) -> Out {
    match f {
        WsFrame::Binary { len } => piece(Style::GreenBold, "←"@) + piece(
            Style::Plain,
            " "@ + decimal_text(len as nat) + " bytes"@,
        ) + nl(),
        WsFrame::Close { reason } => match reason {
            Some(r) => piece(Style::YellowBold, "←"@) + piece(Style::Plain, " Connection closed: "@ + r@)
                + nl(),
            None => piece(Style::YellowBold, "←"@) + piece(Style::Plain, " Connection closed"@) + nl(),
        },
        WsFrame::Ping { len } => if verbose {
            piece(Style::BlueBold, "←"@) + piece(
                Style::Plain,
                " Ping "@ + decimal_text(len as nat) + " bytes"@,
            ) + nl()
        } else {
            Seq::empty()
        },
        WsFrame::Pong { len } => if verbose {
            piece(Style::BlueBold, "←"@) + piece(
                Style::Plain,
                " Pong "@ + decimal_text(len as nat) + " bytes"@,
            ) + nl()
        } else {
            Seq::empty()
        },
        WsFrame::Raw => Seq::empty(),
    }
}

/// Renders a non-text frame.
pub fn ws_frame(f: &WsFrame, verbose: bool) -> (out: Vec<Span>)
    ensures
        spans(out@) == ws_frame_out(*f, verbose),
{
    let mut out: Vec<Span> = Vec::new();
    assert(spans(out@) =~= Seq::empty());
    match f {
        WsFrame::Binary { len } => {
            emit_str(&mut out, Style::GreenBold, "←");
            let mut m = " ".to_owned();
            push_str(&mut m, string_of(&radix_chars(*len as u128, 10)).as_str());
            push_str(&mut m, " bytes");
            emit(&mut out, Style::Plain, m);
            emit_nl(&mut out);
        },
        WsFrame::Close { reason } => {
            emit_str(&mut out, Style::YellowBold, "←");
            match reason {
                Some(r) => {
                    let mut m = " Connection closed: ".to_owned();
                    push_str(&mut m, r.as_str());
                    emit(&mut out, Style::Plain, m);
                },
                None => {
                    emit_str(&mut out, Style::Plain, " Connection closed");
                },
            }
            emit_nl(&mut out);
        },
        WsFrame::Ping { len } => {
            if verbose {
                emit_str(&mut out, Style::BlueBold, "←");
                let mut m = " Ping ".to_owned();
                push_str(&mut m, string_of(&radix_chars(*len as u128, 10)).as_str());
                push_str(&mut m, " bytes");
                emit(&mut out, Style::Plain, m);
                emit_nl(&mut out);
            }
        },
        WsFrame::Pong { len } => {
            if verbose {
                emit_str(&mut out, Style::BlueBold, "←");
                let mut m = " Pong ".to_owned();
                push_str(&mut m, string_of(&radix_chars(*len as u128, 10)).as_str());
                push_str(&mut m, " bytes");
                emit(&mut out, Style::Plain, m);
                emit_nl(&mut out);
            }
        },
        WsFrame::Raw => {},
    }
    assert(spans(out@) =~= ws_frame_out(*f, verbose));
    out
}


proof fn lemma_ws_url_from(w: Seq<Seq<char>>, i: int)
    requires
        0 <= i,
    ensures
        ws_url_from(w, i) matches Some(x) ==> is_ws_url(x) && w.contains(x),
    decreases w.len() - i,
{
    if 0 <= i < w.len() {
        lemma_ws_url_from(w, i + 1);
        if w[i] == "-c"@ || w[i] == "--connect"@ {
            if i + 1 < w.len() && is_ws_url(w[i + 1]) {
                assert(w[i + 1] == w[i + 1]);
            }
        }
    }
}

/// The URL found in a command is a WebSocket URL (`ws://` or `wss://`) and
/// one of the command's words.
pub proof fn law_ws_url_is_a_word(command: Seq<char>)
    ensures
        ws_url_of(command) matches Some(x) ==> is_ws_url(x) && words(command).contains(x),
{
    lemma_ws_url_from(words(command), 0);
}
} // verus!
