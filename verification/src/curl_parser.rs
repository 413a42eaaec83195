//! Tokenizing of a curl command line and reconstruction of the arguments
//! that pcurl hands to `curl`.

use vstd::prelude::*;
use crate::text::{
    ascii_lower, ascii_lower_eq_str, chars_of, eq_str, find_char, find_char_exec, lemma_deep_view_push,
    push_str, slice_chars, starts_with, starts_with_str, string_of, trim, trim_chars, trim_start,
    trim_start_chars, views,
};

verus! {

// ------------------------------------------------------------------------
// Tokenizer
// ------------------------------------------------------------------------

/// Characters that separate tokens outside quotes.
pub open spec fn is_separator(c: char) -> bool {
    c == ' ' || c == '\t' || c == '\n'
}

/// `toks` with the pending token `cur` appended, unless it is empty.
pub open spec fn flush(toks: Seq<Seq<char>>, cur: Seq<char>) -> Seq<Seq<char>> {
    if cur.len() > 0 {
        toks.push(cur)
    } else {
        toks
    }
}

/// Tokens of `s` read from position `i` on, given the tokens `toks` already
/// complete, the pending token `cur`, and whether a single (`sq`) or double
/// (`dq`) quote is open. Quotes toggle their mode and are dropped; inside
/// double quotes a backslash takes the next character literally; outside
/// quotes a space, tab or newline ends the pending token.
pub open spec fn tokens_from(
    s: Seq<char>,
    i: int,
    toks: Seq<Seq<char>>,
    cur: Seq<char>,
    sq: bool,
    dq: bool,
) -> Seq<Seq<char>>
    decreases s.len() - i,
{
    if i < 0 || i >= s.len() {
        flush(toks, cur)
    } else {
        let c = s[i];
        if c == '\'' && !dq {
            tokens_from(s, i + 1, toks, cur, !sq, dq)
        } else if c == '"' && !sq {
            tokens_from(s, i + 1, toks, cur, sq, !dq)
        } else if c == '\\' && dq {
            if i + 1 < s.len() {
                tokens_from(s, i + 2, toks, cur.push(s[i + 1]), sq, dq)
            } else {
                tokens_from(s, i + 1, toks, cur, sq, dq)
            }
        } else if is_separator(c) && !sq && !dq {
            tokens_from(s, i + 1, flush(toks, cur), Seq::empty(), sq, dq)
        } else {
            tokens_from(s, i + 1, toks, cur.push(c), sq, dq)
        }
    }
}

/// The tokens of a shell-like command line.
pub open spec fn tokenize_spec(s: Seq<char>) -> Seq<Seq<char>> {
    tokens_from(s, 0, Seq::empty(), Seq::empty(), false, false)
}

/// Every token of `toks` holds at least one character.
pub open spec fn all_nonempty(toks: Seq<Seq<char>>) -> bool {
    forall|k: int| 0 <= k < toks.len() ==> #[trigger] toks[k].len() > 0
}

/// The tokens of `s` as character vectors.
pub fn tokenize_chars(s: &[char]) -> (tokens: Vec<Vec<char>>)
    ensures
        views(tokens@) == tokenize_spec(s@),
        all_nonempty(views(tokens@)),
{
    let mut tokens: Vec<Vec<char>> = Vec::new();
    let mut current: Vec<char> = Vec::new();
    let mut in_single = false;
    let mut in_double = false;
    let mut i: usize = 0;
    assert(views(tokens@) =~= Seq::<Seq<char>>::empty());
    assert(current@ =~= Seq::<char>::empty());
    while i < s.len()
        invariant
            i <= s@.len(),
            tokens_from(s@, i as int, views(tokens@), current@, in_single, in_double)
                == tokenize_spec(s@),
            all_nonempty(views(tokens@)),
        decreases s@.len() - i,
    {
        let c = s[i];
        if c == '\'' && !in_double {
            in_single = !in_single;
            i = i + 1;
        } else if c == '"' && !in_single {
            in_double = !in_double;
            i = i + 1;
        } else if c == '\\' && in_double {
            if i + 1 < s.len() {
                current.push(s[i + 1]);
                i = i + 2;
            } else {
                i = i + 1;
            }
        } else if (c == ' ' || c == '\t' || c == '\n') && !in_single && !in_double {
            if current.len() > 0 {
                let ghost old_toks = views(tokens@);
                let ghost cur = current@;
                tokens.push(current);
                assert(views(tokens@) =~= old_toks.push(cur));
                current = Vec::new();
                assert(current@ =~= Seq::<char>::empty());
            } else {
                assert(current@ =~= Seq::<char>::empty());
            }
            i = i + 1;
        } else {
            current.push(c);
            i = i + 1;
        }
    }
    if current.len() > 0 {
        let ghost old_toks = views(tokens@);
        let ghost cur = current@;
        tokens.push(current);
        assert(views(tokens@) =~= old_toks.push(cur));
    }
    tokens
}

/// Splits a command line into tokens the way a simple shell does: single and
/// double quotes group characters (and are dropped), a backslash inside
/// double quotes escapes the next character, and spaces, tabs and newlines
/// outside quotes separate tokens. No token is empty.
pub fn tokenize(input: &str) -> (tokens: Vec<String>)
    ensures
        tokens.deep_view() == tokenize_spec(input@),
        all_nonempty(tokens.deep_view()),
{
    let s = chars_of(input);
    let toks = tokenize_chars(&s);
    let mut out: Vec<String> = Vec::new();
    let mut k: usize = 0;
    while k < toks.len()
        invariant
            k <= toks@.len(),
            out@.len() == k,
            forall|j: int| 0 <= j < k ==> #[trigger] out@[j]@ == toks@[j]@,
        decreases toks@.len() - k,
    {
        let t = string_of(&toks[k]);
        out.push(t);
        k = k + 1;
    }
    assert(out.deep_view() =~= views(toks@));
    out
}


/// A word that the tokenizer keeps as it is: not empty, and without
/// quotes, spaces, tabs or newlines.
pub open spec fn is_plain_word(w: Seq<char>) -> bool {
    w.len() > 0 && forall|k: int|
        0 <= k < w.len() ==> !is_separator(#[trigger] w[k]) && w[k] != '\'' && w[k] != '"'
}

/// Words written one after the other with a single space between them.
pub open spec fn spaced(ws: Seq<Seq<char>>) -> Seq<char>
    decreases ws.len(),
{
    if ws.len() == 0 {
        Seq::empty()
    } else if ws.len() == 1 {
        ws[0]
    } else {
        ws[0] + " "@ + spaced(ws.drop_first())
    }
}

pub proof fn lemma_plain_chars(
    s: Seq<char>,
    i: int,
    w: Seq<char>,
    k: int,
    toks: Seq<Seq<char>>,
    cur: Seq<char>,
)
    requires
        0 <= i,
        i + w.len() <= s.len(),
        s.subrange(i, i + w.len()) == w,
        0 <= k <= w.len(),
        forall|j: int| 0 <= j < w.len() ==> !is_separator(#[trigger] w[j]) && w[j] != '\'' && w[j] != '"',
    ensures
        tokens_from(s, i + k, toks, cur + w.take(k), false, false) == tokens_from(
            s,
            i + w.len(),
            toks,
            cur + w,
            false,
            false,
        ),
    decreases w.len() - k,
{
    if k < w.len() {
        let c = s[i + k];
        assert(c == w[k]);
        assert((cur + w.take(k)).push(c) =~= cur + w.take(k + 1));
        lemma_plain_chars(s, i, w, k + 1, toks, cur);
    } else {
        assert(w.take(k) =~= w);
    }
}

proof fn lemma_spaced_tokens(s: Seq<char>, i: int, ws: Seq<Seq<char>>, toks: Seq<Seq<char>>)
    requires
        0 <= i <= s.len(),
        s.subrange(i, s.len() as int) == spaced(ws),
        forall|k: int| 0 <= k < ws.len() ==> is_plain_word(#[trigger] ws[k]),
    ensures
        tokens_from(s, i, toks, Seq::empty(), false, false) == toks + ws,
    decreases ws.len(),
{
    reveal_strlit(" ");
    if ws.len() == 0 {
        assert(i == s.len());
        assert(toks + ws =~= toks);
    } else {
        let w = ws[0];
        assert(is_plain_word(w));
        let rest = s.subrange(i, s.len() as int);
        let tail = spaced(ws.drop_first());
        if ws.len() == 1 {
            assert(rest == w);
        } else {
            assert(rest == w + " "@ + tail);
            assert(rest.len() == w.len() + 1 + tail.len());
        }
        assert(rest.len() == s.len() - i);
        assert(s.subrange(i, i + w.len()) =~= rest.subrange(0, w.len() as int));
        assert(rest.subrange(0, w.len() as int) =~= w);
        lemma_plain_chars(s, i, w, 0, toks, Seq::empty());
        assert(Seq::<char>::empty() + w.take(0) =~= Seq::<char>::empty());
        assert(Seq::<char>::empty() + w =~= w);
        if ws.len() == 1 {
            assert(i + w.len() == s.len());
            assert(toks + ws =~= toks.push(w));
        } else {
            assert(s[i + w.len()] == rest[w.len() as int]);
            assert(rest[w.len() as int] == ' ');
            assert forall|j: int| 0 <= j < tail.len() implies s.subrange(
                i + w.len() + 1,
                s.len() as int,
            )[j] == tail[j] by {
                assert(s[i + w.len() + 1 + j] == rest[w.len() + 1 + j]);
                assert(rest[w.len() + 1 + j] == tail[j]);
            }
            assert(s.subrange(i + w.len() + 1, s.len() as int) =~= tail);
            lemma_spaced_tokens(s, i + w.len() + 1, ws.drop_first(), toks.push(w));
            assert(toks.push(w) + ws.drop_first() =~= toks + ws);
        }
    }
}

/// Tokenizing words written with single spaces between them gives the
/// words back, when none of them holds a quote or a separator.
pub proof fn law_tokenize_spaced_words(ws: Seq<Seq<char>>)
    requires
        forall|k: int| 0 <= k < ws.len() ==> is_plain_word(#[trigger] ws[k]),
    ensures
        tokenize_spec(spaced(ws)) == ws,
{
    let s = spaced(ws);
    assert(s.subrange(0, s.len() as int) =~= s);
    lemma_spaced_tokens(s, 0, ws, Seq::empty());
    assert(Seq::<Seq<char>>::empty() + ws =~= ws);
}

// ------------------------------------------------------------------------
// Parsed command
// ------------------------------------------------------------------------

/// A curl command reduced to what pcurl needs to run it again with its own flags.
pub struct CurlCommand {
    pub url: String,
    pub method: Option<String>,
    pub headers: Vec<(String, String)>,
    pub data: Option<String>,
    pub extra_args: Vec<String>,
}

/// The mathematical content of a `CurlCommand`.
pub struct CurlModel {
    pub url: Seq<char>,
    pub method: Option<Seq<char>>,
    pub headers: Seq<(Seq<char>, Seq<char>)>,
    pub data: Option<Seq<char>>,
    pub extra_args: Seq<Seq<char>>,
}

impl View for CurlCommand {
    type V = CurlModel;

    open spec fn view(&self) -> CurlModel {
        CurlModel {
            url: self.url@,
            method: self.method.deep_view(),
            headers: self.headers.deep_view(),
            data: self.data.deep_view(),
            extra_args: self.extra_args.deep_view(),
        }
    }
}

/// How the parser treats one token.
pub enum TokenKind {
    /// `-X`, `--request`: the next token is the method.
    Method,
    /// `-H`, `--header`: the next token is a header.
    Header,
    /// `-d` and its long forms: the next token is the body.
    Data,
    /// `-i`, `-s`, `-v` and their long forms: dropped, pcurl sets its own.
    Dropped,
    /// Flags passed on together with the token after them.
    Valued,
    /// Flags passed on alone.
    Switch,
    /// Anything else: a URL, an unknown flag, or a stray word.
    Other,
}

pub open spec fn token_kind(t: Seq<char>) -> TokenKind {
    if t == "-X"@ || t == "--request"@ {
        TokenKind::Method
    } else if t == "-H"@ || t == "--header"@ {
        TokenKind::Header
    } else if t == "-d"@ || t == "--data"@ || t == "--data-raw"@ || t == "--data-binary"@ || t
        == "--data-ascii"@ {
        TokenKind::Data
    } else if t == "-i"@ || t == "--include"@ || t == "-s"@ || t == "--silent"@ || t == "-v"@
        || t == "--verbose"@ {
        TokenKind::Dropped
    } else if t == "-o"@ || t == "--output"@ || t == "-u"@ || t == "--user"@ || t
        == "--connect-timeout"@ || t == "--max-time"@ || t == "-m"@ || t == "--proxy"@ || t
        == "-x"@ || t == "--cacert"@ || t == "--cert"@ || t == "--key"@ || t == "--resolve"@
        || t == "--dns-servers"@ || t == "-A"@ || t == "--user-agent"@ || t == "--referer"@
        || t == "-e"@ {
        TokenKind::Valued
    } else if t == "-k"@ || t == "--insecure"@ || t == "-L"@ || t == "--location"@ || t
        == "-g"@ || t == "--compressed"@ || t == "--http1.0"@ || t == "--http1.1"@ || t
        == "--http2"@ || t == "--http3"@ || t == "-I"@ || t == "--head"@ || t
        == "--no-keepalive"@ {
        TokenKind::Switch
    } else {
        TokenKind::Other
    }
}


/// Every flag that the parser knows begins with a dash and has two
/// characters, or at least five.
pub proof fn lemma_flag_shape(t: Seq<char>)
    ensures
        !(token_kind(t) is Other) ==> t.len() > 0 && t[0] == '-' && (t.len() == 2 || t.len() >= 5),
{
    reveal_strlit("-X");
    reveal_strlit("--request");
    reveal_strlit("-H");
    reveal_strlit("--header");
    reveal_strlit("-d");
    reveal_strlit("--data");
    reveal_strlit("--data-raw");
    reveal_strlit("--data-binary");
    reveal_strlit("--data-ascii");
    reveal_strlit("-i");
    reveal_strlit("--include");
    reveal_strlit("-s");
    reveal_strlit("--silent");
    reveal_strlit("-v");
    reveal_strlit("--verbose");
    reveal_strlit("-o");
    reveal_strlit("--output");
    reveal_strlit("-u");
    reveal_strlit("--user");
    reveal_strlit("--connect-timeout");
    reveal_strlit("--max-time");
    reveal_strlit("-m");
    reveal_strlit("--proxy");
    reveal_strlit("-x");
    reveal_strlit("--cacert");
    reveal_strlit("--cert");
    reveal_strlit("--key");
    reveal_strlit("--resolve");
    reveal_strlit("--dns-servers");
    reveal_strlit("-A");
    reveal_strlit("--user-agent");
    reveal_strlit("--referer");
    reveal_strlit("-e");
    reveal_strlit("-k");
    reveal_strlit("--insecure");
    reveal_strlit("-L");
    reveal_strlit("--location");
    reveal_strlit("-g");
    reveal_strlit("--compressed");
    reveal_strlit("--http1.0");
    reveal_strlit("--http1.1");
    reveal_strlit("--http2");
    reveal_strlit("--http3");
    reveal_strlit("-I");
    reveal_strlit("--head");
    reveal_strlit("--no-keepalive");
}

/// The flags `-d`, `--data`, `--data-raw`, `--data-binary` and `--data-ascii`
/// each take the token after them as the request body: wherever such a flag
/// stands with a token after it, parsing sets the body to that token and
/// goes on after it, with neither token passed on as an extra argument or
/// taken as the URL.
pub proof fn law_data_flags(t: Seq<Seq<char>>, i: int, m: CurlModel)
    requires
        0 <= i,
        i + 1 < t.len(),
        t[i] == "-d"@ || t[i] == "--data"@ || t[i] == "--data-raw"@ || t[i] == "--data-binary"@
            || t[i] == "--data-ascii"@,
    ensures
        parse_from(t, i, m) == parse_from(t, i + 2, CurlModel { data: Some(t[i + 1]), ..m }),
{
    reveal_strlit("-X");
    reveal_strlit("--request");
    reveal_strlit("-H");
    reveal_strlit("--header");
    reveal_strlit("-d");
    reveal_strlit("--data");
    reveal_strlit("--data-raw");
    reveal_strlit("--data-binary");
    reveal_strlit("--data-ascii");
    reveal_strlit("-i");
    reveal_strlit("--include");
    reveal_strlit("-s");
    reveal_strlit("--silent");
    reveal_strlit("-v");
    reveal_strlit("--verbose");
    reveal_strlit("-o");
    reveal_strlit("--output");
    reveal_strlit("-u");
    reveal_strlit("--user");
    reveal_strlit("--connect-timeout");
    reveal_strlit("--max-time");
    reveal_strlit("-m");
    reveal_strlit("--proxy");
    reveal_strlit("-x");
    reveal_strlit("--cacert");
    reveal_strlit("--cert");
    reveal_strlit("--key");
    reveal_strlit("--resolve");
    reveal_strlit("--dns-servers");
    reveal_strlit("-A");
    reveal_strlit("--user-agent");
    reveal_strlit("--referer");
    reveal_strlit("-e");
    reveal_strlit("-k");
    reveal_strlit("--insecure");
    reveal_strlit("-L");
    reveal_strlit("--location");
    reveal_strlit("-g");
    reveal_strlit("--compressed");
    reveal_strlit("--http1.0");
    reveal_strlit("--http1.1");
    reveal_strlit("--http2");
    reveal_strlit("--http3");
    reveal_strlit("-I");
    reveal_strlit("--head");
    assert("-d"@[1] != "-X"@[1] && "-d"@[1] != "-H"@[1]);
    assert("-d"@ != "-X"@ && "-d"@ != "-H"@);
    assert("--data"@.len() != "-X"@.len() && "--data"@.len() != "--request"@.len() && "--data"@.len() != "-H"@.len() && "--data"@.len() != "--header"@.len());
    assert("--data-raw"@.len() != "-X"@.len() && "--data-raw"@.len() != "--request"@.len() && "--data-raw"@.len() != "-H"@.len() && "--data-raw"@.len() != "--header"@.len());
    assert("--data-binary"@.len() != "-X"@.len() && "--data-binary"@.len() != "--request"@.len() && "--data-binary"@.len() != "-H"@.len() && "--data-binary"@.len() != "--header"@.len());
    assert("--data-ascii"@.len() != "-X"@.len() && "--data-ascii"@.len() != "--request"@.len() && "--data-ascii"@.len() != "-H"@.len() && "--data-ascii"@.len() != "--header"@.len());
    assert(token_kind(t[i]) is Data);
}

/// The kind of a token.
pub fn classify_token(t: &[char]) -> (k: TokenKind)
    ensures
        k == token_kind(t@),
{
    if eq_str(t, "-X") || eq_str(t, "--request") {
        TokenKind::Method
    } else if eq_str(t, "-H") || eq_str(t, "--header") {
        TokenKind::Header
    } else if eq_str(t, "-d") || eq_str(t, "--data") || eq_str(t, "--data-raw") || eq_str(
        t,
        "--data-binary",
    ) || eq_str(t, "--data-ascii") {
        TokenKind::Data
    } else if eq_str(t, "-i") || eq_str(t, "--include") || eq_str(t, "-s") || eq_str(
        t,
        "--silent",
    ) || eq_str(t, "-v") || eq_str(t, "--verbose") {
        TokenKind::Dropped
    } else if eq_str(t, "-o") || eq_str(t, "--output") || eq_str(t, "-u") || eq_str(t, "--user")
        || eq_str(t, "--connect-timeout") || eq_str(t, "--max-time") || eq_str(t, "-m")
        || eq_str(t, "--proxy") || eq_str(t, "-x") || eq_str(t, "--cacert") || eq_str(
        t,
        "--cert",
    ) || eq_str(t, "--key") || eq_str(t, "--resolve") || eq_str(t, "--dns-servers") || eq_str(
        t,
        "-A",
    ) || eq_str(t, "--user-agent") || eq_str(t, "--referer") || eq_str(t, "-e") {
        TokenKind::Valued
    } else if eq_str(t, "-k") || eq_str(t, "--insecure") || eq_str(t, "-L") || eq_str(
        t,
        "--location",
    ) || eq_str(t, "-g") || eq_str(t, "--compressed") || eq_str(t, "--http1.0") || eq_str(
        t,
        "--http1.1",
    ) || eq_str(t, "--http2") || eq_str(t, "--http3") || eq_str(t, "-I") || eq_str(t, "--head")
        || eq_str(t, "--no-keepalive") {
        TokenKind::Switch
    } else {
        TokenKind::Other
    }
}

/// The flags whose following token belongs to them.
pub open spec fn takes_value(k: TokenKind) -> bool {
    k is Method || k is Header || k is Data || k is Valued
}

/// The token begins with a dash, as flags do.
pub open spec fn is_dash(t: Seq<char>) -> bool {
    t.len() > 0 && t[0] == '-'
}

/// The token names a URL by one of the schemes that the parser recognizes.
pub open spec fn has_url_scheme(t: Seq<char>) -> bool {
    starts_with(t, "http://"@) || starts_with(t, "https://"@) || starts_with(t, "ftp://"@)
}

/// The header that a `-H` value stands for: the text before the first colon
/// and the text after it, both trimmed; none when there is no colon.
pub open spec fn header_entry(h: Seq<char>) -> Option<(Seq<char>, Seq<char>)> {
    match find_char(h, ':') {
        Some(p) => Some((trim(h.take(p)), trim(h.skip(p + 1)))),
        None => None,
    }
}

/// The model after a flag `flag` of a kind that takes a value, and its value `v`.
pub open spec fn apply_valued(m: CurlModel, flag: Seq<char>, v: Seq<char>) -> CurlModel {
    match token_kind(flag) {
        TokenKind::Method => CurlModel { method: Some(v), ..m },
        TokenKind::Header => match header_entry(v) {
            Some(e) => CurlModel { headers: m.headers.push(e), ..m },
            None => m,
        },
        TokenKind::Data => CurlModel { data: Some(v), ..m },
        _ => CurlModel { extra_args: m.extra_args.push(flag).push(v), ..m },
    }
}

/// The model after a token that takes no value.
pub open spec fn apply_single(m: CurlModel, t: Seq<char>) -> CurlModel {
    match token_kind(t) {
        TokenKind::Dropped => m,
        TokenKind::Switch => CurlModel { extra_args: m.extra_args.push(t), ..m },
        _ => if has_url_scheme(t) {
            CurlModel { url: t, ..m }
        } else if !is_dash(t) && m.url.len() == 0 {
            CurlModel { url: t, ..m }
        } else if is_dash(t) {
            CurlModel { extra_args: m.extra_args.push(t), ..m }
        } else {
            m
        },
    }
}

/// The model after reading tokens `t[i..]` from the model `m`. A flag that
/// takes a value but ends the tokens is ignored.
pub open spec fn parse_from(t: Seq<Seq<char>>, i: int, m: CurlModel) -> CurlModel
    decreases t.len() - i,
{
    if i < 0 || i >= t.len() {
        m
    } else if takes_value(token_kind(t[i])) {
        if i + 1 < t.len() {
            parse_from(t, i + 2, apply_valued(m, t[i], t[i + 1]))
        } else {
            m
        }
    } else {
        parse_from(t, i + 1, apply_single(m, t[i]))
    }
}

/// The model with nothing set.
pub open spec fn empty_model() -> CurlModel {
    CurlModel {
        url: Seq::empty(),
        method: None,
        headers: Seq::empty(),
        data: None,
        extra_args: Seq::empty(),
    }
}

/// Position of the first token to parse: a leading `curl` is skipped.
pub open spec fn first_token(t: Seq<Seq<char>>) -> int {
    if t.len() > 0 && t[0] == "curl"@ {
        1
    } else {
        0
    }
}

/// What `CurlCommand::parse` makes of a command line.
pub open spec fn parse_spec(input: Seq<char>) -> CurlModel {
    let t = tokenize_spec(input);
    parse_from(t, first_token(t), empty_model())
}

pub proof fn lemma_tokens_acc(
    s: Seq<char>,
    i: int,
    toks: Seq<Seq<char>>,
    cur: Seq<char>,
    sq: bool,
    dq: bool,
)
    ensures
        tokens_from(s, i, toks, cur, sq, dq) == toks + tokens_from(s, i, Seq::empty(), cur, sq, dq),
    decreases s.len() - i,
{
    let e = Seq::<Seq<char>>::empty();
    if i < 0 || i >= s.len() {
        assert(flush(toks, cur) =~= toks + flush(e, cur));
    } else {
        let c = s[i];
        if c == '\'' && !dq {
            lemma_tokens_acc(s, i + 1, toks, cur, !sq, dq);
        } else if c == '"' && !sq {
            lemma_tokens_acc(s, i + 1, toks, cur, sq, !dq);
        } else if c == '\\' && dq {
            if i + 1 < s.len() {
                lemma_tokens_acc(s, i + 2, toks, cur.push(s[i + 1]), sq, dq);
            } else {
                lemma_tokens_acc(s, i + 1, toks, cur, sq, dq);
            }
        } else if is_separator(c) && !sq && !dq {
            lemma_tokens_acc(s, i + 1, flush(toks, cur), Seq::empty(), sq, dq);
            lemma_tokens_acc(s, i + 1, flush(e, cur), Seq::empty(), sq, dq);
            assert(flush(toks, cur) =~= toks + flush(e, cur));
            let rest = tokens_from(s, i + 1, e, Seq::empty(), sq, dq);
            assert((toks + flush(e, cur)) + rest =~= toks + (flush(e, cur) + rest));
        } else {
            lemma_tokens_acc(s, i + 1, toks, cur.push(c), sq, dq);
        }
    }
}

pub proof fn lemma_tokens_shift(
    p: Seq<char>,
    s: Seq<char>,
    i: int,
    toks: Seq<Seq<char>>,
    cur: Seq<char>,
    sq: bool,
    dq: bool,
)
    requires
        0 <= i,
    ensures
        tokens_from(p + s, p.len() + i, toks, cur, sq, dq) == tokens_from(s, i, toks, cur, sq, dq),
    decreases s.len() - i,
{
    let ps = p + s;
    if i < s.len() {
        let c = s[i];
        assert(ps[p.len() + i] == c);
        if i + 1 < s.len() {
            assert(ps[p.len() + i + 1] == s[i + 1]);
        }
        if c == '\'' && !dq {
            lemma_tokens_shift(p, s, i + 1, toks, cur, !sq, dq);
        } else if c == '"' && !sq {
            lemma_tokens_shift(p, s, i + 1, toks, cur, sq, !dq);
        } else if c == '\\' && dq {
            if i + 1 < s.len() {
                lemma_tokens_shift(p, s, i + 2, toks, cur.push(s[i + 1]), sq, dq);
            } else {
                lemma_tokens_shift(p, s, i + 1, toks, cur, sq, dq);
            }
        } else if is_separator(c) && !sq && !dq {
            lemma_tokens_shift(p, s, i + 1, flush(toks, cur), Seq::empty(), sq, dq);
        } else {
            lemma_tokens_shift(p, s, i + 1, toks, cur.push(c), sq, dq);
        }
    }
}

/// Tokenizing `curl ` followed by a text gives `curl` and then the text's tokens.
proof fn lemma_tokens_after_curl(s: Seq<char>)
    ensures
        tokenize_spec("curl "@ + s) == seq!["curl"@] + tokenize_spec(s),
{
    reveal_strlit("curl ");
    reveal_strlit("curl");
    let p = "curl "@;
    let ps = p + s;
    let w = "curl"@;
    let e = Seq::<Seq<char>>::empty();
    assert(ps.subrange(0, 4) =~= w);
    lemma_plain_chars(ps, 0, w, 0, e, Seq::empty());
    assert(Seq::<char>::empty() + w.take(0) =~= Seq::<char>::empty());
    assert(Seq::<char>::empty() + w =~= w);
    assert(ps[4] == ' ');
    assert(flush(e, w) =~= seq![w]);
    lemma_tokens_shift(p, s, 0, seq![w], Seq::empty(), false, false);
    lemma_tokens_acc(s, 0, seq![w], Seq::empty(), false, false);
}

proof fn lemma_parse_from_shift(x: Seq<char>, t: Seq<Seq<char>>, i: int, m: CurlModel)
    requires
        0 <= i,
    ensures
        parse_from(seq![x] + t, i + 1, m) == parse_from(t, i, m),
    decreases t.len() - i,
{
    let u = seq![x] + t;
    if i < t.len() {
        assert(u[i + 1] == t[i]);
        if i + 1 < t.len() {
            assert(u[i + 2] == t[i + 1]);
        }
        if takes_value(token_kind(t[i])) {
            if i + 1 < t.len() {
                lemma_parse_from_shift(x, t, i + 2, apply_valued(m, t[i], t[i + 1]));
            }
        } else {
            lemma_parse_from_shift(x, t, i + 1, apply_single(m, t[i]));
        }
    }
}

/// A command may be given with or without its leading `curl`: when its
/// first token is not `curl` already, writing `curl ` in front of it
/// changes nothing in what is parsed.
pub proof fn law_curl_prefix_optional(command: Seq<char>)
    requires
        tokenize_spec(command).len() == 0 || tokenize_spec(command)[0] != "curl"@,
    ensures
        parse_spec("curl "@ + command) == parse_spec(command),
{
    let t = tokenize_spec(command);
    lemma_tokens_after_curl(command);
    let u = seq!["curl"@] + t;
    assert(u[0] == "curl"@);
    assert(first_token(u) == 1);
    assert(first_token(t) == 0);
    lemma_parse_from_shift("curl"@, t, 0, empty_model());
}

impl CurlCommand {
    /// Parses a full curl command (with or without the leading `curl`).
    pub fn parse(input: &str) -> (cmd: Self)
        ensures
            cmd@ == parse_spec(input@),
    {
        let s = chars_of(input);
        let toks = tokenize_chars(&s);
        let ghost t = views(toks@);
        let mut cmd = CurlCommand {
            url: String::new(),
            method: None,
            headers: Vec::new(),
            data: None,
            extra_args: Vec::new(),
        };
        assert(cmd@.headers =~= Seq::<(Seq<char>, Seq<char>)>::empty());
        assert(cmd@.extra_args =~= Seq::<Seq<char>>::empty());
        assert(cmd@ == empty_model());
        let mut i: usize = if toks.len() > 0 && eq_str(&toks[0], "curl") {
            1
        } else {
            0
        };
        while i < toks.len()
            invariant
                t == views(toks@),
                t == tokenize_spec(input@),
                i <= toks@.len(),
                parse_from(t, i as int, cmd@) == parse_spec(input@),
            decreases toks@.len() - i,
        {
            let tok = &toks[i];
            assert(tok@ == t[i as int]);
            let kind = classify_token(tok);
            match kind {
                TokenKind::Method | TokenKind::Header | TokenKind::Data | TokenKind::Valued => {
                    if i + 1 < toks.len() {
                        let val = &toks[i + 1];
                        assert(val@ == t[i + 1]);
                        Self::apply_valued_exec(&mut cmd, kind, tok, val);
                        i = i + 2;
                    } else {
                        i = toks.len();
                    }
                },
                _ => {
                    Self::apply_single_exec(&mut cmd, kind, tok);
                    i = i + 1;
                },
            }
        }
        cmd
    }

    fn apply_valued_exec(cmd: &mut CurlCommand, kind: TokenKind, flag: &Vec<char>, v: &Vec<char>)
        requires
            kind == token_kind(flag@),
            takes_value(kind),
        ensures
            final(cmd)@ == apply_valued(old(cmd)@, flag@, v@),
    {
        match kind {
            TokenKind::Method => {
                cmd.method = Some(string_of(v));
            },
            TokenKind::Header => {
                match find_char_exec(v, ':') {
                    Some(p) => {
                        let n = v.len();
                        assert(p < n);
                        let before = slice_chars(v, 0, p);
                        let after = slice_chars(v, p + 1, n);
                        assert(before@ == v@.take(p as int));
                        assert(after@ == v@.skip(p + 1));
                        let k = string_of(&trim_chars(&before));
                        let w = string_of(&trim_chars(&after));
                        let ghost prev = cmd.headers;
                        let entry = (k, w);
                        cmd.headers.push(entry);
                        proof {
                            lemma_deep_view_push(prev, cmd.headers, entry);
                        }
                    },
                    None => {},
                }
            },
            TokenKind::Data => {
                cmd.data = Some(string_of(v));
            },
            _ => {
                let f = string_of(flag);
                let x = string_of(v);
                let ghost p0 = cmd.extra_args;
                cmd.extra_args.push(f);
                let ghost p1 = cmd.extra_args;
                cmd.extra_args.push(x);
                proof {
                    lemma_deep_view_push(p0, p1, f);
                    lemma_deep_view_push(p1, cmd.extra_args, x);
                }
            },
        }
    }

    fn apply_single_exec(cmd: &mut CurlCommand, kind: TokenKind, t: &Vec<char>)
        requires
            kind == token_kind(t@),
            !takes_value(kind),
        ensures
            final(cmd)@ == apply_single(old(cmd)@, t@),
    {
        match kind {
            TokenKind::Dropped => {},
            TokenKind::Switch => {
                let f = string_of(t);
                let ghost p0 = cmd.extra_args;
                cmd.extra_args.push(f);
                proof {
                    lemma_deep_view_push(p0, cmd.extra_args, f);
                }
            },
            _ => {
                let dash = t.len() > 0 && t[0] == '-';
                if starts_with_str(t, "http://") || starts_with_str(t, "https://")
                    || starts_with_str(t, "ftp://") {
                    cmd.url = string_of(t);
                } else if !dash && cmd.url.as_str().is_empty() {
                    cmd.url = string_of(t);
                } else if dash {
                    let f = string_of(t);
                    let ghost p0 = cmd.extra_args;
                    cmd.extra_args.push(f);
                    proof {
                        lemma_deep_view_push(p0, cmd.extra_args, f);
                    }
                }
            },
        }
    }
}


// ------------------------------------------------------------------------
// Reconstruction
// ------------------------------------------------------------------------

/// The `-H` argument text of a header: `name: value`.
pub open spec fn header_line(h: (Seq<char>, Seq<char>)) -> Seq<char> {
    h.0 + ": "@ + h.1
}

/// `-H` and the header line, for each header in order.
pub open spec fn header_args(h: Seq<(Seq<char>, Seq<char>)>) -> Seq<Seq<char>>
    decreases h.len(),
{
    if h.len() == 0 {
        Seq::empty()
    } else {
        header_args(h.drop_last()) + seq!["-H"@, header_line(h.last())]
    }
}

/// Some header is named `Content-Type`, in any mix of ASCII case.
/// (Comparing `str::to_lowercase` of the name with `content-type` gives the
/// same answer: no character outside ASCII lowers to one of the letters of
/// `content-type`.)
pub open spec fn has_content_type(h: Seq<(Seq<char>, Seq<char>)>) -> bool {
    exists|k: int| 0 <= k < h.len() && ascii_lower(#[trigger] h[k].0) == ascii_lower("content-type"@)
}

/// The body looks like a JSON object: its first non-whitespace character is `{`.
pub open spec fn looks_like_json_object(d: Seq<char>) -> bool {
    let t = trim_start(d);
    t.len() > 0 && t[0] == '{'
}

/// `-X` and the method, when a method was given.
pub open spec fn method_args(m: CurlModel) -> Seq<Seq<char>> {
    match m.method {
        Some(x) => seq!["-X"@, x],
        None => Seq::empty(),
    }
}

/// A JSON content type is added for a body that looks like a JSON object
/// when no header names a content type.
pub open spec fn injects_json_content_type(m: CurlModel) -> bool {
    match m.data {
        Some(d) => !has_content_type(m.headers) && looks_like_json_object(d),
        None => false,
    }
}

/// `-d` and the body when there is one, then the injected content type if any.
pub open spec fn data_args(m: CurlModel) -> Seq<Seq<char>> {
    match m.data {
        Some(d) => seq!["-d"@, d] + if injects_json_content_type(m) {
            seq!["-H"@, "Content-Type: application/json"@]
        } else {
            Seq::empty()
        },
        None => Seq::empty(),
    }
}

/// The arguments handed to `curl`: `-i -s`, the method, the headers, the body
/// (with a JSON content type added when needed), the extra flags, and the URL last.
pub open spec fn curl_args_spec(m: CurlModel) -> Seq<Seq<char>> {
    seq!["-i"@, "-s"@] + method_args(m) + header_args(m.headers) + data_args(m) + m.extra_args
        + seq![m.url]
}

/// Whatever the command, curl runs with `-i` (headers in the output) and
/// `-s` (no progress meter) first and the parsed URL last, so that its
/// output can be read as a response.
pub proof fn law_args_frame(command: Seq<char>)
    ensures
        ({
            let a = curl_args_spec(parse_spec(command));
            &&& a.len() >= 3
            &&& a[0] == "-i"@
            &&& a[1] == "-s"@
            &&& a.last() == parse_spec(command).url
        }),
{
    let m = parse_spec(command);
    let a = curl_args_spec(m);
    let mid = method_args(m) + header_args(m.headers) + data_args(m) + m.extra_args;
    assert(a =~= seq!["-i"@, "-s"@] + mid + seq![m.url]);
}

/// Pushes an owned copy of a literal.
fn push_lit(args: &mut Vec<String>, lit: &str)
    ensures
        final(args).deep_view() == old(args).deep_view().push(lit@),
{
    let ghost before = *args;
    let s = lit.to_owned();
    args.push(s);
    proof {
        lemma_deep_view_push(before, *args, s);
    }
}

/// Pushes a copy of a string.
fn push_copy(args: &mut Vec<String>, s: &String)
    ensures
        final(args).deep_view() == old(args).deep_view().push(s@),
{
    let ghost before = *args;
    let c = s.as_str().to_owned();
    args.push(c);
    proof {
        lemma_deep_view_push(before, *args, c);
    }
}

impl CurlCommand {
    /// Whether some header is named `Content-Type`, in any case.
    fn has_content_type_exec(&self) -> (r: bool)
        ensures
            r == has_content_type(self@.headers),
    {
        let mut i: usize = 0;
        while i < self.headers.len()
            invariant
                i <= self.headers@.len(),
                forall|k: int|
                    0 <= k < i ==> ascii_lower(#[trigger] self@.headers[k].0) != ascii_lower(
                        "content-type"@,
                    ),
            decreases self.headers@.len() - i,
        {
            let name = chars_of(self.headers[i].0.as_str());
            if ascii_lower_eq_str(&name, "content-type") {
                assert(self@.headers[i as int].0 == name@);
                return true;
            }
            i = i + 1;
        }
        false
    }

    /// Builds the argument vector for `curl`, adding `-i` (include headers)
    /// and `-s` (silent) so that the response can be parsed.
    pub fn to_args_with_headers(&self) -> (args: Vec<String>)
        ensures
            args.deep_view() == curl_args_spec(self@),
    {
        let mut args: Vec<String> = Vec::new();
        push_lit(&mut args, "-i");
        push_lit(&mut args, "-s");
        assert(args.deep_view() =~= seq!["-i"@, "-s"@]);

        if let Some(m) = &self.method {
            push_lit(&mut args, "-X");
            push_copy(&mut args, m);
        }
        let ghost base = args.deep_view();
        assert(base =~= seq!["-i"@, "-s"@] + method_args(self@));

        let mut i: usize = 0;
        while i < self.headers.len()
            invariant
                i <= self.headers@.len(),
                args.deep_view() == base + header_args(self@.headers.take(i as int)),
            decreases self.headers@.len() - i,
        {
            let (k, v) = &self.headers[i];
            let mut line = k.as_str().to_owned();
            push_str(&mut line, ": ");
            push_str(&mut line, v.as_str());
            push_lit(&mut args, "-H");
            let ghost before = args.deep_view();
            let ghost lv = line@;
            let ghost prev = args;
            args.push(line);
            proof {
                lemma_deep_view_push(prev, args, line);
                let h = self@.headers.take(i + 1);
                assert(h.drop_last() =~= self@.headers.take(i as int));
                assert(h.last() == self@.headers[i as int]);
                assert(lv == header_line(h.last()));
            }
            i = i + 1;
        }
        assert(self@.headers.take(self@.headers.len() as int) =~= self@.headers);
        let ghost base2 = args.deep_view();

        if let Some(d) = &self.data {
            push_lit(&mut args, "-d");
            push_copy(&mut args, d);
            let has_ct = self.has_content_type_exec();
            let dc = chars_of(d.as_str());
            let t = trim_start_chars(&dc);
            if !has_ct && t.len() > 0 && t[0] == '{' {
                push_lit(&mut args, "-H");
                push_lit(&mut args, "Content-Type: application/json");
            }
        }
        assert(args.deep_view() =~= base2 + data_args(self@));
        let ghost base3 = args.deep_view();

        let mut j: usize = 0;
        while j < self.extra_args.len()
            invariant
                j <= self.extra_args@.len(),
                args.deep_view() == base3 + self@.extra_args.take(j as int),
            decreases self.extra_args@.len() - j,
        {
            push_copy(&mut args, &self.extra_args[j]);
            j = j + 1;
            assert(self@.extra_args.take(j as int) =~= self@.extra_args.take((j - 1) as int).push(
                self@.extra_args[j - 1],
            ));
        }
        assert(self@.extra_args.take(self@.extra_args.len() as int) =~= self@.extra_args);
        push_copy(&mut args, &self.url);
        assert(args.deep_view() =~= curl_args_spec(self@));
        args
    }
}

} // verus!
