//! The command line as pcurl reads it, and the choice of what to do with it.

use vstd::prelude::*;
use crate::curl_parser::{
    CurlCommand, CurlModel, curl_args_spec, empty_model, first_token, is_plain_word, law_tokenize_spaced_words,
    lemma_flag_shape, parse_from, parse_spec, spaced, tokenize_spec,
};
use crate::text::is_ws;
use crate::render::{Out, Span, Style, emit, emit_nl, emit_str, nl, piece, spans};
use crate::text::{chars_of, find_char, find_char_exec, push_str, slice_chars, starts_with, starts_with_str, string_of, trim_start, trim_start_chars};

verus! {

/// Which parts of a response are shown.
#[derive(Clone, Copy, PartialEq, Eq, Structural, Debug)]
pub struct OutputMode {
    /// Show only the body, without headers or status.
    pub body_only: bool,
    /// Show only the status and headers, without body.
    pub headers_only: bool,
    /// Print without colors.
    pub no_color: bool,
}


/// The command line: an optional subcommand, or a curl command (or URL)
/// for HTTP mode, and the global flags.
pub struct Cli {
    pub command: Option<Commands>,
    /// Full curl command, or a bare URL. Without it, pcurl reads standard input.
    pub curl_command: Option<String>,
    pub body_only: bool,
    pub headers_only: bool,
    pub no_color: bool,
    /// Check the installation and dependencies.
    pub doctor: bool,
    /// Update pcurl to the latest version.
    pub update: bool,
}

/// The subcommands.
pub enum Commands {
    /// Connect to a WebSocket server interactively.
    Ws { url: String, verbose: bool },
    /// wscat-compatible alias: `pcurl wscat -c <url>`.
    Wscat { connect: String, verbose: bool },
    /// Build and run an MCP call (JSON-RPC over SSE).
    Mcp { url: String, method: String, params: String, session_id: Option<String>, verbose: bool },
}

/// What pcurl does for a command line.
pub enum Action {
    /// Diagnose the installation.
    Doctor,
    /// Run the installer of the latest release.
    Update,
    /// Open an interactive WebSocket session.
    WebSocket { url: String, verbose: bool },
    /// Post an MCP call.
    Mcp { url: String, method: String, params: String, session_id: Option<String>, verbose: bool },
    /// Run a curl command (argument mode).
    Http { command: String },
    /// Read `curl -si` output from standard input (pipe mode).
    Pipe,
    /// Nothing to do: no command and no piped input.
    NoInput,
}

/// A curl command as given, or a bare URL turned into `curl -si <url>`.
pub open spec fn normalized_command(cmd: Seq<char>) -> Seq<char> {
    if starts_with(trim_start(cmd), "curl"@) {
        cmd
    } else {
        "curl -si "@ + cmd
    }
}

/// Turns the argument of HTTP mode into a curl command.
pub fn normalize_curl_command(cmd: String) -> (r: String)
    ensures
        r@ == normalized_command(cmd@),
{
    let t = trim_start_chars(&chars_of(cmd.as_str()));
    if starts_with_str(&t, "curl") {
        cmd
    } else {
        let mut r = "curl -si ".to_owned();
        push_str(&mut r, cmd.as_str());
        r
    }
}

/// The mode of output: the global flags, with colors off also when the
/// `NO_COLOR` environment variable is set.
pub open spec fn output_mode_spec(body_only: bool, headers_only: bool, no_color: bool, no_color_env: bool) -> OutputMode {
    OutputMode { body_only, headers_only, no_color: no_color || no_color_env }
}

/// Chooses what to do, and how to show output, for a command line.
/// `no_color_env` tells whether `NO_COLOR` is set; `stdin_has_data` whether
/// standard input is not a terminal.
pub fn plan(cli: Cli, no_color_env: bool, stdin_has_data: bool) -> (r: (Action, OutputMode))
    ensures
        r.1 == output_mode_spec(cli.body_only, cli.headers_only, cli.no_color, no_color_env),
        cli.doctor ==> r.0 is Doctor,
        !cli.doctor && cli.update ==> r.0 is Update,
        !cli.doctor && !cli.update ==> match cli.command {
            Some(Commands::Ws { url, verbose }) => r.0 == Action::WebSocket { url, verbose },
            Some(Commands::Wscat { connect, verbose }) => r.0 == Action::WebSocket {
                url: connect,
                verbose,
            },
            Some(Commands::Mcp { url, method, params, session_id, verbose }) => r.0 == Action::Mcp {
                url,
                method,
                params,
                session_id,
                verbose,
            },
            None => match cli.curl_command {
                Some(c) => r.0 matches Action::Http { command } && command@ == normalized_command(
                    c@,
                ),
                None => if stdin_has_data {
                    r.0 is Pipe
                } else {
                    r.0 is NoInput
                },
            },
        },
{
    let mode = OutputMode {
        body_only: cli.body_only,
        headers_only: cli.headers_only,
        no_color: cli.no_color || no_color_env,
    };
    if cli.doctor {
        return (Action::Doctor, mode);
    }
    if cli.update {
        return (Action::Update, mode);
    }
    let action = match cli.command {
        Some(Commands::Ws { url, verbose }) => Action::WebSocket { url, verbose },
        Some(Commands::Wscat { connect, verbose }) => Action::WebSocket { url: connect, verbose },
        Some(Commands::Mcp { url, method, params, session_id, verbose }) => Action::Mcp {
            url,
            method,
            params,
            session_id,
            verbose,
        },
        None => match cli.curl_command {
            Some(c) => Action::Http { command: normalize_curl_command(c) },
            None => if stdin_has_data {
                Action::Pipe
            } else {
                Action::NoInput
            },
        },
    };
    (action, mode)
}

/// After the action, pcurl checks for a newer release (unless it diagnosed,
/// updated, or had nothing to do).
pub open spec fn checks_for_update_spec(a: Action) -> bool {
    !(a is Doctor || a is Update || a is NoInput)
}

/// Whether an update check follows the action.
pub fn checks_for_update(a: &Action) -> (r: bool)
    ensures
        r == checks_for_update_spec(*a),
{
    match a {
        Action::Doctor | Action::Update | Action::NoInput => false,
        _ => true,
    }
}

// ------------------------------------------------------------------------
// HTTP argument mode
// ------------------------------------------------------------------------

/// A URL by one of the schemes that pcurl lets through to curl.
pub open spec fn is_safe_url_spec(url: Seq<char>) -> bool {
    starts_with(url, "http://"@) || starts_with(url, "https://"@) || starts_with(url, "ws://"@)
        || starts_with(url, "wss://"@) || starts_with(url, "ftp://"@) || starts_with(url, "file://"@)
}

/// Whether a URL uses an allowed scheme: http, https, ws, wss, ftp or file.
pub fn is_safe_url(url: &str) -> (r: bool)
    ensures
        r == is_safe_url_spec(url@),
{
    let u = chars_of(url);
    starts_with_str(&u, "http://") || starts_with_str(&u, "https://") || starts_with_str(&u, "ws://")
        || starts_with_str(&u, "wss://") || starts_with_str(&u, "ftp://") || starts_with_str(
        &u,
        "file://",
    )
}

/// What a request is labelled with: its method, else POST when it has a
/// body, else GET.
pub open spec fn method_label_spec(m: CurlModel) -> Seq<char> {
    match m.method {
        Some(x) => x,
        None => if m.data is Some {
            "POST"@
        } else {
            "GET"@
        },
    }
}

/// The text of a URL before its first colon (all of it when there is none).
pub open spec fn scheme_of(url: Seq<char>) -> Seq<char> {
    match find_char(url, ':') {
        Some(p) => url.take(p),
        None => url,
    }
}

/// A curl run prepared from a command: the arguments, and the URL and method shown.
pub struct HttpPlan {
    pub args: Vec<String>,
    pub url: String,
    pub method_label: String,
}

/// Prepares HTTP argument mode: parses the command; a URL with a scheme
/// that is not allowed is refused (`Err` with the scheme); otherwise the
/// curl arguments, the URL and the method label. An empty URL is let through.
pub fn plan_http(command: &str) -> (r: Result<HttpPlan, String>)
    ensures
        ({
            let m = parse_spec(command@);
            match r {
                Err(scheme) => m.url.len() > 0 && !is_safe_url_spec(m.url) && scheme@ == scheme_of(
                    m.url,
                ),
                Ok(p) => (m.url.len() == 0 || is_safe_url_spec(m.url)) && p.args.deep_view()
                    == curl_args_spec(m) && p.url@ == m.url && p.method_label@
                    == method_label_spec(m),
            }
        }),
{
    let parsed = CurlCommand::parse(command);
    if !parsed.url.as_str().is_empty() && !is_safe_url(parsed.url.as_str()) {
        let u = chars_of(parsed.url.as_str());
        let scheme = match find_char_exec(&u, ':') {
            Some(p) => slice_chars(&u, 0, p),
            None => u,
        };
        proof {
            assert(scheme@ =~= scheme_of(parsed@.url));
        }
        return Err(string_of(&scheme));
    }
    let label = match &parsed.method {
        Some(m) => m.as_str().to_owned(),
        None => if parsed.data.is_some() {
            "POST".to_owned()
        } else {
            "GET".to_owned()
        },
    };
    let args = parsed.to_args_with_headers();
    let url = parsed.url.as_str().to_owned();
    Ok(HttpPlan { args, url, method_label: label })
}

/// The line that opens a request: the method in bold cyan, an arrow, the
/// URL in bold white, then a rule of 64 dashes.
pub open spec fn request_banner_out(method: Seq<char>, url: Seq<char>) -> Out {
    nl() + piece(Style::CyanBold, method) + piece(Style::Plain, " "@) + piece(Style::Dim, "→"@)
        + piece(Style::Plain, " "@) + piece(Style::WhiteBold, url) + nl() + piece(
        Style::Dim,
        Seq::new(64, |i: int| '─'),
    ) + nl()
}

/// Renders the line that opens a request.
pub fn request_banner(method: &str, url: &str) -> (out: Vec<Span>)
    ensures
        spans(out@) == request_banner_out(method@, url@),
{
    let mut out: Vec<Span> = Vec::new();
    assert(spans(out@) =~= Seq::empty());
    emit_nl(&mut out);
    emit(&mut out, Style::CyanBold, method.to_owned());
    emit_str(&mut out, Style::Plain, " ");
    emit_str(&mut out, Style::Dim, "→");
    emit_str(&mut out, Style::Plain, " ");
    emit(&mut out, Style::WhiteBold, url.to_owned());
    emit_nl(&mut out);
    let mut rule: Vec<char> = Vec::new();
    let mut i: usize = 0;
    while i < 64
        invariant
            i <= 64,
            rule@ =~= Seq::new(i as nat, |k: int| '─'),
        decreases 64 - i,
    {
        rule.push('─');
        i = i + 1;
        assert(rule@ =~= Seq::new(i as nat, |k: int| '─'));
    }
    crate::render::emit_chars(&mut out, Style::Dim, &rule);
    emit_nl(&mut out);
    assert(spans(out@) =~= request_banner_out(method@, url@));
    out
}

/// A bare URL given in HTTP mode runs as `curl -si <url>`: the command
/// parses to that URL, with `-si` passed on to curl and nothing else set.
pub proof fn law_direct_url(u: Seq<char>)
    requires
        is_plain_word(u),
        starts_with(u, "http://"@) || starts_with(u, "https://"@),
    ensures
        parse_spec(normalized_command(u)) == (CurlModel {
            url: u,
            method: None,
            headers: Seq::empty(),
            data: None,
            extra_args: seq!["-si"@],
        }),
{
    reveal_strlit("http://");
    reveal_strlit("https://");
    reveal_strlit("curl");
    reveal_strlit("curl -si ");
    reveal_strlit("-si");
    reveal_strlit(" ");
    assert(u[0] == 'h') by {
        if starts_with(u, "http://"@) {
            assert(u.subrange(0, 7)[0] == 'h');
        } else {
            assert(u.subrange(0, 8)[0] == 'h');
        }
    }
    assert(!is_ws(u[0]));
    assert(trim_start(u) == u);
    assert(!starts_with(u, "curl"@)) by {
        if starts_with(u, "curl"@) {
            assert(u.subrange(0, 4)[0] == 'c');
        }
    }
    let c = "curl"@;
    let si = "-si"@;
    let ws = seq![c, si, u];
    assert(ws.drop_first().drop_first() =~= seq![u]);
    assert(ws.drop_first() =~= seq![si, u]);
    assert(spaced(ws.drop_first().drop_first()) == u);
    assert(spaced(ws.drop_first()) == si + " "@ + u);
    assert(spaced(ws) =~= "curl -si "@ + u);
    assert(is_plain_word(c));
    assert(is_plain_word(si));
    assert forall|k: int| 0 <= k < ws.len() implies is_plain_word(#[trigger] ws[k]) by {}
    law_tokenize_spaced_words(ws);
    let t = tokenize_spec(normalized_command(u));
    assert(t == ws);
    assert(first_token(t) == 1);
    lemma_flag_shape(si);
    lemma_flag_shape(u);
    let m1 = CurlModel { extra_args: seq![si], ..empty_model() };
    assert(empty_model().extra_args.push(si) =~= seq![si]);
    assert(t[1] == si);
    assert(si[0] == '-');
    assert(!crate::curl_parser::has_url_scheme(si)) by {
        if starts_with(si, "http://"@) {
            assert(si.subrange(0, 7)[0] == 'h');
        }
        if starts_with(si, "https://"@) {
            assert(si.subrange(0, 8)[0] == 'h');
        }
        if starts_with(si, "ftp://"@) {
            reveal_strlit("ftp://");
            assert(si.subrange(0, 6)[0] == 'f');
        }
    }
    assert(crate::curl_parser::apply_single(empty_model(), si) == m1);
    assert(parse_from(t, 1, empty_model()) == parse_from(t, 2, m1));
    assert(!crate::curl_parser::is_dash(u));
    assert(crate::curl_parser::has_url_scheme(u));
    assert(parse_from(t, 2, m1) == parse_from(t, 3, CurlModel { url: u, ..m1 }));
}
} // verus!
