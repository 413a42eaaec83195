//! The installation diagnostic (`--doctor`): what it concludes from the
//! facts gathered about the machine, and the report it prints.

use vstd::prelude::*;
use crate::render::{Out, Span, Style, emit, emit_chars, emit_nl, emit_str, nl, piece, spans};
use crate::text::{chars_of, contains, contains_chars, eq_str, lines, push_str, split_lines, string_of, trim, trim_chars};

verus! {

/// Where pcurl is looked for: `~/.local/bin/pcurl`, `/usr/local/bin/pcurl`, `/usr/bin/pcurl`.
pub open spec fn install_paths_spec(home: Seq<char>) -> Seq<Seq<char>> {
    seq![home + "/.local/bin/pcurl"@, "/usr/local/bin/pcurl"@, "/usr/bin/pcurl"@]
}

/// The places where pcurl is looked for, given the home directory.
pub fn install_paths(home: &str) -> (r: Vec<String>)
    ensures
        r.deep_view() == install_paths_spec(home@),
{
    let mut a = home.to_owned();
    push_str(&mut a, "/.local/bin/pcurl");
    let mut r: Vec<String> = Vec::new();
    r.push(a);
    r.push("/usr/local/bin/pcurl".to_owned());
    r.push("/usr/bin/pcurl".to_owned());
    assert(r.deep_view() =~= install_paths_spec(home@));
    r
}

/// What the diagnostic found out about the machine.
pub struct DoctorFacts {
    /// The home directory (empty when unknown).
    pub home: String,
    /// The path of the running executable, when known.
    pub exe_path: Option<String>,
    /// The install paths (see `install_paths`) that exist.
    pub found_paths: Vec<String>,
    /// The `PATH` variable (empty when unset).
    pub path_var: String,
    /// The output of `curl --version` when it ran successfully.
    pub curl_version: Option<String>,
    /// The HTTP code printed by the connectivity probe when curl ran successfully.
    pub probe_code: Option<String>,
}

/// The user's local binary directory: `~/.local/bin`.
pub open spec fn local_bin(home: Seq<char>) -> Seq<char> {
    home + "/.local/bin"@
}

/// A report line: an icon, two spaces, and a white text.
pub open spec fn check_line(style: Style, icon: Seq<char>, text: Seq<char>) -> Out {
    piece(Style::Plain, "  "@) + piece(style, icon) + piece(Style::Plain, "  "@) + piece(
        Style::White,
        text,
    ) + nl()
}

/// A section title.
pub open spec fn title(t: Seq<char>) -> Out {
    piece(Style::Plain, "  "@) + piece(Style::WhiteBold, t) + nl() + nl()
}

/// A plain report line with an indented styled text.
pub open spec fn text_line(style: Style, t: Seq<char>) -> Out {
    piece(Style::Plain, "  "@) + piece(style, t) + nl()
}

pub open spec fn found_lines(paths: Seq<Seq<char>>) -> Out
    decreases paths.len(),
{
    if paths.len() == 0 {
        Seq::empty()
    } else {
        found_lines(paths.drop_last()) + check_line(Style::Green, "✅"@, "Found at: "@ + paths.last())
    }
}

/// The first line of the curl version text, or `curl found` when it has none.
pub open spec fn curl_first_line(v: Seq<char>) -> Seq<char> {
    if lines(v).len() > 0 {
        lines(v)[0]
    } else {
        "curl found"@
    }
}

/// The binary location section.
pub open spec fn location_out(exe: Option<Seq<char>>, found: Seq<Seq<char>>) -> Out {
    title("BINARY LOCATION"@) + (match exe {
        Some(p) => check_line(Style::Green, "✅"@, "Running from: "@ + p),
        None => Seq::empty(),
    }) + found_lines(found) + (if found.len() == 0 {
        check_line(Style::Red, "❌"@, "Not found in standard locations"@)
    } else {
        Seq::empty()
    }) + nl()
}

/// The PATH section: whether `~/.local/bin` is in `PATH`, and how to fix it.
pub open spec fn path_out(home: Seq<char>, path_var: Seq<char>) -> Out {
    title("PATH CONFIGURATION"@) + (if contains(path_var, local_bin(home)) {
        check_line(Style::Green, "✅"@, local_bin(home) + " is in PATH"@)
    } else {
        check_line(Style::Yellow, "⚠️"@, local_bin(home) + " is NOT in PATH"@) + nl() + text_line(
            Style::YellowBold,
            "FIX:"@,
        ) + text_line(Style::White, "Add this to your ~/.bashrc or ~/.zshrc:"@) + text_line(
            Style::Cyan,
            "export PATH=\"$HOME/.local/bin:$PATH\""@,
        ) + nl() + text_line(Style::White, "Then reload your config:"@) + text_line(
            Style::Cyan,
            "source ~/.zshrc  # or source ~/.bashrc"@,
        )
    }) + nl()
}

/// The dependencies section: whether curl runs.
pub open spec fn dependencies_out(curl_version: Option<Seq<char>>) -> Out {
    title("DEPENDENCIES"@) + (match curl_version {
        Some(v) => check_line(Style::Green, "✅"@, "curl: "@ + curl_first_line(v)),
        None => check_line(Style::Red, "❌"@, "curl: Not found (required for HTTP mode)"@),
    }) + nl()
}

/// The connectivity section: the probe answered 200, another code, or failed.
pub open spec fn connectivity_out(code: Option<Seq<char>>) -> Out {
    title("CONNECTIVITY TEST"@) + (match code {
        Some(c) => if trim(c) == "200"@ {
            check_line(Style::Green, "✅"@, "Internet connection: OK"@)
        } else {
            check_line(Style::Yellow, "⚠️"@, "HTTP status: "@ + trim(c))
        },
        None => check_line(Style::Red, "❌"@, "Could not connect to the internet"@),
    }) + nl()
}

/// The installation is in order: pcurl was found and `~/.local/bin` is in `PATH`.
pub open spec fn all_good(found: Seq<Seq<char>>, home: Seq<char>, path_var: Seq<char>) -> bool {
    found.len() > 0 && contains(path_var, local_bin(home))
}

/// The summary section.
pub open spec fn summary_out(ok: bool) -> Out {
    title("SUMMARY"@) + (if ok {
        check_line(Style::Green, "✅"@, "Everything is properly configured!"@) + nl() + text_line(
            Style::Dim,
            "Try running:"@,
        ) + text_line(Style::Cyan, "pcurl 'curl https://httpbin.org/get'"@)
    } else {
        check_line(Style::Yellow, "⚠️"@, "Found some issues. See the fixes above."@)
    }) + nl()
}

/// The whole report.
pub open spec fn doctor_out(
    home: Seq<char>,
    exe: Option<Seq<char>>,
    found: Seq<Seq<char>>,
    path_var: Seq<char>,
    curl_version: Option<Seq<char>>,
    code: Option<Seq<char>>,
) -> Out {
    nl() + piece(Style::Plain, "  "@) + piece(Style::CyanBold, "pcurl"@) + piece(
        Style::Plain,
        "  —  Installation Diagnostic"@,
    ) + nl() + piece(Style::Plain, "  "@) + piece(Style::Dim, Seq::new(54, |i: int| '─')) + nl()
        + nl() + location_out(exe, found) + path_out(home, path_var) + dependencies_out(
        curl_version,
    ) + connectivity_out(code) + summary_out(all_good(found, home, path_var))
}

fn emit_check(out: &mut Vec<Span>, style: Style, icon: &str, text: String)
    ensures
        spans(final(out)@) == spans(old(out)@) + check_line(style, icon@, text@),
{
    let ghost start = spans(out@);
    emit_str(out, Style::Plain, "  ");
    emit_str(out, style, icon);
    emit_str(out, Style::Plain, "  ");
    emit(out, Style::White, text);
    emit_nl(out);
    assert(spans(out@) =~= start + check_line(style, icon@, text@));
}

fn emit_title(out: &mut Vec<Span>, t: &str)
    ensures
        spans(final(out)@) == spans(old(out)@) + title(t@),
{
    let ghost start = spans(out@);
    emit_str(out, Style::Plain, "  ");
    emit_str(out, Style::WhiteBold, t);
    emit_nl(out);
    emit_nl(out);
    assert(spans(out@) =~= start + title(t@));
}

fn emit_text(out: &mut Vec<Span>, style: Style, t: &str)
    ensures
        spans(final(out)@) == spans(old(out)@) + text_line(style, t@),
{
    let ghost start = spans(out@);
    emit_str(out, Style::Plain, "  ");
    emit_str(out, style, t);
    emit_nl(out);
    assert(spans(out@) =~= start + text_line(style, t@));
}

fn joined(a: &str, b: &str) -> (r: String)
    ensures
        r@ == a@ + b@,
{
    let mut r = a.to_owned();
    push_str(&mut r, b);
    r
}

/// Whether `~/.local/bin` is in `PATH`.
pub fn path_has_local_bin(home: &str, path_var: &str) -> (r: bool)
    ensures
        r == contains(path_var@, local_bin(home@)),
{
    let lb = joined(home, "/.local/bin");
    contains_chars(&chars_of(path_var), &chars_of(lb.as_str()))
}

/// Renders the diagnostic report.
pub fn render_doctor(f: &DoctorFacts) -> (out: Vec<Span>)
    ensures
        spans(out@) == doctor_out(
            f.home@,
            f.exe_path.deep_view(),
            f.found_paths.deep_view(),
            f.path_var@,
            f.curl_version.deep_view(),
            f.probe_code.deep_view(),
        ),
{
    let mut out: Vec<Span> = Vec::new();
    assert(spans(out@) =~= Seq::empty());
    emit_nl(&mut out);
    emit_str(&mut out, Style::Plain, "  ");
    emit_str(&mut out, Style::CyanBold, "pcurl");
    emit_str(&mut out, Style::Plain, "  —  Installation Diagnostic");
    emit_nl(&mut out);
    emit_str(&mut out, Style::Plain, "  ");
    let mut rule: Vec<char> = Vec::new();
    let mut k: usize = 0;
    while k < 54
        invariant
            k <= 54,
            rule@ =~= Seq::new(k as nat, |i: int| '─'),
        decreases 54 - k,
    {
        rule.push('─');
        k = k + 1;
        assert(rule@ =~= Seq::new(k as nat, |i: int| '─'));
    }
    emit_chars(&mut out, Style::Dim, &rule);
    emit_nl(&mut out);
    emit_nl(&mut out);
    let ghost s0 = spans(out@);

    // Binary location
    emit_title(&mut out, "BINARY LOCATION");
    if let Some(p) = &f.exe_path {
        emit_check(&mut out, Style::Green, "✅", joined("Running from: ", p.as_str()));
    }
    let ghost s1 = spans(out@);
    let ghost fv = f.found_paths.deep_view();
    let mut i: usize = 0;
    while i < f.found_paths.len()
        invariant
            i <= f.found_paths@.len(),
            fv == f.found_paths.deep_view(),
            spans(out@) == s1 + found_lines(fv.take(i as int)),
        decreases f.found_paths@.len() - i,
    {
        emit_check(&mut out, Style::Green, "✅", joined("Found at: ", f.found_paths[i].as_str()));
        i = i + 1;
        proof {
            let t = fv.take(i as int);
            assert(t.drop_last() =~= fv.take(i - 1));
            assert(t.last() == f.found_paths@[i - 1]@);
        }
    }
    assert(fv.take(fv.len() as int) =~= fv);
    if f.found_paths.len() == 0 {
        emit_check(&mut out, Style::Red, "❌", "Not found in standard locations".to_owned());
    }
    emit_nl(&mut out);
    assert(spans(out@) =~= s0 + location_out(f.exe_path.deep_view(), fv));
    let ghost s2 = spans(out@);

    // PATH
    emit_title(&mut out, "PATH CONFIGURATION");
    let lb = joined(f.home.as_str(), "/.local/bin");
    let path_ok = path_has_local_bin(f.home.as_str(), f.path_var.as_str());
    if path_ok {
        emit_check(&mut out, Style::Green, "✅", joined(lb.as_str(), " is in PATH"));
    } else {
        emit_check(&mut out, Style::Yellow, "⚠️", joined(lb.as_str(), " is NOT in PATH"));
        emit_nl(&mut out);
        emit_text(&mut out, Style::YellowBold, "FIX:");
        emit_text(&mut out, Style::White, "Add this to your ~/.bashrc or ~/.zshrc:");
        emit_text(&mut out, Style::Cyan, "export PATH=\"$HOME/.local/bin:$PATH\"");
        emit_nl(&mut out);
        emit_text(&mut out, Style::White, "Then reload your config:");
        emit_text(&mut out, Style::Cyan, "source ~/.zshrc  # or source ~/.bashrc");
    }
    emit_nl(&mut out);
    assert(spans(out@) =~= s2 + path_out(f.home@, f.path_var@));
    let ghost s3 = spans(out@);

    // Dependencies
    emit_title(&mut out, "DEPENDENCIES");
    match &f.curl_version {
        Some(v) => {
            let ls = split_lines(&chars_of(v.as_str()));
            let first = if ls.len() > 0 {
                assert(crate::text::views(ls@)[0] == ls@[0]@);
                string_of(&ls[0])
            } else {
                "curl found".to_owned()
            };
            emit_check(&mut out, Style::Green, "✅", joined("curl: ", first.as_str()));
        },
        None => {
            emit_check(&mut out, Style::Red, "❌", "curl: Not found (required for HTTP mode)".to_owned());
        },
    }
    emit_nl(&mut out);
    assert(spans(out@) =~= s3 + dependencies_out(f.curl_version.deep_view()));
    let ghost s4 = spans(out@);

    // Connectivity
    emit_title(&mut out, "CONNECTIVITY TEST");
    match &f.probe_code {
        Some(c) => {
            let t = trim_chars(&chars_of(c.as_str()));
            if eq_str(&t, "200") {
                emit_check(&mut out, Style::Green, "✅", "Internet connection: OK".to_owned());
            } else {
                emit_check(&mut out, Style::Yellow, "⚠️", joined("HTTP status: ", string_of(&t).as_str()));
            }
        },
        None => {
            emit_check(&mut out, Style::Red, "❌", "Could not connect to the internet".to_owned());
        },
    }
    emit_nl(&mut out);
    assert(spans(out@) =~= s4 + connectivity_out(f.probe_code.deep_view()));
    let ghost s5 = spans(out@);

    // Summary
    emit_title(&mut out, "SUMMARY");
    if f.found_paths.len() > 0 && path_ok {
        emit_check(&mut out, Style::Green, "✅", "Everything is properly configured!".to_owned());
        emit_nl(&mut out);
        emit_text(&mut out, Style::Dim, "Try running:");
        emit_text(&mut out, Style::Cyan, "pcurl 'curl https://httpbin.org/get'");
    } else {
        emit_check(&mut out, Style::Yellow, "⚠️", "Found some issues. See the fixes above.".to_owned());
    }
    emit_nl(&mut out);
    assert(spans(out@) =~= s5 + summary_out(all_good(fv, f.home@, f.path_var@)));
    assert(spans(out@) =~= doctor_out(
        f.home@,
        f.exe_path.deep_view(),
        fv,
        f.path_var@,
        f.curl_version.deep_view(),
        f.probe_code.deep_view(),
    ));
    out
}

} // verus!
