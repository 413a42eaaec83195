//! Writing the arguments that pcurl hands to curl back as a command line,
//! each in double quotes, and what parsing that command line gives.

use vstd::prelude::*;
use crate::curl_parser::{
    CurlModel, TokenKind, all_nonempty, apply_single, apply_valued, curl_args_spec, data_args,
    empty_model, first_token, flush, has_url_scheme, header_args, header_entry, header_line,
    injects_json_content_type, is_dash, is_separator, lemma_flag_shape, lemma_plain_chars,
    lemma_tokens_shift, method_args, parse_from, parse_spec, takes_value, token_kind,
    tokenize_spec, tokens_from,
};
use crate::text::{
    find_char, is_trimmed, lemma_find_from_before, lemma_find_from_first,
    lemma_trim_space_prefix, lemma_trim_trimmed, starts_with, trim, trim_bounds,
};

verus! {

/// A character as written inside double quotes: a backslash or a double
/// quote gets a backslash in front.
pub open spec fn escape_char(c: char) -> Seq<char> {
    if c == '\\' || c == '"' {
        seq!['\\', c]
    } else {
        seq![c]
    }
}

/// A text as written inside double quotes.
pub open spec fn escape_dq(x: Seq<char>) -> Seq<char>
    decreases x.len(),
{
    if x.len() == 0 {
        Seq::empty()
    } else {
        escape_char(x[0]) + escape_dq(x.drop_first())
    }
}

/// An argument in double quotes.
pub open spec fn quote_arg(x: Seq<char>) -> Seq<char> {
    seq!['"'] + escape_dq(x) + seq!['"']
}

/// Each argument after a space, in double quotes.
pub open spec fn quoted_words(args: Seq<Seq<char>>) -> Seq<char>
    decreases args.len(),
{
    if args.len() == 0 {
        Seq::empty()
    } else {
        seq![' '] + quote_arg(args[0]) + quoted_words(args.drop_first())
    }
}

/// The command line `curl "arg1" "arg2" ...`.
pub open spec fn command_of_args(args: Seq<Seq<char>>) -> Seq<char> {
    "curl"@ + quoted_words(args)
}

proof fn lemma_escaped_tokens(
    x: Seq<char>,
    rest: Seq<char>,
    toks: Seq<Seq<char>>,
    cur: Seq<char>,
)
    ensures
        tokens_from(escape_dq(x) + seq!['"'] + rest, 0, toks, cur, false, true) == tokens_from(
            rest,
            0,
            toks,
            cur + x,
            false,
            false,
        ),
    decreases x.len(),
{
    let s = escape_dq(x) + seq!['"'] + rest;
    if x.len() == 0 {
        let p = seq!['"'];
        assert(s =~= p + rest);
        assert(s[0] == '"');
        assert(tokens_from(s, 0, toks, cur, false, true) == tokens_from(s, 1, toks, cur, false, false));
        lemma_tokens_shift(p, rest, 0, toks, cur, false, false);
        assert(cur + x =~= cur);
    } else {
        let c = x[0];
        let e = escape_char(c);
        let xr = x.drop_first();
        let s2 = escape_dq(xr) + seq!['"'] + rest;
        assert(s =~= e + s2);
        lemma_escaped_tokens(xr, rest, toks, cur.push(c));
        assert(cur.push(c) + xr =~= cur + x);
        if c == '\\' || c == '"' {
            assert(s[0] == '\\');
            assert(s[1] == c);
            assert(tokens_from(s, 0, toks, cur, false, true) == tokens_from(
                s,
                2,
                toks,
                cur.push(c),
                false,
                true,
            ));
            lemma_tokens_shift(e, s2, 0, toks, cur.push(c), false, true);
        } else {
            assert(s[0] == c);
            assert(tokens_from(s, 0, toks, cur, false, true) == tokens_from(
                s,
                1,
                toks,
                cur.push(c),
                false,
                true,
            ));
            lemma_tokens_shift(e, s2, 0, toks, cur.push(c), false, true);
        }
    }
}

proof fn lemma_quoted_words_tokens(args: Seq<Seq<char>>, toks: Seq<Seq<char>>, cur: Seq<char>)
    requires
        all_nonempty(args),
    ensures
        tokens_from(quoted_words(args), 0, toks, cur, false, false) == flush(toks, cur) + args,
    decreases args.len(),
{
    if args.len() == 0 {
        assert(flush(toks, cur) + args =~= flush(toks, cur));
    } else {
        let a = args[0];
        let rest = args.drop_first();
        let qw = quoted_words(rest);
        let s = quoted_words(args);
        let p = seq![' ', '"'];
        let tail = escape_dq(a) + seq!['"'] + qw;
        assert(s =~= p + tail);
        assert(s[0] == ' ');
        assert(is_separator(' '));
        assert(s[1] == '"');
        let ft = flush(toks, cur);
        assert(tokens_from(s, 0, toks, cur, false, false) == tokens_from(
            s,
            1,
            ft,
            Seq::empty(),
            false,
            false,
        ));
        assert(tokens_from(s, 1, ft, Seq::empty(), false, false) == tokens_from(
            s,
            2,
            ft,
            Seq::empty(),
            false,
            true,
        ));
        lemma_tokens_shift(p, tail, 0, ft, Seq::empty(), false, true);
        lemma_escaped_tokens(a, qw, ft, Seq::empty());
        assert(Seq::<char>::empty() + a =~= a);
        assert(all_nonempty(rest)) by {
            assert forall|k: int| 0 <= k < rest.len() implies #[trigger] rest[k].len() > 0 by {
                assert(rest[k] == args[k + 1]);
            }
        }
        lemma_quoted_words_tokens(rest, ft, a);
        assert(args[0].len() > 0);
        assert(flush(ft, a) + rest =~= ft + args);
    }
}

/// Tokenizing `curl` and non-empty arguments, each in double quotes, gives
/// `curl` and the arguments back.
pub proof fn lemma_command_of_args_tokens(args: Seq<Seq<char>>)
    requires
        all_nonempty(args),
    ensures
        tokenize_spec(command_of_args(args)) == seq!["curl"@] + args,
{
    reveal_strlit("curl");
    let w = "curl"@;
    let qw = quoted_words(args);
    let s = w + qw;
    let e = Seq::<Seq<char>>::empty();
    assert(s.subrange(0, 4) =~= w);
    lemma_plain_chars(s, 0, w, 0, e, Seq::empty());
    assert(Seq::<char>::empty() + w.take(0) =~= Seq::<char>::empty());
    assert(Seq::<char>::empty() + w =~= w);
    lemma_tokens_shift(w, qw, 0, e, w, false, false);
    lemma_quoted_words_tokens(args, e, w);
    assert(flush(e, w) =~= seq![w]);
}


// ------------------------------------------------------------------------
// What the parser keeps
// ------------------------------------------------------------------------

/// A header as the parser keeps it: name and value trimmed, no colon in the name.
pub open spec fn header_ok(h: (Seq<char>, Seq<char>)) -> bool {
    &&& is_trimmed(h.0)
    &&& is_trimmed(h.1)
    &&& forall|j: int| 0 <= j < h.0.len() ==> h.0[j] != ':'
}

/// Extra arguments as the parser keeps them: flags that take a value, each
/// followed by a non-empty value, and flags passed on alone.
pub open spec fn extras_ok(e: Seq<Seq<char>>) -> bool
    decreases e.len(),
{
    if e.len() == 0 {
        true
    } else if token_kind(e[0]) is Valued {
        e.len() >= 2 && e[1].len() > 0 && extras_ok(e.skip(2))
    } else {
        (token_kind(e[0]) is Switch || (token_kind(e[0]) is Other && is_dash(e[0]))) && extras_ok(
            e.drop_first(),
        )
    }
}

/// What every model that the parser makes satisfies.
pub open spec fn model_ok(m: CurlModel) -> bool {
    &&& (m.url.len() == 0 || (token_kind(m.url) is Other && (has_url_scheme(m.url) || !is_dash(
        m.url,
    ))))
    &&& (m.method matches Some(x) ==> x.len() > 0)
    &&& (forall|k: int| 0 <= k < m.headers.len() ==> #[trigger] header_ok(m.headers[k]))
    &&& (m.data matches Some(d) ==> d.len() > 0)
    &&& extras_ok(m.extra_args)
}

proof fn lemma_extras_append(e: Seq<Seq<char>>, u: Seq<Seq<char>>)
    requires
        extras_ok(e),
        extras_ok(u),
    ensures
        extras_ok(e + u),
    decreases e.len(),
{
    if e.len() == 0 {
        assert(e + u =~= u);
    } else if token_kind(e[0]) is Valued {
        lemma_extras_append(e.skip(2), u);
        assert((e + u).skip(2) =~= e.skip(2) + u);
        assert((e + u)[0] == e[0]);
        assert((e + u)[1] == e[1]);
    } else {
        lemma_extras_append(e.drop_first(), u);
        assert((e + u).drop_first() =~= e.drop_first() + u);
        assert((e + u)[0] == e[0]);
    }
}

proof fn lemma_extras_nonempty(e: Seq<Seq<char>>)
    requires
        extras_ok(e),
    ensures
        all_nonempty(e),
    decreases e.len(),
{
    if e.len() > 0 {
        lemma_flag_shape(e[0]);
        if token_kind(e[0]) is Valued {
            lemma_extras_nonempty(e.skip(2));
            assert forall|k: int| 0 <= k < e.len() implies #[trigger] e[k].len() > 0 by {
                if k >= 2 {
                    assert(e[k] == e.skip(2)[k - 2]);
                }
            }
        } else {
            lemma_extras_nonempty(e.drop_first());
            assert forall|k: int| 0 <= k < e.len() implies #[trigger] e[k].len() > 0 by {
                if k >= 1 {
                    assert(e[k] == e.drop_first()[k - 1]);
                }
            }
        }
    }
}

proof fn lemma_header_entry_ok(v: Seq<char>)
    ensures
        header_entry(v) matches Some(h) ==> header_ok(h),
{
    lemma_find_from_before(v, ':', 0);
    if let Some(p) = find_char(v, ':') {
        let name = v.take(p);
        let r1 = trim_bounds(name);
        let r2 = trim_bounds(v.skip(p + 1));
        assert forall|j: int| 0 <= j < trim(name).len() implies trim(name)[j] != ':' by {
            assert(trim(name)[j] == name[r1.0 + j]);
            assert(name[r1.0 + j] == v[r1.0 + j]);
        }
    }
}

proof fn lemma_parse_keeps_ok(t: Seq<Seq<char>>, i: int, m: CurlModel)
    requires
        all_nonempty(t),
        model_ok(m),
        0 <= i,
    ensures
        model_ok(parse_from(t, i, m)),
    decreases t.len() - i,
{
    if i < t.len() {
        let k = token_kind(t[i]);
        lemma_flag_shape(t[i]);
        if takes_value(k) {
            if i + 1 < t.len() {
                let v = t[i + 1];
                assert(v.len() > 0);
                let m2 = apply_valued(m, t[i], v);
                match k {
                    TokenKind::Header => {
                        lemma_header_entry_ok(v);
                        if let Some(e) = header_entry(v) {
                            assert forall|j: int| 0 <= j < m2.headers.len() implies #[trigger] header_ok(
                                m2.headers[j],
                            ) by {
                                if j < m.headers.len() {
                                    assert(m2.headers[j] == m.headers[j]);
                                }
                            }
                        }
                    },
                    TokenKind::Valued => {
                        let u = seq![t[i], v];
                        assert(u.skip(2) =~= Seq::<Seq<char>>::empty());
                        assert(extras_ok(Seq::<Seq<char>>::empty()));
                        assert(extras_ok(u.skip(2)));
                        assert(u[0] == t[i] && u[1] == v);
                        assert(extras_ok(u));
                        lemma_extras_append(m.extra_args, u);
                        assert(m.extra_args.push(t[i]).push(v) =~= m.extra_args + u);
                    },
                    _ => {},
                }
                lemma_parse_keeps_ok(t, i + 2, m2);
            }
        } else {
            let x = t[i];
            let m2 = apply_single(m, x);
            let u = seq![x];
            assert(u.drop_first() =~= Seq::<Seq<char>>::empty());
            assert(extras_ok(Seq::<Seq<char>>::empty()));
            assert(extras_ok(u.drop_first()));
            assert(u[0] == x);
            assert(m.extra_args.push(x) =~= m.extra_args + u);
            if k is Switch {
                assert(extras_ok(u));
                lemma_extras_append(m.extra_args, u);
            } else if !(k is Dropped) {
                assert(k is Other);
                if !has_url_scheme(x) && is_dash(x) {
                    assert(extras_ok(u));
                    lemma_extras_append(m.extra_args, u);
                }
            }
            lemma_parse_keeps_ok(t, i + 1, m2);
        }
    }
}

proof fn lemma_tokens_nonempty(
    s: Seq<char>,
    i: int,
    toks: Seq<Seq<char>>,
    cur: Seq<char>,
    sq: bool,
    dq: bool,
)
    requires
        all_nonempty(toks),
    ensures
        all_nonempty(tokens_from(s, i, toks, cur, sq, dq)),
    decreases s.len() - i,
{
    if i < 0 || i >= s.len() {
    } else {
        let c = s[i];
        if c == '\'' && !dq {
            lemma_tokens_nonempty(s, i + 1, toks, cur, !sq, dq);
        } else if c == '"' && !sq {
            lemma_tokens_nonempty(s, i + 1, toks, cur, sq, !dq);
        } else if c == '\\' && dq {
            if i + 1 < s.len() {
                lemma_tokens_nonempty(s, i + 2, toks, cur.push(s[i + 1]), sq, dq);
            } else {
                lemma_tokens_nonempty(s, i + 1, toks, cur, sq, dq);
            }
        } else if is_separator(c) && !sq && !dq {
            lemma_tokens_nonempty(s, i + 1, flush(toks, cur), Seq::empty(), sq, dq);
        } else {
            lemma_tokens_nonempty(s, i + 1, toks, cur.push(c), sq, dq);
        }
    }
}

/// Every model that `CurlCommand::parse` makes keeps its parts as stated by `model_ok`.
pub proof fn lemma_parse_spec_ok(command: Seq<char>)
    ensures
        model_ok(parse_spec(command)),
{
    let t = tokenize_spec(command);
    lemma_tokens_nonempty(command, 0, Seq::empty(), Seq::empty(), false, false);
    assert(extras_ok(Seq::<Seq<char>>::empty()));
    lemma_parse_keeps_ok(t, first_token(t), empty_model());
}

// ------------------------------------------------------------------------
// Parsing the quoted arguments again
// ------------------------------------------------------------------------

proof fn lemma_parse_prefix(p: Seq<Seq<char>>, t: Seq<Seq<char>>, i: int, m: CurlModel)
    requires
        0 <= i,
    ensures
        parse_from(p + t, p.len() + i, m) == parse_from(t, i, m),
    decreases t.len() - i,
{
    let u = p + t;
    if i < t.len() {
        assert(u[p.len() + i] == t[i]);
        if i + 1 < t.len() {
            assert(u[p.len() + i + 1] == t[i + 1]);
        }
        if takes_value(token_kind(t[i])) {
            if i + 1 < t.len() {
                lemma_parse_prefix(p, t, i + 2, apply_valued(m, t[i], t[i + 1]));
            }
        } else {
            lemma_parse_prefix(p, t, i + 1, apply_single(m, t[i]));
        }
    }
}

proof fn lemma_unit_valued(f: Seq<char>, v: Seq<char>, rest: Seq<Seq<char>>, m: CurlModel)
    requires
        takes_value(token_kind(f)),
    ensures
        parse_from(seq![f, v] + rest, 0, m) == parse_from(rest, 0, apply_valued(m, f, v)),
{
    let u = seq![f, v] + rest;
    assert(u[0] == f && u[1] == v);
    lemma_parse_prefix(seq![f, v], rest, 0, apply_valued(m, f, v));
}

proof fn lemma_unit_single(x: Seq<char>, rest: Seq<Seq<char>>, m: CurlModel)
    requires
        !takes_value(token_kind(x)),
    ensures
        parse_from(seq![x] + rest, 0, m) == parse_from(rest, 0, apply_single(m, x)),
{
    let u = seq![x] + rest;
    assert(u[0] == x);
    lemma_parse_prefix(seq![x], rest, 0, apply_single(m, x));
}

proof fn lemma_literal_kinds()
    ensures
        token_kind("-i"@) is Dropped,
        token_kind("-s"@) is Dropped,
        token_kind("-X"@) is Method,
        token_kind("-H"@) is Header,
        token_kind("-d"@) is Data,
        "-i"@.len() > 0,
        "-s"@.len() > 0,
        "-X"@.len() > 0,
        "-H"@.len() > 0,
        "-d"@.len() > 0,
{
    reveal_strlit("-X");
    reveal_strlit("--request");
    reveal_strlit("-H");
    reveal_strlit("--header");
    reveal_strlit("-d");
    reveal_strlit("--data");
    reveal_strlit("--data-raw");
    reveal_strlit("--data-binary");
    reveal_strlit("--data-ascii");
    reveal_strlit("-i");
    reveal_strlit("--include");
    reveal_strlit("-s");
    reveal_strlit("--silent");
    reveal_strlit("-v");
    reveal_strlit("--verbose");
    reveal_strlit("-o");
    reveal_strlit("--output");
    reveal_strlit("-u");
    reveal_strlit("--user");
    reveal_strlit("--connect-timeout");
    reveal_strlit("--max-time");
    reveal_strlit("-m");
    reveal_strlit("--proxy");
    reveal_strlit("-x");
    reveal_strlit("--cacert");
    reveal_strlit("--cert");
    reveal_strlit("--key");
    reveal_strlit("--resolve");
    reveal_strlit("--dns-servers");
    reveal_strlit("-A");
    reveal_strlit("--user-agent");
    reveal_strlit("--referer");
    reveal_strlit("-e");
    reveal_strlit("-k");
    reveal_strlit("--insecure");
    reveal_strlit("-L");
    reveal_strlit("--location");
    reveal_strlit("-g");
    reveal_strlit("--compressed");
    reveal_strlit("--http1.0");
    reveal_strlit("--http1.1");
    reveal_strlit("--http2");
    reveal_strlit("--http3");
    reveal_strlit("-I");
    reveal_strlit("--head");
    assert("-i"@[1] != "-X"@[1] && "-i"@[1] != "-H"@[1] && "-i"@[1] != "-d"@[1]);
    assert("-s"@[1] != "-X"@[1] && "-s"@[1] != "-H"@[1] && "-s"@[1] != "-d"@[1]);
    assert("-i"@ != "-X"@ && "-i"@ != "-H"@ && "-i"@ != "-d"@);
    assert("-s"@ != "-X"@ && "-s"@ != "-H"@ && "-s"@ != "-d"@);
    assert("-i"@.len() != "--request"@.len() && "-i"@.len() != "--header"@.len());
    assert("-i"@.len() != "--data"@.len() && "-i"@.len() != "--data-raw"@.len());
    assert("-i"@.len() != "--data-binary"@.len() && "-i"@.len() != "--data-ascii"@.len());
}

proof fn lemma_dash_no_scheme(t: Seq<char>)
    requires
        is_dash(t),
    ensures
        !has_url_scheme(t),
{
    reveal_strlit("http://");
    reveal_strlit("https://");
    reveal_strlit("ftp://");
    if starts_with(t, "http://"@) {
        assert(t.subrange(0, 7)[0] == t[0]);
    }
    if starts_with(t, "https://"@) {
        assert(t.subrange(0, 8)[0] == t[0]);
    }
    if starts_with(t, "ftp://"@) {
        assert(t.subrange(0, 6)[0] == t[0]);
    }
}

proof fn lemma_header_roundtrip(h: (Seq<char>, Seq<char>))
    requires
        header_ok(h),
    ensures
        header_entry(header_line(h)) == Some(h),
{
    reveal_strlit(": ");
    reveal_strlit(" ");
    let l = header_line(h);
    let n = h.0.len() as int;
    assert(l[n] == ':');
    assert forall|j: int| 0 <= j < n implies l[j] != ':' by {
        assert(l[j] == h.0[j]);
    }
    lemma_find_from_first(l, ':', 0, n);
    assert(l.take(n) =~= h.0);
    assert(l.skip(n + 1) =~= " "@ + h.1);
    lemma_trim_trimmed(h.0);
    lemma_trim_space_prefix(h.1);
}

/// The header that pcurl adds for a JSON body.
pub open spec fn json_content_type() -> (Seq<char>, Seq<char>) {
    ("Content-Type"@, "application/json"@)
}

proof fn lemma_json_content_type_entry()
    ensures
        header_entry("Content-Type: application/json"@) == Some(json_content_type()),
{
    reveal_strlit("Content-Type");
    reveal_strlit("application/json");
    reveal_strlit("Content-Type: application/json");
    reveal_strlit(": ");
    let h = json_content_type();
    let name = h.0;
    assert(name.len() == 12);
    assert forall|j: int| 0 <= j < name.len() implies name[j] != ':' by {
        assert(name[j] == "Content-Type"@[j]);
    }
    assert(header_ok(h));
    assert(header_line(h) =~= "Content-Type: application/json"@);
    lemma_header_roundtrip(h);
}

proof fn lemma_headers_reparse(hs: Seq<(Seq<char>, Seq<char>)>, rest: Seq<Seq<char>>, m: CurlModel)
    requires
        forall|k: int| 0 <= k < hs.len() ==> #[trigger] header_ok(hs[k]),
    ensures
        parse_from(header_args(hs) + rest, 0, m) == parse_from(
            rest,
            0,
            CurlModel { headers: m.headers + hs, ..m },
        ),
    decreases hs.len(),
{
    if hs.len() == 0 {
        assert(header_args(hs) + rest =~= rest);
        assert(m.headers + hs =~= m.headers);
        assert(CurlModel { headers: m.headers + hs, ..m } == m);
    } else {
        let h = hs.last();
        let hp = hs.drop_last();
        let unit = seq!["-H"@, header_line(h)];
        assert(header_args(hs) + rest =~= header_args(hp) + (unit + rest));
        assert(header_ok(hs[hs.len() - 1]));
        assert forall|k: int| 0 <= k < hp.len() implies #[trigger] header_ok(hp[k]) by {
            assert(hp[k] == hs[k]);
        }
        lemma_headers_reparse(hp, unit + rest, m);
        let m1 = CurlModel { headers: m.headers + hp, ..m };
        lemma_literal_kinds();
        lemma_unit_valued("-H"@, header_line(h), rest, m1);
        lemma_header_roundtrip(h);
        assert(m1.headers.push(h) =~= m.headers + hs);
    }
}

proof fn lemma_extras_reparse(e: Seq<Seq<char>>, rest: Seq<Seq<char>>, m: CurlModel)
    requires
        extras_ok(e),
    ensures
        parse_from(e + rest, 0, m) == parse_from(
            rest,
            0,
            CurlModel { extra_args: m.extra_args + e, ..m },
        ),
    decreases e.len(),
{
    if e.len() == 0 {
        assert(e + rest =~= rest);
        assert(m.extra_args + e =~= m.extra_args);
        assert(CurlModel { extra_args: m.extra_args + e, ..m } == m);
    } else if token_kind(e[0]) is Valued {
        let tail = e.skip(2);
        assert(e + rest =~= seq![e[0], e[1]] + (tail + rest));
        lemma_unit_valued(e[0], e[1], tail + rest, m);
        let m1 = apply_valued(m, e[0], e[1]);
        assert(m1 == CurlModel { extra_args: m.extra_args.push(e[0]).push(e[1]), ..m });
        lemma_extras_reparse(tail, rest, m1);
        assert(m1.extra_args + tail =~= m.extra_args + e);
    } else {
        let tail = e.drop_first();
        assert(e + rest =~= seq![e[0]] + (tail + rest));
        lemma_unit_single(e[0], tail + rest, m);
        if token_kind(e[0]) is Other {
            lemma_dash_no_scheme(e[0]);
        }
        let m1 = apply_single(m, e[0]);
        assert(m1 == CurlModel { extra_args: m.extra_args.push(e[0]), ..m });
        lemma_extras_reparse(tail, rest, m1);
        assert(m1.extra_args + tail =~= m.extra_args + e);
    }
}

proof fn lemma_concat_nonempty(a: Seq<Seq<char>>, b: Seq<Seq<char>>)
    requires
        all_nonempty(a),
        all_nonempty(b),
    ensures
        all_nonempty(a + b),
{
    assert forall|k: int| 0 <= k < (a + b).len() implies #[trigger] (a + b)[k].len() > 0 by {
        if k < a.len() {
            assert((a + b)[k] == a[k]);
        } else {
            assert((a + b)[k] == b[k - a.len()]);
        }
    }
}

proof fn lemma_header_args_nonempty(h: Seq<(Seq<char>, Seq<char>)>)
    ensures
        all_nonempty(header_args(h)),
    decreases h.len(),
{
    reveal_strlit("-H");
    reveal_strlit(": ");
    if h.len() > 0 {
        lemma_header_args_nonempty(h.drop_last());
        let u = seq!["-H"@, header_line(h.last())];
        assert(header_line(h.last()).len() > 0);
        assert(all_nonempty(u));
        lemma_concat_nonempty(header_args(h.drop_last()), u);
    }
}

/// The headers that pcurl adds to the command: a JSON content type when the
/// body looks like a JSON object and no header names a content type.
pub open spec fn injected_headers(m: CurlModel) -> Seq<(Seq<char>, Seq<char>)> {
    if injects_json_content_type(m) {
        seq![json_content_type()]
    } else {
        Seq::empty()
    }
}

/// Writing the arguments that pcurl hands to curl as a command line, each
/// argument in double quotes (backslashes and double quotes escaped), and
/// parsing that command line gives the command back: the same URL, method,
/// body, headers and extra flags, with the JSON content type that pcurl
/// added as one more header. A command without a URL is left out: its
/// empty last argument would vanish in quotes.
pub proof fn law_args_reparse(command: Seq<char>)
    requires
        parse_spec(command).url.len() > 0,
    ensures
        ({
            let m = parse_spec(command);
            parse_spec(command_of_args(curl_args_spec(m))) == (CurlModel {
                headers: m.headers + injected_headers(m),
                ..m
            })
        }),
{
    let m = parse_spec(command);
    lemma_parse_spec_ok(command);
    lemma_literal_kinds();
    reveal_strlit("-i");
    reveal_strlit("-s");
    reveal_strlit("-X");
    reveal_strlit("-d");
    reveal_strlit("-H");
    reveal_strlit("Content-Type: application/json");
    let ma = method_args(m);
    let ha = header_args(m.headers);
    let da = data_args(m);
    let ex = m.extra_args;
    let u = seq![m.url];
    let r4 = ex + u;
    let r3 = da + r4;
    let r2 = ha + r3;
    let r1 = ma + r2;
    let r0 = seq!["-s"@] + r1;
    let args = curl_args_spec(m);
    assert(args =~= seq!["-i"@] + r0);
    lemma_header_args_nonempty(m.headers);
    lemma_extras_nonempty(ex);
    assert(all_nonempty(u));
    assert(all_nonempty(ma));
    assert(all_nonempty(da));
    lemma_concat_nonempty(ex, u);
    lemma_concat_nonempty(da, r4);
    lemma_concat_nonempty(ha, r3);
    lemma_concat_nonempty(ma, r2);
    assert(all_nonempty(seq!["-s"@]));
    lemma_concat_nonempty(seq!["-s"@], r1);
    assert(all_nonempty(seq!["-i"@]));
    lemma_concat_nonempty(seq!["-i"@], r0);
    lemma_command_of_args_tokens(args);
    let t = seq!["curl"@] + args;
    assert(t[0] == "curl"@);
    assert(first_token(t) == 1);
    lemma_parse_prefix(seq!["curl"@], args, 0, empty_model());
    let e0 = empty_model();
    lemma_unit_single("-i"@, r0, e0);
    lemma_unit_single("-s"@, r1, e0);
    let m1 = CurlModel { method: m.method, ..e0 };
    match m.method {
        Some(x) => {
            assert(r1 =~= seq!["-X"@, x] + r2);
            lemma_unit_valued("-X"@, x, r2, e0);
        },
        None => {
            assert(r1 =~= r2);
            assert(m1 == e0);
        },
    }
    lemma_headers_reparse(m.headers, r3, m1);
    let m2 = CurlModel { headers: m1.headers + m.headers, ..m1 };
    let m3 = CurlModel { data: m.data, headers: m2.headers + injected_headers(m), ..m2 };
    match m.data {
        Some(d) => {
            let m2d = CurlModel { data: Some(d), ..m2 };
            if injects_json_content_type(m) {
                let ct = "Content-Type: application/json"@;
                assert(r3 =~= seq!["-d"@, d] + (seq!["-H"@, ct] + r4));
                lemma_unit_valued("-d"@, d, seq!["-H"@, ct] + r4, m2);
                lemma_unit_valued("-H"@, ct, r4, m2d);
                lemma_json_content_type_entry();
                assert(m2d.headers.push(json_content_type()) =~= m2.headers + injected_headers(m));
            } else {
                assert(r3 =~= seq!["-d"@, d] + r4);
                lemma_unit_valued("-d"@, d, r4, m2);
                assert(m2.headers + injected_headers(m) =~= m2.headers);
            }
        },
        None => {
            assert(r3 =~= r4);
            assert(m2.headers + injected_headers(m) =~= m2.headers);
            assert(m3 == m2);
        },
    }
    lemma_extras_reparse(ex, u, m3);
    let m4 = CurlModel { extra_args: m3.extra_args + ex, ..m3 };
    lemma_unit_single(m.url, Seq::empty(), m4);
    assert(u + Seq::<Seq<char>>::empty() =~= u);
    if !has_url_scheme(m.url) {
        assert(!is_dash(m.url));
    }
    let m5 = apply_single(m4, m.url);
    assert(m5 == CurlModel { url: m.url, ..m4 });
    assert(m5.headers =~= m.headers + injected_headers(m));
    assert(m5.extra_args =~= m.extra_args);
}

} // verus!
