//! Reading the latest release tag from the GitHub API answer, comparing
//! versions, and the notice shown when a newer version exists.

use vstd::prelude::*;
use crate::numbers::{digits_u64_spec, digits_value, parse_digits_u64};
use crate::render::{Out, Span, Style, emit, emit_nl, emit_str, nl, piece, spans};
use crate::text::{
    chars_of, contains, contains_chars, find_char, find_char_exec, find_seq_exec, find_seq_from,
    lines, skip_ws, slice_chars, split_lines, split_on, split_on_chars, string_of, trim_start,
    lemma_trim_start_skip, views,
};

verus! {

// ------------------------------------------------------------------------
// The release tag
// ------------------------------------------------------------------------

/// The first of the lines `ls[i..]` that contains `p`.
pub open spec fn first_line_with(ls: Seq<Seq<char>>, p: Seq<char>, i: int) -> Option<Seq<char>>
    decreases ls.len() - i,
{
    if i < 0 || i >= ls.len() {
        None
    } else if contains(ls[i], p) {
        Some(ls[i])
    } else {
        first_line_with(ls, p, i + 1)
    }
}

/// The key of the release tag in the API answer, quotes included.
pub open spec fn tag_key() -> Seq<char> {
    "\"tag_name\""@
}

/// The string value of a quoted text: the characters after the opening
/// double quote up to the next one (escape sequences are not decoded; tags
/// hold none). None when `v` does not open with a quote or never closes it.
pub open spec fn quoted_value(v: Seq<char>) -> Option<Seq<char>> {
    if v.len() > 0 && v[0] == '"' {
        match find_char(v.drop_first(), '"') {
            Some(e) => Some(v.drop_first().take(e)),
            None => None,
        }
    } else {
        None
    }
}

/// The tag named on a line holding `"tag_name": "v1.2.3"`: the string value
/// after the first `"tag_name"` key and its colon (whitespace allowed around
/// the colon). The line may hold other members, as a compact answer does.
pub open spec fn tag_of_line(l: Seq<char>) -> Option<Seq<char>> {
    match find_seq_from(l, tag_key(), 0) {
        Some(p) => {
            let r = trim_start(l.skip(p + tag_key().len()));
            if r.len() > 0 && r[0] == ':' {
                quoted_value(trim_start(r.drop_first()))
            } else {
                None
            }
        },
        None => None,
    }
}

/// The latest release tag in the text of the GitHub API answer: the value
/// of the `tag_name` member on the first line that mentions it.
pub open spec fn latest_tag_spec(text: Seq<char>) -> Option<Seq<char>> {
    match first_line_with(lines(text), tag_key(), 0) {
        Some(l) => tag_of_line(l),
        None => None,
    }
}

fn trim_start_from(s: &[char], from: usize) -> (r: Vec<char>)
    requires
        from <= s@.len(),
    ensures
        r@ == trim_start(s@.skip(from as int)),
{
    let ghost t = s@.skip(from as int);
    let i = skip_ws(s, from);
    proof {
        assert forall|k: int| 0 <= k < i - from implies crate::text::is_ws(#[trigger] t[k]) by {
            assert(t[k] == s@[k + from]);
        }
        lemma_trim_start_skip(t, i - from);
        assert(t.skip(i - from) =~= s@.skip(i as int));
    }
    slice_chars(s, i, s.len())
}

fn quoted_value_exec(v: &[char]) -> (r: Option<Vec<char>>)
    ensures
        r.is_some() == quoted_value(v@).is_some(),
        r matches Some(x) ==> quoted_value(v@) == Some(x@),
{
    if v.len() == 0 || v[0] != '"' {
        return None;
    }
    let q = slice_chars(v, 1, v.len());
    assert(q@ =~= v@.drop_first());
    match find_char_exec(&q, '"') {
        Some(e) => {
            let x = slice_chars(&q, 0, e);
            assert(x@ =~= q@.take(e as int));
            Some(x)
        },
        None => None,
    }
}

fn tag_of_line_exec(l: &[char]) -> (r: Option<Vec<char>>)
    ensures
        r.is_some() == tag_of_line(l@).is_some(),
        r matches Some(x) ==> tag_of_line(l@) == Some(x@),
{
    let key = chars_of("\"tag_name\"");
    match find_seq_exec(l, &key) {
        Some(p) => {
            assert(crate::text::occurs_at(l@, key@, p as int));
            if key.len() > l.len() - p {
                return None;
            }
            let after = p + key.len();
            let r = trim_start_from(l, after);
            if r.len() > 0 && r[0] == ':' {
                let v = trim_start_from(&r, 1);
                assert(r@.skip(1) =~= r@.drop_first());
                quoted_value_exec(&v)
            } else {
                None
            }
        },
        None => None,
    }
}

/// Reads the latest release tag from the text of the GitHub API answer.
pub fn latest_tag_from(text: &str) -> (r: Option<String>)
    ensures
        r.deep_view() == latest_tag_spec(text@),
{
    let ls = split_lines(&chars_of(text));
    let ghost v = views(ls@);
    let pat = chars_of("\"tag_name\"");
    let n = ls.len();
    let mut i: usize = 0;
    while i < n
        invariant
            n == ls@.len(),
            i <= n,
            v == views(ls@),
            v == lines(text@),
            pat@ == tag_key(),
            first_line_with(v, pat@, 0) == first_line_with(v, pat@, i as int),
        decreases n - i,
    {
        assert(v[i as int] == ls@[i as int]@);
        if contains_chars(&ls[i], &pat) {
            return match tag_of_line_exec(&ls[i]) {
                Some(x) => Some(string_of(&x)),
                None => None,
            };
        }
        i = i + 1;
    }
    None
}

// ------------------------------------------------------------------------
// Comparing versions
// ------------------------------------------------------------------------

/// A version text without its leading `v`, if any.
pub open spec fn strip_v(s: Seq<char>) -> Seq<char> {
    if s.len() > 0 && s[0] == 'v' {
        s.drop_first()
    } else {
        s
    }
}

/// Every piece is a non-empty run of ASCII digits whose value fits in 64 bits.
pub open spec fn numeric_pieces(ps: Seq<Seq<char>>) -> bool {
    forall|k: int| 0 <= k < ps.len() ==> #[trigger] digits_u64_spec(ps[k]) is Some
}

/// The numbers of a version such as `1.2.3` or `v1.2.3` (a leading `v`
/// ignored): the dot-separated pieces, each a run of digits. None for any
/// other text (a pre-release suffix, an empty piece, a number over 64 bits).
pub open spec fn version_parts(s: Seq<char>) -> Option<Seq<nat>> {
    let ps = split_on(strip_v(s), "."@);
    if numeric_pieces(ps) {
        Some(ps.map_values(|p: Seq<char>| digits_value(p)))
    } else {
        None
    }
}

/// Number `i` of a version, 0 past its end (`1.2` reads as `1.2.0`).
pub open spec fn part(a: Seq<nat>, i: int) -> nat {
    if 0 <= i < a.len() {
        a[i]
    } else {
        0
    }
}

/// Version `a` is greater than version `b`, comparing numbers from position
/// `i` on, the first difference deciding.
pub open spec fn greater_from(a: Seq<nat>, b: Seq<nat>, i: int) -> bool
    decreases a.len() + b.len() - i,
{
    if i < 0 || (i >= a.len() && i >= b.len()) {
        false
    } else if part(a, i) > part(b, i) {
        true
    } else if part(a, i) < part(b, i) {
        false
    } else {
        greater_from(a, b, i + 1)
    }
}

/// `latest` names a newer version than `current`. Texts that are not
/// numeric versions are never newer.
pub open spec fn is_newer(latest: Seq<char>, current: Seq<char>) -> bool {
    match (version_parts(latest), version_parts(current)) {
        (Some(a), Some(b)) => greater_from(a, b, 0),
        _ => false,
    }
}

fn version_parts_exec(s: &str) -> (r: Option<Vec<u64>>)
    ensures
        r.is_some() == version_parts(s@).is_some(),
        r matches Some(v) ==> version_parts(s@) == Some(v@.map_values(|x: u64| x as nat)),
{
    let c = chars_of(s);
    let t = if c.len() > 0 && c[0] == 'v' {
        slice_chars(&c, 1, c.len())
    } else {
        slice_chars(&c, 0, c.len())
    };
    assert(t@ =~= strip_v(s@));
    let dot = chars_of(".");
    proof {
        reveal_strlit(".");
    }
    let ps = split_on_chars(&t, &dot);
    let ghost pv = views(ps@);
    let mut out: Vec<u64> = Vec::new();
    let mut i: usize = 0;
    while i < ps.len()
        invariant
            i <= ps@.len(),
            pv == views(ps@),
            pv == split_on(strip_v(s@), "."@),
            out@.len() == i,
            forall|k: int| 0 <= k < i ==> #[trigger] digits_u64_spec(pv[k]) == Some(out@[k]),
        decreases ps@.len() - i,
    {
        assert(pv[i as int] == ps@[i as int]@);
        match parse_digits_u64(&ps[i]) {
            Some(x) => {
                out.push(x);
            },
            None => {
                assert(!numeric_pieces(pv));
                return None;
            },
        }
        i = i + 1;
    }
    proof {
        assert(numeric_pieces(pv));
        assert(pv.map_values(|p: Seq<char>| digits_value(p)) =~= out@.map_values(|x: u64| x as nat))
            by {
            assert forall|k: int| 0 <= k < pv.len() implies digits_value(pv[k]) == out@[k] as nat by {
                assert(digits_u64_spec(pv[k]) == Some(out@[k]));
            }
        }
    }
    Some(out)
}

fn part_exec(a: &Vec<u64>, i: usize) -> (r: u64)
    ensures
        r as nat == part(a@.map_values(|x: u64| x as nat), i as int),
{
    if i < a.len() {
        a[i]
    } else {
        0
    }
}

fn greater_exec(a: &Vec<u64>, b: &Vec<u64>) -> (r: bool)
    ensures
        r == greater_from(a@.map_values(|x: u64| x as nat), b@.map_values(|x: u64| x as nat), 0),
{
    let ghost av = a@.map_values(|x: u64| x as nat);
    let ghost bv = b@.map_values(|x: u64| x as nat);
    let n = if a.len() > b.len() {
        a.len()
    } else {
        b.len()
    };
    let mut i: usize = 0;
    while i < n
        invariant
            av == a@.map_values(|x: u64| x as nat),
            bv == b@.map_values(|x: u64| x as nat),
            n == (if a@.len() > b@.len() { a@.len() } else { b@.len() }),
            i <= n,
            greater_from(av, bv, 0) == greater_from(av, bv, i as int),
        decreases n - i,
    {
        let x = part_exec(a, i);
        let y = part_exec(b, i);
        if x > y {
            return true;
        }
        if x < y {
            return false;
        }
        i = i + 1;
    }
    false
}

/// Whether `latest` names a newer version than `current` (a leading `v`
/// ignored on either).
pub fn newer_version(latest: &str, current: &str) -> (r: bool)
    ensures
        r == is_newer(latest@, current@),
{
    match (version_parts_exec(latest), version_parts_exec(current)) {
        (Some(a), Some(b)) => greater_exec(&a, &b),
        _ => false,
    }
}

proof fn lemma_greater_irreflexive(a: Seq<nat>, i: int)
    ensures
        !greater_from(a, a, i),
    decreases a.len() + a.len() - i,
{
    if !(i < 0 || i >= a.len()) {
        lemma_greater_irreflexive(a, i + 1);
    }
}

proof fn lemma_greater_asymmetric(a: Seq<nat>, b: Seq<nat>, i: int)
    ensures
        greater_from(a, b, i) ==> !greater_from(b, a, i),
    decreases a.len() + b.len() - i,
{
    if !(i < 0 || (i >= a.len() && i >= b.len())) {
        lemma_greater_asymmetric(a, b, i + 1);
    }
}

/// The same version, written with or without a leading `v`, is never newer:
/// no notice is given for it.
pub proof fn law_same_version_not_newer(latest: Seq<char>, current: Seq<char>)
    requires
        strip_v(latest) == strip_v(current),
    ensures
        !is_newer(latest, current),
        update_notice_spec(current, latest) is None,
{
    if let Some(a) = version_parts(latest) {
        lemma_greater_irreflexive(a, 0);
    }
}

/// Of two versions, at most one is newer than the other.
pub proof fn law_newer_asymmetric(a: Seq<char>, b: Seq<char>)
    ensures
        is_newer(a, b) ==> !is_newer(b, a),
{
    if let (Some(x), Some(y)) = (version_parts(a), version_parts(b)) {
        lemma_greater_asymmetric(x, y, 0);
    }
}

/// The tag is read back from a line as the API writes it: a tag without
/// double quotes, written as `"tag_name": "<tag>",`, is read as `<tag>`.
pub proof fn law_tag_read_back(tag: Seq<char>)
    requires
        forall|k: int| 0 <= k < tag.len() ==> tag[k] != '"',
    ensures
        tag_of_line("\"tag_name\": \""@ + tag + "\","@) == Some(tag),
{
    reveal_strlit("\"tag_name\"");
    reveal_strlit("\"tag_name\": \"");
    reveal_strlit("\",");
    let l = "\"tag_name\": \""@ + tag + "\","@;
    let key = tag_key();
    assert(l.subrange(0, key.len() as int) =~= key);
    assert(find_seq_from(l, key, 0) == Some(0int));
    let r0 = l.skip(key.len() as int);
    assert(r0[0] == ':');
    assert(trim_start(r0) == r0);
    let d = r0.drop_first();
    assert(d[0] == ' ');
    assert(d.drop_first()[0] == '"');
    assert(trim_start(d.drop_first()) == d.drop_first());
    assert(trim_start(d) == d.drop_first());
    let v = d.drop_first();
    let q = v.drop_first();
    assert(q =~= tag + "\","@);
    assert(q[tag.len() as int] == '"');
    crate::text::lemma_find_from_first(q, '"', 0, tag.len() as int);
    assert(q.take(tag.len() as int) =~= tag);
}

// ------------------------------------------------------------------------
// The notice
// ------------------------------------------------------------------------

/// The notice of a newer version on standard error, when the latest release
/// is newer than the running version; nothing otherwise.
pub open spec fn update_notice_spec(current: Seq<char>, latest: Seq<char>) -> Option<Out> {
    if !is_newer(latest, current) {
        None
    } else {
        Some(
            piece(Style::Yellow, "⚠️"@) + piece(Style::Plain, " New version available: "@ + current
                + " → "@) + piece(Style::Green, latest) + piece(Style::Plain, " (run "@) + piece(
                Style::Cyan,
                "pcurl --update"@,
            ) + piece(Style::Plain, " to update)"@) + nl() + nl(),
        )
    }
}

/// Renders the notice of a newer version, if the latest release is newer.
pub fn update_notice(current: &str, latest: &str) -> (r: Option<Vec<Span>>)
    ensures
        match r {
            Some(o) => update_notice_spec(current@, latest@) == Some(spans(o@)),
            None => update_notice_spec(current@, latest@) is None,
        },
{
    if !newer_version(latest, current) {
        return None;
    }
    let mut out: Vec<Span> = Vec::new();
    assert(spans(out@) =~= Seq::empty());
    emit_str(&mut out, Style::Yellow, "⚠️");
    let mut m = " New version available: ".to_owned();
    crate::text::push_str(&mut m, current);
    crate::text::push_str(&mut m, " → ");
    emit(&mut out, Style::Plain, m);
    emit(&mut out, Style::Green, latest.to_owned());
    emit_str(&mut out, Style::Plain, " (run ");
    emit_str(&mut out, Style::Cyan, "pcurl --update");
    emit_str(&mut out, Style::Plain, " to update)");
    emit_nl(&mut out);
    emit_nl(&mut out);
    assert(spans(out@) =~= update_notice_spec(current@, latest@)->Some_0);
    Some(out)
}

} // verus!
