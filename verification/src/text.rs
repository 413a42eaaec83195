//! Character-level helpers over `Seq<char>`, the view of `str` and `String`.

use vstd::prelude::*;

verus! {

/// Whitespace as `char::is_whitespace` defines it: the Unicode `White_Space` property.
pub open spec fn is_ws(c: char) -> bool {
    ||| ('\u{9}' <= c && c <= '\u{D}')
    ||| c == ' '
    ||| c == '\u{85}'
    ||| c == '\u{A0}'
    ||| c == '\u{1680}'
    ||| ('\u{2000}' <= c && c <= '\u{200A}')
    ||| c == '\u{2028}'
    ||| c == '\u{2029}'
    ||| c == '\u{202F}'
    ||| c == '\u{205F}'
    ||| c == '\u{3000}'
}

/// Executable test for `is_ws`.
pub fn is_whitespace(c: char) -> (r: bool)
    ensures
        r == is_ws(c),
{
    ('\u{9}' <= c && c <= '\u{D}') || c == ' ' || c == '\u{85}' || c == '\u{A0}' || c
        == '\u{1680}' || ('\u{2000}' <= c && c <= '\u{200A}') || c == '\u{2028}' || c
        == '\u{2029}' || c == '\u{202F}' || c == '\u{205F}' || c == '\u{3000}'
}

/// The characters of a string slice, in order.
pub fn chars_of(s: &str) -> (v: Vec<char>)
    ensures
        v@ == s@,
{
    let mut v: Vec<char> = Vec::new();
    for c in it: s.chars()
        invariant
            v@ == it.seq().take(it.index() as int),
            it.seq() == s@,
    {
        v.push(c);
    }
    v
}

/// Appends one character to a `String` (`String::push`).
#[verifier::external_body]
pub(crate) fn push_char(s: &mut String, c: char)
    ensures
        final(s)@ == old(s)@.push(c),
{
    s.push(c);
}

/// A `String` holding exactly the given characters.
pub fn string_of(v: &[char]) -> (s: String)
    ensures
        s@ == v@,
{
    let mut s = String::new();
    let mut i: usize = 0;
    while i < v.len()
        invariant
            i <= v@.len(),
            s@ == v@.take(i as int),
        decreases v@.len() - i,
    {
        push_char(&mut s, v[i]);
        i = i + 1;
        assert(v@.take(i as int) =~= v@.take((i - 1) as int).push(v@[i - 1]));
    }
    assert(v@.take(v@.len() as int) =~= v@);
    s
}


/// The views of a sequence of character vectors.
pub open spec fn views(v: Seq<Vec<char>>) -> Seq<Seq<char>> {
    v.map_values(|t: Vec<char>| t@)
}

/// Pushing onto a vector pushes the deep view of the element onto its deep view.
pub proof fn lemma_deep_view_push<T: DeepView>(before: Vec<T>, after: Vec<T>, x: T)
    requires
        after@ == before@.push(x),
    ensures
        after.deep_view() == before.deep_view().push(x.deep_view()),
{
    assert(after.deep_view() =~= before.deep_view().push(x.deep_view()));
}

/// Appends the characters of `t` to `s`.
pub fn push_str(s: &mut String, t: &str)
    ensures
        final(s)@ == old(s)@ + t@,
{
    let v = chars_of(t);
    let mut i: usize = 0;
    while i < v.len()
        invariant
            i <= v@.len(),
            s@ == old(s)@ + v@.take(i as int),
        decreases v@.len() - i,
    {
        push_char(s, v[i]);
        i = i + 1;
        assert(old(s)@ + v@.take(i as int) =~= (old(s)@ + v@.take((i - 1) as int)).push(v@[i - 1]));
    }
    assert(v@.take(v@.len() as int) =~= v@);
}

/// `s` with leading whitespace removed (`str::trim_start`).
pub open spec fn trim_start(s: Seq<char>) -> Seq<char>
    decreases s.len(),
{
    if s.len() > 0 && is_ws(s[0]) {
        trim_start(s.drop_first())
    } else {
        s
    }
}

/// `s` with trailing whitespace removed (`str::trim_end`).
pub open spec fn trim_end(s: Seq<char>) -> Seq<char>
    decreases s.len(),
{
    if s.len() > 0 && is_ws(s.last()) {
        trim_end(s.drop_last())
    } else {
        s
    }
}

/// `s` with whitespace removed at both ends (`str::trim`).
pub open spec fn trim(s: Seq<char>) -> Seq<char> {
    trim_end(trim_start(s))
}

/// `p` is a prefix of `s`.
pub open spec fn starts_with(s: Seq<char>, p: Seq<char>) -> bool {
    p.len() <= s.len() && s.subrange(0, p.len() as int) == p
}

/// Position of the first `c` in `s` at or after `i`.
pub open spec fn find_from(s: Seq<char>, c: char, i: int) -> Option<int>
    decreases s.len() - i,
{
    if i < 0 || i >= s.len() {
        None
    } else if s[i] == c {
        Some(i)
    } else {
        find_from(s, c, i + 1)
    }
}

/// Position of the first `c` in `s` (`str::find` counted in characters).
pub open spec fn find_char(s: Seq<char>, c: char) -> Option<int> {
    find_from(s, c, 0)
}

/// Code point of `c` with ASCII upper-case letters folded to lower case.
pub open spec fn lower_code(c: char) -> u32 {
    if 'A' <= c && c <= 'Z' {
        ((c as u32) + 32) as u32
    } else {
        c as u32
    }
}

/// The code points of `s` with ASCII letters folded to lower case.
pub open spec fn ascii_lower(s: Seq<char>) -> Seq<u32> {
    s.map_values(|c: char| lower_code(c))
}

pub proof fn lemma_trim_start_skip(s: Seq<char>, i: int)
    requires
        0 <= i <= s.len(),
        forall|k: int| 0 <= k < i ==> is_ws(#[trigger] s[k]),
    ensures
        trim_start(s) == trim_start(s.skip(i)),
    decreases i,
{
    if i > 0 {
        lemma_trim_start_skip(s, i - 1);
        assert(s.skip(i - 1).drop_first() =~= s.skip(i));
    } else {
        assert(s.skip(0) =~= s);
    }
}

pub proof fn lemma_trim_end_take(s: Seq<char>, j: int)
    requires
        0 <= j <= s.len(),
        forall|k: int| j <= k < s.len() ==> is_ws(#[trigger] s[k]),
    ensures
        trim_end(s) == trim_end(s.take(j)),
    decreases s.len() - j,
{
    if j < s.len() {
        lemma_trim_end_take(s, j + 1);
        assert(s.take(j + 1).drop_last() =~= s.take(j));
    } else {
        assert(s.take(j) =~= s);
    }
}

/// No whitespace at either end.
pub open spec fn is_trimmed(v: Seq<char>) -> bool {
    v.len() == 0 || (!is_ws(v[0]) && !is_ws(v.last()))
}

/// How many characters `trim_start` removes.
pub proof fn trim_start_count(x: Seq<char>) -> (n: int)
    ensures
        0 <= n <= x.len(),
        trim_start(x) == x.skip(n),
        n == x.len() || !is_ws(x[n]),
    decreases x.len(),
{
    if x.len() > 0 && is_ws(x[0]) {
        let k = trim_start_count(x.drop_first());
        assert(x.drop_first().skip(k) =~= x.skip(k + 1));
        if k < x.drop_first().len() {
            assert(x.drop_first()[k] == x[k + 1]);
        }
        k + 1
    } else {
        assert(x.skip(0) =~= x);
        0
    }
}

/// How many characters `trim_end` keeps.
pub proof fn trim_end_count(y: Seq<char>) -> (m: int)
    ensures
        0 <= m <= y.len(),
        trim_end(y) == y.take(m),
        m == 0 || !is_ws(y[m - 1]),
    decreases y.len(),
{
    if y.len() > 0 && is_ws(y.last()) {
        let k = trim_end_count(y.drop_last());
        assert(y.drop_last().take(k) =~= y.take(k));
        if k > 0 {
            assert(y.drop_last()[k - 1] == y[k - 1]);
        }
        k
    } else {
        assert(y.take(y.len() as int) =~= y);
        if y.len() > 0 {
            assert(y[y.len() - 1] == y.last());
        }
        y.len() as int
    }
}

/// `trim` keeps a run of the characters of `x`: those from `a` to `b`.
pub proof fn trim_bounds(x: Seq<char>) -> (r: (int, int))
    ensures
        0 <= r.0 <= r.1 <= x.len(),
        trim(x) == x.subrange(r.0, r.1),
        is_trimmed(trim(x)),
{
    let n = trim_start_count(x);
    let t = x.skip(n);
    let m = trim_end_count(t);
    assert(t.take(m) =~= x.subrange(n, n + m));
    if m > 0 {
        assert(t[0] == x[n]);
        assert(trim(x)[0] == t[0]);
        assert(trim(x).last() == t[m - 1]);
    }
    (n, n + m)
}

/// A trimmed text is left as it is by `trim`.
pub proof fn lemma_trim_trimmed(v: Seq<char>)
    requires
        is_trimmed(v),
    ensures
        trim_start(v) == v,
        trim_end(v) == v,
        trim(v) == v,
{
}

/// A space in front of a trimmed text is trimmed away.
pub proof fn lemma_trim_space_prefix(v: Seq<char>)
    requires
        is_trimmed(v),
    ensures
        trim(" "@ + v) == v,
{
    reveal_strlit(" ");
    let s = " "@ + v;
    assert(s[0] == ' ');
    assert(s.drop_first() =~= v);
    lemma_trim_trimmed(v);
}

/// `find_from` stops at the first `c` from `i` on.
pub proof fn lemma_find_from_first(s: Seq<char>, c: char, i: int, k: int)
    requires
        0 <= i <= k < s.len(),
        s[k] == c,
        forall|j: int| i <= j < k ==> s[j] != c,
    ensures
        find_from(s, c, i) == Some(k),
    decreases k - i,
{
    if i < k {
        lemma_find_from_first(s, c, i + 1, k);
    }
}

/// Before the position that `find_from` gives, `c` does not occur.
pub proof fn lemma_find_from_before(s: Seq<char>, c: char, i: int)
    requires
        0 <= i,
    ensures
        find_from(s, c, i) matches Some(k) ==> i <= k < s.len() && s[k] == c && forall|j: int|
            i <= j < k ==> s[j] != c,
        find_from(s, c, i) is None ==> forall|j: int| i <= j < s.len() ==> s[j] != c,
    decreases s.len() - i,
{
    if i < s.len() && s[i] != c {
        lemma_find_from_before(s, c, i + 1);
    }
}

/// Index of the first character of `s` at or after `from` that is not whitespace.
pub fn skip_ws(s: &[char], from: usize) -> (i: usize)
    requires
        from <= s@.len(),
    ensures
        from <= i <= s@.len(),
        forall|k: int| from <= k < i ==> is_ws(#[trigger] s@[k]),
        i < s@.len() ==> !is_ws(s@[i as int]),
{
    let mut i = from;
    while i < s.len() && is_whitespace(s[i])
        invariant
            from <= i <= s@.len(),
            forall|k: int| from <= k < i ==> is_ws(#[trigger] s@[k]),
        decreases s@.len() - i,
    {
        i = i + 1;
    }
    i
}

/// The characters of `s[from..to]`.
pub fn slice_chars(s: &[char], from: usize, to: usize) -> (r: Vec<char>)
    requires
        from <= to <= s@.len(),
    ensures
        r@ == s@.subrange(from as int, to as int),
{
    let mut r: Vec<char> = Vec::new();
    let mut i = from;
    while i < to
        invariant
            from <= i <= to <= s@.len(),
            r@ == s@.subrange(from as int, i as int),
        decreases to - i,
    {
        r.push(s[i]);
        i = i + 1;
        assert(r@ =~= s@.subrange(from as int, i as int));
    }
    r
}

/// `s` with whitespace removed at both ends.
pub fn trim_chars(s: &[char]) -> (r: Vec<char>)
    ensures
        r@ == trim(s@),
{
    let i = skip_ws(s, 0);
    let mut j = s.len();
    while j > i && is_whitespace(s[j - 1])
        invariant
            i <= j <= s@.len(),
            forall|k: int| j <= k < s@.len() ==> is_ws(#[trigger] s@[k]),
        decreases j,
    {
        j = j - 1;
    }
    proof {
        lemma_trim_start_skip(s@, i as int);
        let t = s@.skip(i as int);
        assert(!(t.len() > 0 && is_ws(t[0])));
        assert(trim_start(s@) == t);
        assert forall|k: int| (j - i) <= k < t.len() implies is_ws(#[trigger] t[k]) by {
            assert(t[k] == s@[k + i]);
        }
        lemma_trim_end_take(t, j - i);
        let u = t.take(j - i);
        assert(u =~= s@.subrange(i as int, j as int));
        if u.len() > 0 {
            assert(u.last() == s@[j - 1]);
        }
    }
    slice_chars(s, i, j)
}

/// `s` with leading whitespace removed.
pub fn trim_start_chars(s: &[char]) -> (r: Vec<char>)
    ensures
        r@ == trim_start(s@),
{
    let i = skip_ws(s, 0);
    proof {
        lemma_trim_start_skip(s@, i as int);
        assert(s@.skip(i as int) =~= s@.subrange(i as int, s@.len() as int));
    }
    slice_chars(s, i, s.len())
}

/// Whether `p` is a prefix of `s`.
pub fn starts_with_chars(s: &[char], p: &[char]) -> (r: bool)
    ensures
        r == starts_with(s@, p@),
{
    if p.len() > s.len() {
        return false;
    }
    let mut i: usize = 0;
    while i < p.len()
        invariant
            p@.len() <= s@.len(),
            i <= p@.len(),
            forall|k: int| 0 <= k < i ==> s@[k] == p@[k],
        decreases p@.len() - i,
    {
        if s[i] != p[i] {
            assert(s@.subrange(0, p@.len() as int)[i as int] != p@[i as int]);
            return false;
        }
        i = i + 1;
    }
    assert(s@.subrange(0, p@.len() as int) =~= p@);
    true
}

/// Whether `s` begins with the characters of the literal `lit`.
pub fn starts_with_str(s: &[char], lit: &str) -> (r: bool)
    ensures
        r == starts_with(s@, lit@),
{
    let p = chars_of(lit);
    starts_with_chars(s, &p)
}

/// Whether two character sequences are equal.
pub fn chars_eq(a: &[char], b: &[char]) -> (r: bool)
    ensures
        r == (a@ == b@),
{
    if a.len() != b.len() {
        return false;
    }
    let r = starts_with_chars(a, b);
    assert(a@ =~= a@.subrange(0, b@.len() as int));
    r
}

/// Whether `s` holds exactly the characters of the literal `lit`.
pub fn eq_str(s: &[char], lit: &str) -> (r: bool)
    ensures
        r == (s@ == lit@),
{
    let p = chars_of(lit);
    chars_eq(s, &p)
}

/// Position of the first `c` in `s`.
pub fn find_char_exec(s: &[char], c: char) -> (r: Option<usize>)
    ensures
        r matches Some(k) ==> find_char(s@, c) == Some(k as int) && k < s@.len(),
        r is None ==> find_char(s@, c) is None,
{
    let mut i: usize = 0;
    while i < s.len()
        invariant
            i <= s@.len(),
            find_from(s@, c, 0) == find_from(s@, c, i as int),
        decreases s@.len() - i,
    {
        if s[i] == c {
            return Some(i);
        }
        i = i + 1;
    }
    None
}

/// Whether `s` and the literal `lit` are equal after folding ASCII letters to lower case.
pub fn ascii_lower_eq_str(s: &[char], lit: &str) -> (r: bool)
    ensures
        r == (ascii_lower(s@) == ascii_lower(lit@)),
{
    let p = chars_of(lit);
    if s.len() != p.len() {
        assert(ascii_lower(s@).len() != ascii_lower(p@).len());
        return false;
    }
    let mut i: usize = 0;
    while i < p.len()
        invariant
            p@ == lit@,
            s@.len() == p@.len(),
            i <= p@.len(),
            forall|k: int| 0 <= k < i ==> ascii_lower(s@)[k] == ascii_lower(p@)[k],
        decreases p@.len() - i,
    {
        let a = s[i];
        let b = p[i];
        let la: u32 = if 'A' <= a && a <= 'Z' { (a as u32) + 32 } else { a as u32 };
        let lb: u32 = if 'A' <= b && b <= 'Z' { (b as u32) + 32 } else { b as u32 };
        if la != lb {
            assert(ascii_lower(s@)[i as int] != ascii_lower(p@)[i as int]);
            return false;
        }
        i = i + 1;
    }
    assert(ascii_lower(s@) =~= ascii_lower(p@));
    true
}


/// The words of `s[i..]` (maximal runs of non-whitespace), after the words
/// `acc` already complete and the pending word `cur`.
pub open spec fn words_from(s: Seq<char>, i: int, acc: Seq<Seq<char>>, cur: Seq<char>) -> Seq<
    Seq<char>,
>
    decreases s.len() - i,
{
    if i < 0 || i >= s.len() {
        if cur.len() > 0 {
            acc.push(cur)
        } else {
            acc
        }
    } else if is_ws(s[i]) {
        words_from(
            s,
            i + 1,
            if cur.len() > 0 {
                acc.push(cur)
            } else {
                acc
            },
            Seq::empty(),
        )
    } else {
        words_from(s, i + 1, acc, cur.push(s[i]))
    }
}

/// The words of `s`, as `str::split_whitespace` yields them.
pub open spec fn words(s: Seq<char>) -> Seq<Seq<char>> {
    words_from(s, 0, Seq::empty(), Seq::empty())
}

/// The words of `s`.
pub fn split_whitespace(s: &[char]) -> (r: Vec<Vec<char>>)
    ensures
        views(r@) == words(s@),
{
    let mut acc: Vec<Vec<char>> = Vec::new();
    let mut cur: Vec<char> = Vec::new();
    let mut i: usize = 0;
    assert(views(acc@) =~= Seq::<Seq<char>>::empty());
    assert(cur@ =~= Seq::<char>::empty());
    while i < s.len()
        invariant
            i <= s@.len(),
            words_from(s@, i as int, views(acc@), cur@) == words(s@),
        decreases s@.len() - i,
    {
        if is_whitespace(s[i]) {
            if cur.len() > 0 {
                let ghost a = views(acc@);
                let ghost c = cur@;
                acc.push(cur);
                assert(views(acc@) =~= a.push(c));
                cur = Vec::new();
            }
            assert(cur@ =~= Seq::<char>::empty());
        } else {
            cur.push(s[i]);
        }
        i = i + 1;
    }
    if cur.len() > 0 {
        let ghost a = views(acc@);
        let ghost c = cur@;
        acc.push(cur);
        assert(views(acc@) =~= a.push(c));
    }
    acc
}

/// `l` without one trailing carriage return.
pub open spec fn strip_cr(l: Seq<char>) -> Seq<char> {
    if l.len() > 0 && l.last() == '\r' {
        l.drop_last()
    } else {
        l
    }
}

/// The lines of `s[i..]` after the lines `acc` and the pending line `cur`.
pub open spec fn lines_from(s: Seq<char>, i: int, acc: Seq<Seq<char>>, cur: Seq<char>) -> Seq<
    Seq<char>,
>
    decreases s.len() - i,
{
    if i < 0 || i >= s.len() {
        if cur.len() > 0 {
            acc.push(cur)
        } else {
            acc
        }
    } else if s[i] == '\n' {
        lines_from(s, i + 1, acc.push(strip_cr(cur)), Seq::empty())
    } else {
        lines_from(s, i + 1, acc, cur.push(s[i]))
    }
}

/// The lines of `s`, as `str::lines` yields them: split at `\n`, each line
/// ended by a newline loses a carriage return before it, and a final line
/// ending yields no empty line after it.
pub open spec fn lines(s: Seq<char>) -> Seq<Seq<char>> {
    lines_from(s, 0, Seq::empty(), Seq::empty())
}

/// The lines of `s`.
pub fn split_lines(s: &[char]) -> (r: Vec<Vec<char>>)
    ensures
        views(r@) == lines(s@),
{
    let mut acc: Vec<Vec<char>> = Vec::new();
    let mut cur: Vec<char> = Vec::new();
    let mut i: usize = 0;
    assert(views(acc@) =~= Seq::<Seq<char>>::empty());
    assert(cur@ =~= Seq::<char>::empty());
    while i < s.len()
        invariant
            i <= s@.len(),
            lines_from(s@, i as int, views(acc@), cur@) == lines(s@),
        decreases s@.len() - i,
    {
        if s[i] == '\n' {
            let ghost a = views(acc@);
            let ghost c = cur@;
            if cur.len() > 0 && cur[cur.len() - 1] == '\r' {
                cur.pop();
                assert(cur@ =~= strip_cr(c));
            }
            let ghost d = cur@;
            acc.push(cur);
            assert(views(acc@) =~= a.push(d));
            cur = Vec::new();
            assert(cur@ =~= Seq::<char>::empty());
        } else {
            cur.push(s[i]);
        }
        i = i + 1;
    }
    if cur.len() > 0 {
        let ghost a = views(acc@);
        let ghost c = cur@;
        acc.push(cur);
        assert(views(acc@) =~= a.push(c));
    }
    acc
}

/// `p` occurs in `s` at position `k`.
pub open spec fn occurs_at(s: Seq<char>, p: Seq<char>, k: int) -> bool {
    0 <= k && k + p.len() <= s.len() && s.subrange(k, k + p.len()) == p
}

/// `p` occurs somewhere in `s` (`str::contains`).
pub open spec fn contains(s: Seq<char>, p: Seq<char>) -> bool {
    exists|k: int| occurs_at(s, p, k)
}

/// Whether `p` occurs in `s` at position `k`.
pub fn occurs_at_exec(s: &[char], p: &[char], k: usize) -> (r: bool)
    ensures
        r == occurs_at(s@, p@, k as int),
{
    let n = s.len();
    if k > n || p.len() > n - k {
        return false;
    }
    let mut j: usize = 0;
    while j < p.len()
        invariant
            n == s@.len(),
            k + p@.len() <= n,
            j <= p@.len(),
            forall|m: int| 0 <= m < j ==> s@[k + m] == p@[m],
        decreases p@.len() - j,
    {
        if s[k + j] != p[j] {
            assert(s@.subrange(k as int, k + p@.len())[j as int] != p@[j as int]);
            return false;
        }
        j = j + 1;
    }
    assert(s@.subrange(k as int, k + p@.len()) =~= p@);
    true
}

/// Whether `p` occurs in `s`.
pub fn contains_chars(s: &[char], p: &[char]) -> (r: bool)
    ensures
        r == contains(s@, p@),
{
    if p.len() == 0 {
        assert(s@.subrange(0, 0) =~= p@);
        assert(occurs_at(s@, p@, 0));
        return true;
    }
    let mut k: usize = 0;
    while k < s.len()
        invariant
            k <= s@.len(),
            p@.len() > 0,
            forall|m: int| 0 <= m < k ==> !occurs_at(s@, p@, m),
        decreases s@.len() - k,
    {
        if occurs_at_exec(s, p, k) {
            return true;
        }
        k = k + 1;
    }
    false
}

/// The first position at or after `i` where `p` occurs in `s`.
pub open spec fn find_seq_from(s: Seq<char>, p: Seq<char>, i: int) -> Option<int>
    decreases s.len() - i,
{
    if i < 0 || i >= s.len() {
        None
    } else if occurs_at(s, p, i) {
        Some(i)
    } else {
        find_seq_from(s, p, i + 1)
    }
}

/// Position of the first occurrence of `p` in `s`.
pub fn find_seq_exec(s: &[char], p: &[char]) -> (r: Option<usize>)
    ensures
        r matches Some(k) ==> find_seq_from(s@, p@, 0) == Some(k as int) && k < s@.len()
            && occurs_at(s@, p@, k as int),
        r is None ==> find_seq_from(s@, p@, 0) is None,
{
    let n = s.len();
    let mut i: usize = 0;
    while i < n
        invariant
            n == s@.len(),
            i <= n,
            find_seq_from(s@, p@, 0) == find_seq_from(s@, p@, i as int),
        decreases n - i,
    {
        if occurs_at_exec(s, p, i) {
            return Some(i);
        }
        i = i + 1;
    }
    None
}

/// The pieces of `s[i..]` between occurrences of `sep`, after the pieces
/// `acc` and the pending piece `cur`; occurrences are taken left to right
/// without overlap.
pub open spec fn split_from(
    s: Seq<char>,
    sep: Seq<char>,
    i: int,
    acc: Seq<Seq<char>>,
    cur: Seq<char>,
) -> Seq<Seq<char>>
    decreases s.len() - i,
{
    if i < 0 || i >= s.len() {
        acc.push(cur)
    } else if sep.len() > 0 && occurs_at(s, sep, i) {
        split_from(s, sep, i + sep.len(), acc.push(cur), Seq::empty())
    } else {
        split_from(s, sep, i + 1, acc, cur.push(s[i]))
    }
}

/// The pieces of `s` between occurrences of `sep` (`str::split` with a string pattern).
pub open spec fn split_on(s: Seq<char>, sep: Seq<char>) -> Seq<Seq<char>> {
    split_from(s, sep, 0, Seq::empty(), Seq::empty())
}

/// Pieces already split off stay in front of those still to come.
pub proof fn lemma_split_from_acc(
    s: Seq<char>,
    sep: Seq<char>,
    i: int,
    acc: Seq<Seq<char>>,
    cur: Seq<char>,
)
    ensures
        split_from(s, sep, i, acc, cur) == acc + split_from(s, sep, i, Seq::empty(), cur),
    decreases s.len() - i,
{
    if i < 0 || i >= s.len() {
        assert(acc.push(cur) =~= acc + Seq::<Seq<char>>::empty().push(cur));
    } else if sep.len() > 0 && occurs_at(s, sep, i) {
        lemma_split_from_acc(s, sep, i + sep.len(), acc.push(cur), Seq::empty());
        lemma_split_from_acc(s, sep, i + sep.len(), Seq::<Seq<char>>::empty().push(cur), Seq::empty());
        assert(acc.push(cur) =~= acc + Seq::<Seq<char>>::empty().push(cur));
        assert((acc + Seq::<Seq<char>>::empty().push(cur)) + split_from(s, sep, i + sep.len(), Seq::empty(), Seq::empty())
            =~= acc + (Seq::<Seq<char>>::empty().push(cur) + split_from(s, sep, i + sep.len(), Seq::empty(), Seq::empty())));
    } else {
        lemma_split_from_acc(s, sep, i + 1, acc, cur.push(s[i]));
    }
}

/// Splitting the part of `p + b` after `p` is splitting `b`.
pub proof fn lemma_split_from_shift(
    p: Seq<char>,
    b: Seq<char>,
    sep: Seq<char>,
    i: int,
    acc: Seq<Seq<char>>,
    cur: Seq<char>,
)
    requires
        0 <= i,
    ensures
        split_from(p + b, sep, p.len() + i, acc, cur) == split_from(b, sep, i, acc, cur),
    decreases b.len() - i,
{
    let s = p + b;
    if i >= b.len() {
    } else {
        assert(s[p.len() + i] == b[i]);
        if p.len() + i + sep.len() <= s.len() {
            assert(s.subrange(p.len() + i, p.len() + i + sep.len()) =~= b.subrange(i, i + sep.len()));
        }
        assert(occurs_at(s, sep, p.len() + i) == occurs_at(b, sep, i));
        if sep.len() > 0 && occurs_at(b, sep, i) {
            lemma_split_from_shift(p, b, sep, i + sep.len(), acc.push(cur), Seq::empty());
            assert(p.len() + i + sep.len() == p.len() + (i + sep.len()));
        } else {
            lemma_split_from_shift(p, b, sep, i + 1, acc, cur.push(b[i]));
            assert(p.len() + i + 1 == p.len() + (i + 1));
        }
    }
}

proof fn lemma_split_walk(s: Seq<char>, a: Seq<char>, sep: Seq<char>, i: int)
    requires
        0 <= i <= a.len(),
        a.len() < s.len(),
        s.take(a.len() as int) == a,
        forall|k: int| 0 <= k < a.len() ==> !occurs_at(s, sep, k),
    ensures
        split_from(s, sep, i, Seq::empty(), a.take(i)) == split_from(s, sep, a.len() as int, Seq::empty(), a),
    decreases a.len() - i,
{
    if i < a.len() {
        assert(!occurs_at(s, sep, i));
        assert(s[i] == a[i]) by {
            assert(s.take(a.len() as int)[i] == s[i]);
        }
        assert(a.take(i).push(s[i]) =~= a.take(i + 1));
        lemma_split_walk(s, a, sep, i + 1);
    } else {
        assert(a.take(i) =~= a);
    }
}

/// A first piece `a` followed by the separator: `a` is split off whole, and
/// the rest is split as it stands, provided no separator occurs before the end of `a`.
pub proof fn lemma_split_prefix(a: Seq<char>, sep: Seq<char>, b: Seq<char>)
    requires
        sep.len() > 0,
        forall|k: int| 0 <= k < a.len() ==> !occurs_at(a + sep + b, sep, k),
    ensures
        split_on(a + sep + b, sep) == seq![a] + split_on(b, sep),
{
    let s = a + sep + b;
    let p = a + sep;
    assert(s.take(a.len() as int) =~= a);
    assert(a.take(0) =~= Seq::<char>::empty());
    lemma_split_walk(s, a, sep, 0);
    assert(s.subrange(a.len() as int, (a.len() + sep.len()) as int) =~= sep);
    assert(occurs_at(s, sep, a.len() as int));
    lemma_split_from_acc(s, sep, (a.len() + sep.len()) as int, Seq::<Seq<char>>::empty().push(a), Seq::empty());
    lemma_split_from_shift(p, b, sep, 0, Seq::empty(), Seq::empty());
    assert(p.len() + 0 == a.len() + sep.len());
    assert(Seq::<Seq<char>>::empty().push(a) =~= seq![a]);
}

/// The pieces joined with `sep` between them (`join`).
pub open spec fn join(pieces: Seq<Seq<char>>, sep: Seq<char>) -> Seq<char>
    decreases pieces.len(),
{
    if pieces.len() == 0 {
        Seq::empty()
    } else if pieces.len() == 1 {
        pieces[0]
    } else {
        join(pieces.drop_last(), sep) + sep + pieces.last()
    }
}

/// The pieces of `s` between occurrences of a non-empty `sep`.
pub fn split_on_chars(s: &[char], sep: &[char]) -> (r: Vec<Vec<char>>)
    requires
        sep@.len() > 0,
    ensures
        views(r@) == split_on(s@, sep@),
{
    let mut acc: Vec<Vec<char>> = Vec::new();
    let mut cur: Vec<char> = Vec::new();
    let mut i: usize = 0;
    let n = s.len();
    assert(views(acc@) =~= Seq::<Seq<char>>::empty());
    assert(cur@ =~= Seq::<char>::empty());
    while i < n
        invariant
            n == s@.len(),
            sep@.len() > 0,
            i <= n,
            split_from(s@, sep@, i as int, views(acc@), cur@) == split_on(s@, sep@),
        decreases n - i,
    {
        if occurs_at_exec(s, sep, i) {
            let ghost a = views(acc@);
            let ghost c = cur@;
            acc.push(cur);
            assert(views(acc@) =~= a.push(c));
            cur = Vec::new();
            assert(cur@ =~= Seq::<char>::empty());
            i = i + sep.len();
        } else {
            cur.push(s[i]);
            i = i + 1;
        }
    }
    let ghost a = views(acc@);
    let ghost c = cur@;
    acc.push(cur);
    assert(views(acc@) =~= a.push(c));
    acc
}

/// The pieces `pieces[from..]` joined with `sep`.
pub fn join_from(pieces: &Vec<Vec<char>>, from: usize, sep: &[char]) -> (r: Vec<char>)
    requires
        from <= pieces@.len(),
    ensures
        r@ == join(views(pieces@).skip(from as int), sep@),
{
    let mut r: Vec<char> = Vec::new();
    let mut i = from;
    let ghost ps = views(pieces@).skip(from as int);
    assert(ps.take(0) =~= Seq::<Seq<char>>::empty());
    while i < pieces.len()
        invariant
            from <= i <= pieces@.len(),
            ps == views(pieces@).skip(from as int),
            r@ == join(ps.take(i - from), sep@),
        decreases pieces@.len() - i,
    {
        let ghost before = r@;
        if i > from {
            let mut j: usize = 0;
            while j < sep.len()
                invariant
                    j <= sep@.len(),
                    r@ == before + sep@.take(j as int),
                decreases sep@.len() - j,
            {
                r.push(sep[j]);
                j = j + 1;
                assert(r@ =~= before + sep@.take(j as int));
            }
            assert(sep@.take(sep@.len() as int) =~= sep@);
        }
        let ghost mid = r@;
        let piece = &pieces[i];
        let mut k: usize = 0;
        while k < piece.len()
            invariant
                k <= piece@.len(),
                r@ == mid + piece@.take(k as int),
            decreases piece@.len() - k,
        {
            r.push(piece[k]);
            k = k + 1;
            assert(r@ =~= mid + piece@.take(k as int));
        }
        assert(piece@.take(piece@.len() as int) =~= piece@);
        i = i + 1;
        proof {
            let t = ps.take(i - from);
            assert(t.drop_last() =~= ps.take(i - 1 - from));
            assert(t.last() == piece@);
            if i - from == 1 {
                assert(before =~= Seq::<char>::empty());
                assert(r@ =~= t[0]);
            }
        }
    }
    assert(ps.take(pieces@.len() - from) =~= ps);
    r
}
} // verus!
