//! Writing numbers in decimal and hexadecimal, and reading decimal status codes.

use vstd::prelude::*;

verus! {

/// The character for digit `d` (`0`-`9`, then `a`-`f`).
pub open spec fn digit_char(d: nat) -> char {
    if d < 10 {
        (48 + d) as char
    } else {
        (87 + d) as char
    }
}

/// The digits of `n` in base `b`, most significant first, without leading zeros
/// (`0` is written as one digit).
pub open spec fn radix_text(n: nat, b: nat) -> Seq<char>
    recommends
        b >= 2,
    decreases n,
{
    if b < 2 || n < b {
        seq![digit_char(n)]
    } else {
        proof {
            assert(n / b < n) by (nonlinear_arith)
                requires
                    n >= b,
                    b >= 2,
            ;
        }
        radix_text(n / b, b).push(digit_char(n % b))
    }
}

/// Decimal text of `n`, as `{}` writes an unsigned integer.
pub open spec fn decimal_text(n: nat) -> Seq<char> {
    radix_text(n, 10)
}

/// Lower-case hexadecimal text of `n`, as `{:x}` writes an unsigned integer.
pub open spec fn hex_text(n: nat) -> Seq<char> {
    radix_text(n, 16)
}

pub(crate) fn digit_exec(d: u128) -> (c: char)
    requires
        d < 16,
    ensures
        c == digit_char(d as nat),
{
    let small = d as u8;
    if small < 10 {
        (48u8 + small) as char
    } else {
        (87u8 + small) as char
    }
}

/// The digits of `n` in base `b` (2 to 16).
pub fn radix_chars(n: u128, b: u128) -> (r: Vec<char>)
    requires
        2 <= b <= 16,
    ensures
        r@ == radix_text(n as nat, b as nat),
{
    let mut rev: Vec<char> = Vec::new();
    let mut q = n;
    let ghost mut tail: Seq<char> = Seq::empty();
    while q >= b
        invariant
            2 <= b <= 16,
            radix_text(n as nat, b as nat) == radix_text(q as nat, b as nat) + tail,
            rev@.len() == tail.len(),
            forall|k: int| 0 <= k < rev@.len() ==> #[trigger] rev@[k] == tail[tail.len() - 1 - k],
        decreases q,
    {
        let d = q % b;
        let ghost old_q = q;
        let ghost old_tail = tail;
        rev.push(digit_exec(d));
        q = q / b;
        proof {
            tail = seq![digit_char(d as nat)] + old_tail;
            assert(radix_text(old_q as nat, b as nat) == radix_text(q as nat, b as nat).push(
                digit_char(d as nat),
            ));
            assert(radix_text(q as nat, b as nat).push(digit_char(d as nat)) + old_tail
                =~= radix_text(q as nat, b as nat) + tail);
        }
    }
    let mut out: Vec<char> = Vec::new();
    out.push(digit_exec(q));
    let n_rev = rev.len();
    let mut k: usize = 0;
    assert(out@ =~= radix_text(q as nat, b as nat) + tail.take(0));
    while k < n_rev
        invariant
            n_rev == rev@.len(),
            rev@.len() == tail.len(),
            forall|j: int| 0 <= j < rev@.len() ==> #[trigger] rev@[j] == tail[tail.len() - 1 - j],
            k <= n_rev,
            q < b,
            out@ == radix_text(q as nat, b as nat) + tail.take(k as int),
        decreases n_rev - k,
    {
        let c = rev[n_rev - 1 - k];
        assert(c == tail[k as int]);
        out.push(c);
        k = k + 1;
        assert(tail.take(k as int) =~= tail.take((k - 1) as int).push(c));
        assert(out@ =~= radix_text(q as nat, b as nat) + tail.take(k as int));
    }
    assert(tail.take(n_rev as int) =~= tail);
    out
}

/// The value of a string of decimal digits.
pub open spec fn digits_value(s: Seq<char>) -> nat
    decreases s.len(),
{
    if s.len() == 0 {
        0
    } else {
        digits_value(s.drop_last()) * 10 + ((s.last() as nat) - 48) as nat
    }
}

/// Every character is an ASCII digit.
pub open spec fn all_digits(s: Seq<char>) -> bool {
    forall|k: int| 0 <= k < s.len() ==> '0' <= #[trigger] s[k] && s[k] <= '9'
}

/// What `str::parse::<u16>` returns: an optional `+` sign, then at least one
/// ASCII digit and nothing else, with a value that fits in 16 bits.
pub open spec fn parse_u16_spec(s: Seq<char>) -> Option<u16> {
    let d = if s.len() > 0 && s[0] == '+' {
        s.skip(1)
    } else {
        s
    };
    if d.len() > 0 && all_digits(d) && digits_value(d) <= 65535 {
        Some(digits_value(d) as u16)
    } else {
        None
    }
}

proof fn lemma_digits_value_monotone(s: Seq<char>, i: int)
    requires
        0 <= i <= s.len(),
        all_digits(s),
    ensures
        digits_value(s.take(i)) <= digits_value(s),
    decreases s.len() - i,
{
    if i < s.len() {
        lemma_digits_value_monotone(s, i + 1);
        let t = s.take(i + 1);
        assert(t.drop_last() =~= s.take(i));
        assert('0' <= t.last());
    } else {
        assert(s.take(i) =~= s);
    }
}

/// Parses a `u16` as `str::parse::<u16>` does.
pub fn parse_u16(s: &[char]) -> (r: Option<u16>)
    ensures
        r == parse_u16_spec(s@),
{
    let start: usize = if s.len() > 0 && s[0] == '+' {
        1
    } else {
        0
    };
    let ghost d = if s@.len() > 0 && s@[0] == '+' {
        s@.skip(1)
    } else {
        s@
    };
    assert(d =~= s@.skip(start as int));
    if start >= s.len() {
        return None;
    }
    let mut value: u32 = 0;
    let mut i = start;
    while i < s.len()
        invariant
            start <= i <= s@.len(),
            start < s@.len(),
            d == s@.skip(start as int),
            d == (if s@.len() > 0 && s@[0] == '+' {
                s@.skip(1)
            } else {
                s@
            }),
            all_digits(d.take(i - start)),
            value as nat == digits_value(d.take(i - start)),
            value <= 65535,
        decreases s@.len() - i,
    {
        let c = s[i];
        if !('0' <= c && c <= '9') {
            proof {
                let k = i - start;
                assert(d[k] == c);
                assert(!all_digits(d));
            }
            return None;
        }
        let ghost prefix = d.take(i - start);
        let next = value * 10 + ((c as u32) - 48);
        i = i + 1;
        assert(d.take(i - start).drop_last() =~= prefix);
        assert(d.take(i - start).last() == c);
        assert(next as nat == digits_value(d.take(i - start)));
        assert(all_digits(d.take(i - start)));
        if next > 65535 {
            proof {
                if all_digits(d) {
                    lemma_digits_value_monotone(d, i - start);
                }
            }
            return None;
        }
        value = next;
    }
    assert(d.take(i - start) =~= d);
    Some(value as u16)
}


/// The value of a non-empty text of ASCII digits when it fits in 64 bits.
pub open spec fn digits_u64_spec(s: Seq<char>) -> Option<u64> {
    if s.len() > 0 && all_digits(s) && digits_value(s) <= u64::MAX {
        Some(digits_value(s) as u64)
    } else {
        None
    }
}

/// Reads a non-empty text of ASCII digits (no sign) as a `u64`.
pub fn parse_digits_u64(s: &[char]) -> (r: Option<u64>)
    ensures
        r == digits_u64_spec(s@),
{
    if s.len() == 0 {
        return None;
    }
    let mut value: u128 = 0;
    let mut i: usize = 0;
    while i < s.len()
        invariant
            i <= s@.len(),
            s@.len() > 0,
            all_digits(s@.take(i as int)),
            value as nat == digits_value(s@.take(i as int)),
            value <= u64::MAX,
        decreases s@.len() - i,
    {
        let c = s[i];
        if !('0' <= c && c <= '9') {
            proof {
                assert(!all_digits(s@)) by {
                    assert(s@[i as int] == c);
                }
            }
            return None;
        }
        let ghost prefix = s@.take(i as int);
        let next = value * 10 + ((c as u32) - 48) as u128;
        i = i + 1;
        assert(s@.take(i as int).drop_last() =~= prefix);
        assert(s@.take(i as int).last() == c);
        assert(next as nat == digits_value(s@.take(i as int)));
        assert(all_digits(s@.take(i as int)));
        if next > u64::MAX as u128 {
            proof {
                if all_digits(s@) {
                    lemma_digits_value_monotone(s@, i as int);
                }
            }
            return None;
        }
        value = next;
    }
    assert(s@.take(i as int) =~= s@);
    Some(value as u64)
}

/// The value of a digit character written by `digit_char`.
pub open spec fn digit_value(c: char) -> nat {
    if '0' <= c && c <= '9' {
        ((c as nat) - 48) as nat
    } else {
        ((c as nat) - 87) as nat
    }
}

/// The value of a text of digits in base `b`.
pub open spec fn radix_value(s: Seq<char>, b: nat) -> nat
    decreases s.len(),
{
    if s.len() == 0 {
        0
    } else {
        radix_value(s.drop_last(), b) * b + digit_value(s.last())
    }
}

proof fn lemma_digit_roundtrip(d: nat)
    requires
        d < 16,
    ensures
        digit_value(digit_char(d)) == d,
        d < 10 ==> '0' <= digit_char(d) && digit_char(d) <= '9',
{
}

/// Reading the digits of `n` in base `b` gives `n` back.
pub proof fn lemma_radix_roundtrip(n: nat, b: nat)
    requires
        2 <= b <= 16,
    ensures
        radix_value(radix_text(n, b), b) == n,
        radix_text(n, b).len() > 0,
    decreases n,
{
    if n >= b {
        assert(n / b < n) by (nonlinear_arith)
            requires
                n >= b,
                b >= 2,
        ;
        assert(n % b < b) by (nonlinear_arith)
            requires
                b >= 2,
        ;
        lemma_radix_roundtrip(n / b, b);
        vstd::arithmetic::div_mod::lemma_fundamental_div_mod(n as int, b as int);
        lemma_digit_roundtrip(n % b);
        let p = radix_text(n / b, b);
        let t = radix_text(n, b);
        assert(t == p.push(digit_char(n % b)));
        assert(t.drop_last() =~= p);
        assert(t.last() == digit_char(n % b));
        let v = radix_value(p, b);
        assert(radix_value(t, b) == v * b + n % b);
        assert(v * b + n % b == n) by (nonlinear_arith)
            requires
                n == b * (n / b) + (n % b),
                v == n / b,
        ;
    } else {
        lemma_digit_roundtrip(n);
        let t = radix_text(n, b);
        assert(t == seq![digit_char(n)]);
        assert(t.drop_last() =~= Seq::<char>::empty());
        assert(radix_value(t.drop_last(), b) == 0);
        assert(radix_value(t, b) == 0 * b + digit_value(digit_char(n)));
        assert(0 * b == 0) by (nonlinear_arith);
    }
}

proof fn lemma_decimal_digits(n: nat)
    ensures
        all_digits(decimal_text(n)),
        digits_value(decimal_text(n)) == n,
        decimal_text(n).len() > 0,
    decreases n,
{
    if n >= 10 {
        lemma_decimal_digits(n / 10);
        lemma_digit_roundtrip(n % 10);
        let p = decimal_text(n / 10);
        let t = decimal_text(n);
        assert(t == p.push(digit_char(n % 10)));
        assert(t.drop_last() =~= p);
        let c = digit_char(n % 10);
        assert(t.last() == c);
        assert((c as nat) == 48 + n % 10);
        assert(digits_value(t) == digits_value(p) * 10 + n % 10);
        assert(digits_value(p) * 10 + n % 10 == n);
        assert forall|k: int| 0 <= k < t.len() implies '0' <= #[trigger] t[k] && t[k] <= '9' by {
            if k < t.len() - 1 {
                assert(t[k] == p[k]);
            }
        }
    } else {
        lemma_digit_roundtrip(n);
        let t = decimal_text(n);
        assert(t == seq![digit_char(n)]);
        assert(t.drop_last() =~= Seq::<char>::empty());
        assert((digit_char(n) as nat) == 48 + n);
        assert(digits_value(t.drop_last()) == 0);
        assert(digits_value(t) == n);
    }
}

/// Reading a status code written in decimal gives it back: the `u16`
/// parser inverts decimal writing.
pub proof fn law_decimal_roundtrip(n: u16)
    ensures
        parse_u16_spec(decimal_text(n as nat)) == Some(n),
{
    lemma_decimal_digits(n as nat);
    let t = decimal_text(n as nat);
    assert(t[0] != '+');
}

/// Different numbers have different texts in any base from 2 to 16.
pub proof fn law_radix_text_injective(n: nat, m: nat, b: nat)
    requires
        2 <= b <= 16,
        radix_text(n, b) == radix_text(m, b),
    ensures
        n == m,
{
    lemma_radix_roundtrip(n, b);
    lemma_radix_roundtrip(m, b);
}
} // verus!
