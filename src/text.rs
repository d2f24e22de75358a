//! Scanning of text: splitting on spaces, prefixes and decimal digits.

use vstd::prelude::*;
use vstd::string::*;

verus! {

/// A whitespace character, as `char::is_whitespace` defines it (Unicode
/// `White_Space`).
pub open spec fn is_ws(c: char) -> bool {
    ('\t' <= c && c <= '\r') || c == ' ' || c == '\u{85}' || c == '\u{A0}' || c == '\u{1680}' || (
    '\u{2000}' <= c && c <= '\u{200A}') || c == '\u{2028}' || c == '\u{2029}' || c == '\u{202F}'
        || c == '\u{205F}' || c == '\u{3000}'
}

/// The words of `s`: its maximal runs of non-whitespace characters, in
/// order, as `str::split_whitespace` gives them.
pub open spec fn words(s: Seq<char>) -> Seq<Seq<char>>
    decreases s.len(),
{
    if s.len() == 0 {
        Seq::empty()
    } else {
        let r = words(s.drop_last());
        let c = s.last();
        if is_ws(c) {
            r
        } else if s.len() >= 2 && !is_ws(s[s.len() - 2]) {
            r.update(r.len() - 1, r.last().push(c))
        } else {
            r.push(seq![c])
        }
    }
}

pub open spec fn is_digit(c: char) -> bool {
    '0' <= c && c <= '9'
}

/// Every character of `t` is a decimal digit (the empty text included).
pub open spec fn all_digits(t: Seq<char>) -> bool {
    forall|i: int| 0 <= i < t.len() ==> is_digit(#[trigger] t[i])
}

pub open spec fn digit_value(c: char) -> nat {
    (c as nat - '0' as nat) as nat
}

/// The number that the decimal digits `t` write (zero for the empty text).
pub open spec fn digits_value(t: Seq<char>) -> nat
    decreases t.len(),
{
    if t.len() == 0 {
        0
    } else {
        digits_value(t.drop_last()) * 10 + digit_value(t.last())
    }
}

pub open spec fn has_prefix(t: Seq<char>, p: Seq<char>) -> bool {
    t.len() >= p.len() && t.take(p.len() as int) == p
}

proof fn lemma_digits_value_grows(t: Seq<char>, j: int)
    requires
        0 <= j <= t.len(),
    ensures
        digits_value(t.take(j)) <= digits_value(t),
    decreases t.len() - j,
{
    if j < t.len() {
        lemma_digits_value_grows(t, j + 1);
        assert(t.take(j + 1).drop_last() =~= t.take(j));
    } else {
        assert(t.take(j) =~= t);
    }
}

fn is_ws_char(c: char) -> (r: bool)
    ensures
        r == is_ws(c),
{
    ('\t' <= c && c <= '\r') || c == ' ' || c == '\u{85}' || c == '\u{A0}' || c == '\u{1680}' || (
    '\u{2000}' <= c && c <= '\u{200A}') || c == '\u{2028}' || c == '\u{2029}' || c == '\u{202F}'
        || c == '\u{205F}' || c == '\u{3000}'
}

/// Splits `s` into its words.
pub fn split_words(s: &str) -> (r: Vec<&str>)
    ensures
        r@.len() == words(s@).len(),
        forall|i: int| 0 <= i < r@.len() ==> (#[trigger] r@[i])@ == words(s@)[i],
{
    let n = s.unicode_len();
    let mut toks: Vec<&str> = Vec::new();
    let mut start: usize = 0;
    let mut in_word = false;
    let mut i: usize = 0;
    while i < n
        invariant
            n == s@.len(),
            start <= i <= n,
            in_word == (i > 0 && !is_ws(s@[i - 1])),
            words(s@.take(i as int)).len() == toks@.len() + (if in_word {
                1int
            } else {
                0int
            }),
            forall|k: int| 0 <= k < toks@.len() ==> (#[trigger] toks@[k])@ == words(
                s@.take(i as int),
            )[k],
            in_word ==> words(s@.take(i as int)).last() == s@.subrange(start as int, i as int),
        decreases n - i,
    {
        let c = s.get_char(i);
        let ghost t = s@.take(i + 1);
        assert(t.drop_last() =~= s@.take(i as int));
        assert(t.last() == c);
        if i > 0 {
            assert(t[t.len() - 2] == s@[i - 1]);
        }
        if is_ws_char(c) {
            if in_word {
                toks.push(s.substring_char(start, i));
            }
            in_word = false;
        } else {
            if !in_word {
                start = i;
            }
            in_word = true;
            assert(s@.subrange(start as int, i + 1) =~= s@.subrange(start as int, i as int).push(c));
        }
        i = i + 1;
    }
    if in_word {
        toks.push(s.substring_char(start, n));
    }
    assert(s@.take(n as int) =~= s@);
    toks
}

/// Whether `t` begins with `p`.
pub fn starts_with_text(t: &str, p: &str) -> (r: bool)
    ensures
        r == has_prefix(t@, p@),
{
    let n = t.unicode_len();
    let m = p.unicode_len();
    if n < m {
        return false;
    }
    let mut i: usize = 0;
    while i < m
        invariant
            n == t@.len(),
            m == p@.len(),
            m <= n,
            i <= m,
            forall|k: int| 0 <= k < i ==> t@[k] == p@[k],
        decreases m - i,
    {
        if t.get_char(i) != p.get_char(i) {
            assert(t@.take(m as int)[i as int] != p@[i as int]);
            return false;
        }
        i = i + 1;
    }
    assert(t@.take(m as int) =~= p@);
    true
}

/// Whether `a` and `b` hold the same characters.
pub fn same_text(a: &str, b: &str) -> (r: bool)
    ensures
        r == (a@ == b@),
{
    let same_len = a.unicode_len() == b.unicode_len();
    if !same_len {
        return false;
    }
    let r = starts_with_text(a, b);
    proof {
        if r {
            assert(a@ =~= a@.take(b@.len() as int));
        } else {
            assert(a@.take(a@.len() as int) =~= a@);
        }
    }
    r
}

/// The value of the decimal digits `t`, when every character of `t` is a
/// digit and the value is at most `max`.
pub fn digits_at_most(t: &str, max: u64) -> (r: Option<u64>)
    ensures
        r is Some <==> (all_digits(t@) && digits_value(t@) <= max),
        r matches Some(v) ==> v == digits_value(t@),
{
    let n = t.unicode_len();
    let mut v: u64 = 0;
    let mut i: usize = 0;
    while i < n
        invariant
            n == t@.len(),
            i <= n,
            all_digits(t@.take(i as int)),
            v == digits_value(t@.take(i as int)),
            v <= max,
        decreases n - i,
    {
        let c = t.get_char(i);
        assert(t@.take(i + 1).drop_last() =~= t@.take(i as int));
        if !('0' <= c && c <= '9') {
            assert(!is_digit(t@[i as int]));
            return None;
        }
        let d = (c as u32 - '0' as u32) as u64;
        let next = match v.checked_mul(10) {
            Some(x) => x.checked_add(d),
            None => None,
        };
        match next {
            Some(w) if w <= max => {
                v = w;
            },
            _ => {
                proof {
                    lemma_digits_value_grows(t@, i + 1);
                }
                return None;
            },
        }
        i = i + 1;
        assert(all_digits(t@.take(i as int))) by {
            assert forall|k: int| 0 <= k < i implies is_digit(#[trigger] t@.take(i as int)[k]) by {
                if k < i - 1 {
                    assert(t@.take(i as int)[k] == t@.take(i - 1)[k]);
                }
            }
        }
    }
    assert(t@.take(n as int) =~= t@);
    Some(v)
}

} // verus!
