//! One line of the probe's output: its classification, its fields, the
//! severity tier of its latency and the text it draws.

use vstd::prelude::*;
use vstd::string::*;
use crate::terminal::{bg, bg_seq, fg, fg_seq, reset, reset_seq};
use crate::text::{
    all_digits, digits_at_most, digits_value, has_prefix, is_digit,
    split_words, words, same_text, starts_with_text,
};

verus! {

/// The largest round-trip time, in microseconds, that a reading may report.
pub const MAX_MICROS: u64 = 9_000_000_000_000_000_000;

/// The largest power of ten, either way, that a reading's time may carry.
pub const MAX_EXPONENT: u64 = 1000;

/// What a line of the probe's output is, with the line itself.
#[derive(Debug, Clone)]
pub enum EntryType {
    Title(String),
    Pong(String),
    Error(String),
}

impl EntryType {
    pub open spec fn inner(&self) -> Seq<char> {
        match self {
            EntryType::Title(s) => s@,
            EntryType::Pong(s) => s@,
            EntryType::Error(s) => s@,
        }
    }

    /// The line that the entry was read from.
    pub fn get_inner(&self) -> (r: String)
        ensures
            r@ == self.inner(),
    {
        match self {
            EntryType::Title(s) => s.clone(),
            EntryType::Pong(s) => s.clone(),
            EntryType::Error(s) => s.clone(),
        }
    }
}

impl Default for EntryType {
    fn default() -> (r: EntryType)
        ensures
            r is Error,
            r.inner() == "DEFAULT"@,
    {
        EntryType::Error(String::from_str("DEFAULT"))
    }
}

/// A parsed line. The fields after `t` are set for a `Pong` only; they are
/// zero or empty otherwise, and `from_ipv6` is empty when the reading names
/// no address beside the domain. `time_us` is the round-trip time in
/// microseconds, rounded up.
#[derive(Debug, Clone)]
pub struct PingEntry {
    pub t: EntryType,
    pub bytes: u8,
    pub from_domain: String,
    pub from_ipv6: String,
    pub icmp_seq: u64,
    pub ttl: u16,
    pub time_us: i64,
}

/// The fields of a reading, as a line writes them.
pub struct Reading {
    pub bytes: u8,
    pub from_domain: Seq<char>,
    pub from_ipv6: Seq<char>,
    pub icmp_seq: u64,
    pub ttl: u16,
    pub time_us: i64,
}

/// Latency severity, from the unreachable mark up to the slowest tier.
#[derive(Debug, Clone, Copy, PartialEq, Eq, Structural)]
pub enum Tier {
    Unreachable,
    UpTo10,
    UpTo20,
    UpTo50,
    UpTo100,
    UpTo200,
    UpTo500,
    UpTo1000,
    Above1000,
}

/// The tier of a round-trip time of `us` microseconds (rounded up): each
/// bound is inclusive, and the first that holds wins.
pub open spec fn tier_of(us: int) -> Tier {
    if us <= 0 {
        Tier::Unreachable
    } else if us <= 10_000 {
        Tier::UpTo10
    } else if us <= 20_000 {
        Tier::UpTo20
    } else if us <= 50_000 {
        Tier::UpTo50
    } else if us <= 100_000 {
        Tier::UpTo100
    } else if us <= 200_000 {
        Tier::UpTo200
    } else if us <= 500_000 {
        Tier::UpTo500
    } else if us <= 1_000_000 {
        Tier::UpTo1000
    } else {
        Tier::Above1000
    }
}

/// The coloured glyph of a tier.
pub open spec fn glyph_seq(t: Tier) -> Seq<char> {
    match t {
        Tier::Unreachable => bg_seq(1) + fg_seq(7) + "X"@,
        Tier::UpTo10 => fg_seq(12) + "\u{2581}"@,
        Tier::UpTo20 => fg_seq(6) + "\u{2582}"@,
        Tier::UpTo50 => fg_seq(10) + "\u{2583}"@,
        Tier::UpTo100 => fg_seq(11) + "\u{2584}"@,
        Tier::UpTo200 => fg_seq(3) + "\u{2585}"@,
        Tier::UpTo500 => fg_seq(9) + "\u{2586}"@,
        Tier::UpTo1000 => fg_seq(1) + "\u{2587}"@,
        Tier::Above1000 => fg_seq(13) + "\u{2588}"@,
    }
}

/// `t[p]` is a decimal point with only digits before it.
pub open spec fn dot_at(t: Seq<char>, p: int) -> bool {
    0 <= p < t.len() && t[p] == '.' && all_digits(t.take(p))
}

/// The digits before and after the point of a decimal written as digits
/// with at most one point and at least one digit (`23`, `23.4`, `.5`, `7.`).
pub open spec fn mantissa_parts(m: Seq<char>) -> Option<(Seq<char>, Seq<char>)> {
    if exists|p: int| dot_at(m, p) {
        let p = choose|p: int| dot_at(m, p);
        if all_digits(m.skip(p + 1)) && m.len() > 1 {
            Some((m.take(p), m.skip(p + 1)))
        } else {
            None
        }
    } else if all_digits(m) && m.len() > 0 {
        Some((m, Seq::empty()))
    } else {
        None
    }
}

pub open spec fn is_exp_marker(c: char) -> bool {
    c == 'e' || c == 'E'
}

/// `u[p]` is the first exponent marker of `u`.
pub open spec fn exp_at(u: Seq<char>, p: int) -> bool {
    &&& 0 <= p < u.len()
    &&& is_exp_marker(u[p])
    &&& forall|k: int| 0 <= k < p ==> !is_exp_marker(#[trigger] u[k])
}

/// The exponent that `e` writes: an optional sign, then digits whose value
/// is at most `MAX_EXPONENT`.
pub open spec fn exponent_value(e: Seq<char>) -> Option<int> {
    let signed = e.len() > 0 && (e[0] == '+' || e[0] == '-');
    let d = if signed {
        e.skip(1)
    } else {
        e
    };
    if d.len() > 0 && all_digits(d) && digits_value(d) <= MAX_EXPONENT {
        if signed && e[0] == '-' {
            Some(-digits_value(d))
        } else {
            Some(digits_value(d) as int)
        }
    } else {
        None
    }
}

pub open spec fn pow10(n: nat) -> nat
    decreases n,
{
    if n == 0 {
        1
    } else {
        10 * pow10((n - 1) as nat)
    }
}

/// The whole part of the number whose digits are `g` with the point after
/// the first `q` of them (zeros added past the end of `g`).
pub open spec fn int_part(g: Seq<char>, q: int) -> nat {
    if q <= 0 {
        0
    } else if q <= g.len() {
        digits_value(g.take(q))
    } else {
        digits_value(g) * pow10((q - g.len()) as nat)
    }
}

/// Some digit of `g` after the point at `q` is not zero.
pub open spec fn has_fraction(g: Seq<char>, q: int) -> bool {
    exists|k: int| 0 <= k < g.len() && q <= k && #[trigger] g[k] != '0'
}

/// The microseconds, rounded up, of a non-negative millisecond count
/// written as a float: an optional `+`, a decimal (see `mantissa_parts`),
/// then an optional exponent (`e` or `E`, see `exponent_value`); at most
/// `MAX_MICROS`.
pub open spec fn time_micros(t: Seq<char>) -> Option<int> {
    let (m, x) = exp_split(strip_plus(t));
    if mantissa_parts(m) is Some && x is Some {
        micros_of(mantissa_parts(m)->Some_0, x->Some_0)
    } else {
        None
    }
}

/// `t` without its leading `+`, if it has one.
pub open spec fn strip_plus(t: Seq<char>) -> Seq<char> {
    if t.len() > 0 && t[0] == '+' {
        t.skip(1)
    } else {
        t
    }
}

/// The part of `u` before its first exponent marker, and the exponent
/// written after it (zero when there is no marker).
pub open spec fn exp_split(u: Seq<char>) -> (Seq<char>, Option<int>) {
    if exists|p: int| exp_at(u, p) {
        let p = choose|p: int| exp_at(u, p);
        (u.take(p), exponent_value(u.skip(p + 1)))
    } else {
        (u, Some(0int))
    }
}

/// The microseconds, rounded up, of the decimal with digits `parts.0`
/// before the point and `parts.1` after it, times ten to the `x`
/// milliseconds, when at most `MAX_MICROS`.
pub open spec fn micros_of(parts: (Seq<char>, Seq<char>), x: int) -> Option<int> {
    let g = parts.0 + parts.1;
    let q = parts.0.len() + x + 3;
    let us = int_part(g, q) + if has_fraction(g, q) {
        1int
    } else {
        0int
    };
    if us <= MAX_MICROS {
        Some(us)
    } else {
        None
    }
}

/// The number after `key` in `tok`, when `tok` is `key` then one or more
/// digits whose value is at most `max`.
pub open spec fn field_value(tok: Seq<char>, key: Seq<char>, max: int) -> Option<nat> {
    let rest = tok.skip(key.len() as int);
    if has_prefix(tok, key) && rest.len() > 0 && all_digits(rest) && digits_value(rest) <= max {
        Some(digits_value(rest))
    } else {
        None
    }
}

/// The first word of the line is `PING`.
pub open spec fn is_title_line(s: Seq<char>) -> bool {
    words(s).len() > 0 && words(s)[0] == "PING"@
}

/// Whether word four of a reading is an address in brackets, that is, not
/// already the sequence field.
pub open spec fn has_address(w: Seq<Seq<char>>) -> bool {
    w.len() > 4 && !has_prefix(w[4], "icmp_seq="@)
}

/// The reading that the line writes, as
/// `<bytes> bytes from <domain> [(<address>):] icmp_seq=<n> ttl=<n> time=<ms> ms`,
/// when every field is there and in range.
pub open spec fn reading_of(s: Seq<char>) -> Option<Reading> {
    let w = words(s);
    let i: int = if has_address(w) {
        5
    } else {
        4
    };
    if w.len() > i + 2 && all_digits(w[0]) && w[0].len() > 0 && digits_value(w[0]) <= 255 && (
    !has_address(w) || w[4].len() >= 3) && field_value(w[i], "icmp_seq="@, u64::MAX as int) is Some
        && field_value(w[i + 1], "ttl="@, u16::MAX as int) is Some && has_prefix(w[i + 2], "time="@)
        && time_micros(w[i + 2].skip(5)) is Some {
        Some(
            Reading {
                bytes: digits_value(w[0]) as u8,
                from_domain: w[3],
                from_ipv6: if has_address(w) {
                    w[4].subrange(1, w[4].len() - 2)
                } else {
                    Seq::empty()
                },
                icmp_seq: field_value(w[i], "icmp_seq="@, u64::MAX as int)->Some_0 as u64,
                ttl: field_value(w[i + 1], "ttl="@, u16::MAX as int)->Some_0 as u16,
                time_us: time_micros(w[i + 2].skip(5))->Some_0 as i64,
            },
        )
    } else {
        None
    }
}

impl PingEntry {
    /// The fields of an entry that is not a reading.
    pub open spec fn has_no_reading(&self) -> bool {
        &&& self.bytes == 0
        &&& self.from_domain@.len() == 0
        &&& self.from_ipv6@.len() == 0
        &&& self.icmp_seq == 0
        &&& self.ttl == 0
        &&& self.time_us == 0
    }

    pub open spec fn matches_reading(&self, r: Reading) -> bool {
        &&& self.bytes == r.bytes
        &&& self.from_domain@ == r.from_domain
        &&& self.from_ipv6@ == r.from_ipv6
        &&& self.icmp_seq == r.icmp_seq
        &&& self.ttl == r.ttl
        &&& self.time_us == r.time_us
    }

    /// The text the entry draws as a history row: its glyph, a space and its line.
    pub open spec fn row_text(&self) -> Seq<char> {
        reset_seq() + glyph_seq(tier_of(self.time_us as int)) + " "@ + self.t.inner()
    }

    /// The text the entry draws where it is printed: a title draws nothing.
    pub open spec fn print_text(&self) -> Seq<char> {
        match self.t {
            EntryType::Title(_) => Seq::empty(),
            _ => self.row_text(),
        }
    }

    /// The coloured glyph of the tier of a round-trip time of `time_us`
    /// microseconds.
    pub fn get_histo_char(time_us: i64) -> (r: String)
        ensures
            r@ == glyph_seq(tier_of(time_us as int)),
    {
        let mut s: String;
        match bucket(time_us) {
            Tier::Unreachable => {
                s = bg(1);
                s.append(fg(7).as_str());
                s.append("X");
            },
            Tier::UpTo10 => {
                s = fg(12);
                s.append("\u{2581}");
            },
            Tier::UpTo20 => {
                s = fg(6);
                s.append("\u{2582}");
            },
            Tier::UpTo50 => {
                s = fg(10);
                s.append("\u{2583}");
            },
            Tier::UpTo100 => {
                s = fg(11);
                s.append("\u{2584}");
            },
            Tier::UpTo200 => {
                s = fg(3);
                s.append("\u{2585}");
            },
            Tier::UpTo500 => {
                s = fg(9);
                s.append("\u{2586}");
            },
            Tier::UpTo1000 => {
                s = fg(1);
                s.append("\u{2587}");
            },
            Tier::Above1000 => {
                s = fg(13);
                s.append("\u{2588}");
            },
        }
        s
    }

    /// The entry's glyph, a space and its line, after a style reset.
    pub fn format(&self) -> (r: String)
        ensures
            r@ == self.row_text(),
    {
        let mut s = reset();
        s.append(Self::get_histo_char(self.time_us).as_str());
        s.append(" ");
        s.append(self.t.get_inner().as_str());
        s
    }

    /// What the entry draws when printed: nothing for a title, its row text otherwise.
    pub fn print(&self) -> (r: String)
        ensures
            r@ == self.print_text(),
    {
        match self.t {
            EntryType::Title(_) => String::new(),
            _ => self.format(),
        }
    }

    /// Classifies a line of the probe's output, split into words at runs of
    /// whitespace. A line whose first word is `PING` is the title; a line
    /// that writes a reading in full is a `Pong` with its fields; any other
    /// line is an `Error`. The time of a reading is a non-negative float in
    /// milliseconds (`23.4`, `+5`, `1e3`, `2.5E-1`, see `time_micros`),
    /// held in microseconds rounded up; a negative time makes the line an
    /// `Error`.
    pub fn parse(line: String) -> (r: PingEntry)
        ensures
            r.t.inner() == line@,
            is_title_line(line@) ==> r.t is Title && r.has_no_reading(),
            !is_title_line(line@) && reading_of(line@) is Some ==> r.t is Pong && r.matches_reading(
                reading_of(line@)->Some_0,
            ),
            !is_title_line(line@) && reading_of(line@) is None ==> r.t is Error
                && r.has_no_reading(),
    {
        let w = split_words(line.as_str());
        if w.len() > 0 && same_text(w[0], "PING") {
            return PingEntry::blank(EntryType::Title(line));
        }
        match read_fields(&w, Ghost(line@)) {
            Some(r) => {
                let (bytes, from_domain, from_ipv6, icmp_seq, ttl, time_us) = r;
                PingEntry { t: EntryType::Pong(line), bytes, from_domain, from_ipv6, icmp_seq, ttl, time_us }
            },
            None => PingEntry::blank(EntryType::Error(line)),
        }
    }

    fn blank(t: EntryType) -> (r: PingEntry)
        ensures
            r.t == t,
            r.has_no_reading(),
    {
        PingEntry {
            t,
            bytes: 0,
            from_domain: String::new(),
            from_ipv6: String::new(),
            icmp_seq: 0,
            ttl: 0,
            time_us: 0,
        }
    }
}

/// The severity tier of a round-trip time of `time_us` microseconds.
pub fn bucket(time_us: i64) -> (r: Tier)
    ensures
        r == tier_of(time_us as int),
{
    if time_us <= 0 {
        Tier::Unreachable
    } else if time_us <= 10_000 {
        Tier::UpTo10
    } else if time_us <= 20_000 {
        Tier::UpTo20
    } else if time_us <= 50_000 {
        Tier::UpTo50
    } else if time_us <= 100_000 {
        Tier::UpTo100
    } else if time_us <= 200_000 {
        Tier::UpTo200
    } else if time_us <= 500_000 {
        Tier::UpTo500
    } else if time_us <= 1_000_000 {
        Tier::UpTo1000
    } else {
        Tier::Above1000
    }
}

/// The number of decimal digits that `t` begins with.
fn leading_digits(t: &str) -> (p: usize)
    ensures
        p <= t@.len(),
        forall|k: int| 0 <= k < p ==> is_digit(#[trigger] t@[k]),
        p == t@.len() || !is_digit(t@[p as int]),
{
    let n = t.unicode_len();
    let mut p: usize = 0;
    while p < n
        invariant
            n == t@.len(),
            p <= n,
            forall|k: int| 0 <= k < p ==> is_digit(#[trigger] t@[k]),
        decreases n - p,
    {
        let c = t.get_char(p);
        if !('0' <= c && c <= '9') {
            return p;
        }
        p = p + 1;
    }
    p
}

fn all_digit_chars(t: &str) -> (r: bool)
    ensures
        r == all_digits(t@),
{
    let p = leading_digits(t);
    p == t.unicode_len()
}

/// Whether some character of `f` from index `from` on is not `0`.
fn nonzero_from(f: &str, from: usize) -> (r: bool)
    ensures
        r == exists|k: int| from <= k < f@.len() && #[trigger] f@[k] != '0',
{
    let n = f.unicode_len();
    let mut k: usize = from;
    while k < n
        invariant
            n == f@.len(),
            from <= k,
            forall|j: int| from <= j < k && j < n ==> #[trigger] f@[j] == '0',
        decreases n - k,
    {
        if f.get_char(k) != '0' {
            return true;
        }
        k = k + 1;
    }
    false
}

proof fn lemma_pow10_grows(j: nat, n: nat)
    requires
        j <= n,
    ensures
        1 <= pow10(j) <= pow10(n),
    decreases n,
{
    if n > 0 {
        if j < n {
            lemma_pow10_grows(j, (n - 1) as nat);
        } else {
            lemma_pow10_grows((n - 1) as nat, (n - 1) as nat);
        }
    }
}

/// The index of the first exponent marker of `u`, or its length.
fn first_exp_marker(u: &str) -> (p: usize)
    ensures
        p <= u@.len(),
        forall|k: int| 0 <= k < p ==> !is_exp_marker(#[trigger] u@[k]),
        p < u@.len() ==> is_exp_marker(u@[p as int]),
{
    let n = u.unicode_len();
    let mut p: usize = 0;
    while p < n
        invariant
            n == u@.len(),
            p <= n,
            forall|k: int| 0 <= k < p ==> !is_exp_marker(#[trigger] u@[k]),
        decreases n - p,
    {
        let c = u.get_char(p);
        if c == 'e' || c == 'E' {
            return p;
        }
        p = p + 1;
    }
    p
}

/// The digits before and after the point of the decimal `m`.
fn split_mantissa(m: &str) -> (r: Option<(&str, &str)>)
    ensures
        r matches Some(parts) ==> mantissa_parts(m@) == Some((parts.0@, parts.1@)),
        r is None ==> mantissa_parts(m@) is None,
{
    let n = m.unicode_len();
    let p = leading_digits(m);
    if p == n {
        assert forall|q: int| !dot_at(m@, q) by {
            if 0 <= q < m@.len() {
                assert(is_digit(m@[q]));
            }
        }
        if n == 0 {
            return None;
        }
        let f = m.substring_char(n, n);
        assert(f@ =~= Seq::<char>::empty());
        Some((m, f))
    } else if m.get_char(p) == '.' {
        assert(m@.take(p as int) =~= m@.subrange(0, p as int));
        assert(dot_at(m@, p as int));
        assert forall|q: int| dot_at(m@, q) implies q == p by {
            if q < p {
                assert(is_digit(m@[q]));
            } else if q > p {
                assert(m@.take(q)[p as int] == m@[p as int]);
            }
        }
        let w = m.substring_char(0, p);
        let f = m.substring_char(p + 1, n);
        assert(f@ =~= m@.skip(p + 1));
        if n <= 1 || !all_digit_chars(f) {
            return None;
        }
        Some((w, f))
    } else {
        assert forall|q: int| !dot_at(m@, q) by {
            if 0 <= q < p {
                assert(is_digit(m@[q]));
            } else if q > p && q < m@.len() {
                assert(m@.take(q)[p as int] == m@[p as int]);
            }
        }
        assert(!all_digits(m@)) by {
            assert(!is_digit(m@[p as int]));
        }
        None
    }
}

/// The exponent that `e` writes (see `exponent_value`).
fn parse_exponent(e: &str) -> (r: Option<i64>)
    ensures
        r matches Some(v) ==> exponent_value(e@) == Some(v as int),
        r is None ==> exponent_value(e@) is None,
{
    let n = e.unicode_len();
    if n == 0 {
        return None;
    }
    let c = e.get_char(0);
    let signed = c == '+' || c == '-';
    let d = if signed {
        e.substring_char(1, n)
    } else {
        e
    };
    assert(signed ==> d@ =~= e@.skip(1));
    if d.unicode_len() == 0 {
        return None;
    }
    match digits_at_most(d, MAX_EXPONENT) {
        Some(v) => {
            if c == '-' {
                Some(-(v as i64))
            } else {
                Some(v as i64)
            }
        },
        None => None,
    }
}

/// The whole part of the number with digits `g` and the point after `q` of
/// them, when it is at most `MAX_MICROS`.
fn int_part_at_most(g: &str, q: i128) -> (r: Option<u64>)
    requires
        all_digits(g@),
    ensures
        r matches Some(v) ==> v == int_part(g@, q as int) && v <= MAX_MICROS,
        r is None ==> int_part(g@, q as int) > MAX_MICROS,
{
    if q <= 0 {
        return Some(0);
    }
    let gl = g.unicode_len();
    if q <= gl as i128 {
        let head = g.substring_char(0, q as usize);
        assert(head@ =~= g@.take(q as int));
        return digits_at_most(head, MAX_MICROS);
    }
    let ghost dv = digits_value(g@);
    let ghost total = (q - gl) as nat;
    let mut v = match digits_at_most(g, MAX_MICROS) {
        Some(v) => v,
        None => {
            proof {
                lemma_pow10_grows(0, total);
                assert(dv * pow10(total) >= dv) by (nonlinear_arith)
                    requires
                        pow10(total) >= 1,
                ;
            }
            return None;
        },
    };
    let steps = (q - gl as i128) as u128;
    let mut j: u128 = 0;
    assert(pow10(0) == 1);
    while j < steps
        invariant
            steps == total,
            q > gl,
            gl == g@.len(),
            dv == digits_value(g@),
            total == (q - gl) as nat,
            j <= steps,
            v == dv * pow10(j as nat),
            v <= MAX_MICROS,
        decreases steps - j,
    {
        if v > MAX_MICROS / 10 {
            assert(v * 10 > MAX_MICROS);
            proof {
                lemma_pow10_grows((j + 1) as nat, total);
                let a = pow10((j + 1) as nat);
                let b = pow10(total);
                assert(dv * a == v * 10) by (nonlinear_arith)
                    requires
                        a == 10 * pow10(j as nat),
                        v == dv * pow10(j as nat),
                ;
                assert(dv * b >= dv * a) by (nonlinear_arith)
                    requires
                        b >= a,
                ;
                assert(int_part(g@, q as int) == dv * b);
            }
            return None;
        }
        proof {
            assert(dv * pow10((j + 1) as nat) == v * 10) by (nonlinear_arith)
                requires
                    pow10((j + 1) as nat) == 10 * pow10(j as nat),
                    v == dv * pow10(j as nat),
            ;
        }
        v = v * 10;
        j = j + 1;
    }
    Some(v)
}

/// The round-trip time that `t` writes in milliseconds, in microseconds
/// rounded up (see `time_micros`).
fn parse_time_micros(t: &str) -> (r: Option<i64>)
    ensures
        r matches Some(v) ==> time_micros(t@) == Some(v as int),
        r is None ==> time_micros(t@) is None,
{
    let n = t.unicode_len();
    let u = if n > 0 && t.get_char(0) == '+' {
        t.substring_char(1, n)
    } else {
        t
    };
    assert(n > 0 && t@[0] == '+' ==> u@ =~= t@.skip(1));
    assert(u@ == strip_plus(t@));
    let un = u.unicode_len();
    let p = first_exp_marker(u);
    let m;
    let x: i64;
    if p < un {
        assert(exp_at(u@, p as int));
        assert forall|k: int| exp_at(u@, k) implies k == p by {
            if k < p {
                assert(!is_exp_marker(u@[k]));
            } else if k > p {
                assert(!is_exp_marker(u@[p as int]));
            }
        }
        assert((choose|k: int| exp_at(u@, k)) == p);
        m = u.substring_char(0, p);
        assert(m@ =~= u@.take(p as int));
        let e = u.substring_char(p + 1, un);
        assert(e@ =~= u@.skip(p + 1));
        assert(exp_split(u@) == (m@, exponent_value(e@)));
        x = match parse_exponent(e) {
            Some(v) => v,
            None => {
                assert(exp_split(u@).1 is None);
                return None;
            },
        };
    } else {
        assert forall|k: int| !exp_at(u@, k) by {
            if 0 <= k < u@.len() {
                assert(!is_exp_marker(u@[k]));
            }
        }
        m = u;
        x = 0;
        assert(exp_split(u@) == (m@, Some(0int)));
    }
    let (w, f) = match split_mantissa(m) {
        Some(parts) => parts,
        None => {
            return None;
        },
    };
    let mut g = String::from_str(w);
    g.append(f);
    let ghost gv = w@ + f@;
    assert(all_digits(gv)) by {
        assert forall|i: int| 0 <= i < gv.len() implies is_digit(#[trigger] gv[i]) by {
            if i < w@.len() {
                assert(gv[i] == w@[i]);
            } else {
                assert(gv[i] == f@[i - w@.len()]);
            }
        }
    }
    let q: i128 = w.unicode_len() as i128 + x as i128 + 3;
    let whole = match int_part_at_most(g.as_str(), q) {
        Some(v) => v,
        None => {
            return None;
        },
    };
    let gl = g.unicode_len();
    let carry: u64 = if q > gl as i128 {
        0
    } else if nonzero_from(g.as_str(), if q < 0 {
        0
    } else {
        q as usize
    }) {
        1
    } else {
        0
    };
    assert(g@ == gv);
    assert((carry == 1) == has_fraction(gv, q as int));
    if carry == 1 && whole == MAX_MICROS {
        return None;
    }
    Some((whole + carry) as i64)
}

/// The number after `key` in `tok` (see `field_value`).
fn field_after(tok: &str, key: &str, max: u64) -> (r: Option<u64>)
    ensures
        r matches Some(v) ==> field_value(tok@, key@, max as int) == Some(v as nat),
        r is None ==> field_value(tok@, key@, max as int) is None,
{
    if !starts_with_text(tok, key) {
        return None;
    }
    let k = key.unicode_len();
    let n = tok.unicode_len();
    let rest = tok.substring_char(k, n);
    assert(rest@ =~= tok@.skip(k as int));
    if n == k {
        return None;
    }
    digits_at_most(rest, max)
}

/// The fields of the reading that the words `w` of a line write.
fn read_fields(w: &Vec<&str>, Ghost(s): Ghost<Seq<char>>) -> (r: Option<
    (u8, String, String, u64, u16, i64),
>)
    requires
        w@.len() == words(s).len(),
        forall|i: int| 0 <= i < w@.len() ==> (#[trigger] w@[i])@ == words(s)[i],
    ensures
        r is Some <==> reading_of(s) is Some,
        r matches Some(f) ==> ({
            let x = reading_of(s)->Some_0;
            &&& f.0 == x.bytes
            &&& f.1@ == x.from_domain
            &&& f.2@ == x.from_ipv6
            &&& f.3 == x.icmp_seq
            &&& f.4 == x.ttl
            &&& f.5 == x.time_us
        }),
{
    let ghost ws = words(s);
    let n = w.len();
    if n < 7 {
        return None;
    }
    assert(w@[0]@ == ws[0] && w@[3]@ == ws[3] && w@[4]@ == ws[4]);
    let bytes = match digits_at_most(w[0], 255) {
        Some(b) => b as u8,
        None => {
            return None;
        },
    };
    if w[0].unicode_len() == 0 {
        return None;
    }
    let addr = !starts_with_text(w[4], "icmp_seq=");
    let i: usize = if addr {
        5
    } else {
        4
    };
    if n <= i + 2 {
        return None;
    }
    assert(w@[i as int]@ == ws[i as int] && w@[i + 1]@ == ws[i + 1] && w@[i + 2]@ == ws[i + 2]);
    let from_ipv6 = if addr {
        let len = w[4].unicode_len();
        if len < 3 {
            return None;
        }
        String::from_str(w[4].substring_char(1, len - 2))
    } else {
        String::new()
    };
    let icmp_seq = match field_after(w[i], "icmp_seq=", u64::MAX) {
        Some(v) => v,
        None => {
            return None;
        },
    };
    let ttl = match field_after(w[i + 1], "ttl=", 65535) {
        Some(v) => v as u16,
        None => {
            return None;
        },
    };
    if !starts_with_text(w[i + 2], "time=") {
        return None;
    }
    proof {
        reveal_strlit("time=");
    }
    let len = w[i + 2].unicode_len();
    let time_text = w[i + 2].substring_char(5, len);
    assert(time_text@ =~= ws[i + 2].skip(5));
    let time_us = match parse_time_micros(time_text) {
        Some(v) => v,
        None => {
            return None;
        },
    };
    Some((bytes, String::from_str(w[3]), from_ipv6, icmp_seq, ttl, time_us))
}

} // verus!
