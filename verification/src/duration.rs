//! Durations written in suites, such as `250ms` or `3s`.

use vstd::prelude::*;

use crate::text::{
    chars_of, decimal, ends_with, has_suffix, is_digit, lemma_decimal_digits, law_decimal_reads_back,
    parse_u64, parse_u64_spec,
};

verus! {

/// A span of time: whole seconds and the nanoseconds beyond them.
#[derive(Debug, Clone, Copy, PartialEq, Eq, Structural)]
pub struct Span {
    pub secs: u64,
    pub nanos: u32,
}

impl Span {
    /// The spans that a real duration can be: fewer than a second's nanoseconds.
    pub open spec fn wf(self) -> bool {
        self.nanos < 1_000_000_000
    }

    /// The whole span in milliseconds.
    pub open spec fn total_millis(self) -> int {
        self.secs * 1000 + self.nanos / 1_000_000
    }
}

/// The span of `v` milliseconds, as `Duration::from_millis` makes it.
pub open spec fn span_from_millis(v: u64) -> Span {
    Span { secs: v / 1000, nanos: ((v % 1000) * 1_000_000) as u32 }
}

/// The span of `v` seconds, as `Duration::from_secs` makes it.
pub open spec fn span_from_secs(v: u64) -> Span {
    Span { secs: v, nanos: 0 }
}

/// The span of `v` milliseconds.
pub fn from_millis(v: u64) -> (r: Span)
    ensures
        r == span_from_millis(v),
        r.wf(),
        r.total_millis() == v,
{
    Span { secs: v / 1000, nanos: ((v % 1000) * 1_000_000) as u32 }
}

/// The span of `v` seconds.
pub fn from_secs(v: u64) -> (r: Span)
    ensures
        r == span_from_secs(v),
        r.wf(),
        r.total_millis() == v * 1000,
{
    Span { secs: v, nanos: 0 }
}

/// What a duration text means: digits followed by `ms` for milliseconds, or by `s`
/// for seconds. Anything else means nothing.
pub open spec fn duration_spec(s: Seq<char>) -> Option<Span> {
    if ends_with(s, seq!['m', 's']) {
        match parse_u64_spec(s.take(s.len() - 2)) {
            Some(v) => Some(span_from_millis(v)),
            None => None,
        }
    } else if ends_with(s, seq!['s']) {
        match parse_u64_spec(s.take(s.len() - 1)) {
            Some(v) => Some(span_from_secs(v)),
            None => None,
        }
    } else {
        None
    }
}

/// The first `k` characters of `s`.
pub fn prefix_chars(s: &[char], k: usize) -> (r: Vec<char>)
    requires
        k <= s@.len(),
    ensures
        r@ == s@.take(k as int),
{
    let mut out: Vec<char> = Vec::new();
    let mut i: usize = 0;
    while i < k
        invariant
            i <= k <= s@.len(),
            out@ == s@.take(i as int),
        decreases k - i,
    {
        out.push(s[i]);
        i = i + 1;
        assert(s@.take(i as int) =~= s@.take(i - 1).push(s@[i - 1]));
    }
    out
}

/// Reads a duration such as `250ms` or `3s`; anything else gives `None`.
pub fn parse_duration(s: &str) -> (r: Option<Span>)
    ensures
        r == duration_spec(s@),
        r matches Some(span) ==> span.wf(),
{
    let cs = chars_of(s);
    let ms: Vec<char> = vec!['m', 's'];
    let sec: Vec<char> = vec!['s'];
    assert(ms@ =~= seq!['m', 's']);
    assert(sec@ =~= seq!['s']);
    if has_suffix(&cs, &ms) {
        let body = prefix_chars(&cs, cs.len() - 2);
        match parse_u64(&body) {
            Some(v) => Some(from_millis(v)),
            None => None,
        }
    } else if has_suffix(&cs, &sec) {
        let body = prefix_chars(&cs, cs.len() - 1);
        match parse_u64(&body) {
            Some(v) => Some(from_secs(v)),
            None => None,
        }
    } else {
        None
    }
}

/// A count written in decimal and followed by `ms` reads back as that many
/// milliseconds; followed by `s`, as that many seconds.
pub proof fn law_duration_text_round_trip(n: u64)
    ensures
        duration_spec(decimal(n as nat) + seq!['m', 's']) == Some(span_from_millis(n)),
        duration_spec(decimal(n as nat) + seq!['s']) == Some(span_from_secs(n)),
{
    let d = decimal(n as nat);
    lemma_decimal_digits(n as nat);
    law_decimal_reads_back(n as nat);
    let a = d + seq!['m', 's'];
    assert(a.skip(a.len() - 2) =~= seq!['m', 's']);
    assert(a.take(a.len() - 2) =~= d);
    let b = d + seq!['s'];
    assert(b.skip(b.len() - 1) =~= seq!['s']);
    assert(b.take(b.len() - 1) =~= d);
    assert(is_digit(d[d.len() - 1]));
    assert(b[b.len() - 2] == d[d.len() - 1]);
    assert(!ends_with(b, seq!['m', 's'])) by {
        if ends_with(b, seq!['m', 's']) {
            assert(b.skip(b.len() - 2)[0] == 'm');
        }
    }
}

/// A duration text that reads as a duration gives a well-formed span.
pub proof fn law_parsed_duration_is_wf(s: Seq<char>)
    ensures
        duration_spec(s) matches Some(x) ==> x.wf(),
{
}

} // verus!
