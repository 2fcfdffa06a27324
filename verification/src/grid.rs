//! Retention grid expressions such as `"6x4h | 14x1d"`.
//!
//! A grid is a sequence of intervals, youngest first. Each term
//! `<count>x<duration>` contributes `count` intervals of that length;
//! an optional `(keep=N)` or `(keep=all)` says how many snapshots each
//! of those intervals retains (one by default).

use vstd::prelude::*;

use crate::names::result_matches;
use crate::text::{
    chars_of, debug_form, debug_str, decimal, decimal_number, is_digit, decimal_string, find_char, index_of_from, is_unicode_whitespace,
    lemma_index_of_from, lemma_rscan_while, lemma_scan_while, parse_unsigned, parse_unsigned_chars,
    push_str, rscan_while, rskip_ws, scan_while, skip_decimal_numbers, skip_ws, slice_chars,
    string_from_chars, to_owned_string, trim, trim_chars, ws, lemma_index_of_from_is,
};

verus! {

/// How many snapshots one interval retains.
#[derive(Debug, Clone, Copy, PartialEq, Eq)]
pub enum KeepCount {
    All,
    Exactly(u32),
}

/// One bucket of the grid: its length in nanoseconds and how many
/// snapshots it keeps.
#[derive(Debug, Clone, Copy, PartialEq, Eq)]
pub struct RetentionInterval {
    pub length: u128,
    pub keep_count: KeepCount,
}

/// A parsed grid: its intervals, youngest first.
#[derive(Debug, Clone, PartialEq, Eq)]
pub struct GridSpec(pub Vec<RetentionInterval>);

/// Why a grid expression was refused.
#[derive(Debug)]
pub enum GridParseError {
    /// Term number `term_index` (counting from zero), as trimmed, is malformed.
    Term { term_index: usize, term: String, message: String },
    /// An interval is shorter than the one before it, and not every
    /// interval before it keeps all.
    NonMonotonic { prev: u128, next: u128 },
    /// The expression has no term.
    Empty,
}

/// The meaning of a `GridParseError`.
pub enum GridFault {
    Term { term_index: nat, term: Seq<char>, message: Seq<char> },
    NonMonotonic { prev: u128, next: u128 },
    Empty,
}

pub open spec fn fault_of(e: GridParseError) -> GridFault {
    match e {
        GridParseError::Term { term_index, term, message } => GridFault::Term {
            term_index: term_index as nat,
            term: term@,
            message: message@,
        },
        GridParseError::NonMonotonic { prev, next } => GridFault::NonMonotonic { prev, next },
        GridParseError::Empty => GridFault::Empty,
    }
}

/// What `humantime::parse_duration` gives for a text: the duration in
/// nanoseconds, or the text of its error.
pub uninterp spec fn humantime_duration(s: Seq<char>) -> Result<u128, Seq<char>>;

/// The text of the error `u32::from_str` reports for `s`.
pub uninterp spec fn u32_parse_error_text(s: Seq<char>) -> Seq<char>;

/// The most ASCII digits a duration text may hold.
///
/// `humantime::parse_duration` panics (in `Duration::new`) when its
/// running total reaches `u64::MAX` seconds with a whole second of
/// nanoseconds to carry, e.g. on `"18446744073709551615s 1000ms"`. With
/// at most this many digits every number in the text, and their sum, is
/// below 10^11, so the total stays below 10^11 years of seconds plus one
/// year per span, about 3.2 * 10^18, far from `u64::MAX`: the call
/// returns on every such text.
pub const MAX_DURATION_DIGITS: usize = 11;

/// How many ASCII digits `s` holds.
pub open spec fn digit_count(s: Seq<char>) -> nat
    decreases s.len(),
{
    if s.len() == 0 {
        0
    } else {
        digit_count(s.drop_last()) + if is_digit(s.last()) { 1nat } else { 0nat }
    }
}

fn count_digits(v: &[char]) -> (r: usize)
    ensures
        r == digit_count(v@),
{
    let mut n: usize = 0;
    let mut i: usize = 0;
    while i < v.len()
        invariant
            i <= v@.len(),
            n == digit_count(v@.subrange(0, i as int)),
            n <= i,
        decreases v.len() - i,
    {
        assert(v@.subrange(0, i + 1).drop_last() =~= v@.subrange(0, i as int));
        if '0' <= v[i] && v[i] <= '9' {
            n += 1;
        }
        i += 1;
    }
    assert(v@.subrange(0, v@.len() as int) =~= v@);
    n
}

/// `humantime::parse_duration`, in nanoseconds; on failure the error's
/// display text. The contract only names the outcome. Only texts with
/// at most `MAX_DURATION_DIGITS` digits are handed to it, on which it
/// cannot panic (see that constant).
#[verifier::external_body]
fn parse_duration_nanos(s: &str) -> (r: Result<u128, String>)
    requires
        digit_count(s@) <= MAX_DURATION_DIGITS,
    ensures
        match r {
            Ok(n) => humantime_duration(s@) == Ok::<u128, Seq<char>>(n),
            Err(m) => humantime_duration(s@) == Err::<u128, Seq<char>>(m@),
        },
{
    match humantime::parse_duration(s) {
        Ok(d) => Ok(d.as_nanos()),
        Err(e) => Err(e.to_string()),
    }
}

/// What `humantime::format_duration` writes for the duration of `secs`
/// seconds and `nanos` nanoseconds.
pub uninterp spec fn humantime_text(secs: u64, nanos: u32) -> Seq<char>;

/// `humantime::format_duration` of `Duration::new(secs, nanos)`, as text.
#[verifier::external_body]
fn format_duration_parts(secs: u64, nanos: u32) -> (r: String)
    requires
        nanos < 1_000_000_000,
    ensures
        r@ == humantime_text(secs, nanos),
{
    humantime::format_duration(std::time::Duration::new(secs, nanos)).to_string()
}

/// How `Duration`'s `Debug` writes a duration (`14400s`, `1.5s`, `10ms`).
pub uninterp spec fn duration_debug_text(secs: u64, nanos: u32) -> Seq<char>;

/// `format!("{:?}", Duration::new(secs, nanos))`.
#[verifier::external_body]
fn format_duration_debug(secs: u64, nanos: u32) -> (r: String)
    requires
        nanos < 1_000_000_000,
    ensures
        r@ == duration_debug_text(secs, nanos),
{
    format!("{:?}", std::time::Duration::new(secs, nanos))
}

/// A duration of `n` nanoseconds as whole seconds (capped at
/// `u64::MAX`, the most a `Duration` holds) and the nanoseconds left.
pub open spec fn duration_parts(n: u128) -> (u64, u32) {
    let secs = n / 1_000_000_000;
    (if secs > u64::MAX { u64::MAX } else { secs as u64 }, (n % 1_000_000_000) as u32)
}

/// How `humantime` writes a duration of `n` nanoseconds.
pub open spec fn duration_text(n: u128) -> Seq<char> {
    humantime_text(duration_parts(n).0, duration_parts(n).1)
}

/// How a `GridParseError` reads.
pub open spec fn grid_error_text(e: GridParseError) -> Seq<char> {
    match e {
        GridParseError::Term { term_index, term, message } => "term "@ + decimal(term_index as nat) + " ("@
            + debug_form(term@) + "): "@ + message@,
        GridParseError::NonMonotonic { prev, next } => "interval lengths must be monotonically non-decreasing (saw "@
            + duration_debug_text(duration_parts(prev).0, duration_parts(prev).1) + " then "@
            + duration_debug_text(duration_parts(next).0, duration_parts(next).1)
            + "); a `keep=all` prefix run is the only exception"@,
        GridParseError::Empty => "grid expression must contain at least one term"@,
    }
}

fn debug_nanos(n: u128) -> (r: String)
    ensures
        r@ == duration_debug_text(duration_parts(n).0, duration_parts(n).1),
{
    let secs = n / 1_000_000_000;
    let s: u64 = if secs > 0xffff_ffff_ffff_ffff { 0xffff_ffff_ffff_ffff } else { secs as u64 };
    let sub = (n % 1_000_000_000) as u32;
    format_duration_debug(s, sub)
}

impl GridParseError {
    /// The error's message.
    pub fn to_string(&self) -> (r: String)
        ensures
            r@ == grid_error_text(*self),
    {
        match self {
            GridParseError::Term { term_index, term, message } => {
                let mut s = to_owned_string("term ");
                let i = decimal_string(*term_index as u64);
                push_str(&mut s, i.as_str());
                push_str(&mut s, " (");
                let t = debug_str(term.as_str());
                push_str(&mut s, t.as_str());
                push_str(&mut s, "): ");
                push_str(&mut s, message.as_str());
                s
            },
            GridParseError::NonMonotonic { prev, next } => {
                let mut s = to_owned_string("interval lengths must be monotonically non-decreasing (saw ");
                let p = debug_nanos(*prev);
                push_str(&mut s, p.as_str());
                push_str(&mut s, " then ");
                let n = debug_nanos(*next);
                push_str(&mut s, n.as_str());
                push_str(&mut s, "); a `keep=all` prefix run is the only exception");
                s
            },
            GridParseError::Empty => to_owned_string("grid expression must contain at least one term"),
        }
    }
}

/// Writes a duration of `n` nanoseconds the way `humantime` does.
pub fn format_nanos(n: u128) -> (r: String)
    ensures
        r@ == duration_text(n),
{
    let secs = n / 1_000_000_000;
    let s: u64 = if secs > 0xffff_ffff_ffff_ffff { 0xffff_ffff_ffff_ffff } else { secs as u64 };
    let sub = (n % 1_000_000_000) as u32;
    format_duration_parts(s, sub)
}

/// `str::parse::<u32>`: the value when `s` is an optional `+` and
/// decimal digits whose value fits (as the standard library documents
/// integer parsing), else the error's display text, which is only named.
#[verifier::external_body]
fn u32_from_str(s: &str) -> (r: Result<u32, String>)
    ensures
        match r {
            Ok(n) => parse_unsigned(s@, u32_max()) == Some(n as nat),
            Err(m) => parse_unsigned(s@, u32_max()) is None && m@ == u32_parse_error_text(s@),
        },
{
    match s.parse::<u32>() {
        Ok(n) => Ok(n),
        Err(e) => Err(e.to_string()),
    }
}

pub open spec fn u32_max() -> nat {
    0xffff_ffff
}

// ---------------------------------------------------------------------
// The grammar of one term
// ---------------------------------------------------------------------

/// A trimmed term split into its count text, duration text (before
/// trimming) and optional modifier text, or `None` when it does not
/// have the shape `<digits> x <duration> [(<modifier>)]` (digits in
/// the Unicode sense, as the count is then read by `u32::from_str`).
pub open spec fn term_match(t: Seq<char>) -> Option<(Seq<char>, Seq<char>, Option<Seq<char>>)> {
    let d = scan_while(t, 0, decimal_number());
    let w1 = scan_while(t, d, ws());
    if d == 0 || w1 >= t.len() || t[w1] != 'x' {
        None
    } else {
        let a = w1 + 1;
        let w2 = scan_while(t, a, ws());
        let p = index_of_from(t, '(', w2);
        let count = t.subrange(0, d);
        if p >= t.len() {
            if w2 < t.len() {
                Some((count, t.subrange(w2, t.len() as int), None))
            } else {
                None
            }
        } else if !(p + 1 < t.len() && t[t.len() - 1] == ')' && !t.subrange(
            p + 1,
            t.len() - 1,
        ).contains('\n')) {
            None
        } else {
            let modifier = t.subrange(p + 1, t.len() - 1);
            if w2 < p {
                Some((count, t.subrange(w2, rscan_while(t, w2, p, ws())), Some(modifier)))
            } else if w2 > a {
                Some((count, t.subrange(w2 - 1, w2), Some(modifier)))
            } else {
                None
            }
        }
    }
}

/// The value of a `keep=...` modifier, trimmed, or `None` when the
/// modifier has another shape.
pub open spec fn keep_match(x: Seq<char>) -> Option<Seq<char>> {
    let k0 = scan_while(x, 0, ws());
    if !(k0 + 4 <= x.len() && x.subrange(k0, k0 + 4) == seq!['k', 'e', 'e', 'p']) {
        None
    } else {
        let k1 = scan_while(x, k0 + 4, ws());
        if k1 >= x.len() || x[k1] != '=' {
            None
        } else {
            let r = x.subrange(k1 + 1, x.len() as int);
            if trim(r).len() > 0 {
                Some(trim(r))
            } else if r.len() > 0 {
                Some(Seq::<char>::empty())
            } else {
                None
            }
        }
    }
}

/// `s.eq_ignore_ascii_case("all")`.
pub open spec fn is_all_word(s: Seq<char>) -> bool {
    &&& s.len() == 3
    &&& (s[0] == 'a' || s[0] == 'A')
    &&& (s[1] == 'l' || s[1] == 'L')
    &&& (s[2] == 'l' || s[2] == 'L')
}

/// What one trimmed term contributes: `(count, length, keep)`, or the
/// error message.
pub open spec fn term_result(t: Seq<char>) -> Result<(nat, u128, KeepCount), Seq<char>> {
    match term_match(t) {
        None => Err("does not match `<count>x<duration>(keep=...)?`"@),
        Some((c, dstr, m)) => match parse_unsigned(c, u32_max()) {
            None => Err("count: "@ + u32_parse_error_text(c)),
            Some(count) => if count == 0 {
                Err("count must be > 0"@)
            } else {
                let ds = trim(dstr);
                if digit_count(ds) > MAX_DURATION_DIGITS {
                    Err("duration "@ + debug_form(ds) + ": more than 11 digits"@)
                } else {
                match humantime_duration(ds) {
                    Err(e) => Err("duration "@ + debug_form(ds) + ": "@ + e),
                    Ok(length) => match m {
                        None => Ok((count, length, KeepCount::Exactly(1))),
                        Some(x) => match keep_match(x) {
                            None => Err(
                                "modifier "@ + debug_form(x)
                                    + ": only `keep=N` or `keep=all` is supported"@,
                            ),
                            Some(val) => if is_all_word(val) {
                                Ok((count, length, KeepCount::All))
                            } else {
                                match parse_unsigned(val, u32_max()) {
                                    None => Err(
                                        "keep count "@ + debug_form(val) + ": "@
                                            + u32_parse_error_text(val),
                                    ),
                                    Some(n) => if n == 0 {
                                        Err("keep count must be > 0 or `all`"@)
                                    } else {
                                        Ok((count, length, KeepCount::Exactly(n as u32)))
                                    },
                                }
                            },
                        },
                    },
                }
                }
            },
        },
    }
}

// ---------------------------------------------------------------------
// The whole expression
// ---------------------------------------------------------------------

/// `count` copies of one interval.
pub open spec fn repeat_interval(count: nat, length: u128, keep: KeepCount) -> Seq<RetentionInterval> {
    Seq::new(count, |_i: int| RetentionInterval { length, keep_count: keep })
}

/// The intervals of the `|`-separated pieces of `s` from `start` on,
/// numbering the first of them `idx`; or the first fault.
pub open spec fn parse_pieces(s: Seq<char>, start: int, idx: nat) -> Result<Seq<RetentionInterval>, GridFault>
    decreases s.len() - start,
{
    if start < 0 || start > s.len() {
        Ok(Seq::empty())
    } else {
        let e = index_of_from(s, '|', start);
        let t = trim(s.subrange(start, e));
        match term_result(t) {
            Err(m) => Err(GridFault::Term { term_index: idx, term: t, message: m }),
            Ok((count, length, keep)) => {
                let here = repeat_interval(count, length, keep);
                if e >= s.len() {
                    Ok(here)
                } else {
                    proof {
                        lemma_index_of_from(s, '|', start);
                    }
                    match parse_pieces(s, e + 1, idx + 1) {
                        Ok(rest) => Ok(here + rest),
                        Err(f) => Err(f),
                    }
                }
            },
        }
    }
}

/// Every interval before `i` keeps all.
pub open spec fn all_keep_all_before(ivs: Seq<RetentionInterval>, i: int) -> bool {
    forall|k: int| 0 <= k < i ==> #[trigger] ivs[k].keep_count == KeepCount::All
}

/// Interval `i` is shorter than its predecessor without the keep=all
/// exemption.
pub open spec fn breaks_monotony(ivs: Seq<RetentionInterval>, i: int) -> bool {
    &&& 1 <= i < ivs.len()
    &&& ivs[i].length < ivs[i - 1].length
    &&& !all_keep_all_before(ivs, i)
}

/// The first interval at or after `i` that breaks monotony.
pub open spec fn first_break(ivs: Seq<RetentionInterval>, i: int) -> Option<int>
    decreases ivs.len() - i,
{
    if i < 1 || i >= ivs.len() {
        None
    } else if breaks_monotony(ivs, i) {
        Some(i)
    } else {
        first_break(ivs, i + 1)
    }
}

/// Only whitespace and `|`: every term is blank.
pub open spec fn all_blank(s: Seq<char>) -> bool {
    forall|i: int| 0 <= i < s.len() ==> is_unicode_whitespace(#[trigger] s[i]) || s[i] == '|'
}

/// What parsing a grid expression gives.
pub open spec fn grid_parse(s: Seq<char>) -> Result<Seq<RetentionInterval>, GridFault> {
    if all_blank(s) {
        Err(GridFault::Empty)
    } else {
        match parse_pieces(s, 0, 0) {
            Err(f) => Err(f),
            Ok(ivs) => if ivs.len() == 0 {
                Err(GridFault::Empty)
            } else {
                match first_break(ivs, 1) {
                    Some(i) => Err(
                        GridFault::NonMonotonic { prev: ivs[i - 1].length, next: ivs[i].length },
                    ),
                    None => Ok(ivs),
                }
            },
        }
    }
}

pub open spec fn combine(
    acc: Seq<RetentionInterval>,
    r: Result<Seq<RetentionInterval>, GridFault>,
) -> Result<Seq<RetentionInterval>, GridFault> {
    match r {
        Ok(rest) => Ok(acc + rest),
        Err(f) => Err(f),
    }
}

// ---------------------------------------------------------------------
// Lemmas
// ---------------------------------------------------------------------

proof fn lemma_first_break_none(ivs: Seq<RetentionInterval>, i: int)
    requires
        1 <= i,
        forall|k: int| i <= k < ivs.len() ==> !breaks_monotony(ivs, k),
    ensures
        first_break(ivs, i) is None,
    decreases ivs.len() - i,
{
    if i < ivs.len() {
        lemma_first_break_none(ivs, i + 1);
    }
}

proof fn lemma_first_break_some(ivs: Seq<RetentionInterval>, i: int, j: int)
    requires
        1 <= i <= j,
        breaks_monotony(ivs, j),
        forall|k: int| i <= k < j ==> !breaks_monotony(ivs, k),
    ensures
        first_break(ivs, i) == Some(j),
    decreases j - i,
{
    if i < j {
        lemma_first_break_some(ivs, i + 1, j);
    }
}

// ---------------------------------------------------------------------
// Exec
// ---------------------------------------------------------------------

/// Splits a trimmed term by the grammar of `term_match`, returning
/// `(end of count, duration range, modifier range)`.
#[verifier::loop_isolation(false)]
fn match_term(t: &[char]) -> (r: Option<(usize, usize, usize, Option<(usize, usize)>)>)
    ensures
        match r {
            None => term_match(t@) is None,
            Some((d, g0, g1, m)) => {
                &&& d <= g0 <= g1 <= t@.len()
                &&& term_match(t@) is Some
                &&& term_match(t@).unwrap().0 == t@.subrange(0, d as int)
                &&& term_match(t@).unwrap().1 == t@.subrange(g0 as int, g1 as int)
                &&& match m {
                    None => term_match(t@).unwrap().2 is None,
                    Some((m0, m1)) => m0 <= m1 <= t@.len() && term_match(t@).unwrap().2 == Some(
                        t@.subrange(m0 as int, m1 as int),
                    ),
                }
            },
        },
{
    let n = t.len();
    let d = skip_decimal_numbers(t, 0);
    proof { lemma_scan_while(t@, 0, decimal_number()); }
    let w1 = skip_ws(t, d);
    proof { lemma_scan_while(t@, d as int, ws()); }
    if d == 0 || w1 >= n || t[w1] != 'x' {
        return None;
    }
    let a = w1 + 1;
    let w2 = skip_ws(t, a);
    proof { lemma_scan_while(t@, a as int, ws()); }
    let p = find_char(t, '(', w2);
    if p >= n {
        if w2 < n {
            return Some((d, w2, n, None));
        } else {
            return None;
        }
    }
    if !(p + 1 < n && t[n - 1] == ')') {
        return None;
    }
    let mut k = p + 1;
    while k < n - 1
        invariant
            p + 1 <= k <= n - 1,
            n == t@.len(),
            forall|j: int| p + 1 <= j < k ==> t@[j] != '\n',
        decreases n - 1 - k,
    {
        if t[k] == '\n' {
            assert(t@.subrange(p + 1, n - 1)[k - p - 1] == '\n');
            return None;
        }
        k += 1;
    }
    assert(!t@.subrange(p + 1, n - 1).contains('\n')) by {
        if t@.subrange(p + 1, n - 1).contains('\n') {
            let j = choose|j: int| 0 <= j < n - 1 - (p + 1) && #[trigger] t@.subrange(p + 1, n - 1)[j] == '\n';
            assert(t@[p + 1 + j] == '\n');
        }
    }
    if w2 < p {
        let q = rskip_ws(t, w2, p);
        proof { lemma_rscan_while(t@, w2 as int, p as int, ws()); }
        Some((d, w2, q, Some((p + 1, n - 1))))
    } else if w2 > a {
        Some((d, w2 - 1, w2, Some((p + 1, n - 1))))
    } else {
        None
    }
}

/// Splits a modifier by the grammar of `keep_match`, returning the
/// trimmed value.
#[verifier::loop_isolation(false)]
fn match_keep(x: &[char]) -> (r: Option<Vec<char>>)
    ensures
        match r {
            None => keep_match(x@) is None,
            Some(v) => keep_match(x@) == Some(v@),
        },
{
    let n = x.len();
    let k0 = skip_ws(x, 0);
    proof { lemma_scan_while(x@, 0, ws()); }
    if !(n >= 4 && k0 <= n - 4 && x[k0] == 'k' && x[k0 + 1] == 'e' && x[k0 + 2] == 'e' && x[k0
        + 3] == 'p') {
        proof {
            if k0 + 4 <= x@.len() && x@.subrange(k0 as int, k0 + 4) == seq!['k', 'e', 'e', 'p'] {
                assert(x@.subrange(k0 as int, k0 + 4)[0] == x@[k0 as int]);
                assert(x@.subrange(k0 as int, k0 + 4)[1] == x@[k0 + 1]);
                assert(x@.subrange(k0 as int, k0 + 4)[2] == x@[k0 + 2]);
                assert(x@.subrange(k0 as int, k0 + 4)[3] == x@[k0 + 3]);
            }
        }
        return None;
    }
    assert(x@.subrange(k0 as int, k0 + 4) =~= seq!['k', 'e', 'e', 'p']);
    let k1 = skip_ws(x, k0 + 4);
    proof { lemma_scan_while(x@, k0 + 4, ws()); }
    if k1 >= n || x[k1] != '=' {
        return None;
    }
    let r = slice_chars(x, k1 + 1, n);
    let tr = trim_chars(&r);
    if tr.len() > 0 {
        Some(tr)
    } else if r.len() > 0 {
        Some(Vec::new())
    } else {
        None
    }
}

/// `u32` from text, with the error message `format!("{prefix}{e}")`
/// would give on failure.
fn parse_u32_or_message(v: &[char]) -> (r: Result<u32, String>)
    ensures
        match r {
            Ok(n) => parse_unsigned(v@, u32_max()) == Some(n as nat),
            Err(m) => parse_unsigned(v@, u32_max()) is None && m@ == u32_parse_error_text(v@),
        },
{
    assert(v@.subrange(0, v@.len() as int) =~= v@);
    match parse_unsigned_chars(v, 0, v.len(), 0xffff_ffff) {
        Some(n) => Ok(n as u32),
        None => {
            let s = string_from_chars(v);
            u32_from_str(s.as_str())
        },
    }
}

fn term_error(msg: String) -> (r: Result<(u32, u128, KeepCount), String>)
    ensures
        r == Err::<(u32, u128, KeepCount), String>(msg),
{
    Err(msg)
}

/// What one trimmed term contributes, or its error message.
fn eval_term(t: &[char]) -> (r: Result<(u32, u128, KeepCount), String>)
    ensures
        match r {
            Ok((c, l, k)) => term_result(t@) == Ok::<(nat, u128, KeepCount), Seq<char>>(
                (c as nat, l, k),
            ),
            Err(m) => term_result(t@) == Err::<(nat, u128, KeepCount), Seq<char>>(m@),
        },
{
    let (d, g0, g1, m) = match match_term(t) {
        None => return term_error(to_owned_string("does not match `<count>x<duration>(keep=...)?`")),
        Some(x) => x,
    };
    let cv = slice_chars(t, 0, d);
    let count = match parse_u32_or_message(&cv) {
        Err(e) => {
            let mut msg = to_owned_string("count: ");
            push_str(&mut msg, e.as_str());
            return term_error(msg);
        },
        Ok(c) => c,
    };
    if count == 0 {
        return term_error(to_owned_string("count must be > 0"));
    }
    let dv = slice_chars(t, g0, g1);
    let ds = trim_chars(&dv);
    let ds_str = string_from_chars(&ds);
    if count_digits(&ds) > MAX_DURATION_DIGITS {
        let mut msg = to_owned_string("duration ");
        let dbg = debug_str(ds_str.as_str());
        push_str(&mut msg, dbg.as_str());
        push_str(&mut msg, ": more than 11 digits");
        return term_error(msg);
    }
    let length = match parse_duration_nanos(ds_str.as_str()) {
        Err(e) => {
            let mut msg = to_owned_string("duration ");
            let dbg = debug_str(ds_str.as_str());
            push_str(&mut msg, dbg.as_str());
            push_str(&mut msg, ": ");
            push_str(&mut msg, e.as_str());
            return term_error(msg);
        },
        Ok(l) => l,
    };
    match m {
        None => Ok((count, length, KeepCount::Exactly(1))),
        Some((m0, m1)) => {
            let xv = slice_chars(t, m0, m1);
            match match_keep(&xv) {
                None => {
                    let xs = string_from_chars(&xv);
                    let mut msg = to_owned_string("modifier ");
                    let dbg = debug_str(xs.as_str());
                    push_str(&mut msg, dbg.as_str());
                    push_str(&mut msg, ": only `keep=N` or `keep=all` is supported");
                    term_error(msg)
                },
                Some(val) => {
                    if val.len() == 3 && (val[0] == 'a' || val[0] == 'A') && (val[1] == 'l'
                        || val[1] == 'L') && (val[2] == 'l' || val[2] == 'L') {
                        Ok((count, length, KeepCount::All))
                    } else {
                        match parse_u32_or_message(&val) {
                            Err(e) => {
                                let vs = string_from_chars(&val);
                                let mut msg = to_owned_string("keep count ");
                                let dbg = debug_str(vs.as_str());
                                push_str(&mut msg, dbg.as_str());
                                push_str(&mut msg, ": ");
                                push_str(&mut msg, e.as_str());
                                term_error(msg)
                            },
                            Ok(n) => if n == 0 {
                                term_error(to_owned_string("keep count must be > 0 or `all`"))
                            } else {
                                Ok((count, length, KeepCount::Exactly(n)))
                            },
                        }
                    }
                },
            }
        },
    }
}

impl GridSpec {
    /// Parses a grid expression such as `"4x15m(keep=all) | 24x1h | 14x1d"`.
    pub fn parse(input: &str) -> (r: Result<GridSpec, GridParseError>)
        ensures
            match r {
                Ok(g) => grid_parse(input@) == Ok::<Seq<RetentionInterval>, GridFault>(g.0@),
                Err(e) => grid_parse(input@) == Err::<Seq<RetentionInterval>, GridFault>(
                    fault_of(e),
                ),
            },
    {
        let s = chars_of(input);
        let n = s.len();
        // Every term blank: nothing to parse.
        let mut b: usize = 0;
        while b < n && (is_ws_or_bar(s[b]))
            invariant
                b <= n == s@.len(),
                forall|k: int| 0 <= k < b ==> is_unicode_whitespace(#[trigger] s@[k]) || s@[k] == '|',
            decreases n - b,
        {
            b += 1;
        }
        if b == n {
            return Err(GridParseError::Empty);
        }
        assert(!all_blank(s@)) by {
            assert(!(is_unicode_whitespace(s@[b as int]) || s@[b as int] == '|'));
        }
        let mut intervals: Vec<RetentionInterval> = Vec::new();
        let mut start: usize = 0;
        let mut idx: usize = 0;
        loop
            invariant_except_break
                start <= n == s@.len(),
                idx <= start,
                parse_pieces(s@, 0, 0) == combine(intervals@, parse_pieces(s@, start as int, idx as nat)),
            invariant
                !all_blank(s@),
                n == s@.len(),
                s@ == input@,
            ensures
                parse_pieces(s@, 0, 0) == Ok::<Seq<RetentionInterval>, GridFault>(intervals@),
            decreases n - start,
        {
            let e = find_char(&s, '|', start);
            let piece = slice_chars(&s, start, e);
            let t = trim_chars(&piece);
            proof {
                lemma_index_of_from(s@, '|', start as int);
            }
            match eval_term(&t) {
                Err(m) => {
                    let err = GridParseError::Term { term_index: idx, term: string_from_chars(&t), message: m };
                    proof {
                        assert(parse_pieces(s@, start as int, idx as nat) == Err::<Seq<RetentionInterval>, GridFault>(fault_of(err)));
                    }
                    return Err(err);
                },
                Ok((count, length, keep)) => {
                    let ghost before = intervals@;
                    let mut c: u32 = 0;
                    while c < count
                        invariant
                            c <= count,
                            intervals@ == before + repeat_interval(c as nat, length, keep),
                        decreases count - c,
                    {
                        intervals.push(RetentionInterval { length, keep_count: keep });
                        assert(repeat_interval((c + 1) as nat, length, keep) =~= repeat_interval(c as nat, length, keep).push(RetentionInterval { length, keep_count: keep }));
                        c += 1;
                    }
                    if e >= n {
                        assert(parse_pieces(s@, start as int, idx as nat) == Ok::<Seq<RetentionInterval>, GridFault>(repeat_interval(count as nat, length, keep)));
                        break;
                    }
                    proof {
                        let here = repeat_interval(count as nat, length, keep);
                        let rest = parse_pieces(s@, e + 1, (idx + 1) as nat);
                        match rest {
                            Ok(rs) => {
                                assert(before + (here + rs) =~= (before + here) + rs);
                            },
                            Err(_) => {},
                        }
                    }
                    start = e + 1;
                    idx = idx + 1;
                },
            }
        }
        // Monotony: shorter than the previous interval is allowed only
        // after a run of keep=all intervals.
        let ghost ivs = intervals@;
        if intervals.len() == 0 {
            return Err(GridParseError::Empty);
        }
        let mut all_keep_all = true;
        let mut i: usize = 1;
        match intervals[0].keep_count {
            KeepCount::All => {},
            KeepCount::Exactly(_) => { all_keep_all = false; },
        }
        while i < intervals.len()
            invariant
                ivs == intervals@,
                parse_pieces(s@, 0, 0) == Ok::<Seq<RetentionInterval>, GridFault>(ivs),
                !all_blank(s@),
                s@ == input@,
                1 <= i <= ivs.len(),
                all_keep_all == all_keep_all_before(ivs, i as int),
                forall|k: int| 1 <= k < i ==> !breaks_monotony(ivs, k),
            decreases intervals.len() - i,
        {
            if intervals[i].length < intervals[i - 1].length && !all_keep_all {
                proof {
                    lemma_first_break_some(ivs, 1, i as int);
                }
                return Err(GridParseError::NonMonotonic {
                    prev: intervals[i - 1].length,
                    next: intervals[i].length,
                });
            }
            match intervals[i].keep_count {
                KeepCount::All => {},
                KeepCount::Exactly(_) => { all_keep_all = false; },
            }
            proof {
                assert(all_keep_all == all_keep_all_before(ivs, i + 1)) by {
                    if all_keep_all_before(ivs, i + 1) {
                        assert(all_keep_all_before(ivs, i as int));
                    }
                    if !all_keep_all_before(ivs, i + 1) && all_keep_all_before(ivs, i as int) {
                        assert(ivs[i as int].keep_count != KeepCount::All);
                    }
                }
            }
            i += 1;
        }
        proof {
            lemma_first_break_none(ivs, 1);
        }
        Ok(GridSpec(intervals))
    }
}

fn is_ws_or_bar(c: char) -> (r: bool)
    ensures
        r == (is_unicode_whitespace(c) || c == '|'),
{
    crate::text::unicode_whitespace(c) || c == '|'
}

} // verus!
