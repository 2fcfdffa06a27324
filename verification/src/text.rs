//! Character-level helpers over `str` and `String`, with the spec
//! functions the rest of the crate states its contracts in.

use vstd::prelude::*;

verus! {

// ---------------------------------------------------------------------
// Spec vocabulary
// ---------------------------------------------------------------------

/// ASCII letter or digit.
pub open spec fn is_ascii_alnum(c: char) -> bool {
    ||| ('0' <= c && c <= '9')
    ||| ('a' <= c && c <= 'z')
    ||| ('A' <= c && c <= 'Z')
}

/// ASCII decimal digit.
pub open spec fn is_digit(c: char) -> bool {
    '0' <= c && c <= '9'
}

/// The Unicode `White_Space` property, which is what `char::is_whitespace`
/// tests.
pub open spec fn is_unicode_whitespace(c: char) -> bool {
    ||| ('\u{9}' <= c && c <= '\u{d}')
    ||| c == ' '
    ||| c == '\u{85}'
    ||| c == '\u{a0}'
    ||| c == '\u{1680}'
    ||| ('\u{2000}' <= c && c <= '\u{200a}')
    ||| c == '\u{2028}'
    ||| c == '\u{2029}'
    ||| c == '\u{202f}'
    ||| c == '\u{205f}'
    ||| c == '\u{3000}'
}

/// `p` is a prefix of `s`.
pub open spec fn starts_with(s: Seq<char>, p: Seq<char>) -> bool {
    p.len() <= s.len() && s.subrange(0, p.len() as int) == p
}

/// `p` is a suffix of `s`.
pub open spec fn ends_with(s: Seq<char>, p: Seq<char>) -> bool {
    p.len() <= s.len() && s.subrange(s.len() - p.len(), s.len() as int) == p
}

/// `p` occurs in `s` as a contiguous run.
pub open spec fn contains_seq(s: Seq<char>, p: Seq<char>) -> bool {
    exists|i: int| 0 <= i && i + p.len() <= s.len() && #[trigger] s.subrange(i, i + p.len()) == p
}

/// The first index at or after `from` that holds `c`, or `s.len()`.
pub open spec fn index_of_from(s: Seq<char>, c: char, from: int) -> int
    decreases s.len() - from,
{
    if from < 0 || from >= s.len() {
        s.len() as int
    } else if s[from] == c {
        from
    } else {
        index_of_from(s, c, from + 1)
    }
}

/// The character of a decimal digit value.
pub open spec fn digit_char(d: nat) -> char {
    if d == 0 { '0' }
    else if d == 1 { '1' }
    else if d == 2 { '2' }
    else if d == 3 { '3' }
    else if d == 4 { '4' }
    else if d == 5 { '5' }
    else if d == 6 { '6' }
    else if d == 7 { '7' }
    else if d == 8 { '8' }
    else { '9' }
}

/// The value of a decimal digit character.
pub open spec fn digit_value(c: char) -> nat {
    (c as u32 - '0' as u32) as nat
}

/// `n` written in decimal, as `Display` writes unsigned integers.
pub open spec fn decimal(n: nat) -> Seq<char>
    decreases n,
{
    if n < 10 {
        seq![digit_char(n)]
    } else {
        decimal(n / 10).push(digit_char(n % 10))
    }
}

/// The character of a hexadecimal digit value (lower case).
pub open spec fn hex_digit_char(d: nat) -> char {
    if d < 10 { digit_char(d) }
    else if d == 10 { 'a' }
    else if d == 11 { 'b' }
    else if d == 12 { 'c' }
    else if d == 13 { 'd' }
    else if d == 14 { 'e' }
    else { 'f' }
}

/// `n` in lower-case hexadecimal without leading zeros, as `{:x}` writes it.
pub open spec fn lower_hex(n: nat) -> Seq<char>
    decreases n,
{
    if n < 16 {
        seq![hex_digit_char(n)]
    } else {
        lower_hex(n / 16).push(hex_digit_char(n % 16))
    }
}

/// Value of a run of decimal digits.
pub open spec fn digits_value(s: Seq<char>) -> nat
    decreases s.len(),
{
    if s.len() == 0 {
        0
    } else {
        digits_value(s.drop_last()) * 10 + digit_value(s.last())
    }
}

/// Every character is a decimal digit.
pub open spec fn all_digits(s: Seq<char>) -> bool {
    forall|i: int| 0 <= i < s.len() ==> is_digit(#[trigger] s[i])
}

/// What `str::parse` gives for an unsigned integer type with `max`
/// as its largest value: an optional `+`, then one or more decimal
/// digits, whose value fits.
pub open spec fn parse_unsigned(s: Seq<char>, max: nat) -> Option<nat> {
    let body = if s.len() > 0 && s[0] == '+' { s.drop_first() } else { s };
    if body.len() > 0 && all_digits(body) && digits_value(body) <= max {
        Some(digits_value(body))
    } else {
        None
    }
}

/// What `str::parse::<i64>` gives: an optional sign, then one or more
/// decimal digits, whose value fits `i64`.
pub open spec fn parse_i64(s: Seq<char>) -> Option<int> {
    if s.len() > 0 && s[0] == '-' {
        let body = s.drop_first();
        if body.len() > 0 && all_digits(body) && digits_value(body) <= 0x8000_0000_0000_0000 {
            Some(-(digits_value(body) as int))
        } else {
            None
        }
    } else {
        match parse_unsigned(s, 0x7fff_ffff_ffff_ffff) {
            Some(v) => Some(v as int),
            None => None,
        }
    }
}

/// What `format!("{:?}", s)` writes for a string slice: the text quoted
/// and escaped. Named, not spelled out; `debug_str` is its only source.
pub uninterp spec fn debug_form(s: Seq<char>) -> Seq<char>;

/// The first index at or after `i` whose character fails `p`, or `t.len()`.
pub open spec fn scan_while(t: Seq<char>, i: int, p: spec_fn(char) -> bool) -> int
    decreases t.len() - i,
{
    if i < 0 || i >= t.len() {
        t.len() as int
    } else if p(t[i]) {
        scan_while(t, i + 1, p)
    } else {
        i
    }
}

/// Walking down from `hi` towards `lo`, the first end whose last
/// character fails `p` (or `lo`).
pub open spec fn rscan_while(t: Seq<char>, lo: int, hi: int, p: spec_fn(char) -> bool) -> int
    decreases hi - lo,
{
    if hi <= lo {
        lo
    } else if p(t[hi - 1]) {
        rscan_while(t, lo, hi - 1, p)
    } else {
        hi
    }
}

/// The least index in `[k, n)` satisfying `p`, if any.
pub open spec fn first_from(k: int, n: int, p: spec_fn(int) -> bool) -> Option<int>
    decreases n - k,
{
    if k < 0 || k >= n {
        None
    } else if p(k) {
        Some(k)
    } else {
        first_from(k + 1, n, p)
    }
}

/// The whitespace predicate, as a value.
pub open spec fn ws() -> spec_fn(char) -> bool {
    |c: char| is_unicode_whitespace(c)
}

/// The Unicode `Decimal_Number` category (what `\\d` matches in the
/// `regex` crate, whose Unicode 16 table this follows).
pub open spec fn is_decimal_number(c: char) -> bool {
    ('\u{30}' <= c && c <= '\u{39}')
        || ('\u{660}' <= c && c <= '\u{669}')
        || ('\u{6f0}' <= c && c <= '\u{6f9}')
        || ('\u{7c0}' <= c && c <= '\u{7c9}')
        || ('\u{966}' <= c && c <= '\u{96f}')
        || ('\u{9e6}' <= c && c <= '\u{9ef}')
        || ('\u{a66}' <= c && c <= '\u{a6f}')
        || ('\u{ae6}' <= c && c <= '\u{aef}')
        || ('\u{b66}' <= c && c <= '\u{b6f}')
        || ('\u{be6}' <= c && c <= '\u{bef}')
        || ('\u{c66}' <= c && c <= '\u{c6f}')
        || ('\u{ce6}' <= c && c <= '\u{cef}')
        || ('\u{d66}' <= c && c <= '\u{d6f}')
        || ('\u{de6}' <= c && c <= '\u{def}')
        || ('\u{e50}' <= c && c <= '\u{e59}')
        || ('\u{ed0}' <= c && c <= '\u{ed9}')
        || ('\u{f20}' <= c && c <= '\u{f29}')
        || ('\u{1040}' <= c && c <= '\u{1049}')
        || ('\u{1090}' <= c && c <= '\u{1099}')
        || ('\u{17e0}' <= c && c <= '\u{17e9}')
        || ('\u{1810}' <= c && c <= '\u{1819}')
        || ('\u{1946}' <= c && c <= '\u{194f}')
        || ('\u{19d0}' <= c && c <= '\u{19d9}')
        || ('\u{1a80}' <= c && c <= '\u{1a89}')
        || ('\u{1a90}' <= c && c <= '\u{1a99}')
        || ('\u{1b50}' <= c && c <= '\u{1b59}')
        || ('\u{1bb0}' <= c && c <= '\u{1bb9}')
        || ('\u{1c40}' <= c && c <= '\u{1c49}')
        || ('\u{1c50}' <= c && c <= '\u{1c59}')
        || ('\u{a620}' <= c && c <= '\u{a629}')
        || ('\u{a8d0}' <= c && c <= '\u{a8d9}')
        || ('\u{a900}' <= c && c <= '\u{a909}')
        || ('\u{a9d0}' <= c && c <= '\u{a9d9}')
        || ('\u{a9f0}' <= c && c <= '\u{a9f9}')
        || ('\u{aa50}' <= c && c <= '\u{aa59}')
        || ('\u{abf0}' <= c && c <= '\u{abf9}')
        || ('\u{ff10}' <= c && c <= '\u{ff19}')
        || ('\u{104a0}' <= c && c <= '\u{104a9}')
        || ('\u{10d30}' <= c && c <= '\u{10d39}')
        || ('\u{10d40}' <= c && c <= '\u{10d49}')
        || ('\u{11066}' <= c && c <= '\u{1106f}')
        || ('\u{110f0}' <= c && c <= '\u{110f9}')
        || ('\u{11136}' <= c && c <= '\u{1113f}')
        || ('\u{111d0}' <= c && c <= '\u{111d9}')
        || ('\u{112f0}' <= c && c <= '\u{112f9}')
        || ('\u{11450}' <= c && c <= '\u{11459}')
        || ('\u{114d0}' <= c && c <= '\u{114d9}')
        || ('\u{11650}' <= c && c <= '\u{11659}')
        || ('\u{116c0}' <= c && c <= '\u{116c9}')
        || ('\u{116d0}' <= c && c <= '\u{116e3}')
        || ('\u{11730}' <= c && c <= '\u{11739}')
        || ('\u{118e0}' <= c && c <= '\u{118e9}')
        || ('\u{11950}' <= c && c <= '\u{11959}')
        || ('\u{11bf0}' <= c && c <= '\u{11bf9}')
        || ('\u{11c50}' <= c && c <= '\u{11c59}')
        || ('\u{11d50}' <= c && c <= '\u{11d59}')
        || ('\u{11da0}' <= c && c <= '\u{11da9}')
        || ('\u{11f50}' <= c && c <= '\u{11f59}')
        || ('\u{16130}' <= c && c <= '\u{16139}')
        || ('\u{16a60}' <= c && c <= '\u{16a69}')
        || ('\u{16ac0}' <= c && c <= '\u{16ac9}')
        || ('\u{16b50}' <= c && c <= '\u{16b59}')
        || ('\u{16d70}' <= c && c <= '\u{16d79}')
        || ('\u{1ccf0}' <= c && c <= '\u{1ccf9}')
        || ('\u{1d7ce}' <= c && c <= '\u{1d7ff}')
        || ('\u{1e140}' <= c && c <= '\u{1e149}')
        || ('\u{1e2f0}' <= c && c <= '\u{1e2f9}')
        || ('\u{1e4f0}' <= c && c <= '\u{1e4f9}')
        || ('\u{1e5f1}' <= c && c <= '\u{1e5fa}')
        || ('\u{1e950}' <= c && c <= '\u{1e959}')
        || ('\u{1fbf0}' <= c && c <= '\u{1fbf9}')
}

/// The decimal-number predicate, as a value.
pub open spec fn decimal_number() -> spec_fn(char) -> bool {
    |c: char| is_decimal_number(c)
}

/// Whether `c` is in the Unicode `Decimal_Number` category.
pub fn unicode_decimal_number(c: char) -> (r: bool)
    ensures
        r == is_decimal_number(c),
{
    ('\u{30}' <= c && c <= '\u{39}')
        || ('\u{660}' <= c && c <= '\u{669}')
        || ('\u{6f0}' <= c && c <= '\u{6f9}')
        || ('\u{7c0}' <= c && c <= '\u{7c9}')
        || ('\u{966}' <= c && c <= '\u{96f}')
        || ('\u{9e6}' <= c && c <= '\u{9ef}')
        || ('\u{a66}' <= c && c <= '\u{a6f}')
        || ('\u{ae6}' <= c && c <= '\u{aef}')
        || ('\u{b66}' <= c && c <= '\u{b6f}')
        || ('\u{be6}' <= c && c <= '\u{bef}')
        || ('\u{c66}' <= c && c <= '\u{c6f}')
        || ('\u{ce6}' <= c && c <= '\u{cef}')
        || ('\u{d66}' <= c && c <= '\u{d6f}')
        || ('\u{de6}' <= c && c <= '\u{def}')
        || ('\u{e50}' <= c && c <= '\u{e59}')
        || ('\u{ed0}' <= c && c <= '\u{ed9}')
        || ('\u{f20}' <= c && c <= '\u{f29}')
        || ('\u{1040}' <= c && c <= '\u{1049}')
        || ('\u{1090}' <= c && c <= '\u{1099}')
        || ('\u{17e0}' <= c && c <= '\u{17e9}')
        || ('\u{1810}' <= c && c <= '\u{1819}')
        || ('\u{1946}' <= c && c <= '\u{194f}')
        || ('\u{19d0}' <= c && c <= '\u{19d9}')
        || ('\u{1a80}' <= c && c <= '\u{1a89}')
        || ('\u{1a90}' <= c && c <= '\u{1a99}')
        || ('\u{1b50}' <= c && c <= '\u{1b59}')
        || ('\u{1bb0}' <= c && c <= '\u{1bb9}')
        || ('\u{1c40}' <= c && c <= '\u{1c49}')
        || ('\u{1c50}' <= c && c <= '\u{1c59}')
        || ('\u{a620}' <= c && c <= '\u{a629}')
        || ('\u{a8d0}' <= c && c <= '\u{a8d9}')
        || ('\u{a900}' <= c && c <= '\u{a909}')
        || ('\u{a9d0}' <= c && c <= '\u{a9d9}')
        || ('\u{a9f0}' <= c && c <= '\u{a9f9}')
        || ('\u{aa50}' <= c && c <= '\u{aa59}')
        || ('\u{abf0}' <= c && c <= '\u{abf9}')
        || ('\u{ff10}' <= c && c <= '\u{ff19}')
        || ('\u{104a0}' <= c && c <= '\u{104a9}')
        || ('\u{10d30}' <= c && c <= '\u{10d39}')
        || ('\u{10d40}' <= c && c <= '\u{10d49}')
        || ('\u{11066}' <= c && c <= '\u{1106f}')
        || ('\u{110f0}' <= c && c <= '\u{110f9}')
        || ('\u{11136}' <= c && c <= '\u{1113f}')
        || ('\u{111d0}' <= c && c <= '\u{111d9}')
        || ('\u{112f0}' <= c && c <= '\u{112f9}')
        || ('\u{11450}' <= c && c <= '\u{11459}')
        || ('\u{114d0}' <= c && c <= '\u{114d9}')
        || ('\u{11650}' <= c && c <= '\u{11659}')
        || ('\u{116c0}' <= c && c <= '\u{116c9}')
        || ('\u{116d0}' <= c && c <= '\u{116e3}')
        || ('\u{11730}' <= c && c <= '\u{11739}')
        || ('\u{118e0}' <= c && c <= '\u{118e9}')
        || ('\u{11950}' <= c && c <= '\u{11959}')
        || ('\u{11bf0}' <= c && c <= '\u{11bf9}')
        || ('\u{11c50}' <= c && c <= '\u{11c59}')
        || ('\u{11d50}' <= c && c <= '\u{11d59}')
        || ('\u{11da0}' <= c && c <= '\u{11da9}')
        || ('\u{11f50}' <= c && c <= '\u{11f59}')
        || ('\u{16130}' <= c && c <= '\u{16139}')
        || ('\u{16a60}' <= c && c <= '\u{16a69}')
        || ('\u{16ac0}' <= c && c <= '\u{16ac9}')
        || ('\u{16b50}' <= c && c <= '\u{16b59}')
        || ('\u{16d70}' <= c && c <= '\u{16d79}')
        || ('\u{1ccf0}' <= c && c <= '\u{1ccf9}')
        || ('\u{1d7ce}' <= c && c <= '\u{1d7ff}')
        || ('\u{1e140}' <= c && c <= '\u{1e149}')
        || ('\u{1e2f0}' <= c && c <= '\u{1e2f9}')
        || ('\u{1e4f0}' <= c && c <= '\u{1e4f9}')
        || ('\u{1e5f1}' <= c && c <= '\u{1e5fa}')
        || ('\u{1e950}' <= c && c <= '\u{1e959}')
        || ('\u{1fbf0}' <= c && c <= '\u{1fbf9}')
}

/// The decimal-digit predicate, as a value.
pub open spec fn digit() -> spec_fn(char) -> bool {
    |c: char| is_digit(c)
}

/// `str::trim`: drop leading and trailing Unicode whitespace.
pub open spec fn trim(t: Seq<char>) -> Seq<char> {
    let a = scan_while(t, 0, ws());
    t.subrange(a, rscan_while(t, a, t.len() as int, ws()))
}

/// `str::trim_end_matches(c)`: drop every trailing `c`.
pub open spec fn trim_end_char(t: Seq<char>, c: char) -> Seq<char> {
    t.subrange(0, rscan_while(t, 0, t.len() as int, is_char(c)))
}

/// The predicate "is `c`", as a value.
pub open spec fn is_char(c: char) -> spec_fn(char) -> bool {
    |x: char| x == c
}

// ---------------------------------------------------------------------
// Lemmas
// ---------------------------------------------------------------------

/// `index_of_from` lands on `c`, or at the end, and skips no `c`.
pub proof fn lemma_index_of_from(s: Seq<char>, c: char, from: int)
    requires
        0 <= from <= s.len(),
    ensures
        from <= index_of_from(s, c, from) <= s.len(),
        index_of_from(s, c, from) < s.len() ==> s[index_of_from(s, c, from)] == c,
        forall|k: int| from <= k < index_of_from(s, c, from) ==> s[k] != c,
    decreases s.len() - from,
{
    if from < s.len() && s[from] != c {
        lemma_index_of_from(s, c, from + 1);
    }
}

/// An index with `c` and no `c` before it is the one `index_of_from` finds.
pub proof fn lemma_index_of_from_is(s: Seq<char>, c: char, from: int, at: int)
    requires
        0 <= from <= at <= s.len(),
        at < s.len() ==> s[at] == c,
        forall|k: int| from <= k < at ==> s[k] != c,
    ensures
        index_of_from(s, c, from) == at,
    decreases at - from,
{
    if from < at {
        lemma_index_of_from_is(s, c, from + 1, at);
    }
}

/// A position reached by skipping characters that satisfy `p` is the
/// one `scan_while` names.
pub proof fn lemma_scan_while_is(t: Seq<char>, i: int, j: int, p: spec_fn(char) -> bool)
    requires
        0 <= i <= j <= t.len(),
        j < t.len() ==> !p(t[j]),
        forall|k: int| i <= k < j ==> p(t[k]),
    ensures
        scan_while(t, i, p) == j,
    decreases j - i,
{
    if i < j {
        lemma_scan_while_is(t, i + 1, j, p);
    }
}

/// `scan_while` stays in bounds and skips only characters satisfying `p`.
pub proof fn lemma_scan_while(t: Seq<char>, i: int, p: spec_fn(char) -> bool)
    requires
        0 <= i <= t.len(),
    ensures
        i <= scan_while(t, i, p) <= t.len(),
        scan_while(t, i, p) < t.len() ==> !p(t[scan_while(t, i, p)]),
        forall|k: int| i <= k < scan_while(t, i, p) ==> p(t[k]),
    decreases t.len() - i,
{
    if i < t.len() && p(t[i]) {
        lemma_scan_while(t, i + 1, p);
    }
}

/// The end found by walking down over characters satisfying `p`.
pub proof fn lemma_rscan_while_is(t: Seq<char>, lo: int, hi: int, e: int, p: spec_fn(char) -> bool)
    requires
        0 <= lo <= e <= hi <= t.len(),
        e > lo ==> !p(t[e - 1]),
        forall|k: int| e <= k < hi ==> p(t[k]),
    ensures
        rscan_while(t, lo, hi, p) == e,
    decreases hi - e,
{
    if e < hi {
        lemma_rscan_while_is(t, lo, hi - 1, e, p);
    }
}

/// `rscan_while` stays in bounds and drops only characters satisfying `p`.
pub proof fn lemma_rscan_while(t: Seq<char>, lo: int, hi: int, p: spec_fn(char) -> bool)
    requires
        0 <= lo <= hi <= t.len(),
    ensures
        lo <= rscan_while(t, lo, hi, p) <= hi,
        rscan_while(t, lo, hi, p) > lo ==> !p(t[rscan_while(t, lo, hi, p) - 1]),
        forall|k: int| rscan_while(t, lo, hi, p) <= k < hi ==> p(t[k]),
    decreases hi - lo,
{
    if hi > lo && p(t[hi - 1]) {
        lemma_rscan_while(t, lo, hi - 1, p);
    }
}

/// Skipping indices that fail `p` does not change the first hit.
pub proof fn lemma_first_from_skip(k: int, j: int, n: int, p: spec_fn(int) -> bool)
    requires
        0 <= k <= j <= n,
        forall|i: int| k <= i < j ==> !#[trigger] p(i),
    ensures
        first_from(k, n, p) == first_from(j, n, p),
    decreases j - k,
{
    if k < j {
        lemma_first_from_skip(k + 1, j, n, p);
    }
}

/// An end reached by dropping trailing `c`s is where `trim_end_char` cuts.
pub proof fn lemma_trim_end_char_is(t: Seq<char>, c: char, e: int)
    requires
        0 <= e <= t.len(),
        e > 0 ==> t[e - 1] != c,
        forall|k: int| e <= k < t.len() ==> t[k] == c,
    ensures
        trim_end_char(t, c) == t.subrange(0, e),
{
    lemma_rscan_while_is(t, 0, t.len() as int, e, is_char(c));
}

proof fn lemma_digits_value_push(s: Seq<char>, c: char)
    ensures
        digits_value(s.push(c)) == digits_value(s) * 10 + digit_value(c),
{
    assert(s.push(c).drop_last() =~= s);
}

// ---------------------------------------------------------------------
// Exec helpers
// ---------------------------------------------------------------------

/// The characters of `s`, in order.
pub fn chars_of(s: &str) -> (v: Vec<char>)
    ensures
        v@ == s@,
{
    let mut v: Vec<char> = Vec::new();
    for c in it: s.chars()
        invariant
            v@ == it.seq().take(it.index() as int),
            it.seq() == s@,
    {
        v.push(c);
    }
    v
}

/// `String::push`.
#[verifier::external_body]
pub(crate) fn push_char(s: &mut String, c: char)
    ensures
        final(s)@ == old(s)@.push(c),
{
    s.push(c);
}

/// `str::to_string`.
#[verifier::external_body]
pub(crate) fn to_owned_string(s: &str) -> (r: String)
    ensures
        r@ == s@,
{
    s.to_string()
}

/// `String::push_str`.
#[verifier::external_body]
pub(crate) fn push_str(s: &mut String, t: &str)
    ensures
        final(s)@ == old(s)@ + t@,
{
    s.push_str(t);
}

/// `format!("{:?}", s)` for a string slice.
#[verifier::external_body]
pub(crate) fn debug_str(s: &str) -> (r: String)
    ensures
        r@ == debug_form(s@),
{
    format!("{:?}", s)
}

/// A `String` holding the characters `v[from..to]`.
pub fn string_of(v: &[char], from: usize, to: usize) -> (r: String)
    requires
        from <= to <= v@.len(),
    ensures
        r@ == v@.subrange(from as int, to as int),
{
    let mut r = String::new();
    let mut i = from;
    while i < to
        invariant
            from <= i <= to <= v@.len(),
            r@ == v@.subrange(from as int, i as int),
        decreases to - i,
    {
        push_char(&mut r, v[i]);
        assert(v@.subrange(from as int, i + 1) == v@.subrange(from as int, i as int).push(v@[i as int]));
        i += 1;
    }
    r
}

/// `a@ == b@`, computed.
pub fn str_eq(a: &str, b: &str) -> (r: bool)
    ensures
        r == (a@ == b@),
{
    let va = chars_of(a);
    let vb = chars_of(b);
    chars_eq(&va, &vb)
}

/// Two character slices are equal.
pub fn chars_eq(a: &[char], b: &[char]) -> (r: bool)
    ensures
        r == (a@ == b@),
{
    if a.len() != b.len() {
        return false;
    }
    let mut i: usize = 0;
    while i < a.len()
        invariant
            a@.len() == b@.len(),
            i <= a@.len(),
            forall|k: int| 0 <= k < i ==> a@[k] == b@[k],
        decreases a.len() - i,
    {
        if a[i] != b[i] {
            return false;
        }
        i += 1;
    }
    assert(a@ =~= b@);
    true
}

/// `s@` starts with `p@`.
pub fn chars_start_with(s: &[char], p: &[char]) -> (r: bool)
    ensures
        r == starts_with(s@, p@),
{
    if p.len() > s.len() {
        return false;
    }
    let mut i: usize = 0;
    while i < p.len()
        invariant
            p@.len() <= s@.len(),
            i <= p@.len(),
            forall|k: int| 0 <= k < i ==> s@[k] == p@[k],
        decreases p.len() - i,
    {
        if s[i] != p[i] {
            assert(s@.subrange(0, p@.len() as int)[i as int] == s@[i as int]);
            return false;
        }
        i += 1;
    }
    assert(s@.subrange(0, p@.len() as int) =~= p@);
    true
}

/// `s@` ends with `p@`.
pub fn chars_end_with(s: &[char], p: &[char]) -> (r: bool)
    ensures
        r == ends_with(s@, p@),
{
    if p.len() > s.len() {
        return false;
    }
    let n = s.len();
    let off = n - p.len();
    let mut i: usize = 0;
    while i < p.len()
        invariant
            p@.len() <= s@.len(),
            off == s@.len() - p@.len(),
            off + p@.len() == n,
            n == s@.len(),
            i <= p@.len(),
            forall|k: int| 0 <= k < i ==> s@[off + k] == p@[k],
        decreases p.len() - i,
    {
        if s[off + i] != p[i] {
            assert(s@.subrange(off as int, s@.len() as int)[i as int] == s@[off + i]);
            return false;
        }
        i += 1;
    }
    assert(s@.subrange(off as int, s@.len() as int) =~= p@);
    true
}

/// `s@` holds `c`.
pub fn chars_contain(s: &[char], c: char) -> (r: bool)
    ensures
        r == s@.contains(c),
{
    let mut i: usize = 0;
    while i < s.len()
        invariant
            i <= s@.len(),
            forall|k: int| 0 <= k < i ==> s@[k] != c,
        decreases s.len() - i,
    {
        if s[i] == c {
            assert(s@[i as int] == c);
            return true;
        }
        i += 1;
    }
    false
}

/// `s@` holds `p@` as a contiguous run.
pub fn chars_contain_run(s: &[char], p: &[char]) -> (r: bool)
    ensures
        r == contains_seq(s@, p@),
{
    if p.len() > s.len() {
        return false;
    }
    if p.len() == 0 {
        assert(s@.subrange(0, 0 + p@.len() as int) =~= p@);
        return true;
    }
    let pl = p.len();
    let sl = s.len();
    let last = sl - pl;
    let mut i: usize = 0;
    while i <= last
        invariant
            0 < p@.len() <= s@.len(),
            pl == p@.len(),
            sl == s@.len(),
            last == s@.len() - p@.len(),
            i <= last + 1,
            forall|k: int| 0 <= k < i ==> #[trigger] s@.subrange(k, k + p@.len()) != p@,
        decreases last + 1 - i,
    {
        let run = slice_chars(s, i, i + pl);
        if chars_eq(&run, p) {
            return true;
        }
        i += 1;
    }
    false
}

/// ASCII letter or digit, computed.
pub fn ascii_alnum(c: char) -> (r: bool)
    ensures
        r == is_ascii_alnum(c),
{
    ('0' <= c && c <= '9') || ('a' <= c && c <= 'z') || ('A' <= c && c <= 'Z')
}

/// `char::is_whitespace`, computed.
pub fn unicode_whitespace(c: char) -> (r: bool)
    ensures
        r == is_unicode_whitespace(c),
{
    ('\u{9}' <= c && c <= '\u{d}') || c == ' ' || c == '\u{85}' || c == '\u{a0}'
        || c == '\u{1680}' || ('\u{2000}' <= c && c <= '\u{200a}') || c == '\u{2028}'
        || c == '\u{2029}' || c == '\u{202f}' || c == '\u{205f}' || c == '\u{3000}'
}

/// `n` in decimal, as `Display` writes it.
pub fn decimal_string(n: u64) -> (r: String)
    ensures
        r@ == decimal(n as nat),
    decreases n,
{
    if n < 10 {
        let mut r = String::new();
        push_char(&mut r, digit_char_exec(n));
        assert(r@ =~= seq![digit_char(n as nat)]);
        r
    } else {
        let mut r = decimal_string(n / 10);
        push_char(&mut r, digit_char_exec(n % 10));
        r
    }
}

/// `n` in lower-case hexadecimal, as `{:x}` writes it.
pub fn lower_hex_string(n: u64) -> (r: String)
    ensures
        r@ == lower_hex(n as nat),
    decreases n,
{
    if n < 16 {
        let mut r = String::new();
        push_char(&mut r, hex_digit_char_exec(n));
        assert(r@ =~= seq![hex_digit_char(n as nat)]);
        r
    } else {
        let mut r = lower_hex_string(n / 16);
        push_char(&mut r, hex_digit_char_exec(n % 16));
        r
    }
}

fn digit_char_exec(d: u64) -> (c: char)
    requires
        d < 10,
    ensures
        c == digit_char(d as nat),
{
    if d == 0 { '0' }
    else if d == 1 { '1' }
    else if d == 2 { '2' }
    else if d == 3 { '3' }
    else if d == 4 { '4' }
    else if d == 5 { '5' }
    else if d == 6 { '6' }
    else if d == 7 { '7' }
    else if d == 8 { '8' }
    else { '9' }
}

fn hex_digit_char_exec(d: u64) -> (c: char)
    requires
        d < 16,
    ensures
        c == hex_digit_char(d as nat),
{
    if d < 10 { digit_char_exec(d) }
    else if d == 10 { 'a' }
    else if d == 11 { 'b' }
    else if d == 12 { 'c' }
    else if d == 13 { 'd' }
    else if d == 14 { 'e' }
    else { 'f' }
}

/// `str::parse` for an unsigned integer no larger than `max`, on the
/// characters `v[from..to]`.
pub fn parse_unsigned_chars(v: &[char], from: usize, to: usize, max: u64) -> (r: Option<u64>)
    requires
        from <= to <= v@.len(),
    ensures
        r == (match parse_unsigned(v@.subrange(from as int, to as int), max as nat) {
            Some(n) => Some(n as u64),
            None => None::<u64>,
        }),
{
    let ghost s = v@.subrange(from as int, to as int);
    let mut start = from;
    if from < to && v[from] == '+' {
        start = from + 1;
    }
    let ghost body = v@.subrange(start as int, to as int);
    assert(body =~= (if s.len() > 0 && s[0] == '+' { s.drop_first() } else { s }));
    if start == to {
        return None;
    }
    let mut acc: u64 = 0;
    let mut i = start;
    while i < to
        invariant
            from <= start < to <= v@.len(),
            start <= i <= to,
            body == v@.subrange(start as int, to as int),
            s == v@.subrange(from as int, to as int),
            body == (if s.len() > 0 && s[0] == '+' { s.drop_first() } else { s }),
            all_digits(v@.subrange(start as int, i as int)),
            acc as nat == digits_value(v@.subrange(start as int, i as int)),
            acc <= max,
        decreases to - i,
    {
        let c = v[i];
        if !('0' <= c && c <= '9') {
            assert(body[i - start] == c);
            assert(!all_digits(body));
            return None;
        }
        let d = (c as u32 - '0' as u32) as u64;
        proof {
            lemma_digits_value_push(v@.subrange(start as int, i as int), c);
            assert(v@.subrange(start as int, i + 1) =~= v@.subrange(start as int, i as int).push(c));
        }
        let next: u128 = acc as u128 * 10 + d as u128;
        if next > max as u128 {
            proof {
                lemma_prefix_value_bound(body, (i - start + 1) as int);
                assert(body.subrange(0, (i - start + 1) as int) =~= v@.subrange(start as int, i + 1));
            }
            return None;
        }
        acc = next as u64;
        i += 1;
    }
    assert(v@.subrange(start as int, to as int) =~= body);
    Some(acc)
}

/// The value of a digit run is at least the value of any prefix.
proof fn lemma_prefix_value_bound(s: Seq<char>, k: int)
    requires
        0 <= k <= s.len(),
    ensures
        all_digits(s) ==> digits_value(s.subrange(0, k)) <= digits_value(s),
    decreases s.len() - k,
{
    if k < s.len() {
        lemma_prefix_value_bound(s, k + 1);
        assert(s.subrange(0, k + 1).drop_last() =~= s.subrange(0, k));
        let a = digits_value(s.subrange(0, k));
        assert(digits_value(s.subrange(0, k + 1)) == a * 10 + digit_value(s.subrange(0, k + 1).last()));
        assert(a <= a * 10 + digit_value(s.subrange(0, k + 1).last())) by (nonlinear_arith);
    } else {
        assert(s.subrange(0, k) =~= s);
    }
}


/// Skips whitespace in `t` from `i`.
pub fn skip_ws(t: &[char], i: usize) -> (r: usize)
    requires
        i <= t@.len(),
    ensures
        r == scan_while(t@, i as int, ws()),
{
    let mut j = i;
    while j < t.len() && unicode_whitespace(t[j])
        invariant
            i <= j <= t@.len(),
            forall|k: int| i <= k < j ==> is_unicode_whitespace(t@[k]),
        decreases t.len() - j,
    {
        j += 1;
    }
    proof {
        lemma_scan_while_is(t@, i as int, j as int, ws());
    }
    j
}

/// Skips Unicode decimal numbers in `t` from `i`.
pub fn skip_decimal_numbers(t: &[char], i: usize) -> (r: usize)
    requires
        i <= t@.len(),
    ensures
        r == scan_while(t@, i as int, decimal_number()),
{
    let mut j = i;
    while j < t.len() && unicode_decimal_number(t[j])
        invariant
            i <= j <= t@.len(),
            forall|k: int| i <= k < j ==> is_decimal_number(t@[k]),
        decreases t.len() - j,
    {
        j += 1;
    }
    proof {
        lemma_scan_while_is(t@, i as int, j as int, decimal_number());
    }
    j
}

/// Walks down from `hi` over whitespace, not below `lo`.
pub fn rskip_ws(t: &[char], lo: usize, hi: usize) -> (r: usize)
    requires
        lo <= hi <= t@.len(),
    ensures
        r == rscan_while(t@, lo as int, hi as int, ws()),
{
    let mut e = hi;
    while e > lo && unicode_whitespace(t[e - 1])
        invariant
            lo <= e <= hi <= t@.len(),
            forall|k: int| e <= k < hi ==> is_unicode_whitespace(t@[k]),
        decreases e - lo,
    {
        e -= 1;
    }
    proof {
        lemma_rscan_while_is(t@, lo as int, hi as int, e as int, ws());
    }
    e
}

/// The characters `v[from..to]` as a vector.
pub fn slice_chars(v: &[char], from: usize, to: usize) -> (r: Vec<char>)
    requires
        from <= to <= v@.len(),
    ensures
        r@ == v@.subrange(from as int, to as int),
{
    let mut r: Vec<char> = Vec::new();
    let mut i = from;
    while i < to
        invariant
            from <= i <= to <= v@.len(),
            r@ == v@.subrange(from as int, i as int),
        decreases to - i,
    {
        r.push(v[i]);
        assert(v@.subrange(from as int, i + 1) == v@.subrange(from as int, i as int).push(v@[i as int]));
        i += 1;
    }
    r
}

/// `str::trim` on a character vector.
pub fn trim_chars(t: &[char]) -> (r: Vec<char>)
    ensures
        r@ == trim(t@),
{
    let a = skip_ws(t, 0);
    proof {
        lemma_scan_while(t@, 0, ws());
    }
    let e = rskip_ws(t, a, t.len());
    proof {
        lemma_rscan_while(t@, a as int, t@.len() as int, ws());
    }
    slice_chars(t, a, e)
}

/// `str::trim_end_matches(c)` on a character slice.
pub fn trim_end_chars(v: &[char], c: char) -> (r: Vec<char>)
    ensures
        r@ == trim_end_char(v@, c),
{
    let mut e = v.len();
    while e > 0 && v[e - 1] == c
        invariant
            e <= v@.len(),
            forall|k: int| e <= k < v@.len() ==> v@[k] == c,
        decreases e,
    {
        e -= 1;
    }
    proof {
        lemma_trim_end_char_is(v@, c, e as int);
    }
    slice_chars(v, 0, e)
}

/// `str::parse::<i64>`.
pub fn parse_i64_str(s: &str) -> (r: Option<i64>)
    ensures
        match parse_i64(s@) {
            Some(n) => r == Some(n as i64),
            None => r is None,
        },
{
    let v = chars_of(s);
    let n = v.len();
    if n > 0 && v[0] == '-' {
        if n > 1 && v[1] == '+' {
            assert(s@.drop_first()[0] == '+');
            assert(!is_digit(s@.drop_first()[0]));
            return None;
        }
        assert(v@.subrange(1, n as int) =~= s@.drop_first());
        match parse_unsigned_chars(&v, 1, n, 0x8000_0000_0000_0000) {
            Some(m) => {
                let x: i128 = -(m as i128);
                Some(x as i64)
            },
            None => None,
        }
    } else {
        assert(v@.subrange(0, n as int) =~= s@);
        match parse_unsigned_chars(&v, 0, n, 0x7fff_ffff_ffff_ffff) {
            Some(m) => Some(m as i64),
            None => None,
        }
    }
}

/// The first index at or after `from` holding `c`, or `t.len()`.
pub fn find_char(t: &[char], c: char, from: usize) -> (r: usize)
    requires
        from <= t@.len(),
    ensures
        r == index_of_from(t@, c, from as int),
        from <= r <= t@.len(),
{
    let mut j = from;
    while j < t.len() && t[j] != c
        invariant
            from <= j <= t@.len(),
            forall|k: int| from <= k < j ==> t@[k] != c,
        decreases t.len() - j,
    {
        j += 1;
    }
    proof {
        lemma_index_of_from_is(t@, c, from as int, j as int);
    }
    j
}

/// A `String` holding exactly the characters of `v`.
pub fn string_from_chars(v: &[char]) -> (r: String)
    ensures
        r@ == v@,
{
    let r = string_of(v, 0, v.len());
    assert(v@.subrange(0, v@.len() as int) =~= v@);
    r
}

} // verus!
