//! Human bandwidth figures ("10MiB", "800KiB/s", "1.5GiB", plain bytes)
//! read as whole bytes per second.
//!
//! The figure is a decimal number (digits with at most one `.`) and an
//! optional binary unit. Its value is taken exactly: the product of the
//! number and the unit, rounded down, capped at `u64::MAX`.

use vstd::prelude::*;

use crate::text::{
    chars_of, debug_form, debug_str, digit_value, digits_value, is_digit,
    lemma_scan_while_is, push_str, scan_while, slice_chars, str_eq, string_from_chars, to_owned_string, trim,
    trim_chars,
};

verus! {

/// `10` to the power `k`.
pub open spec fn pow10(k: nat) -> nat
    decreases k,
{
    if k == 0 { 1 } else { 10 * pow10((k - 1) as nat) }
}

/// `t` with every trailing `/s` removed (`trim_end_matches("/s")`).
#[verifier::opaque]
pub open spec fn strip_per_sec(t: Seq<char>) -> Seq<char>
    decreases t.len(),
{
    if t.len() >= 2 && t[t.len() - 2] == '/' && t[t.len() - 1] == 's' {
        strip_per_sec(t.subrange(0, t.len() - 2))
    } else {
        t
    }
}

/// A character of the number part.
pub open spec fn number_char(c: char) -> bool {
    is_digit(c) || c == '.'
}

/// The number-part predicate, as a value.
pub open spec fn number_chars() -> spec_fn(char) -> bool {
    |c: char| number_char(c)
}

/// The figure with blanks and any `/s` suffix removed.
pub open spec fn figure(s: Seq<char>) -> Seq<char> {
    trim(strip_per_sec(trim(s)))
}

/// Where the number part of a figure ends.
pub open spec fn number_end(t: Seq<char>) -> int {
    scan_while(t, 0, number_chars())
}

/// Number of `.` in `s`.
pub open spec fn dots(s: Seq<char>) -> nat
    decreases s.len(),
{
    if s.len() == 0 {
        0
    } else {
        dots(s.drop_last()) + if s.last() == '.' { 1nat } else { 0nat }
    }
}

/// Digits with at most one `.` and at least one digit: a number that
/// parses as a decimal fraction.
pub open spec fn number_ok(num: Seq<char>) -> bool {
    dots(num) <= 1 && exists|i: int| 0 <= i < num.len() && is_digit(#[trigger] num[i])
}

/// The digits before the `.` (all of them when there is none).
pub open spec fn int_digits(num: Seq<char>) -> Seq<char> {
    let d = crate::text::index_of_from(num, '.', 0);
    num.subrange(0, d)
}

/// The digits after the `.` (none when there is none).
pub open spec fn frac_digits(num: Seq<char>) -> Seq<char> {
    let d = crate::text::index_of_from(num, '.', 0);
    if d < num.len() { num.subrange(d + 1, num.len() as int) } else { Seq::empty() }
}

/// What a unit multiplies by, or `None` for an unknown unit.
pub open spec fn unit_multiplier(u: Seq<char>) -> Option<nat> {
    if u == ""@ || u == "B"@ {
        Some(1)
    } else if u == "KiB"@ || u == "K"@ || u == "k"@ {
        Some(1024)
    } else if u == "MiB"@ || u == "M"@ || u == "m"@ {
        Some(1024 * 1024)
    } else if u == "GiB"@ || u == "G"@ || u == "g"@ {
        Some(1024 * 1024 * 1024)
    } else {
        None
    }
}

/// `num * mult`, rounded down.
pub open spec fn scaled(num: Seq<char>, mult: nat) -> nat {
    let f = frac_digits(num);
    digits_value(int_digits(num)) * mult + (digits_value(f) * mult) / pow10(f.len())
}

/// What `parse_bytes_per_sec` gives for `s`.
pub open spec fn bytes_per_sec(s: Seq<char>) -> Result<u64, Seq<char>> {
    let t = figure(s);
    let e = number_end(t);
    let num = t.subrange(0, e);
    let unit = trim(t.subrange(e, t.len() as int));
    if num.len() == 0 {
        Err("bad number "@ + debug_form(num) + ": cannot parse float from empty string"@)
    } else if !number_ok(num) {
        Err("bad number "@ + debug_form(num) + ": invalid float literal"@)
    } else if let Some(mult) = unit_multiplier(unit) {
        let v = scaled(num, mult);
        if v == 0 {
            Err("bandwidth limit must be positive"@)
        } else if v > u64::MAX {
            Ok(u64::MAX)
        } else {
            Ok(v as u64)
        }
    } else {
        Err("unknown unit "@ + debug_form(unit) + " (use B/KiB/MiB/GiB)"@)
    }
}

proof fn lemma_digits_value_cons(d: char, s: Seq<char>)
    ensures
        digits_value(seq![d] + s) == digit_value(d) * pow10(s.len()) + digits_value(s),
    decreases s.len(),
{
    if s.len() == 0 {
        assert((seq![d] + s).drop_last() =~= Seq::<char>::empty());
        assert((seq![d] + s).last() == d);
        assert(digits_value(seq![d] + s) == digits_value(Seq::<char>::empty()) * 10 + digit_value(d));
        assert(s =~= Seq::<char>::empty());
        assert(pow10(s.len()) == 1);
        assert(digits_value(s) == 0);
        assert(digit_value(d) * 1 == digit_value(d));
    } else {
        let t = s.drop_last();
        assert((seq![d] + s).drop_last() =~= seq![d] + t);
        assert((seq![d] + s).last() == s.last());
        lemma_digits_value_cons(d, t);
        let a = digit_value(d) as int;
        let p = pow10(t.len()) as int;
        let v = digits_value(t) as int;
        assert(digits_value(seq![d] + s) == digits_value(seq![d] + t) * 10 + digit_value(s.last()));
        assert(digits_value(s) == digits_value(t) * 10 + digit_value(s.last())) by {
            assert(s.drop_last() == t);
        }
        assert(pow10(s.len()) == 10 * pow10(t.len()));
        assert((a * p + v) * 10 == a * (10 * p) + v * 10) by (nonlinear_arith);
        assert(digits_value(seq![d] + t) == a * p + v);
        assert(digits_value(seq![d] + s) == (a * p + v) * 10 + digit_value(s.last()));
        assert(digits_value(s) == v * 10 + digit_value(s.last()));
        assert(digit_value(d) * pow10(s.len()) == a * (10 * p));
    }
}

proof fn lemma_dots_push(s: Seq<char>, c: char)
    ensures
        dots(s.push(c)) == dots(s) + if c == '.' { 1nat } else { 0nat },
{
    assert(s.push(c).drop_last() =~= s);
}

proof fn lemma_digits_value_push(s: Seq<char>, c: char)
    ensures
        digits_value(s.push(c)) == digits_value(s) * 10 + digit_value(c),
{
    assert(s.push(c).drop_last() =~= s);
}

/// One step of dividing a digit string from the right:
/// `floor((d·10^m + v)·mult / 10^(m+1)) == floor((d·mult + floor(v·mult / 10^m)) / 10)`.
proof fn lemma_frac_step(d: nat, v: nat, m: nat, mult: nat)
    ensures
        ((d * pow10(m) + v) * mult) / pow10(m + 1) == (d * mult + (v * mult) / pow10(m)) / 10,
{
    let p = pow10(m) as int;
    assert(p > 0) by {
        lemma_pow10_positive(m);
    }
    assert(pow10(m + 1) == 10 * pow10(m));
    let a = (v * mult) as int;
    let q = a / p;
    let r = a % p;
    assert(a == q * p + r && 0 <= r < p) by (nonlinear_arith)
        requires
            p > 0,
            q == a / p,
            r == a % p,
    ;
    let x = ((d * pow10(m) + v) * mult) as int;
    let y = (d * mult) as int + q;
    assert(x == y * p + r) by (nonlinear_arith)
        requires
            x == ((d * pow10(m) + v) * mult) as int,
            y == (d * mult) as int + q,
            a == (v * mult) as int,
            a == q * p + r,
            p == pow10(m) as int,
    ;
    vstd::arithmetic::div_mod::lemma_fundamental_div_mod_converse(x, p, y, r);
    assert(y >= 0) by (nonlinear_arith)
        requires
            a >= 0,
            p > 0,
            q == a / p,
            y == (d * mult) as int + q,
    ;
    assert(x >= 0);
    vstd::arithmetic::div_mod::lemma_div_denominator(x, p, 10);
    assert(p * 10 == pow10(m + 1) as int);
}

proof fn lemma_pow10_positive(k: nat)
    ensures
        pow10(k) > 0,
    decreases k,
{
    if k > 0 {
        lemma_pow10_positive((k - 1) as nat);
    }
}

proof fn lemma_strip_step(u: Seq<char>)
    ensures
        (u.len() >= 2 && u[u.len() - 2] == '/' && u[u.len() - 1] == 's')
            ==> strip_per_sec(u) == strip_per_sec(u.subrange(0, u.len() - 2)),
        !(u.len() >= 2 && u[u.len() - 2] == '/' && u[u.len() - 1] == 's') ==> strip_per_sec(u) == u,
{
    reveal_with_fuel(strip_per_sec, 1);
}

fn strip_per_sec_chars(t: &Vec<char>) -> (r: Vec<char>)
    ensures
        r@ == strip_per_sec(t@),
{
    let mut e = t.len();
    assert(t@.subrange(0, e as int) =~= t@);
    while e >= 2 && t[e - 2] == '/' && t[e - 1] == 's'
        invariant
            e <= t@.len(),
            strip_per_sec(t@) == strip_per_sec(t@.subrange(0, e as int)),
        decreases e,
    {
        proof {
            let u = t@.subrange(0, e as int);
            lemma_strip_step(u);
            assert(u.subrange(0, u.len() - 2) =~= t@.subrange(0, e - 2));
        }
        e -= 2;
    }
    proof {
        lemma_strip_step(t@.subrange(0, e as int));
    }
    slice_chars(t.as_slice(), 0, e)
}

fn multiplier_of(u: &Vec<char>) -> (r: Option<u64>)
    ensures
        match unit_multiplier(u@) {
            Some(m) => r == Some(m as u64),
            None => r is None,
        },
{
    let s = string_from_chars(u.as_slice());
    let s = s.as_str();
    if str_eq(s, "") || str_eq(s, "B") {
        Some(1)
    } else if str_eq(s, "KiB") || str_eq(s, "K") || str_eq(s, "k") {
        Some(1024)
    } else if str_eq(s, "MiB") || str_eq(s, "M") || str_eq(s, "m") {
        Some(1024 * 1024)
    } else if str_eq(s, "GiB") || str_eq(s, "G") || str_eq(s, "g") {
        Some(1024 * 1024 * 1024)
    } else {
        None
    }
}

/// The figure of `s`, split into its number part and its unit.
fn split_figure(s: &str) -> (r: (Vec<char>, Vec<char>))
    ensures
        r.0@ == figure(s@).subrange(0, number_end(figure(s@))),
        r.1@ == trim(figure(s@).subrange(number_end(figure(s@)), figure(s@).len() as int)),
        forall|k: int| 0 <= k < r.0@.len() ==> number_char(#[trigger] r.0@[k]),
{
    let v = chars_of(s);
    let a = trim_chars(v.as_slice());
    let b = strip_per_sec_chars(&a);
    let t = trim_chars(b.as_slice());
    let n = t.len();
    let mut e: usize = 0;
    while e < n && (('0' <= t[e] && t[e] <= '9') || t[e] == '.')
        invariant
            e <= n == t@.len(),
            forall|k: int| 0 <= k < e ==> number_char(#[trigger] t@[k]),
        decreases n - e,
    {
        e += 1;
    }
    proof {
        lemma_scan_while_is(t@, 0, e as int, number_chars());
    }
    let num = slice_chars(t.as_slice(), 0, e);
    let rest = slice_chars(t.as_slice(), e, n);
    let unit = trim_chars(rest.as_slice());
    (num, unit)
}

/// How many `.` the number part holds, where the first is (or its
/// length), and whether it holds a digit.
fn scan_number(num: &Vec<char>) -> (r: (usize, usize, bool))
    requires
        forall|k: int| 0 <= k < num@.len() ==> number_char(#[trigger] num@[k]),
    ensures
        r.0 == dots(num@),
        r.0 == 0 ==> r.1 == num@.len() && crate::text::index_of_from(num@, '.', 0) == num@.len(),
        r.0 > 0 ==> r.1 == crate::text::index_of_from(num@, '.', 0) && r.1 < num@.len(),
        r.2 == exists|k: int| 0 <= k < num@.len() && is_digit(#[trigger] num@[k]),
{
    let mut ndots: usize = 0;
    let mut first_dot: usize = num.len();
    let mut any_digit = false;
    let mut i: usize = 0;
    while i < num.len()
        invariant
            i <= num@.len(),
            ndots <= i,
            ndots == dots(num@.subrange(0, i as int)),
            first_dot == (if ndots == 0 { num@.len() as int } else { crate::text::index_of_from(num@, '.', 0) }),
            ndots > 0 ==> first_dot < i,
            ndots == 0 ==> forall|k: int| 0 <= k < i ==> num@[k] != '.',
            any_digit == exists|k: int| 0 <= k < i && is_digit(#[trigger] num@[k]),
            forall|k: int| 0 <= k < num@.len() ==> number_char(#[trigger] num@[k]),
        decreases num.len() - i,
    {
        proof {
            lemma_dots_push(num@.subrange(0, i as int), num@[i as int]);
            assert(num@.subrange(0, i + 1) =~= num@.subrange(0, i as int).push(num@[i as int]));
        }
        if num[i] == '.' {
            if ndots == 0 {
                first_dot = i;
                proof {
                    crate::text::lemma_index_of_from_is(num@, '.', 0, i as int);
                }
            }
            ndots += 1;
        } else {
            any_digit = true;
        }
        i += 1;
    }
    assert(num@.subrange(0, num@.len() as int) =~= num@);
    if ndots == 0 {
        proof {
            crate::text::lemma_index_of_from_is(num@, '.', 0, num@.len() as int);
        }
    }
    (ndots, first_dot, any_digit)
}

/// The value of the digits `num[..end]`, or `None` when it exceeds
/// `u64::MAX`.
fn whole_value(num: &Vec<char>, end: usize) -> (r: Option<u64>)
    requires
        end <= num@.len(),
        forall|k: int| 0 <= k < end ==> is_digit(#[trigger] num@[k]),
    ensures
        match r {
            Some(w) => w as nat == digits_value(num@.subrange(0, end as int)),
            None => digits_value(num@.subrange(0, end as int)) > u64::MAX,
        },
{
    let mut whole: u128 = 0;
    let mut j: usize = 0;
    while j < end
        invariant
            j <= end <= num@.len(),
            forall|k: int| 0 <= k < end ==> is_digit(#[trigger] num@[k]),
            whole == digits_value(num@.subrange(0, j as int)),
            whole <= u64::MAX,
        decreases end - j,
    {
        proof {
            lemma_digits_value_push(num@.subrange(0, j as int), num@[j as int]);
            assert(num@.subrange(0, j + 1) =~= num@.subrange(0, j as int).push(num@[j as int]));
        }
        let dg = (num[j] as u32 - '0' as u32) as u128;
        whole = whole * 10 + dg;
        if whole > 0xffff_ffff_ffff_ffff {
            proof {
                lemma_digits_value_grows(num@.subrange(0, end as int), j + 1);
                assert(num@.subrange(0, end as int).subrange(0, j + 1) =~= num@.subrange(0, j + 1));
            }
            return None;
        }
        j += 1;
    }
    Some(whole as u64)
}

proof fn lemma_digits_value_grows(s: Seq<char>, j: int)
    requires
        0 <= j <= s.len(),
    ensures
        digits_value(s.subrange(0, j)) <= digits_value(s),
    decreases s.len() - j,
{
    if j < s.len() {
        lemma_digits_value_grows(s, j + 1);
        lemma_digits_value_push(s.subrange(0, j), s[j]);
        assert(s.subrange(0, j + 1) =~= s.subrange(0, j).push(s[j]));
    } else {
        assert(s.subrange(0, j) =~= s);
    }
}

/// `floor(v · mult / 10^len)` for the digits `v = num[lo..]`.
fn fraction_floor(num: &Vec<char>, lo: usize, mult: u64) -> (z: u64)
    requires
        lo <= num@.len(),
        forall|x: int| lo <= x < num@.len() ==> is_digit(#[trigger] num@[x]),
        1 <= mult <= 1024 * 1024 * 1024,
    ensures
        z as nat == (digits_value(num@.subrange(lo as int, num@.len() as int)) * (mult as nat))
            / pow10((num@.len() - lo) as nat),
        z < mult,
{
    let mut z: u64 = 0;
    let mut k: usize = num.len();
    proof {
        assert(num@.subrange(k as int, num@.len() as int) =~= Seq::<char>::empty());
    }
    while k > lo
        invariant
            lo <= k <= num@.len(),
            forall|x: int| lo <= x < num@.len() ==> is_digit(#[trigger] num@[x]),
            z as nat == (digits_value(num@.subrange(k as int, num@.len() as int)) * (mult as nat))
                / pow10((num@.len() - k) as nat),
            z < mult,
            1 <= mult <= 1024 * 1024 * 1024,
        decreases k,
    {
        let dg = (num[k - 1] as u32 - '0' as u32) as u64;
        proof {
            let tail = num@.subrange(k as int, num@.len() as int);
            assert(num@.subrange(k - 1, num@.len() as int) =~= seq![num@[k - 1]] + tail);
            lemma_digits_value_cons(num@[k - 1], tail);
            lemma_frac_step(dg as nat, digits_value(tail), tail.len(), mult as nat);
            assert((num@.len() - (k - 1)) as nat == tail.len() + 1);
            assert(dg * mult + z < 10 * mult) by (nonlinear_arith)
                requires
                    dg <= 9,
                    z < mult,
            ;
        }
        z = (dg * mult + z) / 10;
        k -= 1;
    }
    z
}

/// Parses a human bandwidth figure into bytes per second.
pub fn parse_bytes_per_sec(s: &str) -> (r: Result<u64, String>)
    ensures
        match r {
            Ok(v) => bytes_per_sec(s@) == Ok::<u64, Seq<char>>(v),
            Err(m) => bytes_per_sec(s@) == Err::<u64, Seq<char>>(m@),
        },
{
    let (num, unit) = split_figure(s);
    if num.len() == 0 {
        let mut m = to_owned_string("bad number ");
        let d = debug_str("");
        proof {
            reveal_strlit("");
            assert(num@ =~= ""@);
        }
        push_str(&mut m, d.as_str());
        push_str(&mut m, ": cannot parse float from empty string");
        return Err(m);
    }
    let (ndots, first_dot, any_digit) = scan_number(&num);
    if ndots > 1 || !any_digit {
        let mut m = to_owned_string("bad number ");
        let ns = string_from_chars(num.as_slice());
        let d = debug_str(ns.as_str());
        push_str(&mut m, d.as_str());
        push_str(&mut m, ": invalid float literal");
        return Err(m);
    }
    let mult = match multiplier_of(&unit) {
        Some(m) => m,
        None => {
            let mut m = to_owned_string("unknown unit ");
            let us = string_from_chars(unit.as_slice());
            let d = debug_str(us.as_str());
            push_str(&mut m, d.as_str());
            push_str(&mut m, " (use B/KiB/MiB/GiB)");
            return Err(m);
        },
    };
    proof {
        assert forall|k: int| 0 <= k < first_dot implies is_digit(#[trigger] num@[k]) by {
            if ndots == 0 {
                assert(num@[k] != '.') by {
                    lemma_dots_zero(num@, k);
                }
            } else {
                crate::text::lemma_index_of_from(num@, '.', 0);
            }
            assert(number_char(num@[k]));
        }
    }
    let lo = if first_dot < num.len() { first_dot + 1 } else { num.len() };
    proof {
        assert forall|x: int| lo <= x < num@.len() implies is_digit(#[trigger] num@[x]) by {
            if num@[x] == '.' {
                crate::text::lemma_index_of_from(num@, '.', 0);
                lemma_second_dot(num@, first_dot as int, x);
            }
            assert(number_char(num@[x]));
        }
    }
    let z = fraction_floor(&num, lo, mult);
    let ghost ip = num@.subrange(0, first_dot as int);
    let ghost fp = num@.subrange(lo as int, num@.len() as int);
    proof {
        assert(ip =~= int_digits(num@));
        assert(fp =~= frac_digits(num@));
    }
    match whole_value(&num, first_dot) {
        None => {
            proof {
                assert(digits_value(ip) * (mult as nat) >= digits_value(ip)) by (nonlinear_arith)
                    requires
                        mult >= 1,
                ;
            }
            Ok(0xffff_ffff_ffff_ffff)
        },
        Some(w) => {
            proof {
                assert((w as u128) * (mult as u128) <= 0xffff_ffff_ffff_ffff * 0x4000_0000) by (nonlinear_arith)
                    requires
                        w <= 0xffff_ffff_ffff_ffff,
                        mult <= 0x4000_0000,
                ;
            }
            let total: u128 = (w as u128) * (mult as u128) + (z as u128);
            if total == 0 {
                return Err(to_owned_string("bandwidth limit must be positive"));
            }
            if total > 0xffff_ffff_ffff_ffff {
                return Ok(0xffff_ffff_ffff_ffff);
            }
            Ok(total as u64)
        },
    }
}

/// With one `.` at `d`, no other position holds a `.`.
proof fn lemma_second_dot(s: Seq<char>, d: int, x: int)
    requires
        dots(s) <= 1,
        0 <= d < x < s.len(),
        s[d] == '.',
    ensures
        s[x] != '.',
    decreases s.len(),
{
    if x < s.len() - 1 {
        lemma_dots_push(s.drop_last(), s.last());
        assert(s.drop_last().push(s.last()) =~= s);
        lemma_second_dot(s.drop_last(), d, x);
    } else {
        lemma_dots_push(s.drop_last(), s.last());
        assert(s.drop_last().push(s.last()) =~= s);
        lemma_dot_counted(s.drop_last(), d);
    }
}

/// A `.` at `d` is counted.
proof fn lemma_dot_counted(s: Seq<char>, d: int)
    requires
        0 <= d < s.len(),
        s[d] == '.',
    ensures
        dots(s) >= 1,
    decreases s.len(),
{
    lemma_dots_push(s.drop_last(), s.last());
    assert(s.drop_last().push(s.last()) =~= s);
    if d < s.len() - 1 {
        lemma_dot_counted(s.drop_last(), d);
    }
}

proof fn lemma_dots_zero(s: Seq<char>, i: int)
    requires
        dots(s) == 0,
        0 <= i < s.len(),
    ensures
        s[i] != '.',
    decreases s.len(),
{
    if i < s.len() - 1 {
        lemma_dots_zero(s.drop_last(), i);
    }
}

} // verus!
