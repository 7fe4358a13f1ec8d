//! Reading numbers out of text: unsigned and signed integers in the grammar
//! of `u64::from_str` / `i32::from_str`, and plain decimal numbers
//! (`[+-]digits[.digits]`) read exactly.

use vstd::arithmetic::div_mod::*;
use vstd::arithmetic::mul::*;
use vstd::prelude::*;
use crate::text::{digit_val, digits_val, is_digit};

verus! {

/// `10^n`.
pub open spec fn pow10(n: nat) -> nat
    decreases n,
{
    if n == 0 {
        1
    } else {
        10 * pow10((n - 1) as nat)
    }
}

/// Every character of `s` is an ASCII digit.
pub open spec fn all_digits(s: Seq<char>) -> bool {
    forall|i: int| 0 <= i < s.len() ==> is_digit(#[trigger] s[i])
}

pub proof fn lemma_pow10_pos(n: nat)
    ensures
        pow10(n) >= 1,
    decreases n,
{
    if n > 0 {
        lemma_pow10_pos((n - 1) as nat);
    }
}

pub proof fn lemma_pow10_add(a: nat, b: nat)
    ensures
        pow10(a + b) == pow10(a) * pow10(b),
    decreases b,
{
    if b == 0 {
        assert(pow10(0) == 1);
    } else {
        lemma_pow10_add(a, (b - 1) as nat);
        assert(pow10(a + b) == 10 * pow10((a + b - 1) as nat));
        assert(pow10(b) == 10 * pow10((b - 1) as nat));
        lemma_mul_is_associative(10, pow10(a) as int, pow10((b - 1) as nat) as int);
        lemma_mul_is_commutative(10, pow10(a) as int);
        lemma_mul_is_associative(pow10(a) as int, 10, pow10((b - 1) as nat) as int);
    }
}

pub proof fn lemma_pow10_mono(a: nat, b: nat)
    requires
        a <= b,
    ensures
        pow10(a) <= pow10(b),
    decreases b,
{
    if a < b {
        lemma_pow10_mono(a, (b - 1) as nat);
        lemma_pow10_pos((b - 1) as nat);
    }
}

/// A digit sequence's value is below `10^len`.
pub proof fn lemma_digits_val_bound(s: Seq<char>)
    requires
        all_digits(s),
    ensures
        digits_val(s) < pow10(s.len()),
    decreases s.len(),
{
    if s.len() > 0 {
        let p = s.drop_last();
        assert(all_digits(p)) by {
            assert forall|i: int| 0 <= i < p.len() implies is_digit(#[trigger] p[i]) by {
                assert(p[i] == s[i]);
            }
        }
        lemma_digits_val_bound(p);
        assert(is_digit(s[s.len() - 1]));
        assert(digit_val(s.last()) < 10);
        assert(pow10(s.len()) == 10 * pow10(p.len()));
        assert(digits_val(s) == digits_val(p) * 10 + digit_val(s.last()));
    }
}

/// The value of a concatenation of digit sequences.
pub proof fn lemma_digits_val_concat(a: Seq<char>, b: Seq<char>)
    ensures
        digits_val(a + b) == digits_val(a) * pow10(b.len()) + digits_val(b),
    decreases b.len(),
{
    if b.len() == 0 {
        assert(a + b =~= a);
        assert(pow10(0) == 1);
    } else {
        let bp = b.drop_last();
        lemma_digits_val_concat(a, bp);
        assert((a + b).drop_last() =~= a + bp);
        assert((a + b).last() == b.last());
        assert(pow10(b.len()) == 10 * pow10(bp.len()));
        let x = digits_val(a) as int;
        let y = pow10(bp.len()) as int;
        assert(digits_val(a + b) == (x * y + digits_val(bp)) * 10 + digit_val(b.last()));
        assert(digits_val(b) == digits_val(bp) * 10 + digit_val(b.last()));
        lemma_mul_is_distributive_add_other_way(10, x * y, digits_val(bp) as int);
        lemma_mul_is_associative(x, y, 10);
        lemma_mul_is_commutative(y, 10);
    }
}

/// The value of a digit sequence is positive exactly when some digit is
/// not zero.
pub open spec fn has_nonzero_digit(s: Seq<char>) -> bool {
    exists|i: int| 0 <= i < s.len() && s[i] != '0'
}

// ---------------------------------------------------------------- integers

/// The digits of an unsigned integer text, after an optional `+`.
pub open spec fn uint_body(t: Seq<char>) -> Seq<char> {
    if t.len() > 0 && t[0] == '+' {
        t.drop_first()
    } else {
        t
    }
}

/// Whether `t` has the shape of an unsigned integer for `from_str`.
pub open spec fn is_uint_text(t: Seq<char>) -> bool {
    uint_body(t).len() >= 1 && all_digits(uint_body(t))
}

/// Whether `v` has the shape of an unsigned integer: an optional `+`, then
/// one or more ASCII digits.
pub fn is_uint_shape(v: &Vec<char>) -> (b: bool)
    ensures
        b == is_uint_text(v@),
{
    let start: usize = if v.len() > 0 && v[0] == '+' {
        1
    } else {
        0
    };
    let ghost body = uint_body(v@);
    assert(body =~= v@.subrange(start as int, v.len() as int));
    if start >= v.len() {
        return false;
    }
    let mut i = start;
    while i < v.len()
        invariant
            start <= i <= v.len(),
            body == uint_body(v@),
            body == v@.subrange(start as int, v.len() as int),
            forall|j: int| start <= j < i ==> is_digit(#[trigger] v@[j]),
        decreases v.len() - i,
    {
        if !('0' <= v[i] && v[i] <= '9') {
            assert(body[i - start] == v@[i as int]);
            return false;
        }
        i += 1;
    }
    assert forall|j: int| 0 <= j < body.len() implies is_digit(#[trigger] body[j]) by {
        assert(body[j] == v@[start + j]);
    }
    true
}

/// Reads an unsigned integer as `u64::from_str` (and `u32`, `usize`) does,
/// refusing values above `max`.
pub fn parse_unsigned(v: &Vec<char>, max: u64) -> (r: Option<u64>)
    ensures
        r matches Some(n) ==> is_uint_text(v@) && n == digits_val(uint_body(v@)) && n <= max,
        r is None ==> !is_uint_text(v@) || digits_val(uint_body(v@)) > max,
{
    let start: usize = if v.len() > 0 && v[0] == '+' {
        1
    } else {
        0
    };
    let ghost body = uint_body(v@);
    assert(body =~= v@.subrange(start as int, v.len() as int));
    if start >= v.len() {
        return None;
    }
    let mut acc: u64 = 0;
    let mut i = start;
    while i < v.len()
        invariant
            start <= i <= v.len(),
            body == uint_body(v@),
            body == v@.subrange(start as int, v.len() as int),
            all_digits(v@.subrange(start as int, i as int)),
            acc == digits_val(v@.subrange(start as int, i as int)),
            acc <= max,
        decreases v.len() - i,
    {
        let c = v[i];
        let ghost pre = v@.subrange(start as int, i as int);
        let ghost nxt = v@.subrange(start as int, i + 1);
        assert(nxt.drop_last() =~= pre);
        assert(nxt.last() == c);
        if !('0' <= c && c <= '9') {
            assert(body[i - start] == c);
            assert(!is_digit(body[i - start]));
            return None;
        }
        let d = (c as u32 - '0' as u32) as u64;
        if d > max || acc > (max - d) / 10 {
            proof {
                assert(digits_val(nxt) == acc * 10 + d);
                if d <= max {
                    assert(acc * 10 + d > max) by (nonlinear_arith)
                        requires
                            acc > (max - d) / 10,
                            d <= max,
                            0 <= d,
                    ;
                }
                if all_digits(body) {
                    let rest = v@.subrange(i + 1, v.len() as int);
                    assert(body =~= nxt + rest);
                    lemma_digits_val_concat(nxt, rest);
                    lemma_pow10_pos(rest.len());
                    lemma_mul_increases(pow10(rest.len()) as int, digits_val(nxt) as int);
                    lemma_mul_is_commutative(pow10(rest.len()) as int, digits_val(nxt) as int);
                }
            }
            return None;
        }
        proof {
            assert(acc * 10 + d <= max) by (nonlinear_arith)
                requires
                    acc <= (max - d) / 10,
                    d <= 9,
                    acc <= max,
                    max >= 0,
            ;
            assert forall|j: int| 0 <= j < nxt.len() implies is_digit(#[trigger] nxt[j]) by {
                if j < pre.len() {
                    assert(nxt[j] == pre[j]);
                }
            }
        }
        acc = acc * 10 + d;
        i += 1;
    }
    Some(acc)
}

/// The digits of a signed integer text, after an optional sign.
pub open spec fn int_body(t: Seq<char>) -> Seq<char> {
    if t.len() > 0 && (t[0] == '+' || t[0] == '-') {
        t.drop_first()
    } else {
        t
    }
}

/// Whether the text starts with a minus sign.
pub open spec fn is_neg(t: Seq<char>) -> bool {
    t.len() > 0 && t[0] == '-'
}

/// The value `i32::from_str` reads from `t`, when it reads one.
pub open spec fn i32_text_value(t: Seq<char>) -> Option<int> {
    let b = int_body(t);
    if b.len() >= 1 && all_digits(b) {
        let m = digits_val(b) as int;
        let x = if is_neg(t) {
            -m
        } else {
            m
        };
        if i32::MIN <= x <= i32::MAX {
            Some(x)
        } else {
            None
        }
    } else {
        None
    }
}

/// Reads a signed 32-bit integer as `i32::from_str` does.
pub fn parse_i32(v: &Vec<char>) -> (r: Option<i32>)
    ensures
        r matches Some(n) ==> i32_text_value(v@) == Some(n as int),
        r is None ==> i32_text_value(v@) is None,
{
    let neg = v.len() > 0 && v[0] == '-';
    let mut w: Vec<char> = Vec::new();
    let mut i: usize = if v.len() > 0 && (v[0] == '+' || v[0] == '-') {
        1
    } else {
        0
    };
    let start = i;
    assert(int_body(v@) =~= v@.subrange(start as int, v.len() as int));
    if start >= v.len() {
        return None;
    }
    while i < v.len()
        invariant
            start <= i <= v.len(),
            w@ == v@.subrange(start as int, i as int),
        decreases v.len() - i,
    {
        w.push(v[i]);
        i += 1;
    }
    let limit: u64 = if neg {
        2147483648
    } else {
        2147483647
    };
    assert(w@ =~= int_body(v@));
    if w[0] == '+' {
        assert(!is_digit(int_body(v@)[0]));
        return None;
    }
    assert(uint_body(w@) =~= w@);
    match parse_unsigned(&w, limit) {
        Some(m) => {
            if neg {
                if m == 2147483648 {
                    Some(i32::MIN)
                } else {
                    let r = -(m as i32);
                    assert(r == -(m as int));
                    Some(r)
                }
            } else {
                Some(m as i32)
            }
        },
        None => None,
    }
}

// ---------------------------------------------------------------- decimals

/// The text of a decimal number after its optional sign.
pub open spec fn dec_body(t: Seq<char>) -> Seq<char> {
    int_body(t)
}

/// Index of the first `.` in `b`, or `b.len()` when there is none.
pub open spec fn dot_pos(b: Seq<char>) -> nat
    decreases b.len(),
{
    if b.len() == 0 {
        0
    } else if b[0] == '.' {
        0
    } else {
        1 + dot_pos(b.drop_first())
    }
}

/// The digits before the decimal point.
pub open spec fn int_digits(t: Seq<char>) -> Seq<char> {
    dec_body(t).take(dot_pos(dec_body(t)) as int)
}

/// The digits after the decimal point (empty when there is no point).
pub open spec fn frac_digits(t: Seq<char>) -> Seq<char> {
    let b = dec_body(t);
    let k = dot_pos(b);
    if k < b.len() {
        b.skip(k + 1int)
    } else {
        seq![]
    }
}

/// Whether `t` is a plain decimal number: an optional sign, digits, and an
/// optional point followed by digits, with at least one digit in all.
pub open spec fn is_decimal_text(t: Seq<char>) -> bool {
    &&& all_digits(int_digits(t))
    &&& all_digits(frac_digits(t))
    &&& int_digits(t).len() + frac_digits(t).len() >= 1
}

/// The numerator of the exact value of a decimal text, over
/// `dec_den(t) = 10^(number of fraction digits)`.
pub open spec fn dec_num(t: Seq<char>) -> nat {
    digits_val(int_digits(t)) * pow10(frac_digits(t).len()) + digits_val(frac_digits(t))
}

/// The denominator of the exact value of a decimal text.
pub open spec fn dec_den(t: Seq<char>) -> nat {
    pow10(frac_digits(t).len())
}

/// The saturation bound for the integer part that `parse_decimal` reports.
pub open spec fn int_cap() -> nat {
    1_000_000_000
}

/// What `parse_decimal` reports of a decimal text.
pub struct DecimalParts {
    /// The text starts with `-`.
    pub neg: bool,
    /// The integer part, or `int_cap()` when it is at least that large.
    pub int_sat: u64,
    /// The fraction part in billionths, rounded down.
    pub frac_nanos: u64,
    /// Some fraction digit is not zero.
    pub frac_nonzero: bool,
}

/// The integer part, saturated at `int_cap()`.
pub open spec fn sat(n: nat) -> nat {
    if n < int_cap() {
        n
    } else {
        int_cap()
    }
}

pub proof fn lemma_dot_pos_props(b: Seq<char>)
    ensures
        dot_pos(b) <= b.len(),
        forall|j: int| 0 <= j < dot_pos(b) ==> #[trigger] b[j] != '.',
        dot_pos(b) < b.len() ==> b[dot_pos(b) as int] == '.',
    decreases b.len(),
{
    if b.len() > 0 && b[0] != '.' {
        let t = b.drop_first();
        lemma_dot_pos_props(t);
        assert forall|j: int| 0 <= j < dot_pos(b) implies #[trigger] b[j] != '.' by {
            if j > 0 {
                assert(b[j] == t[j - 1]);
            }
        }
    }
}

pub proof fn lemma_dot_pos(b: Seq<char>, k: int)
    requires
        0 <= k <= b.len(),
        forall|j: int| 0 <= j < k ==> #[trigger] b[j] != '.',
        k == b.len() || b[k] == '.',
    ensures
        dot_pos(b) == k,
    decreases k,
{
    if k > 0 {
        let t = b.drop_first();
        assert forall|j: int| 0 <= j < k - 1 implies #[trigger] t[j] != '.' by {
            assert(t[j] == b[j + 1]);
        }
        lemma_dot_pos(t, k - 1);
    }
}

proof fn lemma_digits_step(pre: Seq<char>, nxt: Seq<char>, c: char)
    requires
        nxt == pre.push(c),
        all_digits(pre),
        is_digit(c),
    ensures
        all_digits(nxt),
        digits_val(nxt) == digits_val(pre) * 10 + digit_val(c),
        has_nonzero_digit(nxt) == (has_nonzero_digit(pre) || c != '0'),
{
    assert(nxt.drop_last() =~= pre);
    assert forall|j: int| 0 <= j < nxt.len() implies is_digit(#[trigger] nxt[j]) by {
        if j < pre.len() {
            assert(nxt[j] == pre[j]);
        }
    }
    if has_nonzero_digit(pre) {
        let j = choose|j: int| 0 <= j < pre.len() && pre[j] != '0';
        assert(nxt[j] == pre[j]);
    }
    if c != '0' {
        assert(nxt[pre.len() as int] == c);
    }
    if has_nonzero_digit(nxt) {
        let j = choose|j: int| 0 <= j < nxt.len() && nxt[j] != '0';
        if j < pre.len() {
            assert(nxt[j] == pre[j]);
        }
    }
}

/// A digit sequence has a positive value exactly when it has a nonzero digit.
pub proof fn lemma_digits_val_pos(s: Seq<char>)
    requires
        all_digits(s),
    ensures
        (digits_val(s) > 0) == has_nonzero_digit(s),
    decreases s.len(),
{
    if s.len() > 0 {
        let p = s.drop_last();
        assert(all_digits(p)) by {
            assert forall|i: int| 0 <= i < p.len() implies is_digit(#[trigger] p[i]) by {
                assert(p[i] == s[i]);
            }
        }
        lemma_digits_val_pos(p);
        assert(s =~= p.push(s.last()));
        assert(is_digit(s[s.len() - 1]));
        lemma_digits_step(p, s, s.last());
    }
}

/// `(x * 10^9) / 10^f` for the fraction `x` with `f` digits, given its
/// first `min(f, 9)` digits.
proof fn lemma_frac_nanos(fr: Seq<char>, acc: nat)
    requires
        all_digits(fr),
        fr.len() <= 9 ==> acc == digits_val(fr) * pow10((9 - fr.len()) as nat),
        fr.len() > 9 ==> acc == digits_val(fr.take(9)),
    ensures
        acc == digits_val(fr) * pow10(9) / pow10(fr.len()),
{
    let f = fr.len();
    lemma_pow10_pos(f);
    if f <= 9 {
        let e = (9 - f) as nat;
        lemma_pow10_add(f, e);
        assert(f + e == 9);
        let x = digits_val(fr) as int;
        lemma_mul_is_associative(x, pow10(f) as int, pow10(e) as int);
        lemma_mul_is_commutative(x * pow10(e) as int, pow10(f) as int);
        lemma_mul_is_associative(x, pow10(e) as int, pow10(f) as int);
        lemma_mul_is_commutative(pow10(e) as int, pow10(f) as int);
        lemma_div_multiples_vanish(x * pow10(e) as int, pow10(f) as int);
    } else {
        let head = fr.take(9);
        let tail = fr.skip(9);
        assert(fr =~= head + tail);
        lemma_digits_val_concat(head, tail);
        assert(all_digits(tail)) by {
            assert forall|i: int| 0 <= i < tail.len() implies is_digit(#[trigger] tail[i]) by {
                assert(tail[i] == fr[i + 9]);
            }
        }
        lemma_digits_val_bound(tail);
        let e = tail.len();
        lemma_pow10_add(9, e);
        lemma_pow10_pos(e);
        lemma_pow10_pos(9);
        let h = digits_val(head) as int;
        let r = digits_val(tail) as int;
        let p9 = pow10(9) as int;
        let pe = pow10(e) as int;
        // (h*pe + r) * p9 / (p9 * pe) == (h*pe + r) / pe == h
        assert(digits_val(fr) == h * pe + r);
        lemma_mul_is_commutative(h * pe + r, p9);
        lemma_div_multiples_vanish_quotient(p9, h * pe + r, pe);
        lemma_mul_is_commutative(pe, h);
        lemma_div_multiples_vanish_fancy(h, r, pe);
        assert(9 + e == f);
    }
}

/// Reads a plain decimal number: an optional sign, digits, an optional
/// point and digits, with at least one digit. Exponents, `inf` and `NaN`
/// are not read.
pub fn parse_decimal(v: &Vec<char>) -> (r: Option<DecimalParts>)
    ensures
        r is Some <==> is_decimal_text(v@),
        r matches Some(p) ==> {
            &&& p.neg == is_neg(v@)
            &&& p.int_sat == sat(digits_val(int_digits(v@)))
            &&& p.frac_nanos == digits_val(frac_digits(v@)) * pow10(9) / pow10(
                frac_digits(v@).len(),
            )
            &&& p.frac_nonzero == (digits_val(frac_digits(v@)) > 0)
        },
{
    let neg = v.len() > 0 && v[0] == '-';
    let start: usize = if v.len() > 0 && (v[0] == '+' || v[0] == '-') {
        1
    } else {
        0
    };
    let ghost b = dec_body(v@);
    assert(b =~= v@.subrange(start as int, v.len() as int));
    // integer part
    let mut i = start;
    let mut int_sat: u64 = 0;
    let mut n_int: usize = 0;
    while i < v.len() && v[i] != '.'
        invariant
            start <= i <= v.len(),
            n_int == i - start,
            b == dec_body(v@),
            b == v@.subrange(start as int, v.len() as int),
            forall|j: int| start <= j < i ==> #[trigger] v@[j] != '.',
            all_digits(v@.subrange(start as int, i as int)),
            int_sat == sat(digits_val(v@.subrange(start as int, i as int))),
        decreases v.len() - i,
    {
        let c = v[i];
        if !('0' <= c && c <= '9') {
            proof {
                let k = dot_pos(b);
                lemma_dot_pos_props(b);
                assert(b[i - start] == c);
                if k <= i - start {
                    assert(b[k as int] == v@[start + k]);
                }
                assert(k > i - start);
                assert(int_digits(v@) == b.take(k as int));
                assert(b.take(k as int)[i - start] == b[i - start]);
                assert(!is_digit(int_digits(v@)[i - start]));
            }
            return None;
        }
        let d = (c as u32 - '0' as u32) as u64;
        let ghost pre = v@.subrange(start as int, i as int);
        let ghost nxt = v@.subrange(start as int, i + 1);
        assert(nxt =~= pre.push(c));
        proof {
            lemma_digits_step(pre, nxt, c);
        }
        if int_sat >= 1_000_000_000 {
            proof {
                assert(digits_val(nxt) >= digits_val(pre));
            }
        } else {
            int_sat = int_sat * 10 + d;
            if int_sat > 1_000_000_000 {
                int_sat = 1_000_000_000;
            }
        }
        i += 1;
        n_int += 1;
    }
    let dot = i;
    proof {
        assert forall|j: int| 0 <= j < dot - start implies #[trigger] b[j] != '.' by {
            assert(b[j] == v@[start + j]);
        }
        if dot < v.len() {
            assert(b[dot - start] == v@[dot as int]);
        }
        lemma_dot_pos(b, dot - start);
        assert(int_digits(v@) =~= v@.subrange(start as int, dot as int));
    }
    // fraction part
    let mut frac_acc: u64 = 0;
    let mut n_frac: usize = 0;
    let mut nonzero = false;
    if dot < v.len() {
        let fs = dot + 1;
        assert(frac_digits(v@) =~= v@.subrange(fs as int, v.len() as int));
        let mut j = fs;
        while j < v.len()
            invariant
                fs <= j <= v.len(),
                n_frac == j - fs,
                frac_digits(v@) == v@.subrange(fs as int, v.len() as int),
                all_digits(v@.subrange(fs as int, j as int)),
                n_frac <= 9 ==> frac_acc == digits_val(v@.subrange(fs as int, j as int)),
                n_frac > 9 ==> frac_acc == digits_val(v@.subrange(fs as int, fs + 9)),
                frac_acc < 1_000_000_000,
                nonzero == has_nonzero_digit(v@.subrange(fs as int, j as int)),
            decreases v.len() - j,
        {
            let c = v[j];
            if !('0' <= c && c <= '9') {
                proof {
                    assert(frac_digits(v@)[j - fs] == c);
                }
                return None;
            }
            let ghost pre = v@.subrange(fs as int, j as int);
            let ghost nxt = v@.subrange(fs as int, j + 1);
            assert(nxt =~= pre.push(c));
            proof {
                lemma_digits_step(pre, nxt, c);
            }
            if n_frac < 9 {
                proof {
                    lemma_digits_val_bound(pre);
                    assert(pow10(pre.len()) <= 100_000_000) by {
                        reveal_with_fuel(pow10, 10);
                    }
                }
                frac_acc = frac_acc * 10 + (c as u32 - '0' as u32) as u64;
                proof {
                    lemma_digits_val_bound(nxt);
                    assert(pow10(nxt.len()) <= 1_000_000_000) by {
                        reveal_with_fuel(pow10, 10);
                    }
                }
            } else if n_frac == 9 {
                assert(v@.subrange(fs as int, fs + 9) =~= pre);
            }
            if c != '0' {
                nonzero = true;
            }
            j += 1;
            n_frac += 1;
        }
        proof {
            assert(v@.subrange(fs as int, v.len() as int) =~= frac_digits(v@));
        }
    } else {
        assert(frac_digits(v@) =~= seq![]);
    }
    if n_int + n_frac == 0 {
        return None;
    }
    let ghost fr = frac_digits(v@);
    // pad the fraction to nine digits
    let mut nanos = frac_acc;
    let mut k = n_frac;
    proof {
        if fr.len() > 9 {
            assert(fr.take(9) =~= v@.subrange(dot + 1, dot + 10));
        }
        assert(pow10(0) == 1);
        assert(frac_acc * pow10(0) == frac_acc);
        assert(all_digits(fr));
        lemma_digits_val_bound(fr);
        if n_frac <= 9 {
            assert(pow10(n_frac as nat) <= 1_000_000_000) by {
                reveal_with_fuel(pow10, 10);
            }
        }
    }
    while k < 9
        invariant
            n_frac <= 9 ==> n_frac <= k <= 9,
            n_frac > 9 ==> k == n_frac && nanos == frac_acc,
            n_frac > 9 ==> frac_acc == digits_val(fr.take(9)),
            n_frac == fr.len(),
            n_frac <= 9 ==> frac_acc == digits_val(fr),
            n_frac <= 9 ==> nanos == frac_acc * pow10((k - n_frac) as nat),
            k < 9 ==> nanos < pow10(k as nat),
            k <= 9 ==> pow10(k as nat) <= 1_000_000_000,
        decreases 9 - k,
    {
        proof {
            assert(pow10((k + 1) as nat) == 10 * pow10(k as nat));
            assert(((k + 1 - n_frac) as nat) - 1 == (k - n_frac) as nat);
            assert(pow10((k + 1 - n_frac) as nat) == 10 * pow10((k - n_frac) as nat));
            lemma_mul_is_associative(frac_acc as int, 10, pow10((k - n_frac) as nat) as int);
            lemma_mul_is_commutative(frac_acc as int, 10);
            lemma_mul_is_associative(10, frac_acc as int, pow10((k - n_frac) as nat) as int);
            assert(pow10((k + 1) as nat) <= 1_000_000_000) by {
                reveal_with_fuel(pow10, 10);
            }
        }
        nanos = nanos * 10;
        k += 1;
    }
    proof {
        lemma_digits_val_pos(fr);
        lemma_frac_nanos(fr, nanos as nat);
    }
    Some(DecimalParts { neg, int_sat, frac_nanos: nanos, frac_nonzero: nonzero })
}

/// The integer/fraction decomposition of a decimal text's exact value
/// `dec_num(t) / dec_den(t)`, and the facts the alert parser reads off it.
pub proof fn lemma_decimal_value(t: Seq<char>)
    requires
        is_decimal_text(t),
    ensures
        ({
            let i = digits_val(int_digits(t)) as int;
            let f = digits_val(frac_digits(t)) as int;
            let den = dec_den(t) as int;
            let num = dec_num(t) as int;
            &&& 0 <= f < den
            &&& num == i * den + f
            &&& (num > den) == (i > 1 || (i == 1 && f > 0))
            &&& (num <= 100 * den) == (i < 100 || (i == 100 && f == 0))
            &&& (num == 0) == (i == 0 && f == 0)
            &&& pow10(9) == 1_000_000_000
            &&& f * 1_000_000_000 / den < 1_000_000_000
            &&& f == 0 ==> f * 1_000_000_000 / den == 0
            &&& num * 1_000_000_000 / den == i * 1_000_000_000 + f * 1_000_000_000 / den
            &&& num * 10_000_000 / den == i * 10_000_000 + (f * 1_000_000_000 / den) / 100
        }),
{
    let i = digits_val(int_digits(t)) as int;
    let f = digits_val(frac_digits(t)) as int;
    let den = dec_den(t) as int;
    let num = dec_num(t) as int;
    lemma_digits_val_bound(frac_digits(t));
    lemma_pow10_pos(frac_digits(t).len());
    assert(pow10(9) == 1_000_000_000) by {
        reveal_with_fuel(pow10, 10);
    }
    assert(0 <= f < den);
    assert(num == i * den + f);
    assert((num > den) == (i > 1 || (i == 1 && f > 0))) by (nonlinear_arith)
        requires
            num == i * den + f,
            0 <= f < den,
            i >= 0,
    ;
    assert((num <= 100 * den) == (i < 100 || (i == 100 && f == 0))) by (nonlinear_arith)
        requires
            num == i * den + f,
            0 <= f < den,
            i >= 0,
    ;
    assert((num == 0) == (i == 0 && f == 0)) by (nonlinear_arith)
        requires
            num == i * den + f,
            0 <= f < den,
            i >= 0,
    ;
    let k = 1_000_000_000int;
    assert(num * k == f * k + (i * k) * den) by (nonlinear_arith)
        requires
            num == i * den + f,
    ;
    lemma_hoist_over_denominator(f * k, i * k, den as nat);
    lemma_fundamental_div_mod(f * k, den);
    let q = (f * k) / den;
    assert(q < k) by (nonlinear_arith)
        requires
            f * k == den * q + (f * k) % den,
            (f * k) % den >= 0,
            0 <= f < den,
            k > 0,
    ;
    let k7 = 10_000_000int;
    assert(num * k7 == f * k7 + (i * k7) * den) by (nonlinear_arith)
        requires
            num == i * den + f,
    ;
    lemma_hoist_over_denominator(f * k7, i * k7, den as nat);
    // (f * 10^9 / den) / 100 == f * 10^9 / (den * 100) == f * 10^7 / den
    lemma_div_denominator(f * k, den, 100);
    assert(f * k == 100 * (f * k7));
    assert(den * 100 == 100 * den);
    lemma_div_multiples_vanish_quotient(100, f * k7, den);
}

} // verus!
