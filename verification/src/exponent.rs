//! Numbers in the full syntax that `str::parse` reads for a binary
//! floating-point value: a decimal number with an optional exponent
//! (`5e1`, `2.5E-3`), and the words `inf`, `infinity` and `nan`. Their
//! values are kept exact, as a fraction.

use vstd::prelude::*;
use crate::number::{
    all_digits, dec_den, dec_num, frac_digits, int_body, int_digits, is_decimal_text,
    is_neg, lemma_digits_val_bound, lemma_digits_val_concat, lemma_pow10_add, lemma_pow10_mono,
    lemma_pow10_pos, parse_decimal, pow10,
};
use crate::text::{ascii_lower_seq, ascii_lowercase, chars_of, digits_val, is_digit, seq_eq, string_from_range};

verus! {

/// Index of the first `e` or `E` in `t`, or `t.len()` when there is none.
pub open spec fn exp_pos(t: Seq<char>) -> nat
    decreases t.len(),
{
    if t.len() == 0 {
        0
    } else if t[0] == 'e' || t[0] == 'E' {
        0
    } else {
        1 + exp_pos(t.drop_first())
    }
}

/// The text has an exponent.
pub open spec fn has_exp(t: Seq<char>) -> bool {
    exp_pos(t) < t.len()
}

/// The number before the exponent.
pub open spec fn mant_part(t: Seq<char>) -> Seq<char> {
    t.take(exp_pos(t) as int)
}

/// The exponent text after `e` or `E`.
pub open spec fn exp_part(t: Seq<char>) -> Seq<char> {
    t.skip(exp_pos(t) + 1int)
}

/// An exponent: an optional sign and one or more digits.
pub open spec fn is_exp_text(x: Seq<char>) -> bool {
    int_body(x).len() >= 1 && all_digits(int_body(x))
}

/// The exponent of `t` (0 when it has none).
pub open spec fn exp_of(t: Seq<char>) -> int {
    if has_exp(t) {
        let x = exp_part(t);
        if is_neg(x) {
            -(digits_val(int_body(x)) as int)
        } else {
            digits_val(int_body(x)) as int
        }
    } else {
        0
    }
}

/// A finite number text: a decimal number, then optionally `e` or `E` and
/// an exponent.
pub open spec fn is_float_text(t: Seq<char>) -> bool {
    &&& is_decimal_text(mant_part(t))
    &&& has_exp(t) ==> is_exp_text(exp_part(t))
}

/// The words for infinity and not-a-number, in any case, after an
/// optional sign.
pub open spec fn is_special_text(t: Seq<char>) -> bool {
    let w = ascii_lower_seq(int_body(t));
    w == "inf"@ || w == "infinity"@ || w == "nan"@
}

/// The numerator of the exact value of a finite number text.
pub open spec fn float_num(t: Seq<char>) -> nat {
    dec_num(mant_part(t)) * pow10(
        if exp_of(t) > 0 {
            exp_of(t) as nat
        } else {
            0
        },
    )
}

/// The denominator of the exact value of a finite number text.
pub open spec fn float_den(t: Seq<char>) -> nat {
    dec_den(mant_part(t)) * pow10(
        if exp_of(t) < 0 {
            (-exp_of(t)) as nat
        } else {
            0
        },
    )
}

/// The text is negative.
pub open spec fn float_neg(t: Seq<char>) -> bool {
    is_neg(mant_part(t))
}

/// What `read_number` makes of a text.
pub enum NumberRead {
    /// Not a number at all.
    NotNumber,
    /// Infinity or not-a-number.
    Special,
    /// A finite value above 100.
    Huge,
    /// A finite value that is not zero and less than one billionth.
    Tiny { neg: bool },
    /// A finite value, as a plain decimal text of the same value and sign.
    Value { plain: Vec<char> },
}

proof fn lemma_exp_pos(t: Seq<char>, k: int)
    requires
        0 <= k <= t.len(),
        forall|j: int| 0 <= j < k ==> #[trigger] t[j] != 'e' && t[j] != 'E',
        k == t.len() || t[k] == 'e' || t[k] == 'E',
    ensures
        exp_pos(t) == k,
    decreases k,
{
    if k > 0 {
        let u = t.drop_first();
        assert forall|j: int| 0 <= j < k - 1 implies #[trigger] u[j] != 'e' && u[j] != 'E' by {
            assert(u[j] == t[j + 1]);
        }
        lemma_exp_pos(u, k - 1);
    }
}

/// `n` zeros.
pub open spec fn zeros(n: nat) -> Seq<char> {
    Seq::new(n, |i: int| '0')
}

proof fn lemma_zeros(n: nat)
    ensures
        all_digits(zeros(n)),
        digits_val(zeros(n)) == 0,
    decreases n,
{
    if n > 0 {
        lemma_zeros((n - 1) as nat);
        assert(zeros(n).drop_last() =~= zeros((n - 1) as nat));
    }
}

proof fn lemma_all_digits_concat(a: Seq<char>, b: Seq<char>)
    requires
        all_digits(a),
        all_digits(b),
    ensures
        all_digits(a + b),
{
    assert forall|i: int| 0 <= i < (a + b).len() implies is_digit(#[trigger] (a + b)[i]) by {
        if i < a.len() {
            assert((a + b)[i] == a[i]);
        } else {
            assert((a + b)[i] == b[i - a.len()]);
        }
    }
}

/// The parts of a plain decimal text `sign ++ x ++ "." ++ y`.
proof fn lemma_plain_parts(sign: Seq<char>, x: Seq<char>, y: Seq<char>)
    requires
        sign == Seq::<char>::empty() || sign == seq!['-'],
        all_digits(x),
        all_digits(y),
        x.len() + y.len() >= 1,
    ensures
        ({
            let t = sign + x + seq!['.'] + y;
            &&& int_digits(t) == x
            &&& frac_digits(t) == y
            &&& is_decimal_text(t)
            &&& is_neg(t) == (sign.len() == 1)
            &&& dec_num(t) == digits_val(x + y)
            &&& dec_den(t) == pow10(y.len())
        }),
{
    let t = sign + x + seq!['.'] + y;
    let b = x + seq!['.'] + y;
    if sign.len() == 1 {
        assert(t[0] == '-');
        assert(t.drop_first() =~= b);
    } else {
        assert(t =~= b);
        if x.len() > 0 {
            assert(is_digit(x[0]));
            assert(t[0] == x[0]);
        } else {
            assert(t[0] == '.');
        }
    }
    assert(int_body(t) == b);
    assert forall|j: int| 0 <= j < x.len() implies #[trigger] b[j] != '.' by {
        assert(b[j] == x[j]);
        assert(is_digit(x[j]));
    }
    assert(b[x.len() as int] == '.');
    crate::number::lemma_dot_pos(b, x.len() as int);
    assert(b.take(x.len() as int) =~= x);
    assert(b.skip(x.len() + 1int) =~= y);
    lemma_digits_val_concat(x, y);
}

/// A plain number's value as one digit string over a power of ten.
proof fn lemma_dec_num_digits(t: Seq<char>)
    requires
        is_decimal_text(t),
    ensures
        dec_num(t) == digits_val(int_digits(t) + frac_digits(t)),
        all_digits(int_digits(t) + frac_digits(t)),
{
    lemma_digits_val_concat(int_digits(t), frac_digits(t));
    lemma_all_digits_concat(int_digits(t), frac_digits(t));
}

fn sub_chars(v: &Vec<char>, a: usize, b: usize) -> (r: Vec<char>)
    requires
        a <= b <= v.len(),
    ensures
        r@ == v@.subrange(a as int, b as int),
{
    chars_of(string_from_range(v, a, b).as_str())
}

/// The bound at which an exponent's magnitude is capped while reading.
pub open spec fn exp_cap() -> nat {
    1267650600228229401496703205376
}

/// Reads an exponent: its sign, and its magnitude capped at `exp_cap()`.
fn read_exp(x: &Vec<char>) -> (r: Option<(bool, u128)>)
    ensures
        r is Some <==> is_exp_text(x@),
        r matches Some((neg, m)) ==> neg == is_neg(x@) && m == (if digits_val(int_body(x@))
            < exp_cap() {
            digits_val(int_body(x@))
        } else {
            exp_cap()
        }),
{
    let cap: u128 = 1267650600228229401496703205376;
    let s: usize = if x.len() > 0 && (x[0] == '+' || x[0] == '-') {
        1
    } else {
        0
    };
    let ghost body = int_body(x@);
    assert(body =~= x@.subrange(s as int, x.len() as int));
    if s >= x.len() {
        return None;
    }
    let mut acc: u128 = 0;
    let mut i = s;
    while i < x.len()
        invariant
            s <= i <= x.len(),
            body == x@.subrange(s as int, x.len() as int),
            body == int_body(x@),
            cap == exp_cap(),
            all_digits(x@.subrange(s as int, i as int)),
            acc == (if digits_val(x@.subrange(s as int, i as int)) < cap {
                digits_val(x@.subrange(s as int, i as int))
            } else {
                cap as nat
            }),
        decreases x.len() - i,
    {
        let c = x[i];
        let ghost pre = x@.subrange(s as int, i as int);
        let ghost nxt = x@.subrange(s as int, i + 1);
        assert(nxt.drop_last() =~= pre);
        assert(nxt.last() == c);
        if !('0' <= c && c <= '9') {
            assert(body[i - s] == c);
            assert(!is_digit(body[i - s]));
            return None;
        }
        let d = (c as u32 - '0' as u32) as u128;
        assert(digits_val(nxt) == digits_val(pre) * 10 + d);
        if acc < cap {
            let t = acc * 10 + d;
            acc = if t < cap {
                t
            } else {
                cap
            };
        }
        assert forall|j: int| 0 <= j < nxt.len() implies is_digit(#[trigger] nxt[j]) by {
            if j < pre.len() {
                assert(nxt[j] == pre[j]);
            }
        }
        i += 1;
    }
    assert(x@.subrange(s as int, x.len() as int) == body);
    proof {
        if x.len() > 0 && x[0] == '-' {
            assert(s == 1);
        }
    }
    Some((s == 1 && x[0] == '-', acc))
}

/// A value with a nonzero numerator and a large positive exponent is above 100.
proof fn lemma_huge(n: nat, f: nat, e: nat, l: nat)
    requires
        n >= 1,
        f <= l,
        e > l + 2,
    ensures
        n * pow10(e) > 100 * (pow10(f) * pow10(0)),
{
    lemma_pow10_mono(f + 3, e);
    lemma_pow10_add(f, 3);
    assert(pow10(3) == 1000) by {
        reveal_with_fuel(pow10, 4);
    }
    assert(pow10(0) == 1);
    lemma_pow10_pos(f);
    assert(n * pow10(e) >= pow10(e)) by (nonlinear_arith)
        requires
            n >= 1,
    ;
}

/// A value with a numerator below `10^l` and a large negative exponent is
/// below one billionth.
proof fn lemma_tiny(n: nat, f: nat, e: nat, l: nat)
    requires
        n < pow10(l),
        e > l + 20,
    ensures
        n * 1_000_000_000 < pow10(f) * pow10(e),
{
    lemma_pow10_add(l, 9);
    assert(pow10(9) == 1_000_000_000) by {
        reveal_with_fuel(pow10, 10);
    }
    lemma_pow10_mono(l + 9, e);
    lemma_pow10_pos(f);
    lemma_pow10_pos(e);
    assert(n * 1_000_000_000 < pow10(l) * 1_000_000_000) by (nonlinear_arith)
        requires
            n < pow10(l),
    ;
    assert(pow10(e) <= pow10(f) * pow10(e)) by (nonlinear_arith)
        requires
            pow10(f) >= 1,
    ;
}

/// The sign, integer digits and fraction digits of a plain decimal text.
fn mant_pieces(m: &Vec<char>) -> (r: (bool, Vec<char>, Vec<char>))
    requires
        is_decimal_text(m@),
    ensures
        r.0 == is_neg(m@),
        r.1@ == int_digits(m@),
        r.2@ == frac_digits(m@),
{
    let s: usize = if m.len() > 0 && (m[0] == '+' || m[0] == '-') {
        1
    } else {
        0
    };
    let ghost b = int_body(m@);
    assert(b =~= m@.subrange(s as int, m.len() as int));
    let mut d = s;
    while d < m.len() && m[d] != '.'
        invariant
            s <= d <= m.len(),
            b == m@.subrange(s as int, m.len() as int),
            forall|j: int| s <= j < d ==> #[trigger] m@[j] != '.',
        decreases m.len() - d,
    {
        d += 1;
    }
    proof {
        assert forall|j: int| 0 <= j < d - s implies #[trigger] b[j] != '.' by {
            assert(b[j] == m@[s + j]);
        }
        if d < m.len() {
            assert(b[d - s] == m@[d as int]);
        }
        crate::number::lemma_dot_pos(b, d - s);
    }
    let a = sub_chars(m, s, d);
    assert(a@ =~= b.take(d - s));
    let f = if d < m.len() {
        let f = sub_chars(m, d + 1, m.len());
        assert(f@ =~= b.skip(d - s + 1));
        f
    } else {
        let f: Vec<char> = Vec::new();
        assert(f@ =~= Seq::<char>::empty());
        f
    };
    (s == 1 && m[0] == '-', a, f)
}

/// `a / c` and `b / d` are the same fraction, so `a * k / c == b * k / d`.
pub proof fn lemma_same_floor(a: nat, b: nat, c: nat, d: nat, k: nat)
    requires
        a * d == b * c,
        c >= 1,
        d >= 1,
    ensures
        a * k / c == b * k / d,
{
    let q = (a * k / c) as int;
    let r = (a * k % c) as int;
    assert(a * k == q * c + r && 0 <= r < c) by (nonlinear_arith)
        requires
            q == a * k / c,
            r == a * k % c,
            c >= 1,
    ;
    assert(q * d <= b * k && b * k < (q + 1) * d) by (nonlinear_arith)
        requires
            a * k == q * c + r,
            0 <= r < c,
            a * d == b * c,
            c >= 1,
            d >= 1,
            q >= 0,
    ;
    assert(b * k / d == q) by (nonlinear_arith)
        requires
            q * d <= b * k,
            b * k < (q + 1) * d,
            d >= 1,
    ;
}

/// Comparisons of the same fraction written two ways agree.
pub proof fn lemma_same_compare(a: nat, b: nat, c: nat, d: nat, m: nat)
    requires
        a * d == b * c,
        c >= 1,
        d >= 1,
    ensures
        (a > m * c) == (b > m * d),
        (a == 0) == (b == 0),
{
    assert((a > m * c) == (b > m * d)) by (nonlinear_arith)
        requires
            a * d == b * c,
            c >= 1,
            d >= 1,
    ;
    assert((a == 0) == (b == 0)) by (nonlinear_arith)
        requires
            a * d == b * c,
            c >= 1,
            d >= 1,
    ;
}

fn push_zeros(w: &mut Vec<char>, n: u128)
    ensures
        final(w)@ == old(w)@ + zeros(n as nat),
{
    let mut i: u128 = 0;
    while i < n
        invariant
            i <= n,
            w@ == old(w)@ + zeros(i as nat),
        decreases n - i,
    {
        w.push('0');
        i += 1;
        assert(w@ =~= old(w)@ + zeros(i as nat));
    }
}

fn push_all(w: &mut Vec<char>, a: &Vec<char>, from: usize, to: usize)
    requires
        from <= to <= a.len(),
    ensures
        final(w)@ == old(w)@ + a@.subrange(from as int, to as int),
{
    let mut i = from;
    while i < to
        invariant
            from <= i <= to <= a.len(),
            w@ == old(w)@ + a@.subrange(from as int, i as int),
        decreases to - i,
    {
        w.push(a[i]);
        i += 1;
        assert(w@ =~= old(w)@ + a@.subrange(from as int, i as int));
    }
}

/// The value of a plain text built from the digits `g` of a mantissa with
/// `f` fraction digits and the exponent `e`, when it is written with `fp =
/// f - e` fraction digits, equals the mantissa's value times `10^e`.
proof fn lemma_shift_ratio(n: nat, f: nat, e: int, tnum: nat, tden: nat, fnum: nat, fden: nat)
    requires
        fnum == n * pow10(if e > 0 { e as nat } else { 0 }),
        fden == pow10(f) * pow10(if e < 0 { (-e) as nat } else { 0 }),
        f - e <= 0 ==> tnum == n * pow10((e - f) as nat) && tden == 1,
        f - e > 0 ==> tnum == n && tden == pow10((f - e) as nat),
    ensures
        tnum * fden == fnum * tden,
{
    assert(pow10(0) == 1);
    let ep: nat = if e > 0 { e as nat } else { 0 };
    let en: nat = if e < 0 { (-e) as nat } else { 0 };
    assert(fnum == n * pow10(ep));
    assert(fden == pow10(f) * pow10(en));
    if e >= 0 {
        assert(en == 0);
        let pf = pow10(f);
        let p0 = pow10(en);
        assert(pf * p0 == pf) by (nonlinear_arith)
            requires
                p0 == 1,
        ;
        assert(fden == pow10(f));
    } else {
        assert(ep == 0);
        let p0 = pow10(ep);
        assert(n * p0 == n) by (nonlinear_arith)
            requires
                p0 == 1,
        ;
        assert(fnum == n);
    }
    if e > 0 {
        assert(ep == e);
    }
    if f - e <= 0 {
        let pz = pow10((e - f) as nat);
        let pf = pow10(f);
        let pe = pow10(e as nat);
        lemma_pow10_add((e - f) as nat, f);
        assert((e - f) as nat + f == e as nat);
        assert(pe == pz * pf);
        assert(fden == pf);
        assert(fnum == n * pe);
        assert(tnum * fden == fnum * tden) by (nonlinear_arith)
            requires
                tnum == n * pz,
                fden == pf,
                fnum == n * pe,
                pe == pz * pf,
                tden == 1,
        ;
    } else if e >= 0 {
        let pe = pow10(e as nat);
        let pd = pow10((f - e) as nat);
        let pf = pow10(f);
        lemma_pow10_add(e as nat, (f - e) as nat);
        assert(e as nat + (f - e) as nat == f);
        assert(pf == pe * pd);
        assert(fden == pf);
        assert(fnum == n * pe);
        assert(tnum * fden == fnum * tden) by (nonlinear_arith)
            requires
                tnum == n,
                fden == pf,
                fnum == n * pe,
                pf == pe * pd,
                tden == pd,
        ;
    } else {
        let pf = pow10(f);
        let pm = pow10((-e) as nat);
        lemma_pow10_add(f, (-e) as nat);
        assert(f + (-e) as nat == (f - e) as nat);
        assert(fnum == n);
        assert(tnum * fden == fnum * tden) by (nonlinear_arith)
            requires
                tnum == n,
                fden == pf * pm,
                fnum == n,
                tden == pf * pm,
        ;
    }
}

/// The plain decimal text of the digits `a ++ b` (integer then fraction
/// digits) times `10^e`, with a leading `-` when `neg`.
#[verifier::rlimit(60)]
fn shift_plain(neg: bool, a: &Vec<char>, b: &Vec<char>, e: i128) -> (t: Vec<char>)
    requires
        all_digits(a@),
        all_digits(b@),
        a.len() + b.len() >= 1,
        -0x1_0000_0000_0000_0000_0000 <= e <= 0x1_0000_0000_0000_0000_0000,
    ensures
        is_decimal_text(t@),
        is_neg(t@) == neg,
        b@.len() - e <= 0 ==> dec_num(t@) == digits_val(a@ + b@) * pow10((e - b@.len()) as nat)
            && dec_den(t@) == 1,
        b@.len() - e > 0 ==> dec_num(t@) == digits_val(a@ + b@) && dec_den(t@) == pow10(
            (b@.len() - e) as nat,
        ),
{
    let ghost g = a@ + b@;
    let glen = (a.len() as i128) + (b.len() as i128);
    let fp: i128 = b.len() as i128 - e;
    let zpre: u128 = if fp > glen {
        (fp - glen) as u128
    } else {
        0
    };
    let zpost: u128 = if fp <= 0 {
        (-fp) as u128
    } else {
        0
    };
    let mut w: Vec<char> = Vec::new();
    push_zeros(&mut w, zpre);
    push_all(&mut w, a, 0, a.len());
    push_all(&mut w, b, 0, b.len());
    push_zeros(&mut w, zpost);
    assert(a@.subrange(0, a@.len() as int) =~= a@);
    assert(b@.subrange(0, b@.len() as int) =~= b@);
    let ghost wv = w@;
    assert(wv =~= zeros(zpre as nat) + g + zeros(zpost as nat));
    let c: usize = if fp <= 0 {
        w.len()
    } else if fp <= glen {
        (glen - fp) as usize
    } else {
        0
    };
    let mut t: Vec<char> = Vec::new();
    if neg {
        t.push('-');
    }
    let ghost sign = t@;
    push_all(&mut t, &w, 0, c);
    t.push('.');
    push_all(&mut t, &w, c, w.len());
    proof {
        let x = wv.subrange(0, c as int);
        let y = wv.subrange(c as int, wv.len() as int);
        assert(t@ =~= sign + x + seq!['.'] + y);
        assert(x + y =~= wv);
        lemma_zeros(zpre as nat);
        lemma_zeros(zpost as nat);
        lemma_all_digits_concat(a@, b@);
        lemma_all_digits_concat(zeros(zpre as nat), g);
        lemma_all_digits_concat(zeros(zpre as nat) + g, zeros(zpost as nat));
        assert(all_digits(x)) by {
            assert forall|i: int| 0 <= i < x.len() implies is_digit(#[trigger] x[i]) by {
                assert(x[i] == wv[i]);
            }
        }
        assert(all_digits(y)) by {
            assert forall|i: int| 0 <= i < y.len() implies is_digit(#[trigger] y[i]) by {
                assert(y[i] == wv[c + i]);
            }
        }
        if neg {
            assert(sign =~= seq!['-']);
        } else {
            assert(sign =~= Seq::<char>::empty());
        }
        lemma_plain_parts(sign, x, y);
        lemma_digits_val_concat(zeros(zpre as nat), g);
        lemma_digits_val_concat(zeros(zpre as nat) + g, zeros(zpost as nat));
        assert(digits_val(wv) == digits_val(g) * pow10(zpost as nat));
        if fp <= 0 {
            assert(y.len() == 0);
            assert(zpre == 0);
            assert(pow10(0) == 1);
        } else {
            assert(zpost == 0);
            assert(pow10(0) == 1);
            assert(y.len() == fp);
        }
    }
    t
}

/// Reads a number in the syntax `str::parse` accepts for a binary
/// floating-point value, exactly.
#[verifier::rlimit(60)]
pub fn read_number(v: &Vec<char>) -> (r: NumberRead)
    ensures
        r is NotNumber <==> !is_float_text(v@) && !is_special_text(v@),
        r is Special <==> is_special_text(v@),
        r is Huge ==> is_float_text(v@) && float_num(v@) > 100 * float_den(v@),
        r matches NumberRead::Tiny { neg } ==> {
            &&& is_float_text(v@)
            &&& !is_special_text(v@)
            &&& neg == float_neg(v@)
            &&& float_num(v@) > 0
            &&& float_num(v@) * 1_000_000_000 < float_den(v@)
        },
        r matches NumberRead::Value { plain } ==> {
            &&& is_float_text(v@)
            &&& !is_special_text(v@)
            &&& is_decimal_text(plain@)
            &&& is_neg(plain@) == float_neg(v@)
            &&& float_den(v@) >= 1
            &&& dec_num(plain@) * float_den(v@) == float_num(v@) * dec_den(plain@)
        },
{
    // the special words
    let s0: usize = if v.len() > 0 && (v[0] == '+' || v[0] == '-') {
        1
    } else {
        0
    };
    let body = sub_chars(v, s0, v.len());
    assert(body@ =~= int_body(v@));
    let low = ascii_lowercase(&body);
    let lc = chars_of(low.as_str());
    if seq_eq(&lc, "inf") || seq_eq(&lc, "infinity") || seq_eq(&lc, "nan") {
        return NumberRead::Special;
    }
    // the exponent
    let mut k: usize = 0;
    while k < v.len() && v[k] != 'e' && v[k] != 'E'
        invariant
            k <= v.len(),
            forall|j: int| 0 <= j < k ==> #[trigger] v@[j] != 'e' && v@[j] != 'E',
        decreases v.len() - k,
    {
        k += 1;
    }
    proof {
        lemma_exp_pos(v@, k as int);
    }
    let mant = sub_chars(v, 0, k);
    assert(mant@ =~= mant_part(v@));
    let p = match parse_decimal(&mant) {
        Some(p) => p,
        None => return NumberRead::NotNumber,
    };
    let (en, em): (bool, u128) = if k < v.len() {
        let x = sub_chars(v, k + 1, v.len());
        assert(x@ =~= exp_part(v@));
        match read_exp(&x) {
            Some(r) => r,
            None => return NumberRead::NotNumber,
        }
    } else {
        (false, 0)
    };
    // now a finite number
    assert(is_float_text(v@));
    let ghost e_dv: nat = if has_exp(v@) {
        digits_val(int_body(exp_part(v@)))
    } else {
        0
    };
    assert(exp_of(v@) == if en { -(e_dv as int) } else { e_dv as int });
    assert(em == (if e_dv < exp_cap() { e_dv } else { exp_cap() }));
    let (neg, a, b) = mant_pieces(&mant);
    let ghost g = a@ + b@;
    let ghost n = dec_num(mant@);
    let ghost f = b@.len();
    proof {
        lemma_dec_num_digits(mant@);
        crate::number::lemma_decimal_value(mant@);
        assert(g.len() >= 1);
        let bd = int_body(mant@);
        crate::number::lemma_dot_pos_props(bd);
        assert(g.len() <= bd.len());
        lemma_digits_val_bound(g);
        lemma_pow10_mono(g.len(), mant@.len());
        crate::number::lemma_pow10_pos(f);
        let ex: nat = if exp_of(v@) < 0 { (-exp_of(v@)) as nat } else { 0 };
        lemma_pow10_pos(ex);
        let dd = dec_den(mant@);
        let pe = pow10(ex);
        assert(float_den(v@) == dd * pe);
        assert(dd * pe >= 1) by (nonlinear_arith)
            requires
                dd >= 1,
                pe >= 1,
        ;
    }
    if p.int_sat == 0 && !p.frac_nonzero {
        // zero: the mantissa itself
        assert(n == 0);
        proof {
            let ep: nat = if exp_of(v@) > 0 { exp_of(v@) as nat } else { 0 };
            let pp = pow10(ep);
            let fd = float_den(v@);
            let dd = dec_den(mant@);
            assert(float_num(v@) == n * pp);
            assert(n * pp == 0 && n * fd == 0 * dd) by (nonlinear_arith)
                requires
                    n == 0,
            ;
        }
        return NumberRead::Value { plain: mant };
    }
    assert(n >= 1);
    let l = mant.len() as u128;
    if !en && em > l + 2 {
        proof {
            lemma_huge(n, f, e_dv, mant@.len());
        }
        return NumberRead::Huge;
    }
    if en && em > l + 20 {
        proof {
            lemma_tiny(n, f, e_dv, mant@.len());
            assert(e_dv >= em);
            assert(exp_of(v@) == -(e_dv as int));
            assert(exp_of(v@) < 0);
            let p0 = pow10(0);
            assert(p0 == 1);
            assert(n * p0 == n) by (nonlinear_arith)
                requires
                    p0 == 1,
            ;
            assert(float_num(v@) == n);
            assert(float_den(v@) == pow10(f) * pow10(e_dv));
        }
        return NumberRead::Tiny { neg };
    }
    // a moderate exponent: move the point
    assert(em <= l + 20);
    let e: i128 = if en {
        -(em as i128)
    } else {
        em as i128
    };
    assert(e == exp_of(v@));
    let t = shift_plain(neg, &a, &b, e);
    proof {
        lemma_shift_ratio(
            n,
            f,
            exp_of(v@),
            dec_num(t@),
            dec_den(t@),
            float_num(v@),
            float_den(v@),
        );
    }
    NumberRead::Value { plain: t }
}

} // verus!
