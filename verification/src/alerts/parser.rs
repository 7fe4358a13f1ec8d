//! Reading the arguments of `alert add <slug> <above|below|move> <value>`.

use vstd::prelude::*;
use crate::alerts::error::{user_message_of, AlertError};
use crate::alerts::model::AlertRule;
use crate::exponent::{
    float_den, float_num, float_neg, is_float_text, is_special_text, read_number, NumberRead,
};
use crate::number::{dec_den, dec_num, is_decimal_text, is_neg, lemma_decimal_value, parse_decimal};
use crate::text::{ascii_lower_seq, ascii_lowercase, chars_of, split_whitespace, str_eq, string_of, words, views};

verus! {

/// A threshold from the sign and the exact value `num / den` of a number:
/// a value in `[0, 1]`, or a value in `(1, 100]` cents that is divided by
/// 100; in billionths, rounded down. `None` when out of range.
pub open spec fn threshold_from(neg: bool, num: nat, den: nat) -> Option<nat> {
    if neg && num > 0 {
        None
    } else if num > den {
        if num <= 100 * den {
            Some(num * 10_000_000 / den)
        } else {
            None
        }
    } else {
        Some(num * 1_000_000_000 / den)
    }
}

/// A move percentage from the sign and the exact value `num / den` of a
/// number: a value in `(0, 100]`, in billionths, rounded down, except that
/// a positive value below one billionth is kept as one billionth (the
/// smallest move that can be held). `None` when out of range.
pub open spec fn percent_from(neg: bool, num: nat, den: nat) -> Option<nat> {
    if neg || num == 0 || num > 100 * den {
        None
    } else if num * 1_000_000_000 / den == 0 {
        Some(1)
    } else {
        Some(num * 1_000_000_000 / den)
    }
}

/// A threshold read from a number text: infinity and not-a-number are out
/// of range.
pub open spec fn threshold_of(t: Seq<char>) -> Option<nat> {
    if is_special_text(t) {
        None
    } else {
        threshold_from(float_neg(t), float_num(t), float_den(t))
    }
}

/// A move percentage read from a number text: infinity and not-a-number
/// are refused.
pub open spec fn percent_of(t: Seq<char>) -> Option<nat> {
    if is_special_text(t) {
        None
    } else {
        percent_from(float_neg(t), float_num(t), float_den(t))
    }
}

/// The text reads as a number, as `str::parse` reads a floating-point value.
pub open spec fn is_number_text(t: Seq<char>) -> bool {
    is_float_text(t) || is_special_text(t)
}

/// `r` is an `InvalidCommand` error with message `msg`.
pub open spec fn is_invalid_command(
    r: Result<(String, AlertRule), AlertError>,
    msg: Seq<char>,
) -> bool {
    r matches Err(AlertError::InvalidCommand(m)) && m@ == msg
}

/// `r` is an `InvalidRule` error with message `msg`.
pub open spec fn is_invalid_rule(r: Result<(String, AlertRule), AlertError>, msg: Seq<char>) -> bool {
    r matches Err(AlertError::InvalidRule(m)) && m@ == msg
}

/// `r` is `Ok` with this slug and rule.
pub open spec fn is_ok_with(
    r: Result<(String, AlertRule), AlertError>,
    slug: Seq<char>,
    rule: AlertRule,
) -> bool {
    r matches Ok((s, rl)) && s@ == slug && rl == rule
}

/// What `parse_add_args` returns for the text `args`.
pub open spec fn parse_add_spec(args: Seq<char>, r: Result<(String, AlertRule), AlertError>) -> bool {
    let ws = words(args);
    if ws.len() < 3 {
        is_invalid_command(r, "Usage: alert add <slug> <above|below|move> <value>"@)
    } else {
        let rule = ascii_lower_seq(ws[1]);
        let v = ws[2];
        if rule == "above"@ || rule == "below"@ {
            if !is_number_text(v) {
                is_invalid_rule(r, "Threshold must be a number (e.g. 0.52 or 52)."@)
            } else {
                match threshold_of(v) {
                    None => is_invalid_rule(
                        r,
                        "Threshold must be between 0 and 1 (or 0 to 100 cents)."@,
                    ),
                    Some(n) => is_ok_with(
                        r,
                        ws[0],
                        if rule == "above"@ {
                            AlertRule::Above { threshold: n as u64 }
                        } else {
                            AlertRule::Below { threshold: n as u64 }
                        },
                    ),
                }
            }
        } else if rule == "move"@ {
            if !is_number_text(v) {
                is_invalid_rule(r, "Move percent must be numeric (e.g. 5)."@)
            } else {
                match percent_of(v) {
                    None => is_invalid_rule(r, "Move percent must be > 0 and <= 100."@),
                    Some(n) => is_ok_with(r, ws[0], AlertRule::PercentMove { percent: n as u64 }),
                }
            }
        } else {
            is_invalid_rule(r, "Rule must be one of: above, below, move."@)
        }
    }
}

/// What `parse_add_args` yields for `args`: the slug and rule, or the
/// message shown to the user.
pub open spec fn parse_add_view(args: Seq<char>) -> Result<(Seq<char>, AlertRule), Seq<char>> {
    let ws = words(args);
    if ws.len() < 3 {
        Err("Usage: alert add <slug> <above|below|move> <value>"@)
    } else {
        let rule = ascii_lower_seq(ws[1]);
        let v = ws[2];
        if rule == "above"@ || rule == "below"@ {
            if !is_number_text(v) {
                Err("Threshold must be a number (e.g. 0.52 or 52)."@)
            } else {
                match threshold_of(v) {
                    None => Err("Threshold must be between 0 and 1 (or 0 to 100 cents)."@),
                    Some(n) => Ok(
                        (
                            ws[0],
                            if rule == "above"@ {
                                AlertRule::Above { threshold: n as u64 }
                            } else {
                                AlertRule::Below { threshold: n as u64 }
                            },
                        ),
                    ),
                }
            }
        } else if rule == "move"@ {
            if !is_number_text(v) {
                Err("Move percent must be numeric (e.g. 5)."@)
            } else {
                match percent_of(v) {
                    None => Err("Move percent must be > 0 and <= 100."@),
                    Some(n) => Ok((ws[0], AlertRule::PercentMove { percent: n as u64 })),
                }
            }
        } else {
            Err("Rule must be one of: above, below, move."@)
        }
    }
}

/// The same fraction written two ways gives the same threshold and percent.
proof fn lemma_same_value(neg: bool, a: nat, b: nat, c: nat, d: nat)
    requires
        a * d == b * c,
        c >= 1,
        d >= 1,
    ensures
        threshold_from(neg, a, c) == threshold_from(neg, b, d),
        percent_from(neg, a, c) == percent_from(neg, b, d),
{
    crate::exponent::lemma_same_floor(a, b, c, d, 1_000_000_000);
    crate::exponent::lemma_same_floor(a, b, c, d, 10_000_000);
    crate::exponent::lemma_same_compare(a, b, c, d, 1);
    crate::exponent::lemma_same_compare(a, b, c, d, 100);
    assert(1 * c == c && 1 * d == d);
}

/// The parts of a plain decimal text give the threshold and percent of its
/// value: `Ok(n)`, or `Err(false)` when out of range.
fn plain_threshold(w: &Vec<char>) -> (r: Result<u64, bool>)
    requires
        is_decimal_text(w@),
    ensures
        match threshold_from(is_neg(w@), dec_num(w@), dec_den(w@)) {
            None => r == Err::<u64, bool>(false),
            Some(n) => r == Ok::<u64, bool>(n as u64) && n <= 1_000_000_000,
        },
{
    let p = match parse_decimal(w) {
        Some(p) => p,
        None => return Err(false),
    };
    proof {
        lemma_decimal_value(w@);
    }
    if p.neg && (p.int_sat > 0 || p.frac_nonzero) {
        Err(false)
    } else if p.int_sat > 1 || (p.int_sat == 1 && p.frac_nonzero) {
        if p.int_sat < 100 || (p.int_sat == 100 && !p.frac_nonzero) {
            Ok(p.int_sat * 10_000_000 + p.frac_nanos / 100)
        } else {
            Err(false)
        }
    } else {
        Ok(p.int_sat * 1_000_000_000 + p.frac_nanos)
    }
}

fn plain_percent(w: &Vec<char>) -> (r: Result<u64, bool>)
    requires
        is_decimal_text(w@),
    ensures
        match percent_from(is_neg(w@), dec_num(w@), dec_den(w@)) {
            None => r == Err::<u64, bool>(false),
            Some(n) => r == Ok::<u64, bool>(n as u64) && 0 < n <= 100_000_000_000,
        },
{
    let p = match parse_decimal(w) {
        Some(p) => p,
        None => return Err(false),
    };
    proof {
        lemma_decimal_value(w@);
    }
    if p.neg || (p.int_sat == 0 && !p.frac_nonzero) || p.int_sat > 100 || (p.int_sat == 100
        && p.frac_nonzero) {
        return Err(false);
    }
    let n = p.int_sat * 1_000_000_000 + p.frac_nanos;
    if n == 0 {
        Ok(1)
    } else {
        Ok(n)
    }
}

/// The threshold a value text gives: `Ok(n)`, `Err(true)` when it is no
/// number, `Err(false)` when it is out of range.
fn read_threshold(v: &Vec<char>) -> (r: Result<u64, bool>)
    ensures
        r == Err::<u64, bool>(true) <==> !is_number_text(v@),
        is_number_text(v@) ==> match threshold_of(v@) {
            None => r == Err::<u64, bool>(false),
            Some(n) => r == Ok::<u64, bool>(n as u64) && n <= 1_000_000_000,
        },
{
    match read_number(v) {
        NumberRead::NotNumber => Err(true),
        NumberRead::Special => Err(false),
        NumberRead::Huge => Err(false),
        NumberRead::Tiny { neg } => {
            proof {
                let num = float_num(v@);
                let den = float_den(v@);
                assert(num * 1_000_000_000 / den == 0) by (nonlinear_arith)
                    requires
                        num * 1_000_000_000 < den,
                ;
            }
            if neg {
                Err(false)
            } else {
                Ok(0)
            }
        },
        NumberRead::Value { plain } => {
            proof {
                crate::number::lemma_pow10_pos(crate::number::frac_digits(plain@).len());
                lemma_same_value(float_neg(v@), dec_num(plain@), float_num(v@), dec_den(plain@), float_den(v@));
            }
            plain_threshold(&plain)
        },
    }
}

/// The move percentage a value text gives: `Ok(n)`, `Err(true)` when it is
/// no number, `Err(false)` when it is refused.
fn read_percent(v: &Vec<char>) -> (r: Result<u64, bool>)
    ensures
        r == Err::<u64, bool>(true) <==> !is_number_text(v@),
        is_number_text(v@) ==> match percent_of(v@) {
            None => r == Err::<u64, bool>(false),
            Some(n) => r == Ok::<u64, bool>(n as u64) && 0 < n <= 100_000_000_000,
        },
{
    match read_number(v) {
        NumberRead::NotNumber => Err(true),
        NumberRead::Special => Err(false),
        NumberRead::Huge => Err(false),
        NumberRead::Tiny { neg } => {
            proof {
                let num = float_num(v@);
                let den = float_den(v@);
                assert(num * 1_000_000_000 / den == 0) by (nonlinear_arith)
                    requires
                        num * 1_000_000_000 < den,
                ;
                assert(num <= 100 * den);
            }
            if neg {
                Err(false)
            } else {
                Ok(1)
            }
        },
        NumberRead::Value { plain } => {
            proof {
                crate::number::lemma_pow10_pos(crate::number::frac_digits(plain@).len());
                lemma_same_value(float_neg(v@), dec_num(plain@), float_num(v@), dec_den(plain@), float_den(v@));
            }
            plain_percent(&plain)
        },
    }
}

/// Reads `<slug> <above|below|move> <value>`. A threshold is a price in
/// `[0, 1]` or in cents up to 100; a move is a percentage in `(0, 100]`.
/// The value is any number `str::parse` reads as a floating-point value
/// (exponents, `inf`, `nan` included), taken exactly and kept in
/// billionths: finer digits are dropped, and a move below one billionth of
/// a percent is kept as one billionth. Infinity and not-a-number are out of
/// range. Words after the third are ignored.
pub fn parse_add_args(args: &str) -> (r: Result<(String, AlertRule), AlertError>)
    ensures
        parse_add_spec(args@, r),
        match r {
            Ok((slug, rule)) => parse_add_view(args@) == Ok::<(Seq<char>, AlertRule), Seq<char>>(
                (slug@, rule),
            ),
            Err(e) => parse_add_view(args@) == Err::<(Seq<char>, AlertRule), Seq<char>>(
                user_message_of(e),
            ),
        },
        r matches Ok((_, rule)) ==> match rule {
            AlertRule::Above { threshold } => threshold <= 1_000_000_000,
            AlertRule::Below { threshold } => threshold <= 1_000_000_000,
            AlertRule::PercentMove { percent } => 0 < percent <= 100_000_000_000,
        },
{
    let v = chars_of(args);
    let parts = split_whitespace(&v);
    let ghost ws = words(args@);
    assert(views(parts@) == ws);
    if parts.len() < 3 {
        return Err(
            AlertError::InvalidCommand(
                string_of("Usage: alert add <slug> <above|below|move> <value>"),
            ),
        );
    }
    assert(parts@[0]@ == ws[0]);
    assert(parts@[1]@ == ws[1]);
    assert(parts@[2]@ == ws[2]);
    let slug = parts[0].clone();
    let rule_chars = chars_of(parts[1].as_str());
    let rule = ascii_lowercase(&rule_chars);
    let value = chars_of(parts[2].as_str());
    let is_above = str_eq(rule.as_str(), "above");
    if is_above || str_eq(rule.as_str(), "below") {
        match read_threshold(&value) {
            Err(true) => Err(
                AlertError::InvalidRule(string_of("Threshold must be a number (e.g. 0.52 or 52).")),
            ),
            Err(false) => Err(
                AlertError::InvalidRule(
                    string_of("Threshold must be between 0 and 1 (or 0 to 100 cents)."),
                ),
            ),
            Ok(n) => if is_above {
                Ok((slug, AlertRule::Above { threshold: n }))
            } else {
                Ok((slug, AlertRule::Below { threshold: n }))
            },
        }
    } else if str_eq(rule.as_str(), "move") {
        match read_percent(&value) {
            Err(true) => Err(AlertError::InvalidRule(string_of("Move percent must be numeric (e.g. 5)."))),
            Err(false) => Err(
                AlertError::InvalidRule(string_of("Move percent must be > 0 and <= 100.")),
            ),
            Ok(n) => Ok((slug, AlertRule::PercentMove { percent: n })),
        }
    } else {
        Err(AlertError::InvalidRule(string_of("Rule must be one of: above, below, move.")))
    }
}

/// The rule word picks the kind of alert: an accepted `alert add` makes an
/// above alert for `above`, a below alert for `below` and a move alert for
/// `move` (in any case), on the market named by the first word.
pub proof fn law_rule_word_picks_kind(args: Seq<char>)
    requires
        parse_add_view(args) is Ok,
    ensures
        words(args).len() >= 3,
        ({
            let word = ascii_lower_seq(words(args)[1]);
            let (slug, rule) = parse_add_view(args)->Ok_0;
            &&& slug == words(args)[0]
            &&& word == "above"@ ==> rule is Above
            &&& word == "below"@ ==> rule is Below
            &&& word == "move"@ ==> rule is PercentMove
        }),
{
    reveal_strlit("above");
    reveal_strlit("below");
    reveal_strlit("move");
    assert("above"@[0] == 'a' && "below"@[0] == 'b' && "move"@.len() == 4 && "above"@.len() == 5
        && "below"@.len() == 5);
}

/// A threshold above 1 is read in cents: `52` means the same threshold as
/// `0.52`. For any value `num / den` in `(1, 100]`, the threshold equals the
/// one read from the value a hundred times smaller, `num / (100 * den)`.
pub proof fn law_cents_read_as_fractions(num: nat, den: nat)
    requires
        0 < den < num <= 100 * den,
    ensures
        threshold_from(false, num, den) is Some,
        threshold_from(false, num, den) == threshold_from(false, num, 100 * den),
{
    let x = num * 10_000_000;
    assert(num * 1_000_000_000 == x * 100) by (nonlinear_arith)
        requires
            x == num * 10_000_000,
    ;
    assert(x * 100 == 100 * x) by (nonlinear_arith);
    vstd::arithmetic::div_mod::lemma_div_multiples_vanish(x as int, 100);
    vstd::arithmetic::div_mod::lemma_div_denominator((x * 100) as int, 100, den as int);
    assert(100 * den == 100 * (den as int));
}

} // verus!
