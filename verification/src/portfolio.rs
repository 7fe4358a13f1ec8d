//! Reading the arguments of `/portfolio`, `/positions` and `/trades`:
//! a wallet address and an optional limit.

use vstd::prelude::*;
use crate::number::{all_digits, i32_text_value, int_body, parse_i32};
use crate::text::{
    chars_of, dec, digit_char, digit_val, digits_val, is_digit, is_ws, push_str, split_whitespace, string_of,
    views, words,
};

verus! {

/// The number of entries shown when no limit is given.
pub const DEFAULT_LIMIT: i32 = 5;

/// The largest limit accepted.
pub const MAX_LIMIT: i32 = 20;

/// The usage text of a wallet command.
pub open spec fn usage_text(command: Seq<char>) -> Seq<char> {
    if command == "portfolio"@ {
        "Usage: /portfolio <wallet-address> [limit]\n\nExample: /portfolio 0x56687bf447db6ffa42ffe2204a05edaa20f55839\nExample: /portfolio 0x56687bf447db6ffa42ffe2204a05edaa20f55839 8"@
    } else if command == "positions"@ {
        "Usage: /positions <wallet-address> [limit]\n\nExample: /positions 0x56687bf447db6ffa42ffe2204a05edaa20f55839\nExample: /positions 0x56687bf447db6ffa42ffe2204a05edaa20f55839 10"@
    } else if command == "trades"@ {
        "Usage: /trades <wallet-address> [limit]\n\nExample: /trades 0x56687bf447db6ffa42ffe2204a05edaa20f55839\nExample: /trades 0x56687bf447db6ffa42ffe2204a05edaa20f55839 10"@
    } else {
        "Usage error."@
    }
}

/// The usage text of a wallet command.
pub fn usage(command: &str) -> (s: String)
    ensures
        s@ == usage_text(command@),
{
    if crate::text::str_eq(command, "portfolio") {
        string_of(
            "Usage: /portfolio <wallet-address> [limit]\n\nExample: /portfolio 0x56687bf447db6ffa42ffe2204a05edaa20f55839\nExample: /portfolio 0x56687bf447db6ffa42ffe2204a05edaa20f55839 8",
        )
    } else if crate::text::str_eq(command, "positions") {
        string_of(
            "Usage: /positions <wallet-address> [limit]\n\nExample: /positions 0x56687bf447db6ffa42ffe2204a05edaa20f55839\nExample: /positions 0x56687bf447db6ffa42ffe2204a05edaa20f55839 10",
        )
    } else if crate::text::str_eq(command, "trades") {
        string_of(
            "Usage: /trades <wallet-address> [limit]\n\nExample: /trades 0x56687bf447db6ffa42ffe2204a05edaa20f55839\nExample: /trades 0x56687bf447db6ffa42ffe2204a05edaa20f55839 10",
        )
    } else {
        string_of("Usage error.")
    }
}

/// The limit a text asks for, or the message refusing it.
pub open spec fn limit_of(raw: Seq<char>) -> Result<int, Seq<char>> {
    match i32_text_value(raw) {
        None => Err(
            "Invalid limit '"@ + raw + "'. Limit must be a number between 1 and 20."@,
        ),
        Some(v) => if 1 <= v <= 20 {
            Ok(v)
        } else {
            Err("Invalid limit '"@ + raw + "'. Limit must be between 1 and 20."@)
        },
    }
}

/// Reads a limit between 1 and 20.
pub fn parse_limit(raw: &str) -> (r: Result<i32, String>)
    ensures
        match r {
            Ok(v) => limit_of(raw@) == Ok::<int, Seq<char>>(v as int),
            Err(m) => limit_of(raw@) == Err::<int, Seq<char>>(m@),
        },
{
    let v = chars_of(raw);
    match parse_i32(&v) {
        None => {
            let mut s = string_of("Invalid limit '");
            push_str(&mut s, raw);
            push_str(&mut s, "'. Limit must be a number between 1 and 20.");
            Err(s)
        },
        Some(n) => {
            if 1 <= n && n <= MAX_LIMIT {
                Ok(n)
            } else {
                let mut s = string_of("Invalid limit '");
                push_str(&mut s, raw);
                push_str(&mut s, "'. Limit must be between 1 and 20.");
                Err(s)
            }
        },
    }
}

proof fn lemma_digit_char(d: nat)
    requires
        d < 10,
    ensures
        is_digit(digit_char(d)),
        digit_val(digit_char(d)) == d,
{
}

proof fn lemma_dec_digits(n: nat)
    ensures
        dec(n).len() >= 1,
        all_digits(dec(n)),
        digits_val(dec(n)) == n,
        is_digit(dec(n)[0]),
    decreases n,
{
    if n < 10 {
        lemma_digit_char(n);
        assert(dec(n).drop_last() =~= Seq::<char>::empty());
        assert(digits_val(Seq::<char>::empty()) == 0);
        assert(digits_val(dec(n)) == digits_val(dec(n).drop_last()) * 10 + digit_val(dec(n).last()));
    } else {
        lemma_dec_digits(n / 10);
        lemma_digit_char(n % 10);
        let d = dec(n);
        assert(d.drop_last() =~= dec(n / 10));
        assert(d.last() == digit_char(n % 10));
        assert(digits_val(d) == digits_val(d.drop_last()) * 10 + digit_val(d.last()));
        assert(digits_val(d) == (n / 10) * 10 + n % 10);
        assert forall|i: int| 0 <= i < d.len() implies is_digit(#[trigger] d[i]) by {
            if i < d.len() - 1 {
                assert(d[i] == dec(n / 10)[i]);
            }
        }
    }
}

/// Every whole number from 1 to `MAX_LIMIT` is a limit: any text that reads
/// as such a number is taken as that limit, and any other number is
/// refused; in particular the plain decimal text of each of 1 to 20 is
/// accepted as itself.
pub proof fn law_limits_one_to_twenty(raw: Seq<char>, n: nat)
    ensures
        i32_text_value(raw) matches Some(v) ==> (1 <= v <= MAX_LIMIT ==> limit_of(raw) == Ok::<
            int,
            Seq<char>,
        >(v)) && (!(1 <= v <= MAX_LIMIT) ==> limit_of(raw) is Err),
        1 <= n <= MAX_LIMIT ==> limit_of(dec(n)) == Ok::<int, Seq<char>>(n as int),
{
    lemma_dec_digits(n);
    assert(int_body(dec(n)) == dec(n));
}

/// A wallet command with an address and no limit shows `DEFAULT_LIMIT` (5)
/// entries; with an address and a limit from 1 to 20 written in decimals it
/// shows that many.
pub proof fn law_wallet_limit(address: Seq<char>, n: nat, command: Seq<char>)
    requires
        words(address) == seq![address],
    ensures
        address_and_limit_of(address, command) == Ok::<(Seq<char>, int), Seq<char>>((address, 5)),
        1 <= n <= MAX_LIMIT ==> address_and_limit_of(address + seq![' '] + dec(n), command)
            == Ok::<(Seq<char>, int), Seq<char>>((address, n as int)),
{
    law_limits_one_to_twenty(dec(n), n);
    lemma_dec_digits(n);
    assert forall|i: int| 0 <= i < dec(n).len() implies !is_ws(#[trigger] dec(n)[i]) by {
        assert(is_digit(dec(n)[i]));
    }
    lemma_words_then_word(address, dec(n));
    assert(seq![address].push(dec(n)) =~= seq![address, dec(n)]);
}

proof fn lemma_words_then_word(s: Seq<char>, d: Seq<char>)
    requires
        d.len() >= 1,
        forall|i: int| 0 <= i < d.len() ==> !is_ws(#[trigger] d[i]),
    ensures
        words(s + seq![' '] + d) == words(s).push(d),
    decreases d.len(),
{
    let t = s + seq![' '] + d;
    assert(t.drop_last() =~= s + seq![' '] + d.drop_last());
    assert(t.last() == d.last());
    assert(!is_ws(d[d.len() - 1]));
    if d.len() == 1 {
        let p = s + seq![' '];
        assert(p.drop_last() =~= s);
        assert(is_ws(' '));
        assert(words(p) == words(s));
        assert(t.drop_last() =~= p);
        assert(seq![d.last()] =~= d);
    } else {
        let d1 = d.drop_last();
        assert forall|i: int| 0 <= i < d1.len() implies !is_ws(#[trigger] d1[i]) by {
            assert(d1[i] == d[i]);
        }
        lemma_words_then_word(s, d1);
        let p = t.drop_last();
        assert(p.last() == d1.last());
        assert(!is_ws(d[d.len() - 2]));
        assert(d1.push(d.last()) =~= d);
        assert(words(s).push(d1).update(words(s).len() as int, d1.push(d.last())) =~= words(s).push(d));
    }
}

/// The address and limit the arguments of a wallet command ask for, or the
/// message refusing them: one or two words, the second a limit.
pub open spec fn address_and_limit_of(args: Seq<char>, command: Seq<char>) -> Result<(Seq<char>, int), Seq<char>> {
    let ws = words(args);
    if ws.len() == 0 {
        Err(usage_text(command))
    } else if ws.len() == 1 {
        Ok((ws[0], DEFAULT_LIMIT as int))
    } else {
        match limit_of(ws[1]) {
            Err(m) => Err(m),
            Ok(l) => if ws.len() > 2 {
                Err(usage_text(command))
            } else {
                Ok((ws[0], l))
            },
        }
    }
}

/// Reads `<wallet-address> [limit]` for `command`.
pub fn parse_address_and_limit(args: &str, command: &str) -> (r: Result<(String, i32), String>)
    ensures
        match r {
            Ok((a, l)) => address_and_limit_of(args@, command@) == Ok::<(Seq<char>, int), Seq<char>>(
                (a@, l as int),
            ),
            Err(m) => address_and_limit_of(args@, command@) == Err::<(Seq<char>, int), Seq<char>>(
                m@,
            ),
        },
{
    let v = chars_of(args);
    let parts = split_whitespace(&v);
    assert(views(parts@) == words(args@));
    if parts.len() == 0 {
        return Err(usage(command));
    }
    assert(parts@[0]@ == words(args@)[0]);
    let limit = if parts.len() >= 2 {
        assert(parts@[1]@ == words(args@)[1]);
        match parse_limit(parts[1].as_str()) {
            Ok(l) => l,
            Err(m) => return Err(m),
        }
    } else {
        DEFAULT_LIMIT
    };
    if parts.len() > 2 {
        return Err(usage(command));
    }
    Ok((parts[0].clone(), limit))
}

/// The reply when a wallet's positions or trades (`what`) cannot be fetched.
pub open spec fn fetch_error_text(what: Seq<char>, address: Seq<char>, err: Seq<char>) -> Seq<char> {
    "Could not fetch "@ + what + " for "@ + address + ".\n\n"@ + err
}

/// Replies to a failed fetch of a wallet's `what` (`positions` or `trades`).
pub fn fetch_error(what: &str, address: &str, err: &str) -> (s: String)
    ensures
        s@ == fetch_error_text(what@, address@, err@),
{
    let mut s = string_of("Could not fetch ");
    push_str(&mut s, what);
    push_str(&mut s, " for ");
    push_str(&mut s, address);
    push_str(&mut s, ".\n\n");
    push_str(&mut s, err);
    s
}

} // verus!
