//! The text of replies and notifications.

use vstd::prelude::*;
use crate::alerts::model::{describe_rule, fixed2, push_fixed2, div_round_half_even, round_half_even, AlertStatus, AlertSubscription};
use crate::number::pow10;
use crate::polymarket::{cap_at, pow10_u128, Dec, EventInfo, MarketInfo, SearchInfo};
use crate::text::{
    chars_of, dec, join, join_strings, push_dec, push_dec_wide, push_str, string_of, trim_end,
    trim_end_string, utf8_len, utf8_length, views,
};
use crate::time::{chrono_format, format_timestamp, nanos_diff, utc_now, whole_seconds_between, Timestamp};

verus! {

/// A duration in whole seconds as `Closed`, `<1m`, `Mm` or `Hh Mm`.
pub open spec fn duration_text(total_seconds: int) -> Seq<char> {
    if total_seconds < 0 {
        "Closed"@
    } else if total_seconds < 60 {
        "<1m"@
    } else {
        let hours = total_seconds / 3600;
        let minutes = (total_seconds % 3600) / 60;
        if hours > 0 {
            dec(hours as nat) + "h "@ + dec(minutes as nat) + "m"@
        } else {
            dec(minutes as nat) + "m"@
        }
    }
}

/// Formats a duration given in whole seconds, e.g. `5h 23m`, `45m`, `<1m`,
/// or `Closed` when negative.
pub fn format_duration(total_seconds: i64) -> (s: String)
    ensures
        s@ == duration_text(total_seconds as int),
{
    if total_seconds < 0 {
        return string_of("Closed");
    }
    if total_seconds < 60 {
        return string_of("<1m");
    }
    let hours = total_seconds / 3600;
    let minutes = (total_seconds % 3600) / 60;
    let mut s = String::new();
    if hours > 0 {
        push_dec(&mut s, hours as u64);
        push_str(&mut s, "h ");
        push_dec(&mut s, minutes as u64);
        push_str(&mut s, "m");
    } else {
        push_dec(&mut s, minutes as u64);
        push_str(&mut s, "m");
    }
    assert(s@ =~= duration_text(total_seconds as int));
    s
}

/// The confirmation of a new alert.
pub open spec fn alert_created_text(a: AlertSubscription) -> Seq<char> {
    "Alert created\n\nID: "@ + a.id@ + "\nMarket: "@ + a.slug@ + "\nRule: "@ + describe_rule(a.rule)
        + "\nStatus: active"@
}

/// Confirms a new alert.
pub fn format_alert_created(alert: &AlertSubscription) -> (s: String)
    ensures
        s@ == alert_created_text(*alert),
{
    let mut s = string_of("Alert created\n\nID: ");
    push_str(&mut s, alert.id.as_str());
    push_str(&mut s, "\nMarket: ");
    push_str(&mut s, alert.slug.as_str());
    push_str(&mut s, "\nRule: ");
    let d = alert.rule.describe();
    push_str(&mut s, d.as_str());
    push_str(&mut s, "\nStatus: active");
    assert(s@ =~= alert_created_text(*alert));
    s
}

/// How a status prints in the alert list.
pub open spec fn status_text(st: AlertStatus) -> Seq<char> {
    match st {
        AlertStatus::Active => "Active"@,
        AlertStatus::Paused => "Paused"@,
    }
}

/// One entry of the alert list, numbered from 1.
pub open spec fn alert_entry_text(n: nat, a: AlertSubscription) -> Seq<char> {
    dec(n) + ". "@ + a.slug@ + "\n   ID: "@ + a.id@ + "\n   Rule: "@ + describe_rule(a.rule)
        + "\n   Status: "@ + status_text(a.status)
}

/// The entries of the alert list from the `start`-th on, each followed by a
/// blank line.
pub open spec fn alert_entries_text(alerts: Seq<AlertSubscription>) -> Seq<char>
    decreases alerts.len(),
{
    if alerts.len() == 0 {
        seq![]
    } else {
        alert_entries_text(alerts.drop_last()) + alert_entry_text(alerts.len(), alerts.last())
            + "\n\n"@
    }
}

/// The alert list: a notice when empty, otherwise the numbered entries.
pub open spec fn alert_list_text(alerts: Seq<AlertSubscription>) -> Seq<char> {
    if alerts.len() == 0 {
        "You have no alerts configured. Use: alert add <slug> <above|below|move> <value>"@
    } else {
        "Your alerts:\n\n"@ + alert_entries_text(alerts).take(
            alert_entries_text(alerts).len() - 2,
        )
    }
}

/// Lists a user's alerts.
pub fn format_alert_list(alerts: &Vec<AlertSubscription>) -> (s: String)
    ensures
        s@ == alert_list_text(alerts@),
{
    if alerts.len() == 0 {
        return string_of(
            "You have no alerts configured. Use: alert add <slug> <above|below|move> <value>",
        );
    }
    let mut body = String::new();
    let mut i: usize = 0;
    while i < alerts.len()
        invariant
            i <= alerts.len(),
            body@ == alert_entries_text(alerts@.take(i as int)),
        decreases alerts.len() - i,
    {
        let a = &alerts[i];
        assert(alerts@.take(i + 1).drop_last() =~= alerts@.take(i as int));
        push_dec(&mut body, (i + 1) as u64);
        push_str(&mut body, ". ");
        push_str(&mut body, a.slug.as_str());
        push_str(&mut body, "\n   ID: ");
        push_str(&mut body, a.id.as_str());
        push_str(&mut body, "\n   Rule: ");
        let d = a.rule.describe();
        push_str(&mut body, d.as_str());
        push_str(&mut body, "\n   Status: ");
        match a.status {
            AlertStatus::Active => push_str(&mut body, "Active"),
            AlertStatus::Paused => push_str(&mut body, "Paused"),
        }
        push_str(&mut body, "\n\n");
        assert(body@ =~= alert_entries_text(alerts@.take(i + 1)));
        i += 1;
    }
    assert(alerts@.take(alerts.len() as int) =~= alerts@);
    let mut s = string_of("Your alerts:\n\n");
    let chars = crate::text::chars_of(body.as_str());
    assert(chars@.len() >= 2);
    crate::text::push_range(&mut s, &chars, 0, chars.len() - 2);
    assert(s@ =~= alert_list_text(alerts@));
    s
}

/// Confirms a removal.
pub fn format_alert_removed(alert_id: &str) -> (s: String)
    ensures
        s@ == "Alert removed: "@ + alert_id@,
{
    let mut s = string_of("Alert removed: ");
    push_str(&mut s, alert_id);
    s
}

/// Confirms a pause.
pub fn format_alert_paused(alert_id: &str) -> (s: String)
    ensures
        s@ == "Alert paused: "@ + alert_id@,
{
    let mut s = string_of("Alert paused: ");
    push_str(&mut s, alert_id);
    s
}

/// Confirms a resumption.
pub fn format_alert_resumed(alert_id: &str) -> (s: String)
    ensures
        s@ == "Alert resumed: "@ + alert_id@,
{
    let mut s = string_of("Alert resumed: ");
    push_str(&mut s, alert_id);
    s
}

/// A timestamp as chrono renders it with `pattern`, or nothing where chrono
/// has no such instant.
pub open spec fn timestamp_text(t: Timestamp, pattern: Seq<char>) -> Seq<char> {
    match chrono_format(t.secs, t.nanos, pattern) {
        Some(s) => s,
        None => seq![],
    }
}

/// The notification of a fired alert; the price is in billionths and shows
/// in cents with two decimals.
pub open spec fn alert_trigger_text(a: AlertSubscription, price: u64, at: Timestamp) -> Seq<char> {
    "Price alert triggered\n\nMarket: "@ + a.slug@ + "\nRule: "@ + describe_rule(a.rule)
        + "\nCurrent Price: "@ + fixed2(round_half_even(price as nat, 100_000)) + "¢\nTriggered: "@
        + timestamp_text(at, "%Y-%m-%d %H:%M:%SZ"@) + "\nAlert ID: "@ + a.id@
}

/// Notifies an owner that an alert fired.
pub fn format_alert_trigger(alert: &AlertSubscription, price: u64, triggered_at: Timestamp) -> (s:
    String)
    ensures
        s@ == alert_trigger_text(*alert, price, triggered_at),
{
    let mut s = string_of("Price alert triggered\n\nMarket: ");
    push_str(&mut s, alert.slug.as_str());
    push_str(&mut s, "\nRule: ");
    let d = alert.rule.describe();
    push_str(&mut s, d.as_str());
    push_str(&mut s, "\nCurrent Price: ");
    push_fixed2(&mut s, div_round_half_even(price, 100_000));
    push_str(&mut s, "¢\nTriggered: ");
    match format_timestamp(triggered_at, "%Y-%m-%d %H:%M:%SZ") {
        Some(t) => push_str(&mut s, t.as_str()),
        None => {},
    }
    push_str(&mut s, "\nAlert ID: ");
    push_str(&mut s, alert.id.as_str());
    assert(s@ =~= alert_trigger_text(*alert, price, triggered_at));
    s
}

/// The test notification of an alert.
pub open spec fn alert_test_text(a: AlertSubscription) -> Seq<char> {
    "Alert test notification\n\nMarket: "@ + a.slug@ + "\nRule: "@ + describe_rule(a.rule)
        + "\nAlert ID: "@ + a.id@
}

/// A test notification for an alert.
pub fn format_alert_test(alert: &AlertSubscription) -> (s: String)
    ensures
        s@ == alert_test_text(*alert),
{
    let mut s = string_of("Alert test notification\n\nMarket: ");
    push_str(&mut s, alert.slug.as_str());
    push_str(&mut s, "\nRule: ");
    let d = alert.rule.describe();
    push_str(&mut s, d.as_str());
    push_str(&mut s, "\nAlert ID: ");
    push_str(&mut s, alert.id.as_str());
    assert(s@ =~= alert_test_text(*alert));
    s
}

// ------------------------------------------------------------ amounts

/// `n / d` rounded to the nearest integer, ties to even, for wide operands.
fn div_round_half_even_wide(n: u128, d: u128) -> (r: u128)
    requires
        d > 0,
    ensures
        r == round_half_even(n as nat, d as nat),
{
    let q = n / d;
    let r = n % d;
    assert(q <= n);
    if r > d - r {
        assert(q < n) by (nonlinear_arith)
            requires
                q == n / d,
                r == n % d,
                r > 0,
                d > 0,
        ;
        q + 1
    } else if r < d - r {
        q
    } else if q % 2 == 0 {
        q
    } else {
        assert(q < n) by (nonlinear_arith)
            requires
                q == n / d,
                r == n % d,
                r == d - r,
                d > 0,
        ;
        q + 1
    }
}

/// `n / d` rounded to the nearest integer, halves away from zero.
pub open spec fn round_half_up(n: nat, d: nat) -> nat {
    (2 * n + d) / (2 * d)
}

/// A price (a fraction of a dollar) in whole cents, as `52¢`; halves round
/// up, as `(price * 100).round()` does.
pub open spec fn cents_text(p: Dec) -> Seq<char> {
    dec(round_half_up(p.mant() * 100, pow10(p.sc()))) + "¢"@
}

/// Tenths `t` as `whole.tenth`.
pub open spec fn tenths_text(t: nat) -> Seq<char> {
    dec(t / 10) + "."@ + dec(t % 10)
}

/// A dollar amount in short form: `$12.4M` from a million on, `$3.5K` from
/// a thousand on, else whole dollars. The exact amount is rounded to the
/// shown digit, halves to even; an amount halfway between two shown values
/// (such as 1,050,000) can therefore show the lower one (`$1.0M`) where
/// rounding the nearest binary floating-point number would show the upper.
pub open spec fn volume_text(v: Dec) -> Seq<char> {
    let m = v.mant();
    let p = pow10(v.sc());
    if m >= p * 1_000_000 {
        "$"@ + tenths_text(round_half_even(m * 10, p * 1_000_000)) + "M"@
    } else if m >= p * 1_000 {
        "$"@ + tenths_text(round_half_even(m * 10, p * 1_000)) + "K"@
    } else {
        "$"@ + dec(round_half_even(m, p))
    }
}

/// Appends a price in cents.
fn push_cents(s: &mut String, p: Dec)
    ensures
        final(s)@ == old(s)@ + cents_text(p),
{
    let m = p.mantissa();
    let sc = p.scale();
    let den = pow10_u128(sc);
    proof {
        crate::number::lemma_pow10_pos(sc as nat);
    }
    proof {
        crate::number::lemma_pow10_mono(sc as nat, 28);
        assert(pow10(28) == 10000000000000000000000000000) by {
            reveal_with_fuel(pow10, 29);
        }
    }
    let r = (2 * (m * 100) + den) / (2 * den);
    push_dec_wide(s, r);
    push_str(s, "¢");
    assert(final(s)@ =~= old(s)@ + cents_text(p));
}

fn push_tenths(s: &mut String, t: u128)
    ensures
        final(s)@ == old(s)@ + tenths_text(t as nat),
{
    push_dec_wide(s, t / 10);
    push_str(s, ".");
    push_dec_wide(s, t % 10);
    assert(final(s)@ =~= old(s)@ + tenths_text(t as nat));
}

/// Appends a dollar amount in short form.
fn push_volume(s: &mut String, v: Dec)
    ensures
        final(s)@ == old(s)@ + volume_text(v),
{
    let m = v.mantissa();
    let sc = v.scale();
    let p = pow10_u128(sc);
    let pk = pow10_u128(sc + 3);
    let pm = pow10_u128(sc + 6);
    proof {
        crate::number::lemma_pow10_pos(sc as nat);
        crate::number::lemma_pow10_add(sc as nat, 3);
        crate::number::lemma_pow10_add(sc as nat, 6);
        assert(pow10(3) == 1000) by {
            reveal_with_fuel(pow10, 4);
        }
        assert(pow10(6) == 1_000_000) by {
            reveal_with_fuel(pow10, 7);
        }
    }
    push_str(s, "$");
    if m >= pm {
        push_tenths(s, div_round_half_even_wide(m * 10, pm));
        push_str(s, "M");
    } else if m >= pk {
        push_tenths(s, div_round_half_even_wide(m * 10, pk));
        push_str(s, "K");
    } else {
        push_dec_wide(s, div_round_half_even_wide(m, p));
    }
    assert(final(s)@ =~= old(s)@ + volume_text(v));
}

/// The text of an optional string, or `d` when absent.
pub open spec fn or_text(o: Option<String>, d: Seq<char>) -> Seq<char> {
    match o {
        Some(t) => t@,
        None => d,
    }
}

fn push_or(s: &mut String, o: &Option<String>, d: &str)
    ensures
        final(s)@ == old(s)@ + or_text(*o, d@),
{
    match o {
        Some(t) => push_str(s, t.as_str()),
        None => push_str(s, d),
    }
}

/// An optional amount in short form, or `d` when absent.
pub open spec fn opt_volume_text(o: Option<Dec>, d: Seq<char>) -> Seq<char> {
    match o {
        Some(v) => volume_text(v),
        None => d,
    }
}

fn push_opt_volume(s: &mut String, o: &Option<Dec>, d: &str)
    ensures
        final(s)@ == old(s)@ + opt_volume_text(*o, d@),
{
    match o {
        Some(v) => push_volume(s, *v),
        None => push_str(s, d),
    }
}

/// The first outcome price of an event's first market, if any.
pub open spec fn first_yes(e: EventInfo) -> Option<Dec> {
    match e.markets {
        Some(ms) => if ms@.len() > 0 {
            match ms@[0].outcome_prices {
                Some(ps) => if ps@.len() > 0 {
                    Some(ps@[0])
                } else {
                    None
                },
                None => None,
            }
        } else {
            None
        },
        None => None,
    }
}

fn first_yes_price(e: &EventInfo) -> (r: Option<Dec>)
    ensures
        r == first_yes(*e),
{
    match &e.markets {
        Some(ms) => if ms.len() > 0 {
            match &ms[0].outcome_prices {
                Some(ps) => if ps.len() > 0 {
                    Some(ps[0])
                } else {
                    None
                },
                None => None,
            }
        } else {
            None
        },
        None => None,
    }
}

/// `  |  Yes: 52¢` when there is a first price.
pub open spec fn yes_suffix(o: Option<Dec>) -> Seq<char> {
    match o {
        Some(p) => "  |  Yes: "@ + cents_text(p),
        None => seq![],
    }
}

fn push_yes_suffix(s: &mut String, o: Option<Dec>)
    ensures
        final(s)@ == old(s)@ + yes_suffix(o),
{
    match o {
        Some(p) => {
            push_str(s, "  |  Yes: ");
            push_cents(s, p);
            assert(final(s)@ =~= old(s)@ + yes_suffix(o));
        },
        None => {
            assert(final(s)@ =~= old(s)@ + yes_suffix(o));
        },
    }
}

/// `name: price` for each outcome that has a price, in order.
pub open spec fn pair_texts(names: Seq<String>, prices: Seq<Dec>) -> Seq<Seq<char>> {
    Seq::new(
        if names.len() <= prices.len() {
            names.len()
        } else {
            prices.len()
        },
        |i: int| names[i]@ + ": "@ + cents_text(prices[i]),
    )
}

fn pair_strings(names: &Vec<String>, prices: &Vec<Dec>) -> (v: Vec<String>)
    ensures
        views(v@) == pair_texts(names@, prices@),
{
    let n = if names.len() <= prices.len() {
        names.len()
    } else {
        prices.len()
    };
    let mut v: Vec<String> = Vec::new();
    let mut i: usize = 0;
    while i < n
        invariant
            i <= n,
            n <= names.len(),
            n <= prices.len(),
            n == pair_texts(names@, prices@).len(),
            v@.len() == i,
            forall|k: int| 0 <= k < i ==> (#[trigger] v@[k])@ == pair_texts(names@, prices@)[k],
        decreases n - i,
    {
        let mut t = string_of(names[i].as_str());
        push_str(&mut t, ": ");
        push_cents(&mut t, prices[i]);
        assert(t@ =~= pair_texts(names@, prices@)[i as int]);
        v.push(t);
        i += 1;
    }
    assert(views(v@) =~= pair_texts(names@, prices@));
    v
}

/// Each text on a line of its own, after `indent`.
pub open spec fn lines_text(ts: Seq<Seq<char>>, indent: Seq<char>) -> Seq<char>
    decreases ts.len(),
{
    if ts.len() == 0 {
        seq![]
    } else {
        lines_text(ts.drop_last(), indent) + indent + ts.last() + "\n"@
    }
}

fn push_lines(s: &mut String, ts: &Vec<String>, indent: &str)
    ensures
        final(s)@ == old(s)@ + lines_text(views(ts@), indent@),
{
    let mut i: usize = 0;
    while i < ts.len()
        invariant
            i <= ts.len(),
            s@ == old(s)@ + lines_text(views(ts@).take(i as int), indent@),
        decreases ts.len() - i,
    {
        assert(views(ts@).take(i + 1).drop_last() =~= views(ts@).take(i as int));
        push_str(s, indent);
        push_str(s, ts[i].as_str());
        push_str(s, "\n");
        assert(s@ =~= old(s)@ + lines_text(views(ts@).take(i + 1), indent@));
        i += 1;
    }
    assert(views(ts@).take(ts.len() as int) =~= views(ts@));
}

// ------------------------------------------------------------ search results

/// One numbered search result.
pub open spec fn search_entry_text(n: nat, e: EventInfo) -> Seq<char> {
    dec(n) + ". "@ + or_text(e.title, "Untitled"@) + "\n   Volume: "@ + opt_volume_text(e.volume, "—"@)
        + yes_suffix(first_yes(e)) + "\n   Slug: "@ + or_text(e.slug, "—"@) + "\n\n"@
}

/// The numbered search results, one after the other.
pub open spec fn search_entries_text(es: Seq<EventInfo>) -> Seq<char>
    decreases es.len(),
{
    if es.len() == 0 {
        seq![]
    } else {
        search_entries_text(es.drop_last()) + search_entry_text(es.len(), es.last())
    }
}

/// The notice of an empty search.
pub open spec fn no_markets_found() -> Seq<char> {
    "No markets found. Try a different search term."@
}

/// The reply to a search: the query, then the first five events found, or
/// a notice when there are none.
pub open spec fn search_results_text(r: SearchInfo, q: Seq<char>) -> Seq<char> {
    let head = "Search results for \""@ + q + "\":\n\n"@;
    match r.events {
        Some(es) => if es@.len() == 0 {
            head + no_markets_found()
        } else {
            trim_end(head + search_entries_text(es@.take(cap_at(5, es@.len() as int))))
        },
        None => head + no_markets_found(),
    }
}

fn push_search_entry(s: &mut String, n: u64, e: &EventInfo)
    ensures
        final(s)@ == old(s)@ + search_entry_text(n as nat, *e),
{
    push_dec(s, n);
    push_str(s, ". ");
    push_or(s, &e.title, "Untitled");
    push_str(s, "\n   Volume: ");
    push_opt_volume(s, &e.volume, "—");
    push_yes_suffix(s, first_yes_price(e));
    push_str(s, "\n   Slug: ");
    push_or(s, &e.slug, "—");
    push_str(s, "\n\n");
    assert(final(s)@ =~= old(s)@ + search_entry_text(n as nat, *e));
}

/// Formats search results for a query.
pub fn format_search_results(results: &SearchInfo, query: &str) -> (s: String)
    ensures
        s@ == search_results_text(*results, query@),
{
    let mut out = string_of("Search results for \"");
    push_str(&mut out, query);
    push_str(&mut out, "\":\n\n");
    let ghost head = out@;
    match &results.events {
        Some(es) => {
            if es.len() == 0 {
                push_str(&mut out, "No markets found. Try a different search term.");
                assert(out@ =~= search_results_text(*results, query@));
                return out;
            }
            let n: usize = if es.len() < 5 {
                es.len()
            } else {
                5
            };
            let ghost shown = es@.take(n as int);
            let mut i: usize = 0;
            while i < n
                invariant
                    i <= n <= es@.len(),
                    shown == es@.take(n as int),
                    out@ == head + search_entries_text(shown.take(i as int)),
                decreases n - i,
            {
                assert(shown.take(i + 1).drop_last() =~= shown.take(i as int));
                assert(shown[i as int] == es@[i as int]);
                push_search_entry(&mut out, (i + 1) as u64, &es[i]);
                assert(out@ =~= head + search_entries_text(shown.take(i + 1)));
                i += 1;
            }
            assert(shown.take(n as int) =~= shown);
            trim_end_string(&out)
        },
        None => {
            push_str(&mut out, "No markets found. Try a different search term.");
            assert(out@ =~= search_results_text(*results, query@));
            out
        },
    }
}

// ------------------------------------------------------------ markets

/// `Volume: $1.2M` style line part for an optional amount, after `label`.
pub open spec fn labeled_volume(label: Seq<char>, o: Option<Dec>, tail: Seq<char>) -> Seq<char> {
    match o {
        Some(v) => label + volume_text(v) + tail,
        None => seq![],
    }
}

fn push_labeled_volume(s: &mut String, label: &str, o: &Option<Dec>, tail: &str)
    ensures
        final(s)@ == old(s)@ + labeled_volume(label@, *o, tail@),
{
    match o {
        Some(v) => {
            push_str(s, label);
            push_volume(s, *v);
            push_str(s, tail);
            assert(final(s)@ =~= old(s)@ + labeled_volume(label@, *o, tail@));
        },
        None => {
            assert(final(s)@ =~= old(s)@ + labeled_volume(label@, *o, tail@));
        },
    }
}

/// A date line such as `Ends: Mar 17, 2026` for an optional end instant.
pub open spec fn date_line(label: Seq<char>, o: Option<Timestamp>) -> Seq<char> {
    match o {
        Some(t) => label + timestamp_text(t, "%b %-d, %Y"@) + "\n"@,
        None => seq![],
    }
}

fn push_date_line(s: &mut String, label: &str, o: &Option<Timestamp>)
    ensures
        final(s)@ == old(s)@ + date_line(label@, *o),
{
    match o {
        Some(t) => {
            push_str(s, label);
            match format_timestamp(*t, "%b %-d, %Y") {
                Some(d) => push_str(s, d.as_str()),
                None => {},
            }
            push_str(s, "\n");
            assert(final(s)@ =~= old(s)@ + date_line(label@, *o));
        },
        None => {
            assert(final(s)@ =~= old(s)@ + date_line(label@, *o));
        },
    }
}

/// `prefix` followed by the text, when present.
pub open spec fn prefixed(prefix: Seq<char>, o: Option<String>, tail: Seq<char>) -> Seq<char> {
    match o {
        Some(t) => prefix + t@ + tail,
        None => seq![],
    }
}

fn push_prefixed(s: &mut String, prefix: &str, o: &Option<String>, tail: &str)
    ensures
        final(s)@ == old(s)@ + prefixed(prefix@, *o, tail@),
{
    match o {
        Some(t) => {
            push_str(s, prefix);
            push_str(s, t.as_str());
            push_str(s, tail);
            assert(final(s)@ =~= old(s)@ + prefixed(prefix@, *o, tail@));
        },
        None => {
            assert(final(s)@ =~= old(s)@ + prefixed(prefix@, *o, tail@));
        },
    }
}

/// The outcome prices of a market joined with `sep`, with `before` ahead
/// and `after` behind, when it has both outcomes and prices.
pub open spec fn prices_joined(m: MarketInfo, before: Seq<char>, sep: Seq<char>, after: Seq<char>) -> Seq<char> {
    match (m.outcome_prices, m.outcomes) {
        (Some(ps), Some(os)) => before + join(pair_texts(os@, ps@), sep) + after,
        _ => seq![],
    }
}

fn push_prices_joined(s: &mut String, m: &MarketInfo, before: &str, sep: &str, after: &str)
    ensures
        final(s)@ == old(s)@ + prices_joined(*m, before@, sep@, after@),
{
    match (&m.outcome_prices, &m.outcomes) {
        (Some(ps), Some(os)) => {
            let pairs = pair_strings(os, ps);
            let j = join_strings(&pairs, sep);
            push_str(s, before);
            push_str(s, j.as_str());
            push_str(s, after);
            assert(final(s)@ =~= old(s)@ + prices_joined(*m, before@, sep@, after@));
        },
        _ => {
            assert(final(s)@ =~= old(s)@ + prices_joined(*m, before@, sep@, after@));
        },
    }
}

/// The price summary of a market.
pub open spec fn market_price_text(m: MarketInfo) -> Seq<char> {
    or_text(m.question, "Untitled Market"@) + "\n\n"@ + prices_joined(m, seq![], "  |  "@, "\n"@)
        + labeled_volume("Volume: "@, m.volume, seq![]) + labeled_volume(
        "  |  Liquidity: "@,
        m.liquidity,
        seq![],
    ) + "\n"@ + date_line("Ends: "@, m.end_date) + prefixed("\npolymarket.com/market/"@, m.slug, seq![])
}

/// Formats the price summary of a market.
pub fn format_market_price(market: &MarketInfo) -> (s: String)
    ensures
        s@ == market_price_text(*market),
{
    proof {
        reveal_strlit("");
    }
    let mut s = String::new();
    push_or(&mut s, &market.question, "Untitled Market");
    push_str(&mut s, "\n\n");
    push_prices_joined(&mut s, market, "", "  |  ", "\n");
    push_labeled_volume(&mut s, "Volume: ", &market.volume, "");
    push_labeled_volume(&mut s, "  |  Liquidity: ", &market.liquidity, "");
    push_str(&mut s, "\n");
    push_date_line(&mut s, "Ends: ", &market.end_date);
    push_prefixed(&mut s, "\npolymarket.com/market/", &market.slug, "");
    assert(s@ =~= market_price_text(*market));
    s
}

// ------------------------------------------------------------ details

/// The rule under a title: one `─` per byte of the title, at most 40.
pub open spec fn rule_text(title: Seq<char>) -> Seq<char> {
    Seq::new(
        if utf8_len(title) <= 40 {
            utf8_len(title)
        } else {
            40
        },
        |i: int| '─',
    )
}

fn push_rule(s: &mut String, title: &str)
    ensures
        final(s)@ == old(s)@ + rule_text(title@),
{
    let v = chars_of(title);
    let n = utf8_length(&v);
    let k: u128 = if n <= 40 {
        n
    } else {
        40
    };
    let mut i: u128 = 0;
    while i < k
        invariant
            i <= k,
            k == rule_text(title@).len(),
            s@ == old(s)@ + rule_text(title@).take(i as int),
        decreases k - i,
    {
        crate::text::push_char(s, '─');
        assert(rule_text(title@).take(i + 1) =~= rule_text(title@).take(i as int).push('─'));
        i += 1;
    }
    assert(rule_text(title@).take(k as int) =~= rule_text(title@));
}

/// Where a description longer than 500 bytes is cut: after the most
/// characters whose UTF-8 length is at most 497 bytes.
pub open spec fn is_cut_point(d: Seq<char>, k: int) -> bool {
    &&& 0 <= k < d.len()
    &&& utf8_len(d.take(k)) <= 497
    &&& utf8_len(d.take(k + 1)) > 497
}

/// A description as shown: whole up to 500 bytes, else cut at the last
/// character boundary at or before byte 497, followed by `...`.
pub open spec fn truncated_text(d: Seq<char>) -> Seq<char> {
    if utf8_len(d) > 500 {
        d.take(choose|k: int| #[trigger] is_cut_point(d, k)) + "..."@
    } else {
        d
    }
}

/// The description block, when there is a description.
pub open spec fn desc_text(o: Option<String>) -> Seq<char> {
    match o {
        Some(d) => "\n"@ + truncated_text(d@) + "\n"@,
        None => seq![],
    }
}

fn push_desc(s: &mut String, o: &Option<String>)
    ensures
        final(s)@ == old(s)@ + desc_text(*o),
{
    match o {
        Some(d) => {
            let v = chars_of(d.as_str());
            let n = utf8_length(&v);
            push_str(s, "\n");
            if n > 500 {
                let mut i: usize = 0;
                let mut acc: u128 = 0;
                proof {
                    assert(v@.take(0) =~= Seq::<char>::empty());
                }
                loop
                    invariant
                        i <= v.len(),
                        acc == utf8_len(v@.take(i as int)),
                        acc <= 497,
                        utf8_len(v@) > 500,
                    ensures
                        i < v.len(),
                        acc == utf8_len(v@.take(i as int)),
                        acc <= 497,
                        utf8_len(v@.take(i + 1)) > 497,
                    decreases v.len() - i,
                {
                    if i == v.len() {
                        assert(v@.take(i as int) =~= v@);
                    }
                    proof {
                        assert(v@.take(i + 1).drop_last() =~= v@.take(i as int));
                    }
                    let w = crate::text::char_len_utf8(v[i]) as u128;
                    if acc + w > 497 {
                        break;
                    }
                    acc = acc + w;
                    i += 1;
                }
                proof {
                    assert(is_cut_point(v@, i as int));
                    let k0 = choose|k: int| #[trigger] is_cut_point(v@, k);
                    assert(is_cut_point(v@, k0));
                    if k0 < i {
                        crate::text::lemma_utf8_len_take(v@, k0 + 1, i as int);
                    } else if k0 > i {
                        crate::text::lemma_utf8_len_take(v@, i + 1, k0);
                    }
                    assert(k0 == i);
                }
                crate::text::push_range(s, &v, 0, i);
                push_str(s, "...");
                assert(v@.subrange(0, i as int) =~= v@.take(i as int));
            } else {
                push_str(s, d.as_str());
            }
            push_str(s, "\n");
            assert(final(s)@ =~= old(s)@ + desc_text(*o));
        },
        None => {
            assert(final(s)@ =~= old(s)@ + desc_text(*o));
        },
    }
}

/// The `Prices:` block of a market, one outcome per line.
pub open spec fn prices_lines(m: MarketInfo) -> Seq<char> {
    match (m.outcome_prices, m.outcomes) {
        (Some(ps), Some(os)) => "Prices:\n"@ + crate::format::lines_text(pair_texts(os@, ps@), "  "@),
        _ => seq![],
    }
}

fn push_prices_lines(s: &mut String, m: &MarketInfo)
    ensures
        final(s)@ == old(s)@ + prices_lines(*m),
{
    match (&m.outcome_prices, &m.outcomes) {
        (Some(ps), Some(os)) => {
            push_str(s, "Prices:\n");
            let pairs = pair_strings(os, ps);
            push_lines(s, &pairs, "  ");
            assert(final(s)@ =~= old(s)@ + prices_lines(*m));
        },
        _ => {
            assert(final(s)@ =~= old(s)@ + prices_lines(*m));
        },
    }
}

/// The resolution source line, when there is a non-empty source.
pub open spec fn source_line(o: Option<String>) -> Seq<char> {
    match o {
        Some(src) => if src@.len() > 0 {
            "Resolution Source: "@ + src@ + "\n"@
        } else {
            seq![]
        },
        None => seq![],
    }
}

/// The detailed view of a market.
pub open spec fn market_detail_text(m: MarketInfo) -> Seq<char> {
    let title = or_text(m.question, "Untitled Market"@);
    title + "\n"@ + rule_text(title) + "\n"@ + desc_text(m.description) + "\n"@ + prices_lines(m) + "\n"@
        + labeled_volume("Volume: "@, m.volume, "\n"@) + labeled_volume(
        "Liquidity: "@,
        m.liquidity,
        "\n"@,
    ) + date_line("End Date: "@, m.end_date) + source_line(m.resolution_source) + prefixed(
        "\npolymarket.com/market/"@,
        m.slug,
        seq![],
    )
}

/// Formats the detailed view of a market.
pub fn format_market_detail(market: &MarketInfo) -> (s: String)
    ensures
        s@ == market_detail_text(*market),
{
    proof {
        reveal_strlit("");
    }
    let title: &str = match &market.question {
        Some(q) => q.as_str(),
        None => "Untitled Market",
    };
    assert(title@ == or_text(market.question, "Untitled Market"@));
    let mut s = string_of(title);
    push_str(&mut s, "\n");
    push_rule(&mut s, title);
    push_str(&mut s, "\n");
    push_desc(&mut s, &market.description);
    push_str(&mut s, "\n");
    push_prices_lines(&mut s, market);
    push_str(&mut s, "\n");
    push_labeled_volume(&mut s, "Volume: ", &market.volume, "\n");
    push_labeled_volume(&mut s, "Liquidity: ", &market.liquidity, "\n");
    push_date_line(&mut s, "End Date: ", &market.end_date);
    match &market.resolution_source {
        Some(src) => {
            if src.as_str().unicode_len() > 0 {
                push_str(&mut s, "Resolution Source: ");
                push_str(&mut s, src.as_str());
                push_str(&mut s, "\n");
            }
        },
        None => {},
    }
    push_prefixed(&mut s, "\npolymarket.com/market/", &market.slug, "");
    assert(s@ =~= market_detail_text(*market));
    s
}

/// One market of an event's detail view, numbered `n`.
pub open spec fn event_market_text(n: nat, m: MarketInfo) -> Seq<char> {
    "\n"@ + dec(n) + ". "@ + or_text(m.question, "Unknown"@) + "\n"@ + prices_joined(
        m,
        "   Prices: "@,
        ", "@,
        "\n"@,
    ) + labeled_volume("   Volume: "@, m.volume, "\n"@) + prefixed("   Slug: "@, m.slug, "\n"@)
}

/// The markets of an event, numbered from 1.
pub open spec fn event_markets_text(ms: Seq<MarketInfo>) -> Seq<char>
    decreases ms.len(),
{
    if ms.len() == 0 {
        seq![]
    } else {
        event_markets_text(ms.drop_last()) + event_market_text(ms.len(), ms.last())
    }
}

/// The `Markets (n):` block of an event, when it has markets.
pub open spec fn markets_part(o: Option<Vec<MarketInfo>>) -> Seq<char> {
    match o {
        Some(ms) => if ms@.len() > 0 {
            "\nMarkets ("@ + dec(ms@.len()) + "):\n"@ + event_markets_text(ms@)
        } else {
            seq![]
        },
        None => seq![],
    }
}

fn push_event_market(s: &mut String, n: u64, m: &MarketInfo)
    ensures
        final(s)@ == old(s)@ + event_market_text(n as nat, *m),
{
    push_str(s, "\n");
    push_dec(s, n);
    push_str(s, ". ");
    push_or(s, &m.question, "Unknown");
    push_str(s, "\n");
    push_prices_joined(s, m, "   Prices: ", ", ", "\n");
    push_labeled_volume(s, "   Volume: ", &m.volume, "\n");
    push_prefixed(s, "   Slug: ", &m.slug, "\n");
    assert(final(s)@ =~= old(s)@ + event_market_text(n as nat, *m));
}

fn push_markets_part(s: &mut String, o: &Option<Vec<MarketInfo>>)
    ensures
        final(s)@ == old(s)@ + markets_part(*o),
{
    match o {
        Some(ms) => {
            if ms.len() > 0 {
                push_str(s, "\nMarkets (");
                push_dec(s, ms.len() as u64);
                push_str(s, "):\n");
                let ghost head = s@;
                let mut i: usize = 0;
                while i < ms.len()
                    invariant
                        i <= ms@.len(),
                        s@ == head + event_markets_text(ms@.take(i as int)),
                    decreases ms.len() - i,
                {
                    assert(ms@.take(i + 1).drop_last() =~= ms@.take(i as int));
                    push_event_market(s, (i + 1) as u64, &ms[i]);
                    assert(s@ =~= head + event_markets_text(ms@.take(i + 1)));
                    i += 1;
                }
                assert(ms@.take(ms.len() as int) =~= ms@);
            }
            assert(final(s)@ =~= old(s)@ + markets_part(*o));
        },
        None => {
            assert(final(s)@ =~= old(s)@ + markets_part(*o));
        },
    }
}

/// The detailed view of an event and its markets.
pub open spec fn event_detail_text(e: EventInfo) -> Seq<char> {
    let title = or_text(e.title, "Untitled Event"@);
    title + "\n"@ + rule_text(title) + "\n"@ + desc_text(e.description) + "\n"@ + labeled_volume(
        "Total Volume: "@,
        e.volume,
        "\n"@,
    ) + labeled_volume("Total Liquidity: "@, e.liquidity, "\n"@) + date_line("End Date: "@, e.end_date)
        + markets_part(e.markets) + prefixed("\npolymarket.com/event/"@, e.slug, seq![])
}

/// Formats the detailed view of an event.
pub fn format_event_detail(event: &EventInfo) -> (s: String)
    ensures
        s@ == event_detail_text(*event),
{
    proof {
        reveal_strlit("");
    }
    let title: &str = match &event.title {
        Some(t) => t.as_str(),
        None => "Untitled Event",
    };
    assert(title@ == or_text(event.title, "Untitled Event"@));
    let mut s = string_of(title);
    push_str(&mut s, "\n");
    push_rule(&mut s, title);
    push_str(&mut s, "\n");
    push_desc(&mut s, &event.description);
    push_str(&mut s, "\n");
    push_labeled_volume(&mut s, "Total Volume: ", &event.volume, "\n");
    push_labeled_volume(&mut s, "Total Liquidity: ", &event.liquidity, "\n");
    push_date_line(&mut s, "End Date: ", &event.end_date);
    push_markets_part(&mut s, &event.markets);
    push_prefixed(&mut s, "\npolymarket.com/event/", &event.slug, "");
    assert(s@ =~= event_detail_text(*event));
    s
}

// ------------------------------------------------------------ lists

/// One numbered trending event.
pub open spec fn trending_entry_text(n: nat, e: EventInfo) -> Seq<char> {
    dec(n) + ". "@ + or_text(e.title, "Untitled"@) + "\n   Vol 24h: "@ + opt_volume_text(
        e.volume_24hr,
        "—"@,
    ) + "  |  Total: "@ + opt_volume_text(e.volume, "—"@) + yes_suffix(first_yes(e)) + prefixed(
        "\n   Slug: "@,
        e.slug,
        seq![],
    ) + "\n\n"@
}

/// The numbered trending events, one after the other.
pub open spec fn trending_entries_text(es: Seq<EventInfo>) -> Seq<char>
    decreases es.len(),
{
    if es.len() == 0 {
        seq![]
    } else {
        trending_entries_text(es.drop_last()) + trending_entry_text(es.len(), es.last())
    }
}

/// The trending list: at most ten events, or a notice when there are none.
pub open spec fn trending_text(es: Seq<EventInfo>) -> Seq<char> {
    if es.len() == 0 {
        "No trending markets found at the moment."@
    } else {
        trim_end("Trending Markets on Polymarket:\n\n"@ + trending_entries_text(es.take(cap_at(10, es.len() as int))))
    }
}

fn push_trending_entry(s: &mut String, n: u64, e: &EventInfo)
    ensures
        final(s)@ == old(s)@ + trending_entry_text(n as nat, *e),
{
    proof {
        reveal_strlit("");
    }
    push_dec(s, n);
    push_str(s, ". ");
    push_or(s, &e.title, "Untitled");
    push_str(s, "\n   Vol 24h: ");
    push_opt_volume(s, &e.volume_24hr, "—");
    push_str(s, "  |  Total: ");
    push_opt_volume(s, &e.volume, "—");
    push_yes_suffix(s, first_yes_price(e));
    push_prefixed(s, "\n   Slug: ", &e.slug, "");
    push_str(s, "\n\n");
    assert(final(s)@ =~= old(s)@ + trending_entry_text(n as nat, *e));
}

/// Formats the trending events.
pub fn format_trending_events(events: &Vec<EventInfo>) -> (s: String)
    ensures
        s@ == trending_text(events@),
{
    if events.len() == 0 {
        return string_of("No trending markets found at the moment.");
    }
    let mut out = string_of("Trending Markets on Polymarket:\n\n");
    let ghost head = out@;
    let n: usize = if events.len() < 10 {
        events.len()
    } else {
        10
    };
    let ghost shown = events@.take(n as int);
    let mut i: usize = 0;
    while i < n
        invariant
            i <= n <= events@.len(),
            shown == events@.take(n as int),
            out@ == head + trending_entries_text(shown.take(i as int)),
        decreases n - i,
    {
        assert(shown.take(i + 1).drop_last() =~= shown.take(i as int));
        assert(shown[i as int] == events@[i as int]);
        push_trending_entry(&mut out, (i + 1) as u64, &events[i]);
        assert(out@ =~= head + trending_entries_text(shown.take(i + 1)));
        i += 1;
    }
    assert(shown.take(n as int) =~= shown);
    trim_end_string(&out)
}

/// The time left until an event's end, as a duration text, or `Unknown`.
pub open spec fn time_left_text(e: EventInfo, now: Timestamp) -> Seq<char> {
    match e.end_date {
        Some(t) => duration_text(whole_seconds_between(t, now)),
        None => "Unknown"@,
    }
}

/// Appends the duration text of a whole number of seconds.
fn push_duration(s: &mut String, secs: i128)
    requires
        -0x1_0000_0000_0000_0000_0000 <= secs <= 0x1_0000_0000_0000_0000_0000,
    ensures
        final(s)@ == old(s)@ + duration_text(secs as int),
{
    if secs < 0 {
        push_str(s, "Closed");
    } else if secs < 60 {
        push_str(s, "<1m");
    } else {
        let u = secs as u128;
        let hours = u / 3600;
        let minutes = (u % 3600) / 60;
        if hours > 0 {
            push_dec_wide(s, hours);
            push_str(s, "h ");
            push_dec_wide(s, minutes);
            push_str(s, "m");
        } else {
            push_dec_wide(s, minutes);
            push_str(s, "m");
        }
    }
    assert(final(s)@ =~= old(s)@ + duration_text(secs as int));
}

fn push_time_left(s: &mut String, e: &EventInfo, now: Timestamp)
    ensures
        final(s)@ == old(s)@ + time_left_text(*e, now),
{
    match e.end_date {
        Some(t) => {
            let d = nanos_diff(t, now);
            let secs: i128 = if d >= 0 {
                d / 1_000_000_000
            } else {
                -((-d) / 1_000_000_000)
            };
            push_duration(s, secs);
        },
        None => push_str(s, "Unknown"),
    }
}

/// One numbered closing event, with the time left at `now`.
pub open spec fn closing_entry_text(n: nat, e: EventInfo, now: Timestamp) -> Seq<char> {
    dec(n) + ". "@ + or_text(e.title, "Unknown Event"@) + "\n   Closes in "@ + time_left_text(e, now)
        + "  |  Vol 24h: "@ + opt_volume_text(e.volume_24hr, "N/A"@) + "  |  Yes: "@ + match first_yes(
        e,
    ) {
        Some(p) => cents_text(p),
        None => "N/A"@,
    } + "\n   Slug: "@ + or_text(e.slug, "unknown"@) + "\n\n"@
}

/// The numbered closing events, one after the other.
pub open spec fn closing_entries_text(es: Seq<EventInfo>, now: Timestamp) -> Seq<char>
    decreases es.len(),
{
    if es.len() == 0 {
        seq![]
    } else {
        closing_entries_text(es.drop_last(), now) + closing_entry_text(es.len(), es.last(), now)
    }
}

/// The closing list at `now`, or a notice when there are no events.
pub open spec fn closing_text(es: Seq<EventInfo>, now: Timestamp) -> Seq<char> {
    if es.len() == 0 {
        "No markets closing in the next 24 hours."@
    } else {
        trim_end("Markets Closing Soon:\n\n"@ + closing_entries_text(es, now))
    }
}

fn push_closing_entry(s: &mut String, n: u64, e: &EventInfo, now: Timestamp)
    ensures
        final(s)@ == old(s)@ + closing_entry_text(n as nat, *e, now),
{
    push_dec(s, n);
    push_str(s, ". ");
    push_or(s, &e.title, "Unknown Event");
    push_str(s, "\n   Closes in ");
    push_time_left(s, e, now);
    push_str(s, "  |  Vol 24h: ");
    push_opt_volume(s, &e.volume_24hr, "N/A");
    push_str(s, "  |  Yes: ");
    match first_yes_price(e) {
        Some(p) => push_cents(s, p),
        None => push_str(s, "N/A"),
    }
    push_str(s, "\n   Slug: ");
    push_or(s, &e.slug, "unknown");
    push_str(s, "\n\n");
    assert(final(s)@ =~= old(s)@ + closing_entry_text(n as nat, *e, now));
}

/// Formats the events closing soon, with the time left at `now`.
pub fn format_closing_events_at(events: &Vec<EventInfo>, now: Timestamp) -> (s: String)
    ensures
        s@ == closing_text(events@, now),
{
    if events.len() == 0 {
        return string_of("No markets closing in the next 24 hours.");
    }
    let mut out = string_of("Markets Closing Soon:\n\n");
    let ghost head = out@;
    let mut i: usize = 0;
    while i < events.len()
        invariant
            i <= events@.len(),
            out@ == head + closing_entries_text(events@.take(i as int), now),
        decreases events.len() - i,
    {
        assert(events@.take(i + 1).drop_last() =~= events@.take(i as int));
        push_closing_entry(&mut out, (i + 1) as u64, &events[i], now);
        assert(out@ =~= head + closing_entries_text(events@.take(i + 1), now));
        i += 1;
    }
    assert(events@.take(events.len() as int) =~= events@);
    trim_end_string(&out)
}

/// Formats the events closing soon, with the time left from the clock.
pub fn format_closing_events(events: &Vec<EventInfo>) -> (s: String)
    ensures
        exists|now: Timestamp| s@ == closing_text(events@, now),
        events@.len() == 0 ==> s@ == "No markets closing in the next 24 hours."@,
{
    let now = utc_now();
    format_closing_events_at(events, now)
}

// ------------------------------------------------------------ laws

/// A duration counts whole hours of 3600 seconds and whole minutes of 60
/// seconds: `h` hours, `m` minutes and `s` seconds (`m`, `s` below 60)
/// read `hh mm` when there is an hour, `mm` when only minutes, and `<1m`
/// under a minute.
pub proof fn law_duration_units(h: nat, m: nat, s: nat)
    requires
        m < 60,
        s < 60,
    ensures
        h > 0 ==> duration_text((h * 3600 + m * 60 + s) as int) == dec(h) + "h "@ + dec(m) + "m"@,
        h == 0 && m > 0 ==> duration_text((m * 60 + s) as int) == dec(m) + "m"@,
        duration_text(s as int) == "<1m"@,
{
    let t = h * 3600 + m * 60 + s;
    vstd::arithmetic::div_mod::lemma_fundamental_div_mod_converse(t as int, 3600, h as int, (m * 60 + s) as int);
    vstd::arithmetic::div_mod::lemma_fundamental_div_mod_converse((m * 60 + s) as int, 60, m as int, s as int);
}

/// A price of a whole number `c` of cents reads `c¢`.
pub proof fn law_whole_cents(p: Dec, c: nat)
    requires
        p.mant() * 100 == c * pow10(p.sc()),
    ensures
        cents_text(p) == dec(c) + "¢"@,
{
    let d = pow10(p.sc());
    crate::number::lemma_pow10_pos(p.sc());
    let n = p.mant() * 100;
    assert(2 * n + d == c * (2 * d) + d) by (nonlinear_arith)
        requires
            n == c * d,
    ;
    vstd::arithmetic::div_mod::lemma_fundamental_div_mod_converse((2 * n + d) as int, (2 * d) as int, c as int, d as int);
}

/// A volume of a whole number `k` of millions of dollars reads `$k.0M`.
pub proof fn law_whole_millions(v: Dec, k: nat)
    requires
        k >= 1,
        v.mant() == k * pow10(v.sc()) * 1_000_000,
    ensures
        volume_text(v) == "$"@ + dec(k) + ".0M"@,
{
    reveal_strlit(".0M");
    reveal_strlit(".");
    reveal_strlit("M");
    let p = pow10(v.sc());
    crate::number::lemma_pow10_pos(v.sc());
    let m = v.mant();
    assert(m >= p * 1_000_000 && m * 10 == (10 * k) * (p * 1_000_000)) by (nonlinear_arith)
        requires
            m == k * p * 1_000_000,
            k >= 1,
    ;
    vstd::arithmetic::div_mod::lemma_fundamental_div_mod_converse((m * 10) as int, (p * 1_000_000) as int, (10 * k) as int, 0);
    assert(round_half_even(m * 10, p * 1_000_000) == 10 * k);
    assert(dec(0) =~= seq!['0']);
    assert(tenths_text(10 * k) =~= dec(k) + seq!['.', '0']);
    assert(volume_text(v) =~= "$"@ + dec(k) + ".0M"@);
}

} // verus!
