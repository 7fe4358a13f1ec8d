//! The alert domain: delivery targets, rules, subscriptions, ticks and events.
//!
//! Prices, thresholds and percentages are exact fixed-point numbers in
//! billionths (`PRICE_SCALE`): a price of 0.52 is `520_000_000` and a move of
//! 7.5 percent is `7_500_000_000`.

use vstd::prelude::*;
use crate::text::{dec, dec_padded, push_char, push_dec, push_dec_padded, push_str};
use crate::time::{utc_now, Timestamp};

verus! {

/// The number of units in one: prices and percentages are kept in billionths.
pub const PRICE_SCALE: u64 = 1_000_000_000;

/// How a notification reaches its owner.
#[derive(Clone, Copy, Debug, PartialEq, Eq, Structural)]
pub enum DeliveryChannel {
    Nip17,
    Nip04,
}

/// The owner of an alert and the channel its notifications use.
#[derive(Debug)]
pub struct DeliveryTarget {
    pub pubkey: String,
    pub channel: DeliveryChannel,
}

impl Clone for DeliveryTarget {
    fn clone(&self) -> (r: Self)
        ensures
            r == *self,
    {
        DeliveryTarget { pubkey: self.pubkey.clone(), channel: self.channel }
    }
}

/// What makes an alert fire. Values are in billionths.
#[derive(Clone, Copy, Debug, PartialEq, Eq, Structural)]
pub enum AlertRule {
    /// The price crosses from below `threshold` to at or above it.
    Above { threshold: u64 },
    /// The price crosses from above `threshold` to at or below it.
    Below { threshold: u64 },
    /// The price moves by at least `percent` percent from the last one seen.
    PercentMove { percent: u64 },
}

/// Whether an alert is evaluated.
#[derive(Clone, Copy, Debug, PartialEq, Eq, Structural)]
pub enum AlertStatus {
    Active,
    Paused,
}

/// What an alert remembers between ticks.
#[derive(Clone, Copy, Debug, PartialEq)]
pub struct TriggerState {
    pub last_seen_price: Option<u64>,
    pub last_triggered_price: Option<u64>,
    pub last_triggered_at: Option<Timestamp>,
}

/// A user's alert on one market.
#[derive(Debug)]
pub struct AlertSubscription {
    pub id: String,
    pub slug: String,
    pub rule: AlertRule,
    pub status: AlertStatus,
    pub created_at: Timestamp,
    pub updated_at: Timestamp,
    pub delivery: DeliveryTarget,
    pub trigger_state: TriggerState,
}

impl Clone for AlertSubscription {
    fn clone(&self) -> (r: Self)
        ensures
            r == *self,
    {
        AlertSubscription {
            id: self.id.clone(),
            slug: self.slug.clone(),
            rule: self.rule,
            status: self.status,
            created_at: self.created_at,
            updated_at: self.updated_at,
            delivery: self.delivery.clone(),
            trigger_state: self.trigger_state,
        }
    }
}

/// A fired alert.
#[derive(Debug)]
pub struct AlertEvent {
    pub alert_id: String,
    pub slug: String,
    pub price: u64,
    pub triggered_at: Timestamp,
}

impl Clone for AlertEvent {
    fn clone(&self) -> (r: Self)
        ensures
            r == *self,
    {
        AlertEvent {
            alert_id: self.alert_id.clone(),
            slug: self.slug.clone(),
            price: self.price,
            triggered_at: self.triggered_at,
        }
    }
}

/// A price observed for a market.
#[derive(Debug)]
pub struct MarketTick {
    pub slug: String,
    pub price: u64,
    pub seen_at: Timestamp,
}

impl Clone for MarketTick {
    fn clone(&self) -> (r: Self)
        ensures
            r == *self,
    {
        MarketTick { slug: self.slug.clone(), price: self.price, seen_at: self.seen_at }
    }
}

/// `n / d` rounded to the nearest integer, ties to even, as float formatting
/// with a fixed precision rounds.
pub open spec fn round_half_even(n: nat, d: nat) -> nat
    recommends
        d > 0,
{
    let q = n / d;
    let r = n % d;
    if 2 * r > d {
        q + 1
    } else if 2 * r < d {
        q
    } else if q % 2 == 0 {
        q
    } else {
        q + 1
    }
}

/// `h` hundredths written with two decimals, e.g. `5250` as `52.50`.
pub open spec fn fixed2(h: nat) -> Seq<char> {
    dec(h / 100) + seq!['.'] + dec_padded(h % 100, 2)
}

/// `n / d` rounded half to even.
pub fn div_round_half_even(n: u64, d: u64) -> (r: u64)
    requires
        d > 0,
    ensures
        r == round_half_even(n as nat, d as nat),
{
    let q = n / d;
    let r = n % d;
    assert(q <= n);
    if r > d - r {
        assert(q < n) by (nonlinear_arith)
            requires
                q == n / d,
                r == n % d,
                r > 0,
                d > 0,
        ;
        q + 1
    } else if r < d - r {
        q
    } else if q % 2 == 0 {
        q
    } else {
        assert(q < n) by (nonlinear_arith)
            requires
                q == n / d,
                r == n % d,
                r == d - r,
                d > 0,
        ;
        q + 1
    }
}

/// Appends `h` hundredths with two decimals.
pub fn push_fixed2(s: &mut String, h: u64)
    ensures
        final(s)@ == old(s)@ + fixed2(h as nat),
{
    push_dec(s, h / 100);
    push_char(s, '.');
    push_dec_padded(s, h % 100, 2);
    assert(final(s)@ =~= old(s)@ + fixed2(h as nat));
}

/// How a rule reads to its owner: a threshold in cents or a move in
/// percent, both with two decimals.
pub open spec fn describe_rule(rule: AlertRule) -> Seq<char> {
    match rule {
        AlertRule::Above { threshold } => "above "@ + fixed2(
            round_half_even(threshold as nat, 100_000),
        ) + "¢"@,
        AlertRule::Below { threshold } => "below "@ + fixed2(
            round_half_even(threshold as nat, 100_000),
        ) + "¢"@,
        AlertRule::PercentMove { percent } => "moves by "@ + fixed2(
            round_half_even(percent as nat, 10_000_000),
        ) + "%"@,
    }
}

impl AlertRule {
    /// A short human description, e.g. `above 52.00¢` or `moves by 7.50%`.
    pub fn describe(&self) -> (s: String)
        ensures
            s@ == describe_rule(*self),
    {
        let mut s = String::new();
        match *self {
            AlertRule::Above { threshold } => {
                push_str(&mut s, "above ");
                push_fixed2(&mut s, div_round_half_even(threshold, 100_000));
                push_str(&mut s, "¢");
            },
            AlertRule::Below { threshold } => {
                push_str(&mut s, "below ");
                push_fixed2(&mut s, div_round_half_even(threshold, 100_000));
                push_str(&mut s, "¢");
            },
            AlertRule::PercentMove { percent } => {
                push_str(&mut s, "moves by ");
                push_fixed2(&mut s, div_round_half_even(percent, 10_000_000));
                push_str(&mut s, "%");
            },
        }
        assert(s@ =~= describe_rule(*self));
        s
    }
}

impl TriggerState {
    /// The state of an alert that has seen no price yet.
    pub fn new() -> (t: Self)
        ensures
            t.last_seen_price is None,
            t.last_triggered_price is None,
            t.last_triggered_at is None,
    {
        TriggerState { last_seen_price: None, last_triggered_price: None, last_triggered_at: None }
    }
}

/// A lower-case hexadecimal digit.
pub open spec fn is_lower_hex(c: char) -> bool {
    ('0' <= c && c <= '9') || ('a' <= c && c <= 'f')
}

/// The hyphenated lower-case text of a version 4 UUID: 36 characters,
/// hyphens at 8, 13, 18 and 23, hexadecimal digits elsewhere, the version
/// digit `4` at 14 and a variant digit among `8`, `9`, `a`, `b` at 19.
pub open spec fn is_uuid_v4_text(s: Seq<char>) -> bool {
    &&& s.len() == 36
    &&& forall|i: int|
        0 <= i < 36 ==> if i == 8 || i == 13 || i == 18 || i == 23 {
            #[trigger] s[i] == '-'
        } else {
            is_lower_hex(s[i])
        }
    &&& s[14] == '4'
    &&& (s[19] == '8' || s[19] == '9' || s[19] == 'a' || s[19] == 'b')
}

/// A fresh identifier for an alert.
/// Trusted: `uuid::Uuid::new_v4().to_string()`: a random UUID with the
/// version and variant bits set, in hyphenated lower-case form; which UUID
/// comes back is left open.
#[verifier::external_body]
fn new_alert_id() -> (id: String)
    ensures
        id@.len() == 36,
        is_uuid_v4_text(id@),
{
    uuid::Uuid::new_v4().to_string()
}

impl AlertSubscription {
    /// A new active alert with a fresh random id, created now.
    pub fn new(slug: String, rule: AlertRule, delivery: DeliveryTarget) -> (a: Self)
        ensures
            a.id@.len() == 36,
            is_uuid_v4_text(a.id@),
            a.slug == slug,
            a.rule == rule,
            a.status == AlertStatus::Active,
            a.created_at == a.updated_at,
            a.delivery == delivery,
            a.trigger_state == TriggerState::new_spec(),
    {
        let id = new_alert_id();
        let now = utc_now();
        Self::new_with(id, slug, rule, delivery, now)
    }

    /// A new active alert with the given id, created at `now`.
    pub fn new_with(
        id: String,
        slug: String,
        rule: AlertRule,
        delivery: DeliveryTarget,
        now: Timestamp,
    ) -> (a: Self)
        ensures
            a.id == id,
            a.slug == slug,
            a.rule == rule,
            a.status == AlertStatus::Active,
            a.created_at == now,
            a.updated_at == now,
            a.delivery == delivery,
            a.trigger_state == TriggerState::new_spec(),
    {
        AlertSubscription {
            id,
            slug,
            rule,
            status: AlertStatus::Active,
            created_at: now,
            updated_at: now,
            delivery,
            trigger_state: TriggerState::new(),
        }
    }
}

impl TriggerState {
    /// The state with nothing seen and nothing fired.
    pub open spec fn new_spec() -> TriggerState {
        TriggerState { last_seen_price: None, last_triggered_price: None, last_triggered_at: None }
    }
}

} // verus!
