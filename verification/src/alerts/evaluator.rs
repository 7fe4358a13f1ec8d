//! Judging a market tick against an alert: did the rule fire, and is the
//! firing held back by the cooldown or by hysteresis?

use vstd::prelude::*;
use crate::alerts::model::{AlertEvent, AlertRule, AlertSubscription, MarketTick, TriggerState};
use crate::time::{nanos_between, nanos_diff, utc_now, Timestamp};

verus! {

/// Suppression settings: the minimum time between two firings of an alert,
/// and the minimum relative move (in basis points) from the last firing
/// price.
#[derive(Clone, Copy, Debug)]
pub struct EvaluatorConfig {
    pub cooldown_seconds: u64,
    pub hysteresis_bps: u32,
}

/// Evaluates alerts against ticks under one configuration.
pub struct AlertEvaluator {
    config: EvaluatorConfig,
}

/// `|a - b|`.
pub open spec fn abs_diff(a: int, b: int) -> int {
    if a >= b {
        a - b
    } else {
        b - a
    }
}

/// Whether the rule is met by the move from the last seen price to `price`.
/// Nothing fires before a first price has been seen. A percentage move is
/// measured relative to a positive last price: `|price - prev| / prev * 100
/// >= percent`.
pub open spec fn rule_met(rule: AlertRule, last_seen: Option<u64>, price: u64) -> bool {
    match last_seen {
        None => false,
        Some(prev) => match rule {
            AlertRule::Above { threshold } => prev < threshold && price >= threshold,
            AlertRule::Below { threshold } => prev > threshold && price <= threshold,
            AlertRule::PercentMove { percent } => prev > 0 && abs_diff(price as int, prev as int)
                * 100 * 1_000_000_000 >= percent * prev,
        },
    }
}

/// Whole seconds elapsed from `earlier` to `later`, counting a negative span
/// as zero.
pub open spec fn elapsed_seconds(later: Timestamp, earlier: Timestamp) -> int {
    let d = nanos_between(later, earlier);
    if d <= 0 {
        0
    } else {
        d / 1_000_000_000
    }
}

/// The last firing was fewer than `cooldown_seconds` whole seconds before the tick.
pub open spec fn in_cooldown(cfg: EvaluatorConfig, state: TriggerState, seen_at: Timestamp) -> bool {
    match state.last_triggered_at {
        None => false,
        Some(last) => elapsed_seconds(seen_at, last) < cfg.cooldown_seconds,
    }
}

/// The price is too close to the last firing price: the relative move
/// `|price - last| / last` is below `hysteresis_bps / 10000`.
pub open spec fn within_hysteresis(cfg: EvaluatorConfig, state: TriggerState, price: u64) -> bool {
    match state.last_triggered_price {
        None => false,
        Some(last) => last > 0 && abs_diff(price as int, last as int) * 10_000 < cfg.hysteresis_bps
            * last,
    }
}

/// Whether an alert fires on a tick.
pub open spec fn fires(cfg: EvaluatorConfig, alert: AlertSubscription, tick: MarketTick) -> bool {
    &&& rule_met(alert.rule, alert.trigger_state.last_seen_price, tick.price)
    &&& !in_cooldown(cfg, alert.trigger_state, tick.seen_at)
    &&& !within_hysteresis(cfg, alert.trigger_state, tick.price)
}

/// `|a - b|` on prices.
fn price_diff(a: u64, b: u64) -> (d: u64)
    ensures
        d == abs_diff(a as int, b as int),
{
    if a >= b {
        a - b
    } else {
        b - a
    }
}

impl AlertEvaluator {
    /// The evaluator's configuration.
    pub closed spec fn config(&self) -> EvaluatorConfig {
        self.config
    }

    /// An evaluator with this configuration.
    pub fn new(config: EvaluatorConfig) -> (e: Self)
        ensures
            e.config() == config,
    {
        AlertEvaluator { config }
    }

    /// Judges `tick` against `alert`, reading the clock for the firing time.
    /// The second component is the price to remember as last seen.
    pub fn evaluate(&self, alert: &AlertSubscription, tick: &MarketTick) -> (r: (
        Option<AlertEvent>,
        Option<u64>,
    ))
        ensures
            r.1 == Some(tick.price),
            r.0 is Some <==> fires(self.config(), *alert, *tick),
            r.0 matches Some(ev) ==> {
                &&& ev.alert_id == alert.id
                &&& ev.slug == alert.slug
                &&& ev.price == tick.price
            },
    {
        let now = utc_now();
        self.evaluate_at(alert, tick, now)
    }

    /// Judges `tick` against `alert`; a firing is stamped `now`.
    pub fn evaluate_at(&self, alert: &AlertSubscription, tick: &MarketTick, now: Timestamp) -> (r: (
        Option<AlertEvent>,
        Option<u64>,
    ))
        ensures
            r.1 == Some(tick.price),
            r.0 is Some <==> fires(self.config(), *alert, *tick),
            r.0 matches Some(ev) ==> ev == (AlertEvent {
                alert_id: alert.id,
                slug: alert.slug,
                price: tick.price,
                triggered_at: now,
            }),
    {
        let price = tick.price;
        let state = alert.trigger_state;
        let should_trigger = match state.last_seen_price {
            None => false,
            Some(prev) => match alert.rule {
                AlertRule::Above { threshold } => prev < threshold && price >= threshold,
                AlertRule::Below { threshold } => prev > threshold && price <= threshold,
                AlertRule::PercentMove { percent } => {
                    if prev > 0 {
                        let delta = price_diff(price, prev) as u128;
                        assert((percent as u128) * (prev as u128) <= 0xffff_ffff_ffff_ffffu128
                            * 0xffff_ffff_ffff_ffffu128) by (nonlinear_arith)
                            requires
                                percent <= 0xffff_ffff_ffff_ffffu64,
                                prev <= 0xffff_ffff_ffff_ffffu64,
                        ;
                        delta * 100 * 1_000_000_000 >= (percent as u128) * (prev as u128)
                    } else {
                        false
                    }
                },
            },
        };
        if should_trigger {
            if let Some(last_ts) = state.last_triggered_at {
                let d = nanos_diff(tick.seen_at, last_ts);
                let elapsed: i128 = if d <= 0 {
                    0
                } else {
                    d / 1_000_000_000
                };
                if elapsed < self.config.cooldown_seconds as i128 {
                    return (None, Some(price));
                }
            }
            if let Some(last_price) = state.last_triggered_price {
                if last_price > 0 {
                    let delta = price_diff(price, last_price) as u128;
                    assert((self.config.hysteresis_bps as u128) * (last_price as u128)
                        <= 0xffff_ffffu128 * 0xffff_ffff_ffff_ffffu128) by (nonlinear_arith)
                        requires
                            self.config.hysteresis_bps <= 0xffff_ffffu32,
                            last_price <= 0xffff_ffff_ffff_ffffu64,
                    ;
                    if delta * 10_000 < (self.config.hysteresis_bps as u128) * (last_price as u128) {
                        return (None, Some(price));
                    }
                }
            }
            return (
                Some(
                    AlertEvent {
                        alert_id: alert.id.clone(),
                        slug: alert.slug.clone(),
                        price,
                        triggered_at: now,
                    },
                ),
                Some(price),
            );
        }
        (None, Some(price))
    }
}

} // verus!
