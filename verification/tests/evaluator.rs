use polynostr::alerts::evaluator::{AlertEvaluator, EvaluatorConfig};
use polynostr::alerts::model::{
    AlertRule, AlertSubscription, DeliveryChannel, DeliveryTarget, MarketTick,
};
use polynostr::time::Timestamp;

fn now_ts() -> Timestamp {
    let n = chrono::Utc::now();
    Timestamp { secs: n.timestamp(), nanos: n.timestamp_subsec_nanos() }
}

fn seconds_ago(s: i64) -> Timestamp {
    let n = now_ts();
    Timestamp { secs: n.secs - s, nanos: n.nanos }
}

fn base_alert(rule: AlertRule) -> AlertSubscription {
    let mut a = AlertSubscription::new_with(
        "alert-1".to_owned(),
        "btc-100k".to_owned(),
        rule,
        DeliveryTarget { pubkey: "npub-test".to_owned(), channel: DeliveryChannel::Nip17 },
        now_ts(),
    );
    a.trigger_state.last_seen_price = Some(450_000_000);
    a
}

fn tick(price: u64) -> MarketTick {
    MarketTick { slug: "btc-100k".to_owned(), price, seen_at: now_ts() }
}

#[test]
fn above_rule_triggers_on_crossing() {
    let eval = AlertEvaluator::new(EvaluatorConfig { cooldown_seconds: 60, hysteresis_bps: 50 });
    let alert = base_alert(AlertRule::Above { threshold: 500_000_000 });
    let (event, _) = eval.evaluate(&alert, &tick(510_000_000));
    assert!(event.is_some());
}

#[test]
fn below_rule_triggers_on_crossing() {
    let eval = AlertEvaluator::new(EvaluatorConfig { cooldown_seconds: 60, hysteresis_bps: 50 });
    let mut alert = base_alert(AlertRule::Below { threshold: 400_000_000 });
    alert.trigger_state.last_seen_price = Some(450_000_000);
    let (event, _) = eval.evaluate(&alert, &tick(390_000_000));
    assert!(event.is_some());
}

#[test]
fn percent_move_triggers_when_delta_exceeds_threshold() {
    let eval = AlertEvaluator::new(EvaluatorConfig { cooldown_seconds: 60, hysteresis_bps: 50 });
    let mut alert = base_alert(AlertRule::PercentMove { percent: 10_000_000_000 });
    alert.trigger_state.last_seen_price = Some(400_000_000);
    let (event, _) = eval.evaluate(&alert, &tick(450_000_000));
    assert!(event.is_some());
}

#[test]
fn hysteresis_prevents_small_repeat_move() {
    let eval = AlertEvaluator::new(EvaluatorConfig { cooldown_seconds: 1, hysteresis_bps: 200 });
    let mut alert = base_alert(AlertRule::Above { threshold: 500_000_000 });
    alert.trigger_state.last_seen_price = Some(490_000_000);
    alert.trigger_state.last_triggered_price = Some(500_000_000);
    alert.trigger_state.last_triggered_at = Some(seconds_ago(120));
    let (event, _) = eval.evaluate(&alert, &tick(505_000_000));
    assert!(event.is_none());
}

#[test]
fn cooldown_prevents_duplicate() {
    let eval = AlertEvaluator::new(EvaluatorConfig { cooldown_seconds: 120, hysteresis_bps: 50 });
    let mut alert = base_alert(AlertRule::Above { threshold: 500_000_000 });
    alert.trigger_state.last_triggered_at = Some(seconds_ago(30));
    alert.trigger_state.last_triggered_price = Some(500_000_000);
    let (event, _) = eval.evaluate(&alert, &tick(520_000_000));
    assert!(event.is_none());
}

#[test]
fn first_tick_never_fires() {
    let eval = AlertEvaluator::new(EvaluatorConfig { cooldown_seconds: 60, hysteresis_bps: 50 });
    let mut alert = base_alert(AlertRule::Above { threshold: 500_000_000 });
    alert.trigger_state.last_seen_price = None;
    let (event, seen) = eval.evaluate(&alert, &tick(900_000_000));
    assert!(event.is_none());
    assert_eq!(seen, Some(900_000_000));
}

#[test]
fn crossing_fires_once_then_cooldown_blocks() {
    let eval = AlertEvaluator::new(EvaluatorConfig { cooldown_seconds: 120, hysteresis_bps: 50 });
    let mut alert = base_alert(AlertRule::Above { threshold: 500_000_000 });
    alert.trigger_state.last_seen_price = Some(490_000_000);
    let now = now_ts();
    let (event, _) = eval.evaluate_at(&alert, &tick(510_000_000), now);
    let event = event.expect("crossing fires");
    assert_eq!(event.price, 510_000_000);
    assert_eq!(event.triggered_at, now);
    assert_eq!(event.alert_id, "alert-1");
    alert.trigger_state.last_seen_price = Some(490_000_000);
    alert.trigger_state.last_triggered_price = Some(510_000_000);
    alert.trigger_state.last_triggered_at = Some(now);
    let (again, _) = eval.evaluate_at(&alert, &tick(600_000_000), now);
    assert!(again.is_none());
}

#[test]
fn below_rule_needs_a_crossing() {
    let eval = AlertEvaluator::new(EvaluatorConfig { cooldown_seconds: 60, hysteresis_bps: 50 });
    let mut alert = base_alert(AlertRule::Below { threshold: 400_000_000 });
    alert.trigger_state.last_seen_price = Some(390_000_000);
    let (event, _) = eval.evaluate(&alert, &tick(380_000_000));
    assert!(event.is_none());
}
