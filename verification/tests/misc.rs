use polynostr::alerts::codec::{alert_from_stored, channel_code, channel_from_code, encode_rule, parse_rule, status_code, status_from_code};
use polynostr::alerts::error::AlertError;
use polynostr::alerts::model::{AlertRule, AlertStatus, AlertSubscription, DeliveryChannel, DeliveryTarget};
use polynostr::format::{format_alert_created, format_alert_test, format_alert_trigger};
use polynostr::alerts::source::{poll_interval, tick_from_market};
use polynostr::bot::mention_text;
use polynostr::polymarket::{invalid_address_message, prepare_address, Dec, MarketInfo};
use polynostr::portfolio::{fetch_error, parse_address_and_limit, parse_limit};
use polynostr::time::Timestamp;

#[test]
fn mention_drops_references() {
    assert_eq!(mention_text("nostr:npub1abc  /price   btc-100k note1xyz"), "/price btc-100k");
    assert_eq!(mention_text("npub1me"), "");
    assert_eq!(mention_text(" hello\tworld "), "hello world");
}

#[test]
fn rule_codes_round_trip() {
    for rule in [
        AlertRule::Above { threshold: 1 },
        AlertRule::Below { threshold: 2 },
        AlertRule::PercentMove { percent: 3 },
    ] {
        let (kind, value) = encode_rule(&rule);
        assert_eq!(parse_rule(kind, value).expect("known"), rule);
    }
    match parse_rule("sideways", 1) {
        Err(AlertError::Storage(m)) => assert_eq!(m, "unknown rule kind: sideways"),
        _ => panic!("expected storage error"),
    }
    assert_eq!(status_from_code(status_code(AlertStatus::Paused)), AlertStatus::Paused);
    assert_eq!(status_from_code("whatever"), AlertStatus::Active);
    assert_eq!(channel_from_code(channel_code(DeliveryChannel::Nip04)), DeliveryChannel::Nip04);
    assert_eq!(channel_from_code("nip17"), DeliveryChannel::Nip17);
}

#[test]
fn polling_interval_floor_and_ticks() {
    assert_eq!(poll_interval(1), 3);
    assert_eq!(poll_interval(15), 15);
    let market = MarketInfo {
        question: None,
        slug: None,
        description: None,
        outcomes: None,
        outcome_prices: Some(vec![Dec::new(525, 3).expect("0.525")]),
        volume: None,
        liquidity: None,
        end_date: None,
        resolution_source: None,
    };
    let at = Timestamp { secs: 5, nanos: 6 };
    let tick = tick_from_market("m", &market, at).expect("has a price");
    assert_eq!(tick.price, 525_000_000);
    assert_eq!(tick.slug, "m");
    assert_eq!(tick.seen_at, at);
    let empty = MarketInfo { outcome_prices: Some(vec![]), ..market };
    assert!(tick_from_market("m", &empty, at).is_none());
}

#[test]
fn wallet_arguments() {
    assert_eq!(parse_address_and_limit("0xabc", "trades"), Ok(("0xabc".to_owned(), 5)));
    assert_eq!(parse_address_and_limit("0xabc 8", "trades"), Ok(("0xabc".to_owned(), 8)));
    assert!(parse_address_and_limit("", "trades").unwrap_err().starts_with("Usage: /trades"));
    assert_eq!(
        parse_limit("21"),
        Err("Invalid limit '21'. Limit must be between 1 and 20.".to_owned())
    );
    assert_eq!(
        parse_limit("x"),
        Err("Invalid limit 'x'. Limit must be a number between 1 and 20.".to_owned())
    );
    assert_eq!(fetch_error("trades", "0x1", "down"), "Could not fetch trades for 0x1.\n\ndown");
}

#[test]
fn wallet_address_preparation() {
    assert_eq!(prepare_address("  abcd "), Ok(("abcd".to_owned(), "0xabcd".to_owned())));
    assert_eq!(prepare_address("0xab"), Ok(("0xab".to_owned(), "0xab".to_owned())));
    assert_eq!(prepare_address("   "), Err("Wallet address is required.".to_owned()));
    assert_eq!(
        invalid_address_message("zz"),
        "Invalid wallet address: 'zz'. Expected a 20-byte hex address (with or without 0x prefix)."
    );
}

#[test]
fn trigger_notification_text() {
    let alert = AlertSubscription::new_with(
        "id-1".to_owned(),
        "btc-100k".to_owned(),
        AlertRule::Above { threshold: 520_000_000 },
        DeliveryTarget { pubkey: "pk".to_owned(), channel: DeliveryChannel::Nip17 },
        Timestamp { secs: 0, nanos: 0 },
    );
    let at = Timestamp { secs: 1_773_705_600, nanos: 0 };
    assert_eq!(
        format_alert_trigger(&alert, 525_000_000, at),
        "Price alert triggered\n\nMarket: btc-100k\nRule: above 52.00¢\nCurrent Price: 52.50¢\nTriggered: 2026-03-17 00:00:00Z\nAlert ID: id-1"
    );
    assert_eq!(
        format_alert_test(&alert),
        "Alert test notification\n\nMarket: btc-100k\nRule: above 52.00¢\nAlert ID: id-1"
    );
    assert_eq!(
        format_alert_created(&alert),
        "Alert created\n\nID: id-1\nMarket: btc-100k\nRule: above 52.00¢\nStatus: active"
    );
}

#[test]
fn new_alerts_get_fresh_ids() {
    let target = || DeliveryTarget { pubkey: "pk".to_owned(), channel: DeliveryChannel::Nip17 };
    let a = AlertSubscription::new("m".to_owned(), AlertRule::Below { threshold: 1 }, target());
    let b = AlertSubscription::new("m".to_owned(), AlertRule::Below { threshold: 1 }, target());
    assert_eq!(a.id.len(), 36);
    assert_ne!(a.id, b.id);
    let cs: Vec<char> = a.id.chars().collect();
    assert_eq!((cs[8], cs[13], cs[14], cs[18], cs[23]), ('-', '-', '4', '-', '-'));
    assert!("89ab".contains(cs[19]));
    assert_eq!(a.status, AlertStatus::Active);
}

#[test]
fn stored_rows_are_read_back() {
    let a = alert_from_stored(
        "id".to_owned(),
        "m".to_owned(),
        "move",
        7_500_000_000,
        "paused",
        "2026-03-17T00:00:00+00:00",
        "2026-03-17T01:00:00+01:00",
        "pk".to_owned(),
        "nip04",
        Some(1),
        None,
        Some("2026-03-17T00:00:05.5Z".to_owned()),
    )
    .expect("valid row");
    assert_eq!(a.rule, AlertRule::PercentMove { percent: 7_500_000_000 });
    assert_eq!(a.status, AlertStatus::Paused);
    assert_eq!(a.delivery.channel, DeliveryChannel::Nip04);
    assert_eq!(a.created_at, Timestamp { secs: 1_773_705_600, nanos: 0 });
    assert_eq!(a.updated_at, Timestamp { secs: 1_773_705_600, nanos: 0 });
    assert_eq!(a.trigger_state.last_triggered_at, Some(Timestamp { secs: 1_773_705_605, nanos: 500_000_000 }));
    assert_eq!(a.trigger_state.last_seen_price, Some(1));
}

#[test]
fn stored_row_errors() {
    let row = |kind: &str, created: &str| {
        alert_from_stored(
            "id".to_owned(), "m".to_owned(), kind, 1, "active", created,
            "2026-03-17T00:00:00Z", "pk".to_owned(), "nip17", None, None, None,
        )
    };
    match row("sideways", "yesterday") {
        Err(AlertError::Storage(m)) => assert_eq!(m, "storage error: unknown rule kind: sideways"),
        _ => panic!("expected kind error"),
    }
    match row("above", "yesterday") {
        Err(AlertError::Storage(m)) => assert!(!m.is_empty()),
        _ => panic!("expected time error"),
    }
}
