use polynostr::alerts::manager::{AlertManager, AlertManagerConfig};
use polynostr::alerts::model::{AlertRule, DeliveryChannel, MarketTick};
use polynostr::alerts::repository::InMemoryAlertRepository;
use polynostr::commands::{handle_add, handle_list, handle_pause};
use polynostr::time::Timestamp;

fn now_ts() -> Timestamp {
    let n = chrono::Utc::now();
    Timestamp { secs: n.timestamp(), nanos: n.timestamp_subsec_nanos() }
}

fn config(max: usize, cooldown: u64, hysteresis: u32, per_minute: usize) -> AlertManagerConfig {
    AlertManagerConfig {
        max_alerts_per_user: max,
        cooldown_seconds: cooldown,
        hysteresis_bps: hysteresis,
        notifications_per_minute: per_minute,
        refresh_seconds: 5,
        stream_enabled: true,
        reconnect_backoff_initial_seconds: 1,
        reconnect_backoff_max_seconds: 10,
    }
}

#[test]
fn add_alert_updates_tracked_slugs() {
    let mut repo = InMemoryAlertRepository::new();
    let mut manager = AlertManager::new(config(10, 10, 25, 5));
    manager
        .add_alert(
            &mut repo,
            "abcd".to_owned(),
            DeliveryChannel::Nip17,
            "btc-100k".to_owned(),
            AlertRule::Above { threshold: 550_000_000 },
        )
        .expect("add alert");
    let watched = manager.watched_slugs();
    assert!(watched.contains(&"btc-100k".to_owned()));
}

#[test]
fn notification_window_caps_throughput() {
    let mut manager = AlertManager::new(config(10, 1, 10, 1));
    assert!(manager.allow_notification("pk1"));
    assert!(!manager.allow_notification("pk1"));
}

#[test]
fn end_to_end_command_to_trigger_notification_flow() {
    let mut repo = InMemoryAlertRepository::new();
    let mut manager = AlertManager::new(config(10, 1, 1, 10));
    let add_response =
        handle_add(&mut manager, &mut repo, "pubkey-e2e".to_owned(), DeliveryChannel::Nip17, "btc-100k above 52");
    assert!(add_response.contains("Alert created"));

    let mut sent = Vec::new();
    let seed = MarketTick { slug: "btc-100k".to_owned(), price: 500_000_000, seen_at: now_ts() };
    sent.extend(manager.process_tick(&mut repo, &seed).expect("seed tick"));
    let crossing = MarketTick { slug: "btc-100k".to_owned(), price: 530_000_000, seen_at: now_ts() };
    sent.extend(manager.process_tick(&mut repo, &crossing).expect("crossing tick"));
    assert_eq!(sent.len(), 1);
    assert_eq!(sent[0].1.price, 530_000_000);
    assert_eq!(sent[0].0.delivery.pubkey, "pubkey-e2e");
}

#[test]
fn max_alerts_per_user_is_enforced() {
    let mut repo = InMemoryAlertRepository::new();
    let mut manager = AlertManager::new(config(1, 10, 25, 5));
    let first = handle_add(&mut manager, &mut repo, "pk".to_owned(), DeliveryChannel::Nip17, "a above 50");
    assert!(first.starts_with("Alert created"));
    let second = handle_add(&mut manager, &mut repo, "pk".to_owned(), DeliveryChannel::Nip17, "b above 50");
    assert_eq!(second, "You reached the maximum of 1 alerts. Remove one before adding another.");
}

#[test]
fn paused_alert_does_not_fire_and_is_listed_paused() {
    let mut repo = InMemoryAlertRepository::new();
    let mut manager = AlertManager::new(config(10, 1, 1, 10));
    let created = manager
        .add_alert(&mut repo, "pk".to_owned(), DeliveryChannel::Nip17, "m".to_owned(), AlertRule::Above { threshold: 500_000_000 })
        .expect("add");
    let reply = handle_pause(&manager, &mut repo, "pk", created.id.as_str());
    assert_eq!(reply, format!("Alert paused: {}", created.id));
    let list = handle_list(&manager, &repo, "pk");
    assert!(list.contains("Status: Paused"));
    let t1 = MarketTick { slug: "m".to_owned(), price: 400_000_000, seen_at: now_ts() };
    let t2 = MarketTick { slug: "m".to_owned(), price: 600_000_000, seen_at: now_ts() };
    assert!(manager.process_tick(&mut repo, &t1).expect("t1").is_empty());
    assert!(manager.process_tick(&mut repo, &t2).expect("t2").is_empty());
}

#[test]
fn other_owner_cannot_pause() {
    let mut repo = InMemoryAlertRepository::new();
    let mut manager = AlertManager::new(config(10, 1, 1, 10));
    let created = manager
        .add_alert(&mut repo, "owner".to_owned(), DeliveryChannel::Nip04, "m".to_owned(), AlertRule::Below { threshold: 500_000_000 })
        .expect("add");
    let reply = handle_pause(&manager, &mut repo, "intruder", created.id.as_str());
    assert_eq!(reply, "You can only modify alerts that you created.");
    let missing = handle_pause(&manager, &mut repo, "owner", "nope");
    assert_eq!(missing, "Alert \"nope\" was not found. Use `alert list` to see active alerts.");
}

#[test]
fn list_shows_newest_first() {
    let mut repo = InMemoryAlertRepository::new();
    let mut manager = AlertManager::new(config(10, 1, 1, 10));
    handle_add(&mut manager, &mut repo, "pk".to_owned(), DeliveryChannel::Nip17, "first above 50");
    handle_add(&mut manager, &mut repo, "pk".to_owned(), DeliveryChannel::Nip17, "second move 5");
    handle_add(&mut manager, &mut repo, "other".to_owned(), DeliveryChannel::Nip17, "third below 10");
    let list = handle_list(&manager, &repo, "pk");
    assert!(list.starts_with("Your alerts:\n\n1. second\n"));
    assert!(list.contains("\n\n2. first\n"));
    assert!(list.contains("Rule: moves by 5.00%"));
    assert!(!list.contains("third"));
    assert_eq!(handle_list(&manager, &repo, "nobody"), "You have no alerts configured. Use: alert add <slug> <above|below|move> <value>");
}
