use polynostr::config::{load_config, load_settings, parse_setting, relays_from, split_relays, stream_enabled_from, RawSettings};

fn raw() -> RawSettings {
    RawSettings {
        relays: None,
        stream_enabled: None,
        poll_interval_seconds: None,
        reconnect_backoff_initial_seconds: None,
        reconnect_backoff_max_seconds: None,
        max_per_user: None,
        cooldown_seconds: None,
        hysteresis_bps: None,
        notifications_per_minute: None,
        db_path: None,
    }
}

#[test]
fn defaults_apply() {
    let s = load_settings(&raw()).expect("defaults");
    assert_eq!(s.relays, vec!["wss://relay.damus.io", "wss://nos.lol", "wss://relay.nostr.band"]);
    assert!(s.alert_stream_enabled);
    assert_eq!(s.alert_poll_interval_seconds, 15);
    assert_eq!(s.alert_reconnect_backoff_initial_seconds, 2);
    assert_eq!(s.alert_reconnect_backoff_max_seconds, 60);
    assert_eq!(s.alert_max_per_user, 25);
    assert_eq!(s.alert_cooldown_seconds, 120);
    assert_eq!(s.alert_hysteresis_bps, 50);
    assert_eq!(s.alert_notifications_per_minute, 10);
    assert_eq!(s.alert_db_path, "alerts.sqlite3");
}

#[test]
fn relays_are_split_and_trimmed() {
    assert_eq!(split_relays(" wss://a , ,wss://b,"), vec!["wss://a", "wss://b"]);
    assert!(split_relays("").is_empty());
    assert_eq!(relays_from(&Some("x".to_owned())), vec!["x"]);
}

#[test]
fn stream_switch() {
    assert!(stream_enabled_from(&Some("TRUE".to_owned())));
    assert!(stream_enabled_from(&Some("1".to_owned())));
    assert!(!stream_enabled_from(&Some("yes".to_owned())));
    assert!(stream_enabled_from(&None));
}

#[test]
fn numeric_settings_errors() {
    assert_eq!(parse_setting("K", &Some("+7".to_owned()), 1, 100), Ok(7));
    assert_eq!(
        parse_setting("K", &Some("".to_owned()), 1, 100),
        Err("K must be a positive integer: cannot parse integer from empty string".to_owned())
    );
    assert_eq!(
        parse_setting("K", &Some("-1".to_owned()), 1, 100),
        Err("K must be a positive integer: invalid digit found in string".to_owned())
    );
    assert_eq!(
        parse_setting("K", &Some("101".to_owned()), 1, 100),
        Err("K must be a positive integer: number too large to fit in target type".to_owned())
    );
}

#[test]
fn checks_after_parsing() {
    let mut r = raw();
    r.poll_interval_seconds = Some("2".to_owned());
    assert_eq!(load_settings(&r).err(), Some("ALERT_POLL_INTERVAL_SECONDS must be >= 3".to_owned()));
    let mut r = raw();
    r.reconnect_backoff_initial_seconds = Some("0".to_owned());
    assert_eq!(load_settings(&r).err(), Some("Reconnect backoff values are invalid".to_owned()));
    let mut r = raw();
    r.reconnect_backoff_max_seconds = Some("1".to_owned());
    assert_eq!(load_settings(&r).err(), Some("Reconnect backoff values are invalid".to_owned()));
    let mut r = raw();
    r.hysteresis_bps = Some("4294967296".to_owned());
    r.poll_interval_seconds = Some("1".to_owned());
    assert_eq!(
        load_settings(&r).err(),
        Some("ALERT_HYSTERESIS_BPS must be a positive integer: number too large to fit in target type".to_owned())
    );
}

#[test]
fn secret_key_is_checked_before_settings() {
    let mut r = raw();
    r.poll_interval_seconds = Some("1".to_owned());
    assert!(load_config("not-a-key", &r).is_err());
    assert_ne!(load_config("not-a-key", &r).err(), Some("ALERT_POLL_INTERVAL_SECONDS must be >= 3".to_owned()));
    let key = "0000000000000000000000000000000000000000000000000000000000000001";
    assert_eq!(load_config(key, &r).err(), Some("ALERT_POLL_INTERVAL_SECONDS must be >= 3".to_owned()));
    let c = load_config(key, &raw()).expect("valid key and defaults");
    assert_eq!(c.settings.alert_poll_interval_seconds, 15);
}
