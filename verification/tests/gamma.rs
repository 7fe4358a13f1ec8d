use polynostr::polymarket::{
    closing_fetch_limit, dec_less, select_closing_events, select_trending_events,
    trending_fetch_limit, Dec, EventInfo, MarketInfo,
};
use polynostr::time::Timestamp;

const HOUR: i64 = 3600;

fn ev(slug: &str, end: Option<i64>, vol: Option<u128>, closed: Option<bool>, archived: Option<bool>) -> EventInfo {
    EventInfo {
        title: None,
        slug: Some(slug.to_owned()),
        description: None,
        volume: None,
        volume_24hr: vol.map(|v| Dec::new(v, 0).expect("in range")),
        liquidity: None,
        end_date: end.map(|s| Timestamp { secs: s, nanos: 0 }),
        closed,
        archived,
        markets: Some(vec![priced_market(Some(vec![Dec::new(5, 1).expect("0.5")]))]),
    }
}

fn priced_market(prices: Option<Vec<Dec>>) -> MarketInfo {
    MarketInfo {
        question: None,
        slug: None,
        description: None,
        outcomes: None,
        outcome_prices: prices,
        volume: None,
        liquidity: None,
        end_date: None,
        resolution_source: None,
    }
}

fn slugs(v: &[EventInfo]) -> Vec<String> {
    v.iter().map(|e| e.slug.clone().unwrap_or_default()).collect()
}

#[test]
fn test_filtering_logic_within_window() {
    let now = 1_000_000i64;
    let events = vec![
        ev("within", Some(now + 12 * HOUR), None, None, None),
        ev("outside", Some(now + 25 * HOUR), None, None, None),
    ];
    let out = select_closing_events(events, Timestamp { secs: now, nanos: 0 }, 24, 10);
    assert_eq!(slugs(&out), vec!["within".to_owned()]);
}

#[test]
fn test_filtering_excludes_closed_markets() {
    let now = 1_000_000i64;
    let events = vec![
        ev("closed", Some(now + HOUR), None, Some(true), None),
        ev("open", Some(now + HOUR), None, Some(false), None),
        ev("unknown", Some(now + HOUR), None, None, None),
    ];
    let out = select_closing_events(events, Timestamp { secs: now, nanos: 0 }, 24, 10);
    assert_eq!(slugs(&out), vec!["open".to_owned(), "unknown".to_owned()]);
}

#[test]
fn test_filtering_excludes_archived_markets() {
    let now = 1_000_000i64;
    let events = vec![
        ev("archived", Some(now + HOUR), None, None, Some(true)),
        ev("kept", Some(now + HOUR), None, None, Some(false)),
        ev("unknown", Some(now + HOUR), None, None, None),
    ];
    let out = select_trending_events(events, Timestamp { secs: now, nanos: 0 }, 10);
    assert_eq!(slugs(&out), vec!["kept".to_owned(), "unknown".to_owned()]);
}

#[test]
fn test_sorting_comparison_logic() {
    let now = 1_000_000i64;
    let events = vec![
        ev("later", Some(now + 5 * HOUR), Some(9_000_000), None, None),
        ev("low", Some(now + HOUR), Some(1_000_000), None, None),
        ev("none", Some(now + HOUR), None, None, None),
        ev("high", Some(now + HOUR), Some(5_000_000), None, None),
    ];
    let out = select_closing_events(events, Timestamp { secs: now, nanos: 0 }, 24, 10);
    assert_eq!(slugs(&out), vec!["high".to_owned(), "low".to_owned(), "none".to_owned(), "later".to_owned()]);
    let low = Dec::new(1_000_000, 0).expect("low");
    let high = Dec::new(5_000_000, 0).expect("high");
    assert!(dec_less(&low, &high));
    assert!(!dec_less(&high, &low));
}

#[test]
fn test_empty_results() {
    let out = select_closing_events(vec![], Timestamp { secs: 0, nanos: 0 }, 24, 10);
    assert_eq!(out.len(), 0);
}

#[test]
fn closing_keeps_order_of_ties_and_truncates() {
    let now = 1_000_000i64;
    let events = vec![
        ev("a", Some(now + HOUR), Some(7), None, None),
        ev("b", Some(now + HOUR), Some(7), None, None),
        ev("past", Some(now - HOUR), Some(7), None, None),
        ev("c", Some(now + 2 * HOUR), None, None, None),
        ev("no-end", None, Some(100), None, None),
    ];
    let out = select_closing_events(events, Timestamp { secs: now, nanos: 0 }, 24, 2);
    assert_eq!(slugs(&out), vec!["a".to_owned(), "b".to_owned()]);
}

#[test]
fn equal_amounts_at_other_scales_tie() {
    let a = Dec::new(15, 1).expect("1.5");
    let b = Dec::new(150, 2).expect("1.50");
    assert!(!dec_less(&a, &b));
    assert!(!dec_less(&b, &a));
    assert!(Dec::new(1, 29).is_none());
}

#[test]
fn trending_keeps_first_live_events() {
    let now = 1_000_000i64;
    let events = vec![
        ev("ended", Some(now - 1), None, None, None),
        ev("a", Some(now + 1), None, None, None),
        ev("no-end", None, None, None, None),
        ev("b", Some(now + 100), None, None, None),
        ev("c", Some(now + 100), None, None, None),
    ];
    let out = select_trending_events(events, Timestamp { secs: now, nanos: 0 }, 2);
    assert_eq!(slugs(&out), vec!["a".to_owned(), "b".to_owned()]);
}

#[test]
fn fetch_limits() {
    assert_eq!(trending_fetch_limit(10), 50);
    assert_eq!(trending_fetch_limit(100), 200);
    assert_eq!(closing_fetch_limit(10), 200);
    assert_eq!(closing_fetch_limit(3), 60);
}

#[test]
fn closing_skips_events_without_markets_or_prices() {
    let now = 1_000_000i64;
    let mut no_markets = ev("no-markets", Some(now + HOUR), None, None, None);
    no_markets.markets = None;
    let mut empty_markets = ev("empty-markets", Some(now + HOUR), None, None, None);
    empty_markets.markets = Some(vec![]);
    let mut no_prices = ev("no-prices", Some(now + HOUR), None, None, None);
    no_prices.markets = Some(vec![priced_market(None)]);
    let mut empty_prices = ev("empty-prices", Some(now + HOUR), None, None, None);
    empty_prices.markets = Some(vec![priced_market(Some(vec![]))]);
    let kept = ev("kept", Some(now + HOUR), None, None, None);
    let out = select_closing_events(
        vec![no_markets, empty_markets, no_prices, empty_prices, kept],
        Timestamp { secs: now, nanos: 0 },
        24,
        10,
    );
    assert_eq!(slugs(&out), vec!["kept".to_owned()]);
}
