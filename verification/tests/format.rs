use polynostr::format::{
    format_closing_events, format_closing_events_at, format_duration, format_event_detail,
    format_market_detail, format_market_price, format_search_results, format_trending_events,
};
use polynostr::polymarket::{Dec, EventInfo, MarketInfo, SearchInfo};
use polynostr::time::Timestamp;

fn dec(m: u128, s: u32) -> Dec {
    Dec::new(m, s).expect("in range")
}

fn market(question: &str, slug: &str) -> MarketInfo {
    MarketInfo {
        question: Some(question.to_owned()),
        slug: Some(slug.to_owned()),
        description: None,
        outcomes: Some(vec!["Yes".to_owned(), "No".to_owned()]),
        outcome_prices: Some(vec![dec(52, 2), dec(48, 2)]),
        volume: Some(dec(12_400_000, 0)),
        liquidity: Some(dec(35_250, 0)),
        end_date: None,
        resolution_source: None,
    }
}

fn event(title: &str, slug: &str) -> EventInfo {
    EventInfo {
        title: Some(title.to_owned()),
        slug: Some(slug.to_owned()),
        description: None,
        volume: Some(dec(2_500_000, 0)),
        volume_24hr: Some(dec(150_000, 0)),
        liquidity: None,
        end_date: None,
        closed: Some(false),
        archived: Some(false),
        markets: Some(vec![market("Will it?", "will-it")]),
    }
}

#[test]
fn test_format_duration_hours_and_minutes() {
    assert_eq!(format_duration(5 * 3600 + 23 * 60), "5h 23m");
}

#[test]
fn test_format_duration_minutes_only() {
    assert_eq!(format_duration(45 * 60), "45m");
}

#[test]
fn test_format_duration_less_than_minute() {
    assert_eq!(format_duration(30), "<1m");
}

#[test]
fn test_format_duration_exactly_one_minute() {
    assert_eq!(format_duration(60), "1m");
}

#[test]
fn test_format_duration_negative() {
    assert_eq!(format_duration(-100), "Closed");
}

#[test]
fn test_format_duration_zero_hours() {
    assert_eq!(format_duration(5 * 60), "5m");
}

#[test]
fn test_format_duration_23_hours() {
    assert_eq!(format_duration(23 * 3600 + 59 * 60), "23h 59m");
}

#[test]
fn test_format_closing_events_empty() {
    let events: Vec<EventInfo> = vec![];
    assert_eq!(format_closing_events(&events), "No markets closing in the next 24 hours.");
}

#[test]
fn market_price_summary() {
    let m = market("Will BTC hit 100k?", "btc-100k");
    assert_eq!(
        format_market_price(&m),
        "Will BTC hit 100k?\n\nYes: 52¢  |  No: 48¢\nVolume: $12.4M  |  Liquidity: $35.2K\n\npolymarket.com/market/btc-100k"
    );
}

#[test]
fn market_price_with_ends_line() {
    let mut m = market("Q", "q");
    m.end_date = Some(Timestamp { secs: 1_773_705_600, nanos: 0 });
    m.liquidity = None;
    m.volume = Some(dec(999, 0));
    let text = format_market_price(&m);
    assert_eq!(text, "Q\n\nYes: 52¢  |  No: 48¢\nVolume: $999\nEnds: Mar 17, 2026\n\npolymarket.com/market/q");
}

#[test]
fn cents_round_half_up() {
    let mut m = market("Q", "q");
    m.outcome_prices = Some(vec![dec(525, 3), dec(5349, 4)]);
    m.volume = None;
    m.liquidity = None;
    m.slug = None;
    assert_eq!(format_market_price(&m), "Q\n\nYes: 53¢  |  No: 53¢\n\n");
}

#[test]
fn multibyte_description_is_cut_at_a_character_boundary() {
    let mut e = event("T", "t");
    e.description = Some("é".repeat(300));
    let text = format_event_detail(&e);
    let expected = format!("\n{}...\n", "é".repeat(248));
    assert!(text.contains(&expected));
    let mut m = market("T", "t");
    m.description = Some(format!("ab{}", "€".repeat(200)));
    let text = format_market_detail(&m);
    let expected = format!("\nab{}...\n", "€".repeat(165));
    assert!(text.contains(&expected));
}

#[test]
fn description_of_exactly_500_bytes_is_whole() {
    let mut m = market("T", "t");
    m.description = Some("x".repeat(500));
    let text = format_market_detail(&m);
    assert!(text.contains(&format!("\n{}\n", "x".repeat(500))));
    assert!(!text.contains("..."));
}

#[test]
fn search_results_list_first_five() {
    let mut events = Vec::new();
    for i in 0..7 {
        events.push(event(&format!("E{i}"), &format!("e-{i}")));
    }
    let text = format_search_results(&SearchInfo { events: Some(events) }, "bitcoin");
    assert!(text.starts_with("Search results for \"bitcoin\":\n\n1. E0\n   Volume: $2.5M  |  Yes: 52¢\n   Slug: e-0\n\n2. E1"));
    assert!(text.contains("5. E4"));
    assert!(!text.contains("6. E5"));
    assert!(text.ends_with("Slug: e-4"));
}

#[test]
fn search_results_empty() {
    let none = format_search_results(&SearchInfo { events: None }, "x");
    assert_eq!(none, "Search results for \"x\":\n\nNo markets found. Try a different search term.");
    let empty = format_search_results(&SearchInfo { events: Some(vec![]) }, "x");
    assert_eq!(empty, none);
}

#[test]
fn market_detail_rule_and_description() {
    let mut m = market("Short", "s");
    m.description = Some("Plain description.".to_owned());
    m.resolution_source = Some(String::new());
    let text = format_market_detail(&m);
    assert_eq!(
        text,
        "Short\n─────\n\nPlain description.\n\nPrices:\n  Yes: 52¢\n  No: 48¢\n\nVolume: $12.4M\nLiquidity: $35.2K\n\npolymarket.com/market/s"
    );
}

#[test]
fn long_description_is_cut() {
    let mut m = market("T", "t");
    m.description = Some("a".repeat(600));
    let text = format_market_detail(&m);
    let expected = format!("\n{}...\n", "a".repeat(497));
    assert!(text.contains(&expected));
}

#[test]
fn event_detail_lists_markets() {
    let e = event("Bitcoin Event", "btc-event");
    let text = format_event_detail(&e);
    assert_eq!(
        text,
        "Bitcoin Event\n─────────────\n\nTotal Volume: $2.5M\n\nMarkets (1):\n\n1. Will it?\n   Prices: Yes: 52¢, No: 48¢\n   Volume: $12.4M\n   Slug: will-it\n\npolymarket.com/event/btc-event"
    );
}

#[test]
fn trending_lists_at_most_ten() {
    assert_eq!(format_trending_events(&vec![]), "No trending markets found at the moment.");
    let mut events = Vec::new();
    for i in 0..12 {
        events.push(event(&format!("T{i}"), &format!("t-{i}")));
    }
    let text = format_trending_events(&events);
    assert!(text.starts_with("Trending Markets on Polymarket:\n\n1. T0\n   Vol 24h: $150.0K  |  Total: $2.5M  |  Yes: 52¢\n   Slug: t-0\n\n"));
    assert!(text.contains("10. T9"));
    assert!(!text.contains("11. T10"));
}

#[test]
fn closing_entries_show_time_left() {
    let now = Timestamp { secs: 1_000_000, nanos: 0 };
    let mut e = event("Soon", "soon");
    e.end_date = Some(Timestamp { secs: 1_000_000 + 5 * 3600 + 23 * 60 + 10, nanos: 0 });
    let text = format_closing_events_at(&vec![e], now);
    assert_eq!(
        text,
        "Markets Closing Soon:\n\n1. Soon\n   Closes in 5h 23m  |  Vol 24h: $150.0K  |  Yes: 52¢\n   Slug: soon"
    );
}

#[test]
fn closing_entry_without_data() {
    let now = Timestamp { secs: 1_000_000, nanos: 0 };
    let e = EventInfo {
        title: None,
        slug: None,
        description: None,
        volume: None,
        volume_24hr: None,
        liquidity: None,
        end_date: None,
        closed: None,
        archived: None,
        markets: None,
    };
    let text = format_closing_events_at(&vec![e], now);
    assert_eq!(
        text,
        "Markets Closing Soon:\n\n1. Unknown Event\n   Closes in Unknown  |  Vol 24h: N/A  |  Yes: N/A\n   Slug: unknown"
    );
}
