use polynostr::alerts::model::DeliveryChannel;
use polynostr::commands::{
    closing_error, help_text, market_not_found, price_not_found, route_command, search_error,
    trending_error, CommandAction,
};

#[test]
fn empty_message_gets_help() {
    match route_command("   ", None, DeliveryChannel::Nip17) {
        CommandAction::Reply(t) => assert_eq!(t, help_text()),
        _ => panic!("expected help"),
    }
}

#[test]
fn search_routes_with_query() {
    match route_command("/search bitcoin price", None, DeliveryChannel::Nip17) {
        CommandAction::Search(q) => assert_eq!(q, "bitcoin price"),
        _ => panic!("expected search"),
    }
    match route_command("SEARCH   x", None, DeliveryChannel::Nip17) {
        CommandAction::Search(q) => assert_eq!(q, "x"),
        _ => panic!("expected search"),
    }
}

#[test]
fn search_without_query_gets_usage() {
    match route_command("/search", None, DeliveryChannel::Nip17) {
        CommandAction::Reply(t) => assert_eq!(t, "Usage: /search <query>\n\nExample: /search bitcoin"),
        _ => panic!("expected usage"),
    }
}

#[test]
fn alert_commands_need_a_sender() {
    match route_command("alert list", None, DeliveryChannel::Nip17) {
        CommandAction::Reply(t) => {
            assert_eq!(t, "Alert commands are available only for messages with a valid sender pubkey.")
        },
        _ => panic!("expected refusal"),
    }
    match route_command("/alert list", Some("pk".to_owned()), DeliveryChannel::Nip04) {
        CommandAction::AlertList { owner } => assert_eq!(owner, "pk"),
        _ => panic!("expected list"),
    }
}

#[test]
fn alert_add_keeps_args() {
    match route_command("alert add btc above 52", Some("pk".to_owned()), DeliveryChannel::Nip04) {
        CommandAction::AlertAdd { owner, channel, args } => {
            assert_eq!(owner, "pk");
            assert_eq!(channel, DeliveryChannel::Nip04);
            assert_eq!(args, "btc above 52");
        },
        _ => panic!("expected add"),
    }
}

#[test]
fn unknown_command_is_named() {
    match route_command("/Foo bar", None, DeliveryChannel::Nip17) {
        CommandAction::Reply(t) => assert!(t.starts_with("Unknown command: \"/foo\"\n\n")),
        _ => panic!("expected unknown"),
    }
}

#[test]
fn lookup_failure_replies() {
    assert_eq!(search_error("btc", "Search failed: x"), "Error searching for \"btc\": Search failed: x");
    assert_eq!(
        price_not_found("s", "e"),
        "Could not find market \"s\".\n\ne\n\nTip: Use /search to find the correct slug."
    );
    assert_eq!(
        market_not_found("s", "e"),
        "Could not find event or market \"s\".\n\ne\n\nTip: Use /search to find the correct slug."
    );
    assert_eq!(trending_error("boom"), "Error fetching trending markets: boom");
    assert_eq!(closing_error("boom"), "Error fetching closing markets: boom");
}
