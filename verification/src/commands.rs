//! Reading a message into a command, the help and usage texts, and the
//! alert commands run against the in-memory store.

use vstd::prelude::*;
use crate::alerts::error::{user_message_of, AlertError};
use crate::alerts::manager::{distinct_slugs, stored, AlertManager};
use crate::alerts::model::{AlertStatus, AlertSubscription, DeliveryChannel, DeliveryTarget, TriggerState};
use crate::alerts::parser::{parse_add_args, parse_add_view};
use crate::alerts::repository::{
    active_count, active_of, ids_unique, index_of, owned_by, owner_may_change, with_status,
    InMemoryAlertRepository,
};
use crate::format::{
    alert_created_text, alert_list_text, format_alert_created, format_alert_list,
    format_alert_paused, format_alert_removed, format_alert_resumed,
};
use crate::text::{
    chars_of, is_whitespace, is_ws, join, join_strings, push_str, split_whitespace,
    string_from_range, string_of, trim, trim_str, views, words,
};

verus! {

/// The Unicode lower-case mapping of a text, as `str::to_lowercase` computes it.
pub uninterp spec fn lowercase(s: Seq<char>) -> Seq<char>;

/// Lower-cases a text by Unicode rules.
/// Trusted: `str::to_lowercase`; its result is named `lowercase`.
#[verifier::external_body]
fn to_lowercase(s: &str) -> (r: String)
    ensures
        r@ == lowercase(s@),
{
    s.to_lowercase()
}

/// The help text.
pub open spec fn help_text_spec() -> Seq<char> {
    "Polynostr Bot — Polymarket data on Nostr\n\
     \n\
     Commands:\n\
     /search <query>                 Search for prediction markets\n\
     /price <slug>                   Get current price for a market\n\
     /market <slug>                  Detailed market information\n\
     /trending                       Top active markets\n\
     /closing                        Markets closing in next 24 hours\n\
     /portfolio <address> [limit]    Portfolio snapshot (value + positions + trades)\n\
     /positions <address> [limit]    Open positions by wallet\n\
     /trades <address> [limit]       Recent trades by wallet\n\
     /alert add <slug> <rule> <v>   Create alert (rules: above/below/move)\n\
     /alert list                     List your alerts\n\
     /alert remove <id>              Remove alert\n\
     /alert pause <id>               Pause alert\n\
     /alert resume <id>              Resume alert\n\
     /alert test <id>                Send test notification\n\
     /help                           Show this message\n\
     \n\
     Examples:\n\
     /search bitcoin\n\
     /price will-bitcoin-hit-100k\n\
     /portfolio 0x56687bf447db6ffa42ffe2204a05edaa20f55839\n\
     /positions 0x56687bf447db6ffa42ffe2204a05edaa20f55839 8\n\
     /trades 0x56687bf447db6ffa42ffe2204a05edaa20f55839 8\n\
     /alert add will-bitcoin-hit-100k above 52\n\
     /alert list"@
}

/// The help text listing all commands.
pub fn help_text() -> (s: String)
    ensures
        s@ == help_text_spec(),
{
    string_of(
        "Polynostr Bot — Polymarket data on Nostr\n\
         \n\
         Commands:\n\
         /search <query>                 Search for prediction markets\n\
         /price <slug>                   Get current price for a market\n\
         /market <slug>                  Detailed market information\n\
         /trending                       Top active markets\n\
         /closing                        Markets closing in next 24 hours\n\
         /portfolio <address> [limit]    Portfolio snapshot (value + positions + trades)\n\
         /positions <address> [limit]    Open positions by wallet\n\
         /trades <address> [limit]       Recent trades by wallet\n\
         /alert add <slug> <rule> <v>   Create alert (rules: above/below/move)\n\
         /alert list                     List your alerts\n\
         /alert remove <id>              Remove alert\n\
         /alert pause <id>               Pause alert\n\
         /alert resume <id>              Resume alert\n\
         /alert test <id>                Send test notification\n\
         /help                           Show this message\n\
         \n\
         Examples:\n\
         /search bitcoin\n\
         /price will-bitcoin-hit-100k\n\
         /portfolio 0x56687bf447db6ffa42ffe2204a05edaa20f55839\n\
         /positions 0x56687bf447db6ffa42ffe2204a05edaa20f55839 8\n\
         /trades 0x56687bf447db6ffa42ffe2204a05edaa20f55839 8\n\
         /alert add will-bitcoin-hit-100k above 52\n\
         /alert list",
    )
}

/// What a message asks for.
#[derive(Debug)]
pub enum CommandAction {
    /// Answer with this text.
    Reply(String),
    /// Search markets for the query.
    Search(String),
    /// Show the price of the market with this slug.
    Price(String),
    /// Show the event or market with this slug.
    Market(String),
    /// Show trending events.
    Trending,
    /// Show events closing within a day.
    Closing,
    /// Add an alert from the `alert add` arguments.
    AlertAdd { owner: String, channel: DeliveryChannel, args: String },
    /// List the owner's alerts.
    AlertList { owner: String },
    /// Remove an alert.
    AlertRemove { owner: String, alert_id: String },
    /// Pause an alert.
    AlertPause { owner: String, alert_id: String },
    /// Resume an alert.
    AlertResume { owner: String, alert_id: String },
    /// Send a test notification for an alert.
    AlertTest { owner: String, alert_id: String },
}

/// Index of the first white-space character, or the length when none.
pub open spec fn first_ws(s: Seq<char>) -> nat
    decreases s.len(),
{
    if s.len() == 0 {
        0
    } else if is_ws(s[0]) {
        0
    } else {
        1 + first_ws(s.drop_first())
    }
}

/// What follows the first white-space character (nothing when there is
/// none), as `split_once(char::is_whitespace)` leaves it.
pub open spec fn after_first_ws(s: Seq<char>) -> Seq<char> {
    if first_ws(s) < s.len() {
        s.skip(first_ws(s) + 1int)
    } else {
        seq![]
    }
}

/// The reply for a message when the alert command has no subcommand.
pub open spec fn alert_usage() -> Seq<char> {
    "Usage: alert <add|list|remove|pause|resume|test> ..."@
}

/// `r` is a reply with text `t`.
pub open spec fn replies(r: CommandAction, t: Seq<char>) -> bool {
    r matches CommandAction::Reply(s) && s@ == t
}

/// The action an alert subcommand `sub` with arguments `args` asks for,
/// on behalf of `owner` over `channel`.
pub open spec fn alert_action_ok(
    sub: Seq<char>,
    args: Seq<char>,
    owner: Seq<char>,
    channel: DeliveryChannel,
    r: CommandAction,
) -> bool {
    let id = trim(args);
    if sub == "add"@ {
        r matches CommandAction::AlertAdd { owner: o, channel: c, args: a } && o@ == owner && c
            == channel && a@ == args
    } else if sub == "list"@ {
        r matches CommandAction::AlertList { owner: o } && o@ == owner
    } else if sub == "remove"@ {
        if id.len() == 0 {
            replies(r, "Usage: alert remove <alert-id>"@)
        } else {
            r matches CommandAction::AlertRemove { owner: o, alert_id: i } && o@ == owner && i@ == id
        }
    } else if sub == "pause"@ {
        if id.len() == 0 {
            replies(r, "Usage: alert pause <alert-id>"@)
        } else {
            r matches CommandAction::AlertPause { owner: o, alert_id: i } && o@ == owner && i@ == id
        }
    } else if sub == "resume"@ {
        if id.len() == 0 {
            replies(r, "Usage: alert resume <alert-id>"@)
        } else {
            r matches CommandAction::AlertResume { owner: o, alert_id: i } && o@ == owner && i@ == id
        }
    } else if sub == "test"@ {
        if id.len() == 0 {
            replies(r, "Usage: alert test <alert-id>"@)
        } else {
            r matches CommandAction::AlertTest { owner: o, alert_id: i } && o@ == owner && i@ == id
        }
    } else {
        replies(r, "Unknown alert subcommand. Use: alert <add|list|remove|pause|resume|test>"@)
    }
}

/// The usage text of `/search`.
pub open spec fn search_usage() -> Seq<char> {
    "Usage: /search <query>\n\nExample: /search bitcoin"@
}

/// The usage text of `/price`.
pub open spec fn price_usage() -> Seq<char> {
    "Usage: /price <market-slug>\n\nExample: /price will-bitcoin-hit-100k\n\nTip: Use /search to find market slugs."@
}

/// The usage text of `/market`.
pub open spec fn market_usage() -> Seq<char> {
    "Usage: /market <slug>\n\nExample: /market bitcoin-above-on-march-17\nExample: /market will-bitcoin-hit-100k\n\nTip: Use /search to find slugs."@
}

/// The action a message asks for. The first word, lower-cased, names the
/// command; an empty message asks for help; an unknown command is answered
/// with its name and the help text. Alert commands need a sender.
pub open spec fn route_ok(
    msg: Seq<char>,
    sender: Option<Seq<char>>,
    channel: DeliveryChannel,
    r: CommandAction,
) -> bool {
    let t = trim(msg);
    if t.len() == 0 {
        replies(r, help_text_spec())
    } else {
        let ws = words(t);
        let command = lowercase(
            if ws.len() > 0 {
                ws[0]
            } else {
                seq![]
            },
        );
        if command == "/alert"@ || command == "alert"@ {
            if ws.len() < 2 {
                replies(r, alert_usage())
            } else {
                match sender {
                    None => replies(
                        r,
                        "Alert commands are available only for messages with a valid sender pubkey."@,
                    ),
                    Some(owner) => alert_action_ok(
                        lowercase(ws[1]),
                        join(ws.skip(2), " "@),
                        owner,
                        channel,
                        r,
                    ),
                }
            }
        } else {
            let arg = trim(after_first_ws(t));
            if command == "/search"@ || command == "search"@ {
                if arg.len() == 0 {
                    replies(r, search_usage())
                } else {
                    r matches CommandAction::Search(q) && q@ == arg
                }
            } else if command == "/price"@ || command == "price"@ {
                if arg.len() == 0 {
                    replies(r, price_usage())
                } else {
                    r matches CommandAction::Price(q) && q@ == arg
                }
            } else if command == "/market"@ || command == "market"@ {
                if arg.len() == 0 {
                    replies(r, market_usage())
                } else {
                    r matches CommandAction::Market(q) && q@ == arg
                }
            } else if command == "/trending"@ || command == "trending"@ {
                r is Trending
            } else if command == "/closing"@ || command == "closing"@ {
                r is Closing
            } else if command == "/help"@ || command == "help"@ || command == "/start"@ {
                replies(r, help_text_spec())
            } else {
                replies(r, "Unknown command: \""@ + command + "\"\n\n"@ + help_text_spec())
            }
        }
    }
}

/// The first word of a message, in any case, names its command:
/// `/closing` (or `closing`) asks for the closing list, `/trending` (or
/// `trending`) for the trending list, `/help`, `help` or `/start` for the
/// help text, and `/search`, `/price` and `/market` (with or without the
/// slash) followed by an argument ask for a search, a price and a market
/// view of that argument. Different commands therefore ask for different
/// actions.
pub proof fn law_commands_route_by_first_word(
    msg: Seq<char>,
    sender: Option<Seq<char>>,
    channel: DeliveryChannel,
    r: CommandAction,
)
    requires
        route_ok(msg, sender, channel, r),
        words(trim(msg)).len() > 0,
    ensures
        ({
            let c = lowercase(words(trim(msg))[0]);
            let arg = trim(after_first_ws(trim(msg)));
            &&& (c == "/closing"@ || c == "closing"@) ==> r is Closing
            &&& (c == "/trending"@ || c == "trending"@) ==> r is Trending
            &&& (c == "/help"@ || c == "help"@ || c == "/start"@) ==> (r matches CommandAction::Reply(t)
                && t@ == help_text_spec())
            &&& ((c == "/search"@ || c == "search"@) && arg.len() > 0) ==> (r matches CommandAction::Search(
                q,
            ) && q@ == arg)
            &&& ((c == "/price"@ || c == "price"@) && arg.len() > 0) ==> (r matches CommandAction::Price(
                q,
            ) && q@ == arg)
            &&& ((c == "/market"@ || c == "market"@) && arg.len() > 0) ==> (r matches CommandAction::Market(
                q,
            ) && q@ == arg)
        }),
{
    reveal_strlit("/alert");
    reveal_strlit("alert");
    reveal_strlit("/search");
    reveal_strlit("search");
    reveal_strlit("/price");
    reveal_strlit("price");
    reveal_strlit("/market");
    reveal_strlit("market");
    reveal_strlit("/trending");
    reveal_strlit("trending");
    reveal_strlit("/closing");
    reveal_strlit("closing");
    reveal_strlit("/help");
    reveal_strlit("help");
    reveal_strlit("/start");
    assert("/alert"@.len() == 6 && "/alert"@[0] == '/' && "/alert"@[1] == 'a');
    assert("alert"@.len() == 5 && "alert"@[0] == 'a' && "alert"@[1] == 'l');
    assert("/search"@.len() == 7 && "/search"@[0] == '/' && "/search"@[1] == 's');
    assert("search"@.len() == 6 && "search"@[0] == 's' && "search"@[1] == 'e');
    assert("/price"@.len() == 6 && "/price"@[0] == '/' && "/price"@[1] == 'p');
    assert("price"@.len() == 5 && "price"@[0] == 'p' && "price"@[1] == 'r');
    assert("/market"@.len() == 7 && "/market"@[0] == '/' && "/market"@[1] == 'm');
    assert("market"@.len() == 6 && "market"@[0] == 'm' && "market"@[1] == 'a');
    assert("/trending"@.len() == 9 && "/trending"@[0] == '/' && "/trending"@[1] == 't');
    assert("trending"@.len() == 8 && "trending"@[0] == 't' && "trending"@[1] == 'r');
    assert("/closing"@.len() == 8 && "/closing"@[0] == '/' && "/closing"@[1] == 'c');
    assert("closing"@.len() == 7 && "closing"@[0] == 'c' && "closing"@[1] == 'l');
    assert("/help"@.len() == 5 && "/help"@[0] == '/' && "/help"@[1] == 'h');
    assert("help"@.len() == 4 && "help"@[0] == 'h' && "help"@[1] == 'e');
    assert("/start"@.len() == 6 && "/start"@[0] == '/' && "/start"@[1] == 's');
    if trim(msg).len() == 0 {
        assert(words(trim(msg)) =~= Seq::<Seq<char>>::empty());
    }
}

proof fn lemma_first_ws(s: Seq<char>, k: int)
    requires
        0 <= k <= s.len(),
        forall|j: int| 0 <= j < k ==> !is_ws(#[trigger] s[j]),
        k == s.len() || is_ws(s[k]),
    ensures
        first_ws(s) == k,
    decreases k,
{
    if k > 0 {
        let t = s.drop_first();
        assert forall|j: int| 0 <= j < k - 1 implies !is_ws(#[trigger] t[j]) by {
            assert(t[j] == s[j + 1]);
        }
        lemma_first_ws(t, k - 1);
    }
}

/// What follows the first white-space character of `v`.
fn rest_after_first_ws(v: &Vec<char>) -> (s: String)
    ensures
        s@ == after_first_ws(v@),
{
    let mut k: usize = 0;
    while k < v.len() && !is_whitespace(v[k])
        invariant
            k <= v.len(),
            forall|j: int| 0 <= j < k ==> !is_ws(#[trigger] v@[j]),
        decreases v.len() - k,
    {
        k += 1;
    }
    proof {
        lemma_first_ws(v@, k as int);
    }
    if k < v.len() {
        string_from_range(v, k + 1, v.len())
    } else {
        String::new()
    }
}

/// Checks an alert id argument; `None` when it is empty.
fn alert_id_arg(args: &str) -> (r: Option<String>)
    ensures
        r is None <==> trim(args@).len() == 0,
        r matches Some(s) ==> s@ == trim(args@),
{
    let id = trim_str(args);
    if id.as_str().is_empty() {
        None
    } else {
        Some(id)
    }
}

/// Reads a message into the action it asks for; `sender` is the hex key of
/// the author, when known.
pub fn route_command(message: &str, sender: Option<String>, channel: DeliveryChannel) -> (r:
    CommandAction)
    ensures
        route_ok(
            message@,
            match sender {
                Some(s) => Some(s@),
                None => None,
            },
            channel,
            r,
        ),
{
    let trimmed = trim_str(message);
    if trimmed.as_str().is_empty() {
        return CommandAction::Reply(help_text());
    }
    let tv = chars_of(trimmed.as_str());
    let parts = split_whitespace(&tv);
    let first: String = if parts.len() > 0 {
        parts[0].clone()
    } else {
        String::new()
    };
    let command = to_lowercase(first.as_str());
    let cmd = command.as_str();
    if crate::text::str_eq(cmd, "/alert") || crate::text::str_eq(cmd, "alert") {
        if parts.len() < 2 {
            return CommandAction::Reply(
                string_of("Usage: alert <add|list|remove|pause|resume|test> ..."),
            );
        }
        let mut rest: Vec<String> = Vec::new();
        let mut i: usize = 2;
        while i < parts.len()
            invariant
                2 <= i <= parts.len(),
                rest@ == parts@.subrange(2, i as int),
            decreases parts.len() - i,
        {
            rest.push(parts[i].clone());
            assert(rest@ =~= parts@.subrange(2, i + 1));
            i += 1;
        }
        assert(views(rest@) =~= views(parts@).skip(2));
        let args = join_strings(&rest, " ");
        let owner = match sender {
            None => {
                return CommandAction::Reply(
                    string_of(
                        "Alert commands are available only for messages with a valid sender pubkey.",
                    ),
                );
            },
            Some(o) => o,
        };
        let sub = to_lowercase(parts[1].as_str());
        let s = sub.as_str();
        if crate::text::str_eq(s, "add") {
            return CommandAction::AlertAdd { owner, channel, args };
        }
        if crate::text::str_eq(s, "list") {
            return CommandAction::AlertList { owner };
        }
        let (is_remove, is_pause, is_resume, is_test) = (
            crate::text::str_eq(s, "remove"),
            crate::text::str_eq(s, "pause"),
            crate::text::str_eq(s, "resume"),
            crate::text::str_eq(s, "test"),
        );
        if !(is_remove || is_pause || is_resume || is_test) {
            return CommandAction::Reply(
                string_of("Unknown alert subcommand. Use: alert <add|list|remove|pause|resume|test>"),
            );
        }
        let id = match alert_id_arg(args.as_str()) {
            None => {
                let usage = if is_remove {
                    "Usage: alert remove <alert-id>"
                } else if is_pause {
                    "Usage: alert pause <alert-id>"
                } else if is_resume {
                    "Usage: alert resume <alert-id>"
                } else {
                    "Usage: alert test <alert-id>"
                };
                return CommandAction::Reply(string_of(usage));
            },
            Some(id) => id,
        };
        if is_remove {
            return CommandAction::AlertRemove { owner, alert_id: id };
        } else if is_pause {
            return CommandAction::AlertPause { owner, alert_id: id };
        } else if is_resume {
            return CommandAction::AlertResume { owner, alert_id: id };
        } else {
            return CommandAction::AlertTest { owner, alert_id: id };
        }
    }
    let after = rest_after_first_ws(&tv);
    let arg = trim_str(after.as_str());
    let empty = arg.as_str().is_empty();
    if crate::text::str_eq(cmd, "/search") || crate::text::str_eq(cmd, "search") {
        if empty {
            CommandAction::Reply(string_of("Usage: /search <query>\n\nExample: /search bitcoin"))
        } else {
            CommandAction::Search(arg)
        }
    } else if crate::text::str_eq(cmd, "/price") || crate::text::str_eq(cmd, "price") {
        if empty {
            CommandAction::Reply(
                string_of(
                    "Usage: /price <market-slug>\n\nExample: /price will-bitcoin-hit-100k\n\nTip: Use /search to find market slugs.",
                ),
            )
        } else {
            CommandAction::Price(arg)
        }
    } else if crate::text::str_eq(cmd, "/market") || crate::text::str_eq(cmd, "market") {
        if empty {
            CommandAction::Reply(
                string_of(
                    "Usage: /market <slug>\n\nExample: /market bitcoin-above-on-march-17\nExample: /market will-bitcoin-hit-100k\n\nTip: Use /search to find slugs.",
                ),
            )
        } else {
            CommandAction::Market(arg)
        }
    } else if crate::text::str_eq(cmd, "/trending") || crate::text::str_eq(cmd, "trending") {
        CommandAction::Trending
    } else if crate::text::str_eq(cmd, "/closing") || crate::text::str_eq(cmd, "closing") {
        CommandAction::Closing
    } else if crate::text::str_eq(cmd, "/help") || crate::text::str_eq(cmd, "help")
        || crate::text::str_eq(cmd, "/start") {
        CommandAction::Reply(help_text())
    } else {
        let mut s = string_of("Unknown command: \"");
        push_str(&mut s, cmd);
        push_str(&mut s, "\"\n\n");
        let h = help_text();
        push_str(&mut s, h.as_str());
        CommandAction::Reply(s)
    }
}

/// The reply when an alert id is unknown.
pub open spec fn not_found_text(id: Seq<char>) -> Seq<char> {
    "Alert \""@ + id + "\" was not found. Use `alert list` to see active alerts."@
}

/// The reply when an alert belongs to someone else.
pub open spec fn unauthorized_text() -> Seq<char> {
    "You can only modify alerts that you created."@
}

/// The reply to an owner-checked change of alert `id`: `done` when it goes
/// through, otherwise why not.
pub open spec fn change_reply(s: Seq<AlertSubscription>, id: Seq<char>, owner: Seq<char>, done: Seq<char>) -> Seq<char> {
    if !crate::alerts::repository::has_id(s, id) {
        not_found_text(id)
    } else if !owner_may_change(s, id, owner) {
        unauthorized_text()
    } else {
        done
    }
}

proof fn lemma_owner_error_text(s: Seq<AlertSubscription>, id: Seq<char>, owner: Seq<char>, e: AlertError)
    requires
        crate::alerts::repository::owner_check(s, id, owner, e),
    ensures
        user_message_of(e) == change_reply(s, id, owner, seq![]),
{
}

/// `alert add`: reads the arguments, adds the alert, and answers with the
/// confirmation or with why not.
pub fn handle_add(
    manager: &mut AlertManager,
    repo: &mut InMemoryAlertRepository,
    owner_pubkey_hex: String,
    channel: DeliveryChannel,
    args: &str,
) -> (s: String)
    requires
        old(manager).wf(),
    ensures
        ids_unique(final(repo).view()),
        final(manager).wf(),
        final(manager).config_view() == old(manager).config_view(),
        final(manager).window() == old(manager).window(),
        match parse_add_view(args@) {
            Err(m) => s@ == m && final(repo).view() == old(repo).view()
                && final(manager).watched() == old(manager).watched(),
            Ok((slug, rule)) => if active_count(old(repo).view(), owner_pubkey_hex@)
                >= old(manager).config_view().max_alerts_per_user {
                &&& s@ == user_message_of(
                    AlertError::MaxAlertsReached(old(manager).config_view().max_alerts_per_user),
                )
                &&& final(repo).view() == old(repo).view()
                &&& final(manager).watched() == old(manager).watched()
            } else {
                exists|a: AlertSubscription|
                    {
                        &&& final(repo).view() == #[trigger] stored(old(repo).view(), a)
                        &&& a.slug@ == slug
                        &&& a.rule == rule
                        &&& a.status == AlertStatus::Active
                        &&& a.delivery == (DeliveryTarget { pubkey: owner_pubkey_hex, channel })
                        &&& a.trigger_state == TriggerState::new_spec()
                        &&& s@ == alert_created_text(a)
                        &&& final(manager).watched() == distinct_slugs(active_of(final(repo).view()))
                    }
            },
        },
{
    repo.ids_are_unique();
    match parse_add_args(args) {
        Err(e) => e.user_message(),
        Ok((slug, rule)) => match manager.add_alert(repo, owner_pubkey_hex, channel, slug, rule) {
            Ok(alert) => format_alert_created(&alert),
            Err(e) => e.user_message(),
        },
    }
}

/// The alerts in the opposite order.
fn reversed(v: Vec<AlertSubscription>) -> (r: Vec<AlertSubscription>)
    ensures
        r@ == v@.reverse(),
{
    let ghost all = v@;
    let mut src = v;
    let mut out: Vec<AlertSubscription> = Vec::new();
    while src.len() > 0
        invariant
            src@.len() <= all.len(),
            src@ == all.take(src@.len() as int),
            out@ == all.skip(src@.len() as int).reverse(),
        decreases src.len(),
    {
        let ghost n = src@.len();
        let a = src.pop().unwrap();
        proof {
            assert(a == all[n - 1]);
            assert(src@ =~= all.take(n - 1));
            assert(all.skip(n - 1) =~= seq![a] + all.skip(n as int));
            assert(all.skip(n - 1).reverse() =~= all.skip(n as int).reverse().push(a));
        }
        out.push(a);
    }
    assert(all.skip(0) =~= all);
    out
}

/// `alert list`: the owner's alerts, newest first (the store keeps them in
/// the order they were created).
pub fn handle_list(manager: &AlertManager, repo: &InMemoryAlertRepository, owner_pubkey_hex: &str) -> (s: String)
    ensures
        s@ == alert_list_text(owned_by(repo.view(), owner_pubkey_hex@).reverse()),
{
    match manager.list_alerts(repo, owner_pubkey_hex) {
        Ok(alerts) => format_alert_list(&reversed(alerts)),
        Err(e) => e.user_message(),
    }
}

/// `alert remove <id>`.
pub fn handle_remove(
    manager: &mut AlertManager,
    repo: &mut InMemoryAlertRepository,
    owner_pubkey_hex: &str,
    args: &str,
) -> (s: String)
    ensures
        ids_unique(final(repo).view()),
        final(manager).wf() == old(manager).wf(),
        final(manager).config_view() == old(manager).config_view(),
        final(manager).window() == old(manager).window(),
        trim(args@).len() == 0 ==> s@ == "Usage: alert remove <alert-id>"@ && final(repo).view()
            == old(repo).view(),
        trim(args@).len() > 0 ==> {
            let id = trim(args@);
            &&& s@ == change_reply(old(repo).view(), id, owner_pubkey_hex@, "Alert removed: "@ + id)
            &&& owner_may_change(old(repo).view(), id, owner_pubkey_hex@) ==> final(repo).view()
                == old(repo).view().remove(index_of(old(repo).view(), id))
            &&& !owner_may_change(old(repo).view(), id, owner_pubkey_hex@) ==> final(repo).view()
                == old(repo).view()
        },
{
    repo.ids_are_unique();
    let id = match alert_id_arg(args) {
        None => return string_of("Usage: alert remove <alert-id>"),
        Some(id) => id,
    };
    match manager.remove_alert(repo, owner_pubkey_hex, id.as_str()) {
        Ok(()) => format_alert_removed(id.as_str()),
        Err(e) => {
            proof {
                lemma_owner_error_text(old(repo).view(), id@, owner_pubkey_hex@, e);
            }
            e.user_message()
        },
    }
}

/// `alert pause <id>`.
pub fn handle_pause(
    manager: &AlertManager,
    repo: &mut InMemoryAlertRepository,
    owner_pubkey_hex: &str,
    args: &str,
) -> (s: String)
    ensures
        ids_unique(final(repo).view()),
        trim(args@).len() == 0 ==> s@ == "Usage: alert pause <alert-id>"@ && final(repo).view()
            == old(repo).view(),
        trim(args@).len() > 0 ==> {
            let id = trim(args@);
            let k = index_of(old(repo).view(), id);
            &&& s@ == change_reply(old(repo).view(), id, owner_pubkey_hex@, "Alert paused: "@ + id)
            &&& owner_may_change(old(repo).view(), id, owner_pubkey_hex@) ==> exists|t: crate::time::Timestamp|
                final(repo).view() == old(repo).view().update(
                    k,
                    #[trigger] with_status(old(repo).view()[k], AlertStatus::Paused, t),
                )
            &&& !owner_may_change(old(repo).view(), id, owner_pubkey_hex@) ==> final(repo).view()
                == old(repo).view()
        },
{
    repo.ids_are_unique();
    let id = match alert_id_arg(args) {
        None => return string_of("Usage: alert pause <alert-id>"),
        Some(id) => id,
    };
    match manager.pause_alert(repo, owner_pubkey_hex, id.as_str()) {
        Ok(_) => format_alert_paused(id.as_str()),
        Err(e) => {
            proof {
                lemma_owner_error_text(old(repo).view(), id@, owner_pubkey_hex@, e);
            }
            e.user_message()
        },
    }
}

/// `alert resume <id>`.
pub fn handle_resume(
    manager: &AlertManager,
    repo: &mut InMemoryAlertRepository,
    owner_pubkey_hex: &str,
    args: &str,
) -> (s: String)
    ensures
        ids_unique(final(repo).view()),
        trim(args@).len() == 0 ==> s@ == "Usage: alert resume <alert-id>"@ && final(repo).view()
            == old(repo).view(),
        trim(args@).len() > 0 ==> {
            let id = trim(args@);
            let k = index_of(old(repo).view(), id);
            &&& s@ == change_reply(old(repo).view(), id, owner_pubkey_hex@, "Alert resumed: "@ + id)
            &&& owner_may_change(old(repo).view(), id, owner_pubkey_hex@) ==> exists|t: crate::time::Timestamp|
                final(repo).view() == old(repo).view().update(
                    k,
                    #[trigger] with_status(old(repo).view()[k], AlertStatus::Active, t),
                )
            &&& !owner_may_change(old(repo).view(), id, owner_pubkey_hex@) ==> final(repo).view()
                == old(repo).view()
        },
{
    repo.ids_are_unique();
    let id = match alert_id_arg(args) {
        None => return string_of("Usage: alert resume <alert-id>"),
        Some(id) => id,
    };
    match manager.resume_alert(repo, owner_pubkey_hex, id.as_str()) {
        Ok(_) => format_alert_resumed(id.as_str()),
        Err(e) => {
            proof {
                lemma_owner_error_text(old(repo).view(), id@, owner_pubkey_hex@, e);
            }
            e.user_message()
        },
    }
}

/// `alert test <id>`: the reply, and the alert to send a test notification
/// to when the request is allowed.
pub fn handle_test(
    manager: &AlertManager,
    repo: &InMemoryAlertRepository,
    owner_pubkey_hex: &str,
    args: &str,
) -> (r: (String, Option<AlertSubscription>))
    ensures
        trim(args@).len() == 0 ==> r.0@ == "Usage: alert test <alert-id>"@ && r.1 is None,
        trim(args@).len() > 0 ==> {
            let id = trim(args@);
            let st = repo.view();
            &&& r.0@ == change_reply(st, id, owner_pubkey_hex@, "Test notification sent for alert: "@ + id)
            &&& owner_may_change(st, id, owner_pubkey_hex@) ==> r.1 == Some(st[index_of(st, id)])
            &&& !owner_may_change(st, id, owner_pubkey_hex@) ==> r.1 is None
        },
{
    let id = match alert_id_arg(args) {
        None => return (string_of("Usage: alert test <alert-id>"), None),
        Some(id) => id,
    };
    match manager.send_test(repo, owner_pubkey_hex, id.as_str()) {
        Ok(a) => {
            let mut s = string_of("Test notification sent for alert: ");
            push_str(&mut s, id.as_str());
            (s, Some(a))
        },
        Err(e) => (e.user_message(), None),
    }
}

// ------------------------------------------------------------ lookup failures

/// The reply when a search fails.
pub open spec fn search_error_text(query: Seq<char>, err: Seq<char>) -> Seq<char> {
    "Error searching for \""@ + query + "\": "@ + err
}

/// Replies to a failed search.
pub fn search_error(query: &str, err: &str) -> (s: String)
    ensures
        s@ == search_error_text(query@, err@),
{
    let mut s = string_of("Error searching for \"");
    push_str(&mut s, query);
    push_str(&mut s, "\": ");
    push_str(&mut s, err);
    s
}

/// The reply when a market cannot be fetched for its price.
pub open spec fn price_not_found_text(slug: Seq<char>, err: Seq<char>) -> Seq<char> {
    "Could not find market \""@ + slug + "\".\n\n"@ + err + "\n\nTip: Use /search to find the correct slug."@
}

/// Replies to a failed price lookup.
pub fn price_not_found(slug: &str, err: &str) -> (s: String)
    ensures
        s@ == price_not_found_text(slug@, err@),
{
    let mut s = string_of("Could not find market \"");
    push_str(&mut s, slug);
    push_str(&mut s, "\".\n\n");
    push_str(&mut s, err);
    push_str(&mut s, "\n\nTip: Use /search to find the correct slug.");
    s
}

/// The reply when neither an event nor a market has the slug.
pub open spec fn market_not_found_text(slug: Seq<char>, err: Seq<char>) -> Seq<char> {
    "Could not find event or market \""@ + slug + "\".\n\n"@ + err
        + "\n\nTip: Use /search to find the correct slug."@
}

/// Replies to a failed event-or-market lookup.
pub fn market_not_found(slug: &str, err: &str) -> (s: String)
    ensures
        s@ == market_not_found_text(slug@, err@),
{
    let mut s = string_of("Could not find event or market \"");
    push_str(&mut s, slug);
    push_str(&mut s, "\".\n\n");
    push_str(&mut s, err);
    push_str(&mut s, "\n\nTip: Use /search to find the correct slug.");
    s
}

/// The reply when the trending events cannot be fetched.
pub open spec fn trending_error_text(err: Seq<char>) -> Seq<char> {
    "Error fetching trending markets: "@ + err
}

/// Replies to a failed trending fetch.
pub fn trending_error(err: &str) -> (s: String)
    ensures
        s@ == trending_error_text(err@),
{
    let mut s = string_of("Error fetching trending markets: ");
    push_str(&mut s, err);
    s
}

/// The reply when the closing events cannot be fetched.
pub open spec fn closing_error_text(err: Seq<char>) -> Seq<char> {
    "Error fetching closing markets: "@ + err
}

/// Replies to a failed closing fetch.
pub fn closing_error(err: &str) -> (s: String)
    ensures
        s@ == closing_error_text(err@),
{
    let mut s = string_of("Error fetching closing markets: ");
    push_str(&mut s, err);
    s
}

} // verus!
