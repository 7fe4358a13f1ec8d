//! How an alert's rule, status and channel are written to storage and read
//! back: each as a short code, the rule with its value beside it.

use vstd::prelude::*;
use crate::alerts::error::AlertError;
use crate::alerts::model::{
    AlertRule, AlertStatus, AlertSubscription, DeliveryChannel, DeliveryTarget, TriggerState,
};
use crate::text::{push_str, str_eq, string_of};
use crate::time::Timestamp;

verus! {

/// The stored code of a rule's kind.
pub open spec fn rule_kind_code(rule: AlertRule) -> Seq<char> {
    match rule {
        AlertRule::Above { .. } => "above"@,
        AlertRule::Below { .. } => "below"@,
        AlertRule::PercentMove { .. } => "move"@,
    }
}

/// The stored value of a rule: its threshold or its percentage.
pub open spec fn rule_value(rule: AlertRule) -> u64 {
    match rule {
        AlertRule::Above { threshold } => threshold,
        AlertRule::Below { threshold } => threshold,
        AlertRule::PercentMove { percent } => percent,
    }
}

/// Encodes a rule as its kind code and value.
pub fn encode_rule(rule: &AlertRule) -> (r: (&'static str, u64))
    ensures
        r.0@ == rule_kind_code(*rule),
        r.1 == rule_value(*rule),
{
    match rule {
        AlertRule::Above { threshold } => ("above", *threshold),
        AlertRule::Below { threshold } => ("below", *threshold),
        AlertRule::PercentMove { percent } => ("move", *percent),
    }
}

/// The rule a stored kind and value stand for, or the storage error of an
/// unknown kind.
pub open spec fn rule_of(kind: Seq<char>, value: u64) -> Option<AlertRule> {
    if kind == "above"@ {
        Some(AlertRule::Above { threshold: value })
    } else if kind == "below"@ {
        Some(AlertRule::Below { threshold: value })
    } else if kind == "move"@ {
        Some(AlertRule::PercentMove { percent: value })
    } else {
        None
    }
}

/// Decodes a stored rule.
pub fn parse_rule(kind: &str, value: u64) -> (r: Result<AlertRule, AlertError>)
    ensures
        match r {
            Ok(rule) => rule_of(kind@, value) == Some(rule),
            Err(e) => rule_of(kind@, value) is None && (e matches AlertError::Storage(m) && m@
                == "unknown rule kind: "@ + kind@),
        },
{
    if str_eq(kind, "above") {
        Ok(AlertRule::Above { threshold: value })
    } else if str_eq(kind, "below") {
        Ok(AlertRule::Below { threshold: value })
    } else if str_eq(kind, "move") {
        Ok(AlertRule::PercentMove { percent: value })
    } else {
        let mut m = string_of("unknown rule kind: ");
        push_str(&mut m, kind);
        Err(AlertError::Storage(m))
    }
}

/// The stored code of a status.
pub open spec fn status_code_of(s: AlertStatus) -> Seq<char> {
    match s {
        AlertStatus::Paused => "paused"@,
        AlertStatus::Active => "active"@,
    }
}

/// Encodes a status.
pub fn status_code(s: AlertStatus) -> (r: &'static str)
    ensures
        r@ == status_code_of(s),
{
    match s {
        AlertStatus::Paused => "paused",
        AlertStatus::Active => "active",
    }
}

/// Decodes a status: `paused` is paused, anything else active.
pub fn status_from_code(raw: &str) -> (s: AlertStatus)
    ensures
        s == (if raw@ == "paused"@ {
            AlertStatus::Paused
        } else {
            AlertStatus::Active
        }),
{
    if str_eq(raw, "paused") {
        AlertStatus::Paused
    } else {
        AlertStatus::Active
    }
}

/// The stored code of a channel.
pub open spec fn channel_code_of(c: DeliveryChannel) -> Seq<char> {
    match c {
        DeliveryChannel::Nip04 => "nip04"@,
        DeliveryChannel::Nip17 => "nip17"@,
    }
}

/// Encodes a channel.
pub fn channel_code(c: DeliveryChannel) -> (r: &'static str)
    ensures
        r@ == channel_code_of(c),
{
    match c {
        DeliveryChannel::Nip04 => "nip04",
        DeliveryChannel::Nip17 => "nip17",
    }
}

/// Decodes a channel: `nip04` is NIP-04, anything else NIP-17.
pub fn channel_from_code(raw: &str) -> (c: DeliveryChannel)
    ensures
        c == (if raw@ == "nip04"@ {
            DeliveryChannel::Nip04
        } else {
            DeliveryChannel::Nip17
        }),
{
    if str_eq(raw, "nip04") {
        DeliveryChannel::Nip04
    } else {
        DeliveryChannel::Nip17
    }
}

/// What is written is read back: decoding the codes of a rule, a status
/// and a channel gives them again.
pub proof fn law_codes_round_trip(rule: AlertRule, s: AlertStatus, c: DeliveryChannel)
    ensures
        rule_of(rule_kind_code(rule), rule_value(rule)) == Some(rule),
        (if status_code_of(s) == "paused"@ {
            AlertStatus::Paused
        } else {
            AlertStatus::Active
        }) == s,
        (if channel_code_of(c) == "nip04"@ {
            DeliveryChannel::Nip04
        } else {
            DeliveryChannel::Nip17
        }) == c,
{
    reveal_strlit("above");
    reveal_strlit("below");
    reveal_strlit("move");
    reveal_strlit("paused");
    reveal_strlit("active");
    reveal_strlit("nip04");
    reveal_strlit("nip17");
    assert("below"@[0] != "above"@[0]);
    assert("move"@.len() != "above"@.len());
    assert("move"@.len() != "below"@.len());
    assert("active"@[0] != "paused"@[0]);
    assert("nip17"@[4] != "nip04"@[4]);
}

// ------------------------------------------------------------ stored rows

/// The instant an RFC 3339 text stands for, as chrono's
/// `DateTime::parse_from_rfc3339` reads it (taken to UTC), or `None` when
/// chrono refuses the text.
pub uninterp spec fn rfc3339_instant(raw: Seq<char>) -> Option<Timestamp>;

/// The display text of chrono's error for an RFC 3339 text it refuses.
pub uninterp spec fn rfc3339_error(raw: Seq<char>) -> Seq<char>;

/// Reads a stored RFC 3339 instant.
/// Trusted: `chrono::DateTime::parse_from_rfc3339`, then `with_timezone(&Utc)`
/// and its seconds and nanoseconds; a function of the text alone. The instant
/// is named `rfc3339_instant`, a refusal's display text `rfc3339_error`.
#[verifier::external_body]
pub fn parse_rfc3339(raw: &str) -> (r: Result<Timestamp, String>)
    ensures
        match r {
            Ok(t) => rfc3339_instant(raw@) == Some(t),
            Err(m) => rfc3339_instant(raw@) is None && m@ == rfc3339_error(raw@),
        },
{
    match chrono::DateTime::parse_from_rfc3339(raw) {
        Ok(d) => {
            let u = d.with_timezone(&chrono::Utc);
            Ok(Timestamp { secs: u.timestamp(), nanos: u.timestamp_subsec_nanos() })
        },
        Err(e) => Err(e.to_string()),
    }
}

/// Why a stored row is refused, if it is: an unknown rule kind first, then
/// the first time text chrono refuses (created, updated, last fired). The
/// message is the one the store reports.
pub open spec fn stored_error(
    rule_kind: Seq<char>,
    created_at: Seq<char>,
    updated_at: Seq<char>,
    last_triggered_at: Option<Seq<char>>,
) -> Option<Seq<char>> {
    if rule_of(rule_kind, 0) is None {
        Some("storage error: unknown rule kind: "@ + rule_kind)
    } else if rfc3339_instant(created_at) is None {
        Some(rfc3339_error(created_at))
    } else if rfc3339_instant(updated_at) is None {
        Some(rfc3339_error(updated_at))
    } else {
        match last_triggered_at {
            Some(t) => if rfc3339_instant(t) is None {
                Some(rfc3339_error(t))
            } else {
                None
            },
            None => None,
        }
    }
}

proof fn lemma_rule_of_kind(kind: Seq<char>, a: u64, b: u64)
    ensures
        (rule_of(kind, a) is None) == (rule_of(kind, b) is None),
{
}

/// The subscription a stored row holds: its codes decoded, its time texts
/// read, and its prices and rule value already in billionths; or the
/// storage error for the first field that does not read.
pub fn alert_from_stored(
    id: String,
    slug: String,
    rule_kind: &str,
    rule_value: u64,
    status: &str,
    created_at: &str,
    updated_at: &str,
    pubkey: String,
    channel: &str,
    last_seen_price: Option<u64>,
    last_triggered_price: Option<u64>,
    last_triggered_at: Option<String>,
) -> (r: Result<AlertSubscription, AlertError>)
    ensures
        r is Err <==> stored_error(
            rule_kind@,
            created_at@,
            updated_at@,
            match last_triggered_at {
                Some(t) => Some(t@),
                None => None,
            },
        ) is Some,
        r matches Err(e) ==> (e matches AlertError::Storage(m) && stored_error(
            rule_kind@,
            created_at@,
            updated_at@,
            match last_triggered_at {
                Some(t) => Some(t@),
                None => None,
            },
        ) == Some(m@)),
        r matches Ok(a) ==> {
            &&& a.id == id
            &&& a.slug == slug
            &&& rule_of(rule_kind@, rule_value) == Some(a.rule)
            &&& a.status == (if status@ == "paused"@ {
                AlertStatus::Paused
            } else {
                AlertStatus::Active
            })
            &&& rfc3339_instant(created_at@) == Some(a.created_at)
            &&& rfc3339_instant(updated_at@) == Some(a.updated_at)
            &&& a.delivery.pubkey == pubkey
            &&& a.delivery.channel == (if channel@ == "nip04"@ {
                DeliveryChannel::Nip04
            } else {
                DeliveryChannel::Nip17
            })
            &&& a.trigger_state.last_seen_price == last_seen_price
            &&& a.trigger_state.last_triggered_price == last_triggered_price
            &&& match last_triggered_at {
                Some(t) => a.trigger_state.last_triggered_at matches Some(at) && rfc3339_instant(t@)
                    == Some(at),
                None => a.trigger_state.last_triggered_at is None,
            }
        },
{
    proof {
        lemma_rule_of_kind(rule_kind@, rule_value, 0);
    }
    let rule = match parse_rule(rule_kind, rule_value) {
        Ok(rule) => rule,
        Err(_) => {
            let mut m = string_of("storage error: unknown rule kind: ");
            push_str(&mut m, rule_kind);
            return Err(AlertError::Storage(m));
        },
    };
    let st = status_from_code(status);
    let ch = channel_from_code(channel);
    let created = match parse_rfc3339(created_at) {
        Ok(t) => t,
        Err(m) => return Err(AlertError::Storage(m)),
    };
    let updated = match parse_rfc3339(updated_at) {
        Ok(t) => t,
        Err(m) => return Err(AlertError::Storage(m)),
    };
    let fired_at = match &last_triggered_at {
        Some(raw) => match parse_rfc3339(raw.as_str()) {
            Ok(t) => Some(t),
            Err(m) => return Err(AlertError::Storage(m)),
        },
        None => None,
    };
    Ok(AlertSubscription {
        id,
        slug,
        rule,
        status: st,
        created_at: created,
        updated_at: updated,
        delivery: DeliveryTarget { pubkey, channel: ch },
        trigger_state: TriggerState {
            last_seen_price,
            last_triggered_price,
            last_triggered_at: fired_at,
        },
    })
}

} // verus!
