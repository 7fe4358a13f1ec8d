//! Bot settings read from environment values: the relay list, the alert
//! stream switch, the numeric alert settings and their checks.

use vstd::prelude::*;
use crate::number::{is_uint_shape, is_uint_text, parse_unsigned, uint_body};
use crate::text::{
    ascii_lower_seq, ascii_lowercase, chars_of, digits_val, push_str, seq_eq, string_from_range,
    string_of, trim, trim_bounds, views,
};

verus! {

/// The raw environment values the settings are read from; `None` where the
/// variable is not set.
pub struct RawSettings {
    pub relays: Option<String>,
    pub stream_enabled: Option<String>,
    pub poll_interval_seconds: Option<String>,
    pub reconnect_backoff_initial_seconds: Option<String>,
    pub reconnect_backoff_max_seconds: Option<String>,
    pub max_per_user: Option<String>,
    pub cooldown_seconds: Option<String>,
    pub hysteresis_bps: Option<String>,
    pub notifications_per_minute: Option<String>,
    pub db_path: Option<String>,
}

/// The settings of the bot apart from its keys.
pub struct Settings {
    pub relays: Vec<String>,
    pub alert_stream_enabled: bool,
    pub alert_poll_interval_seconds: u64,
    pub alert_reconnect_backoff_initial_seconds: u64,
    pub alert_reconnect_backoff_max_seconds: u64,
    pub alert_max_per_user: usize,
    pub alert_cooldown_seconds: u64,
    pub alert_hysteresis_bps: u32,
    pub alert_notifications_per_minute: usize,
    pub alert_db_path: String,
}

/// The view of an optional string.
pub open spec fn ov(o: Option<String>) -> Option<Seq<char>> {
    match o {
        Some(s) => Some(s@),
        None => None,
    }
}

// ------------------------------------------------------------ relays

/// `s` split at every `c`, as `str::split` yields the pieces (an empty
/// text gives one empty piece).
pub open spec fn split_on(s: Seq<char>, c: char) -> Seq<Seq<char>>
    decreases s.len(),
{
    if s.len() == 0 {
        seq![seq![]]
    } else {
        let p = split_on(s.drop_last(), c);
        if s.last() == c {
            p.push(seq![])
        } else {
            p.update(p.len() - 1, p.last().push(s.last()))
        }
    }
}

proof fn lemma_split_on_len(s: Seq<char>, c: char)
    ensures
        split_on(s, c).len() >= 1,
    decreases s.len(),
{
    if s.len() > 0 {
        lemma_split_on_len(s.drop_last(), c);
    }
}

/// The trimmed pieces that are not empty, in order.
pub open spec fn kept(ps: Seq<Seq<char>>) -> Seq<Seq<char>>
    decreases ps.len(),
{
    if ps.len() == 0 {
        seq![]
    } else if trim(ps.last()).len() > 0 {
        kept(ps.drop_last()).push(trim(ps.last()))
    } else {
        kept(ps.drop_last())
    }
}

/// The relays used when none are configured.
pub open spec fn default_relays() -> Seq<Seq<char>> {
    seq!["wss://relay.damus.io"@, "wss://nos.lol"@, "wss://relay.nostr.band"@]
}

/// The relay list: the comma-separated, trimmed, non-empty entries of the
/// value, or the default relays when it is not set.
pub open spec fn relays_of(raw: Option<Seq<char>>) -> Seq<Seq<char>> {
    match raw {
        Some(v) => kept(split_on(v, ',')),
        None => default_relays(),
    }
}

fn push_kept(out: &mut Vec<String>, v: &Vec<char>, from: usize, to: usize)
    requires
        from <= to <= v.len(),
    ensures
        views(final(out)@) == views(old(out)@) + kept(seq![v@.subrange(from as int, to as int)]),
{
    let piece = chars_of(string_from_range(v, from, to).as_str());
    let (a, b) = trim_bounds(&piece);
    let ghost p = v@.subrange(from as int, to as int);
    assert(piece@ == p);
    assert(seq![p].drop_last() =~= Seq::<Seq<char>>::empty());
    assert(seq![p].last() == p);
    assert(kept(Seq::<Seq<char>>::empty()) == Seq::<Seq<char>>::empty());
    if a < b {
        let t = string_from_range(&piece, a, b);
        assert(kept(seq![p]) =~= seq![t@]);
        out.push(t);
        assert(views(final(out)@) =~= views(old(out)@) + kept(seq![p]));
    } else {
        assert(kept(seq![p]) =~= Seq::<Seq<char>>::empty());
        assert(views(final(out)@) =~= views(old(out)@) + kept(seq![p]));
    }
}

proof fn lemma_kept_push(ps: Seq<Seq<char>>, x: Seq<char>)
    ensures
        kept(ps.push(x)) == kept(ps) + kept(seq![x]),
{
    assert(ps.push(x).drop_last() =~= ps);
    assert(seq![x].drop_last() =~= Seq::<Seq<char>>::empty());
    assert(seq![x].last() == x);
    assert(ps.push(x).last() == x);
    assert(kept(Seq::<Seq<char>>::empty()) == Seq::<Seq<char>>::empty());
    if trim(x).len() > 0 {
        assert(kept(seq![x]) =~= seq![trim(x)]);
    } else {
        assert(kept(seq![x]) =~= Seq::<Seq<char>>::empty());
    }
    assert(kept(ps.push(x)) =~= kept(ps) + kept(seq![x]));
}

/// Splits a comma-separated relay list into its trimmed, non-empty entries.
pub fn split_relays(value: &str) -> (out: Vec<String>)
    ensures
        views(out@) == kept(split_on(value@, ',')),
{
    let v = chars_of(value);
    let mut out: Vec<String> = Vec::new();
    let mut start: usize = 0;
    let mut i: usize = 0;
    let ghost mut done: Seq<Seq<char>> = seq![];
    assert(v@.take(0) =~= Seq::<char>::empty());
    while i < v.len()
        invariant
            start <= i <= v.len(),
            split_on(v@.take(i as int), ',') == done.push(v@.subrange(start as int, i as int)),
            views(out@) == kept(done),
        decreases v.len() - i,
    {
        assert(v@.take(i + 1).drop_last() =~= v@.take(i as int));
        assert(v@.take(i + 1).last() == v@[i as int]);
        if v[i] == ',' {
            proof {
                lemma_kept_push(done, v@.subrange(start as int, i as int));
            }
            push_kept(&mut out, &v, start, i);
            proof {
                done = done.push(v@.subrange(start as int, i as int));
                assert(v@.subrange(i + 1, i + 1) =~= Seq::<char>::empty());
            }
            start = i + 1;
        } else {
            proof {
                let d = done.push(v@.subrange(start as int, i as int));
                assert(v@.subrange(start as int, i as int).push(v@[i as int]) =~= v@.subrange(start as int, i + 1));
                assert(d.last() == v@.subrange(start as int, i as int));
                assert(d.update(d.len() - 1, d.last().push(v@[i as int])) =~= done.push(
                    v@.subrange(start as int, i + 1),
                ));
            }
        }
        i += 1;
    }
    proof {
        lemma_kept_push(done, v@.subrange(start as int, v.len() as int));
        assert(v@.take(v.len() as int) =~= v@);
    }
    push_kept(&mut out, &v, start, v.len());
    out
}

/// The relay list from its environment value.
pub fn relays_from(raw: &Option<String>) -> (out: Vec<String>)
    ensures
        views(out@) == relays_of(ov(*raw)),
{
    match raw {
        Some(v) => split_relays(v.as_str()),
        None => {
            let mut out: Vec<String> = Vec::new();
            out.push(string_of("wss://relay.damus.io"));
            out.push(string_of("wss://nos.lol"));
            out.push(string_of("wss://relay.nostr.band"));
            assert(views(out@) =~= default_relays());
            out
        },
    }
}

proof fn lemma_kept_nonempty(ps: Seq<Seq<char>>)
    ensures
        forall|k: int| 0 <= k < kept(ps).len() ==> (#[trigger] kept(ps)[k]).len() > 0,
    decreases ps.len(),
{
    if ps.len() > 0 {
        lemma_kept_nonempty(ps.drop_last());
        let prev = kept(ps.drop_last());
        assert forall|k: int| 0 <= k < kept(ps).len() implies (#[trigger] kept(ps)[k]).len() > 0 by {
            if k < prev.len() {
                assert(kept(ps)[k] == prev[k]);
            }
        }
    }
}

/// No relay in the list is empty, whatever the configured value.
pub proof fn law_relays_not_empty(raw: Option<Seq<char>>)
    ensures
        forall|k: int| 0 <= k < relays_of(raw).len() ==> (#[trigger] relays_of(raw)[k]).len() > 0,
{
    match raw {
        Some(v) => lemma_kept_nonempty(split_on(v, ',')),
        None => {
            reveal_strlit("wss://relay.damus.io");
            reveal_strlit("wss://nos.lol");
            reveal_strlit("wss://relay.nostr.band");
        },
    }
}

// ------------------------------------------------------------ switches

/// The alert stream switch: on unless set to something other than `true`
/// (in any case) or `1`.
pub open spec fn stream_enabled_of(raw: Option<Seq<char>>) -> bool {
    match raw {
        Some(v) => ascii_lower_seq(v) == "true"@ || v == "1"@,
        None => true,
    }
}

/// Reads the alert stream switch.
pub fn stream_enabled_from(raw: &Option<String>) -> (b: bool)
    ensures
        b == stream_enabled_of(ov(*raw)),
{
    match raw {
        Some(v) => {
            let cs = chars_of(v.as_str());
            let low = ascii_lowercase(&cs);
            let lc = chars_of(low.as_str());
            seq_eq(&lc, "true") || seq_eq(&cs, "1")
        },
        None => true,
    }
}

// ------------------------------------------------------------ numbers

/// What `str::parse` reports of a text that is no unsigned integer in range:
/// empty, a bad digit, or too large.
pub open spec fn int_error_text(raw: Seq<char>) -> Seq<char> {
    if raw.len() == 0 {
        "cannot parse integer from empty string"@
    } else if !is_uint_text(raw) {
        "invalid digit found in string"@
    } else {
        "number too large to fit in target type"@
    }
}

/// A numeric setting: its default when unset, the value of an unsigned
/// integer text up to `max`, else the refusal naming the variable.
pub open spec fn setting_of(key: Seq<char>, raw: Option<Seq<char>>, default: nat, max: nat) -> Result<nat, Seq<char>> {
    match raw {
        None => Ok(default),
        Some(r) => if is_uint_text(r) && digits_val(uint_body(r)) <= max {
            Ok(digits_val(uint_body(r)))
        } else {
            Err(key + " must be a positive integer: "@ + int_error_text(r))
        },
    }
}

/// Reads a numeric setting.
pub fn parse_setting(key: &str, raw: &Option<String>, default: u64, max: u64) -> (r: Result<u64, String>)
    requires
        default <= max,
    ensures
        match r {
            Ok(n) => setting_of(key@, ov(*raw), default as nat, max as nat) == Ok::<nat, Seq<char>>(n as nat),
            Err(m) => setting_of(key@, ov(*raw), default as nat, max as nat) == Err::<nat, Seq<char>>(m@),
        },
{
    match raw {
        None => Ok(default),
        Some(text) => {
            let v = chars_of(text.as_str());
            match parse_unsigned(&v, max) {
                Some(n) => Ok(n),
                None => {
                    let mut m = string_of(key);
                    push_str(&mut m, " must be a positive integer: ");
                    if v.len() == 0 {
                        push_str(&mut m, "cannot parse integer from empty string");
                    } else if !is_uint_shape(&v) {
                        push_str(&mut m, "invalid digit found in string");
                    } else {
                        push_str(&mut m, "number too large to fit in target type");
                    }
                    assert(m@ =~= key@ + " must be a positive integer: "@ + int_error_text(v@));
                    Err(m)
                },
            }
        },
    }
}

// ------------------------------------------------------------ settings

/// The poll interval setting (default 15 s).
pub open spec fn poll_of(r: RawSettings) -> Result<nat, Seq<char>> {
    setting_of("ALERT_POLL_INTERVAL_SECONDS"@, ov(r.poll_interval_seconds), 15, u64::MAX as nat)
}

/// The first reconnect delay setting (default 2 s).
pub open spec fn backoff_initial_of(r: RawSettings) -> Result<nat, Seq<char>> {
    setting_of(
        "ALERT_RECONNECT_BACKOFF_INITIAL_SECONDS"@,
        ov(r.reconnect_backoff_initial_seconds),
        2,
        u64::MAX as nat,
    )
}

/// The longest reconnect delay setting (default 60 s).
pub open spec fn backoff_max_of(r: RawSettings) -> Result<nat, Seq<char>> {
    setting_of(
        "ALERT_RECONNECT_BACKOFF_MAX_SECONDS"@,
        ov(r.reconnect_backoff_max_seconds),
        60,
        u64::MAX as nat,
    )
}

/// The per-user alert cap setting (default 25).
pub open spec fn max_per_user_of(r: RawSettings) -> Result<nat, Seq<char>> {
    setting_of("ALERT_MAX_PER_USER"@, ov(r.max_per_user), 25, usize::MAX as nat)
}

/// The cooldown setting (default 120 s).
pub open spec fn cooldown_of(r: RawSettings) -> Result<nat, Seq<char>> {
    setting_of("ALERT_COOLDOWN_SECONDS"@, ov(r.cooldown_seconds), 120, u64::MAX as nat)
}

/// The hysteresis setting in basis points (default 50).
pub open spec fn hysteresis_of(r: RawSettings) -> Result<nat, Seq<char>> {
    setting_of("ALERT_HYSTERESIS_BPS"@, ov(r.hysteresis_bps), 50, u32::MAX as nat)
}

/// The notifications-per-minute setting (default 10).
pub open spec fn per_minute_of(r: RawSettings) -> Result<nat, Seq<char>> {
    setting_of("ALERT_NOTIFICATIONS_PER_MINUTE"@, ov(r.notifications_per_minute), 10, usize::MAX as nat)
}

/// Why the settings are refused, if they are: the first numeric value
/// that does not read, in the order above, then a poll interval under 3
/// seconds, then reconnect delays that are zero or out of order.
pub open spec fn settings_error(r: RawSettings) -> Option<Seq<char>> {
    if poll_of(r) is Err {
        Some(poll_of(r)->Err_0)
    } else if backoff_initial_of(r) is Err {
        Some(backoff_initial_of(r)->Err_0)
    } else if backoff_max_of(r) is Err {
        Some(backoff_max_of(r)->Err_0)
    } else if max_per_user_of(r) is Err {
        Some(max_per_user_of(r)->Err_0)
    } else if cooldown_of(r) is Err {
        Some(cooldown_of(r)->Err_0)
    } else if hysteresis_of(r) is Err {
        Some(hysteresis_of(r)->Err_0)
    } else if per_minute_of(r) is Err {
        Some(per_minute_of(r)->Err_0)
    } else if poll_of(r)->Ok_0 < 3 {
        Some("ALERT_POLL_INTERVAL_SECONDS must be >= 3"@)
    } else if backoff_initial_of(r)->Ok_0 == 0 || backoff_max_of(r)->Ok_0 < backoff_initial_of(r)->Ok_0 {
        Some("Reconnect backoff values are invalid"@)
    } else {
        None
    }
}

/// The database path: the value, or `alerts.sqlite3` when unset.
pub open spec fn db_path_of(raw: Option<Seq<char>>) -> Seq<char> {
    match raw {
        Some(p) => p,
        None => "alerts.sqlite3"@,
    }
}

/// Reads the settings, or the reason they are refused.
pub fn load_settings(raw: &RawSettings) -> (r: Result<Settings, String>)
    ensures
        r is Err <==> settings_error(*raw) is Some,
        r matches Err(m) ==> settings_error(*raw) == Some(m@),
        r matches Ok(s) ==> {
            &&& views(s.relays@) == relays_of(ov(raw.relays))
            &&& s.alert_stream_enabled == stream_enabled_of(ov(raw.stream_enabled))
            &&& poll_of(*raw) == Ok::<nat, Seq<char>>(s.alert_poll_interval_seconds as nat)
            &&& backoff_initial_of(*raw) == Ok::<nat, Seq<char>>(s.alert_reconnect_backoff_initial_seconds as nat)
            &&& backoff_max_of(*raw) == Ok::<nat, Seq<char>>(s.alert_reconnect_backoff_max_seconds as nat)
            &&& max_per_user_of(*raw) == Ok::<nat, Seq<char>>(s.alert_max_per_user as nat)
            &&& cooldown_of(*raw) == Ok::<nat, Seq<char>>(s.alert_cooldown_seconds as nat)
            &&& hysteresis_of(*raw) == Ok::<nat, Seq<char>>(s.alert_hysteresis_bps as nat)
            &&& per_minute_of(*raw) == Ok::<nat, Seq<char>>(s.alert_notifications_per_minute as nat)
            &&& s.alert_db_path@ == db_path_of(ov(raw.db_path))
        },
{
    let relays = relays_from(&raw.relays);
    let alert_stream_enabled = stream_enabled_from(&raw.stream_enabled);
    let poll = match parse_setting("ALERT_POLL_INTERVAL_SECONDS", &raw.poll_interval_seconds, 15, u64::MAX) {
        Ok(n) => n,
        Err(m) => return Err(m),
    };
    let initial = match parse_setting(
        "ALERT_RECONNECT_BACKOFF_INITIAL_SECONDS",
        &raw.reconnect_backoff_initial_seconds,
        2,
        u64::MAX,
    ) {
        Ok(n) => n,
        Err(m) => return Err(m),
    };
    let max = match parse_setting(
        "ALERT_RECONNECT_BACKOFF_MAX_SECONDS",
        &raw.reconnect_backoff_max_seconds,
        60,
        u64::MAX,
    ) {
        Ok(n) => n,
        Err(m) => return Err(m),
    };
    let per_user = match parse_setting("ALERT_MAX_PER_USER", &raw.max_per_user, 25, usize::MAX as u64) {
        Ok(n) => n as usize,
        Err(m) => return Err(m),
    };
    let cooldown = match parse_setting("ALERT_COOLDOWN_SECONDS", &raw.cooldown_seconds, 120, u64::MAX) {
        Ok(n) => n,
        Err(m) => return Err(m),
    };
    let hysteresis = match parse_setting("ALERT_HYSTERESIS_BPS", &raw.hysteresis_bps, 50, u32::MAX as u64) {
        Ok(n) => n as u32,
        Err(m) => return Err(m),
    };
    let per_minute = match parse_setting(
        "ALERT_NOTIFICATIONS_PER_MINUTE",
        &raw.notifications_per_minute,
        10,
        usize::MAX as u64,
    ) {
        Ok(n) => n as usize,
        Err(m) => return Err(m),
    };
    let db_path = match &raw.db_path {
        Some(p) => string_of(p.as_str()),
        None => string_of("alerts.sqlite3"),
    };
    if poll < 3 {
        return Err(string_of("ALERT_POLL_INTERVAL_SECONDS must be >= 3"));
    }
    if initial == 0 || max < initial {
        return Err(string_of("Reconnect backoff values are invalid"));
    }
    Ok(Settings {
        relays,
        alert_stream_enabled,
        alert_poll_interval_seconds: poll,
        alert_reconnect_backoff_initial_seconds: initial,
        alert_reconnect_backoff_max_seconds: max,
        alert_max_per_user: per_user,
        alert_cooldown_seconds: cooldown,
        alert_hysteresis_bps: hysteresis,
        alert_notifications_per_minute: per_minute,
        alert_db_path: db_path,
    })
}

// ------------------------------------------------------------ keys

#[verifier::external_type_specification]
#[verifier::external_body]
pub struct ExKeys(nostr_sdk::Keys);

/// Whether nostr's `Keys::parse` accepts the text as a secret key (hex or
/// bech32 `nsec`).
pub uninterp spec fn secret_key_parses(secret: Seq<char>) -> bool;

/// The text of the error nostr's `Keys::parse` gives for a refused key.
pub uninterp spec fn secret_key_error(secret: Seq<char>) -> Seq<char>;

/// Parses the bot's secret key.
/// Trusted: `nostr_sdk::Keys::parse`, a function of its argument alone; it
/// succeeds exactly when the key reads, and a refusal is given as the
/// error's display text. Nothing is claimed of the keys themselves.
#[verifier::external_body]
pub fn parse_secret_key(secret: &str) -> (r: Result<nostr_sdk::Keys, String>)
    ensures
        r is Ok <==> secret_key_parses(secret@),
        r matches Err(m) ==> m@ == secret_key_error(secret@),
{
    nostr_sdk::Keys::parse(secret).map_err(|e| e.to_string())
}

/// The bot's configuration: its keys and its settings.
pub struct Config {
    pub keys: nostr_sdk::Keys,
    pub settings: Settings,
}

/// Reads the configuration from the secret key text and the raw settings:
/// a key that does not parse is refused first, then the settings are read
/// as `load_settings` reads them.
pub fn load_config(secret: &str, raw: &RawSettings) -> (r: Result<Config, String>)
    ensures
        !secret_key_parses(secret@) ==> (r matches Err(m) && m@ == secret_key_error(secret@)),
        secret_key_parses(secret@) ==> {
            &&& (r is Err <==> settings_error(*raw) is Some)
            &&& (r matches Err(m) ==> settings_error(*raw) == Some(m@))
            &&& (r matches Ok(c) ==> {
                &&& views(c.settings.relays@) == relays_of(ov(raw.relays))
                &&& c.settings.alert_stream_enabled == stream_enabled_of(ov(raw.stream_enabled))
                &&& poll_of(*raw) == Ok::<nat, Seq<char>>(c.settings.alert_poll_interval_seconds as nat)
                &&& backoff_initial_of(*raw) == Ok::<nat, Seq<char>>(
                    c.settings.alert_reconnect_backoff_initial_seconds as nat,
                )
                &&& backoff_max_of(*raw) == Ok::<nat, Seq<char>>(
                    c.settings.alert_reconnect_backoff_max_seconds as nat,
                )
                &&& max_per_user_of(*raw) == Ok::<nat, Seq<char>>(c.settings.alert_max_per_user as nat)
                &&& cooldown_of(*raw) == Ok::<nat, Seq<char>>(c.settings.alert_cooldown_seconds as nat)
                &&& hysteresis_of(*raw) == Ok::<nat, Seq<char>>(c.settings.alert_hysteresis_bps as nat)
                &&& per_minute_of(*raw) == Ok::<nat, Seq<char>>(
                    c.settings.alert_notifications_per_minute as nat,
                )
                &&& c.settings.alert_db_path@ == db_path_of(ov(raw.db_path))
            })
        },
{
    let keys = match parse_secret_key(secret) {
        Ok(k) => k,
        Err(m) => return Err(m),
    };
    match load_settings(raw) {
        Ok(settings) => Ok(Config { keys, settings }),
        Err(m) => Err(m),
    }
}

} // verus!
