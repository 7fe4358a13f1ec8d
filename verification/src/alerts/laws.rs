//! Properties of the alert subsystem that span several operations.

use vstd::prelude::*;
use crate::alerts::evaluator::{elapsed_seconds, fires, within_hysteresis, EvaluatorConfig};
use crate::alerts::manager::{distinct_slugs, on_market, run_tick, stored, AlertManagerConfig};
use crate::alerts::model::{
    describe_rule, fixed2, round_half_even, AlertEvent, AlertRule, AlertStatus, AlertSubscription,
    MarketTick,
};
use crate::alerts::repository::{active_of, has_id, ids_unique, index_of, lookup, owned_by, with_trigger};
use crate::alerts::window::{allow_step, recent, recent_of, times_of};
use crate::text::{dec, dec_padded};
use crate::time::{nanos_between, ts_nanos, Timestamp};
use vstd::string::*;

verus! {

/// An alert that has not seen a price yet never fires: the first tick only
/// establishes the reference price.
pub proof fn law_first_tick_never_fires(cfg: EvaluatorConfig, a: AlertSubscription, tick: MarketTick)
    requires
        a.trigger_state.last_seen_price is None,
    ensures
        !fires(cfg, a, tick),
{
}

/// Once an alert has fired and the firing is recorded at `fired_at`, no tick
/// seen fewer than `cooldown_seconds` whole seconds later fires it again.
pub proof fn law_cooldown_blocks_refire(
    cfg: EvaluatorConfig,
    a: AlertSubscription,
    first: MarketTick,
    fired_at: Timestamp,
    updated: Timestamp,
    second: MarketTick,
)
    requires
        elapsed_seconds(second.seen_at, fired_at) < cfg.cooldown_seconds,
    ensures
        !fires(
            cfg,
            with_trigger(a, Some(first.price), Some(first.price), Some(fired_at), updated),
            second,
        ),
{
}

/// Once an alert has fired at a positive price and the firing is recorded,
/// no tick whose price is within the hysteresis band of that price fires it
/// again.
pub proof fn law_hysteresis_blocks_refire(
    cfg: EvaluatorConfig,
    a: AlertSubscription,
    first: MarketTick,
    fired_at: Timestamp,
    updated: Timestamp,
    second: MarketTick,
)
    requires
        first.price > 0,
        within_hysteresis(
            cfg,
            with_trigger(a, Some(first.price), Some(first.price), Some(fired_at), updated).trigger_state,
            second.price,
        ),
    ensures
        !fires(
            cfg,
            with_trigger(a, Some(first.price), Some(first.price), Some(fired_at), updated),
            second,
        ),
{
}

/// A crossing rule fires once per crossing: after a tick at or beyond the
/// threshold has been recorded, the next tick cannot fire the rule, whatever
/// its price.
pub proof fn law_crossing_fires_once(
    cfg: EvaluatorConfig,
    a: AlertSubscription,
    seen: u64,
    fired_price: Option<u64>,
    fired_at: Option<Timestamp>,
    updated: Timestamp,
    next: MarketTick,
)
    requires
        match a.rule {
            AlertRule::Above { threshold } => seen >= threshold,
            AlertRule::Below { threshold } => seen <= threshold,
            AlertRule::PercentMove { .. } => false,
        },
    ensures
        !fires(cfg, with_trigger(a, Some(seen), fired_price, fired_at, updated), next),
{
}

/// After saving an alert, looking up its id gives it back.
pub proof fn law_lookup_after_store(s: Seq<AlertSubscription>, a: AlertSubscription)
    requires
        ids_unique(s),
    ensures
        lookup(stored(s, a), a.id@) == Some(a),
{
    let t = stored(s, a);
    if has_id(s, a.id@) {
        let k = index_of(s, a.id@);
        assert(t[k].id@ == a.id@);
        let j = index_of(t, a.id@);
        assert(t[j].id@ == a.id@);
        if j != k {
            assert(s[j].id@ == t[j].id@);
            assert(s[k].id@ == a.id@);
        }
    } else {
        let k = s.len() as int;
        assert(t[k].id@ == a.id@);
        let j = index_of(t, a.id@);
        if j != k {
            assert(t[j] == s[j]);
        }
    }
}

/// After removing the alert with an id, looking the id up finds nothing.
pub proof fn law_lookup_after_remove(s: Seq<AlertSubscription>, id: Seq<char>)
    requires
        ids_unique(s),
        has_id(s, id),
    ensures
        lookup(s.remove(index_of(s, id)), id) is None,
{
    let k = index_of(s, id);
    let t = s.remove(k);
    if has_id(t, id) {
        let j = choose|j: int| 0 <= j < t.len() && #[trigger] t[j].id@ == id;
        let j2 = if j < k {
            j
        } else {
            j + 1
        };
        assert(t[j] == s[j2]);
    }
}

/// An alert saved for its owner is among the owner's alerts.
pub proof fn law_stored_alert_is_listed(s: Seq<AlertSubscription>, a: AlertSubscription)
    ensures
        owned_by(stored(s, a), a.delivery.pubkey@).contains(a),
{
    let t = stored(s, a);
    let p = |x: AlertSubscription| x.delivery.pubkey@ == a.delivery.pubkey@;
    let k = if has_id(s, a.id@) {
        index_of(s, a.id@)
    } else {
        s.len() as int
    };
    assert(t[k] == a);
    assert(t.contains(a));
    t.lemma_filter_contains(p, k);
}

/// The watched markets hold each market of the alerts once: a market is
/// watched exactly when some alert is on it, and none is watched twice.
pub proof fn law_watched_markets(s: Seq<AlertSubscription>)
    ensures
        distinct_slugs(s).no_duplicates(),
        forall|slug: Seq<char>|
            distinct_slugs(s).contains(slug) <==> exists|i: int|
                0 <= i < s.len() && #[trigger] s[i].slug@ == slug,
    decreases s.len(),
{
    if s.len() > 0 {
        let p = s.drop_last();
        law_watched_markets(p);
        let d = distinct_slugs(p);
        assert forall|slug: Seq<char>|
            distinct_slugs(s).contains(slug) <==> exists|i: int|
                0 <= i < s.len() && #[trigger] s[i].slug@ == slug by {
            if distinct_slugs(s).contains(slug) {
                if d.contains(slug) {
                    let i = choose|i: int| 0 <= i < p.len() && #[trigger] p[i].slug@ == slug;
                    assert(s[i] == p[i]);
                } else {
                    assert(slug == s.last().slug@) by {
                        let j = choose|j: int| 0 <= j < distinct_slugs(s).len() && distinct_slugs(s)[j] == slug;
                        assert(j == d.len());
                    }
                    assert(s[s.len() - 1].slug@ == slug);
                }
            }
            if exists|i: int| 0 <= i < s.len() && #[trigger] s[i].slug@ == slug {
                let i = choose|i: int| 0 <= i < s.len() && #[trigger] s[i].slug@ == slug;
                if i < p.len() {
                    assert(p[i] == s[i]);
                    assert(p[i].slug@ == slug);
                    assert(d.contains(slug));
                    let k = choose|k: int| 0 <= k < d.len() && d[k] == slug;
                    assert(distinct_slugs(s)[k] == slug);
                } else {
                    if !d.contains(slug) {
                        assert(distinct_slugs(s)[d.len() as int] == slug);
                    }
                }
            }
        }
    }
}

/// An active alert's market is watched once the alert is saved and the
/// watched markets are recomputed from the active alerts.
pub proof fn law_saved_alert_market_is_watched(s: Seq<AlertSubscription>, a: AlertSubscription)
    requires
        a.status == AlertStatus::Active,
    ensures
        distinct_slugs(active_of(stored(s, a))).contains(a.slug@),
{
    let t = stored(s, a);
    let p = |x: AlertSubscription| x.status == AlertStatus::Active;
    let k = if has_id(s, a.id@) {
        index_of(s, a.id@)
    } else {
        s.len() as int
    };
    assert(t[k] == a);
    t.lemma_filter_contains(p, k);
    let act = active_of(t);
    let j = choose|j: int| 0 <= j < act.len() && act[j] == a;
    law_watched_markets(act);
    assert(act[j].slug@ == a.slug@);
}

// ------------------------------------------------------ throughput limit

/// Asking `times.len()` times in a row whether `owner` may be sent a
/// notification: the window after, and how many were allowed.
pub open spec fn allow_run(
    m: Map<Seq<char>, Seq<Timestamp>>,
    owner: Seq<char>,
    times: Seq<Timestamp>,
    limit: nat,
) -> (Map<Seq<char>, Seq<Timestamp>>, nat)
    decreases times.len(),
{
    if times.len() == 0 {
        (m, 0)
    } else {
        let (m1, ok) = allow_step(m, owner, times[0], limit);
        let rest = allow_run(m1, owner, times.drop_first(), limit);
        (rest.0, rest.1 + if ok {
            1nat
        } else {
            0nat
        })
    }
}

/// The times of `w` at or after `from`.
pub open spec fn since(w: Seq<Timestamp>, from: Timestamp) -> Seq<Timestamp> {
    w.filter(|t: Timestamp| ts_nanos(t) >= ts_nanos(from))
}

proof fn lemma_filter_len_le<A>(s: Seq<A>, p: spec_fn(A) -> bool)
    ensures
        s.filter(p).len() <= s.len(),
    decreases s.len(),
{
    reveal(Seq::filter);
    if s.len() > 0 {
        lemma_filter_len_le(s.drop_last(), p);
    }
}

proof fn lemma_filter_twice<A>(s: Seq<A>, p: spec_fn(A) -> bool, q: spec_fn(A) -> bool)
    requires
        forall|x: A| #[trigger] q(x) ==> p(x),
    ensures
        s.filter(p).filter(q) == s.filter(q),
    decreases s.len(),
{
    reveal(Seq::filter);
    if s.len() > 0 {
        let r = s.drop_last();
        lemma_filter_twice(r, p, q);
        r.filter(p).lemma_filter_push(s.last(), q);
        r.lemma_filter_push(s.last(), q);
        r.lemma_filter_push(s.last(), p);
        assert(s =~= r.push(s.last()));
    }
}

proof fn lemma_allow_run_bound(
    m: Map<Seq<char>, Seq<Timestamp>>,
    owner: Seq<char>,
    times: Seq<Timestamp>,
    limit: nat,
    first: Timestamp,
    last: Timestamp,
    yes: nat,
)
    requires
        forall|i: int| 0 <= i < times.len() ==> ts_nanos(first) <= #[trigger] ts_nanos(times[i]) <= ts_nanos(last),
        nanos_between(last, first) < 60_000_000_000,
        yes <= since(times_of(m, owner), first).len(),
        yes <= limit,
    ensures
        yes + allow_run(m, owner, times, limit).1 <= limit,
    decreases times.len(),
{
    if times.len() > 0 {
        let now = times[0];
        let w = times_of(m, owner);
        let kept = recent_of(w, now);
        let ge = |t: Timestamp| ts_nanos(t) >= ts_nanos(first);
        let rc = |t: Timestamp| recent(now, t);
        assert forall|t: Timestamp| #[trigger] ge(t) implies rc(t) by {
            assert(ts_nanos(now) <= ts_nanos(last));
        }
        lemma_filter_twice(w, rc, ge);
        lemma_filter_len_le(kept, ge);
        let (m1, ok) = allow_step(m, owner, now, limit);
        assert(times_of(m1, owner) == if ok {
            kept.push(now)
        } else {
            kept
        });
        let yes1 = if ok {
            yes + 1
        } else {
            yes
        };
        if ok {
            kept.lemma_filter_push(now, ge);
            assert(ge(now));
        }
        assert forall|i: int| 0 <= i < times.drop_first().len() implies ts_nanos(first) <= #[trigger] ts_nanos(
            times.drop_first()[i],
        ) <= ts_nanos(last) by {
            assert(times.drop_first()[i] == times[i + 1]);
        }
        lemma_allow_run_bound(m1, owner, times.drop_first(), limit, first, last, yes1);
    }
}

/// The throughput cap: however many notifications an owner is due within
/// one minute, at most `limit` of them are allowed.
pub proof fn law_throughput_cap(
    m: Map<Seq<char>, Seq<Timestamp>>,
    owner: Seq<char>,
    times: Seq<Timestamp>,
    limit: nat,
)
    requires
        times.len() > 0,
        forall|i: int, j: int| 0 <= i <= j < times.len() ==> ts_nanos(#[trigger] times[i]) <= ts_nanos(#[trigger] times[j]),
        nanos_between(times.last(), times[0]) < 60_000_000_000,
    ensures
        allow_run(m, owner, times, limit).1 <= limit,
{
    assert forall|i: int| 0 <= i < times.len() implies ts_nanos(times[0]) <= #[trigger] ts_nanos(times[i]) <= ts_nanos(
        times.last(),
    ) by {
        assert(ts_nanos(times[0]) <= ts_nanos(times[i]));
        assert(ts_nanos(times[i]) <= ts_nanos(times[times.len() - 1]));
    }
    lemma_allow_run_bound(m, owner, times, limit, times[0], times.last(), 0);
}

proof fn lemma_run_tick_sends_from(
    cfg: AlertManagerConfig,
    w: Map<Seq<char>, Seq<Timestamp>>,
    s: Seq<AlertSubscription>,
    m: Seq<AlertSubscription>,
    tick: MarketTick,
    now: Timestamp,
)
    ensures
        forall|k: int|
            0 <= k < run_tick(cfg, w, s, m, tick, now).2.len() ==> {
                let (a, ev) = #[trigger] run_tick(cfg, w, s, m, tick, now).2[k];
                &&& m.contains(a)
                &&& ev == (AlertEvent { alert_id: a.id, slug: a.slug, price: tick.price, triggered_at: now })
            },
    decreases m.len(),
{
    if m.len() > 0 {
        let a = m[0];
        let (w1, d) = crate::alerts::manager::decide_spec(cfg, w, a, tick, now);
        let s1 = match d {
            crate::alerts::manager::TickDecision::Notify { .. } => s,
            crate::alerts::manager::TickDecision::Dropped => s,
            crate::alerts::manager::TickDecision::Record { seen_price } => crate::alerts::manager::record(
                s,
                a.id@,
                seen_price,
                None,
                None,
                now,
            ),
        };
        lemma_run_tick_sends_from(cfg, w1, s1, m.drop_first(), tick, now);
        let out = run_tick(cfg, w, s, m, tick, now).2;
        let rest = run_tick(cfg, w1, s1, m.drop_first(), tick, now).2;
        assert forall|k: int| 0 <= k < out.len() implies {
            let (b, ev) = #[trigger] out[k];
            &&& m.contains(b)
            &&& ev == (AlertEvent { alert_id: b.id, slug: b.slug, price: tick.price, triggered_at: now })
        } by {
            match d {
                crate::alerts::manager::TickDecision::Notify { .. } => {
                    if k == 0 {
                        assert(m[0] == out[k].0);
                    } else {
                        assert(out[k] == rest[k - 1]);
                        let c = rest[k - 1].0;
                        assert(m.drop_first().contains(c));
                        let j = choose|j: int| 0 <= j < m.drop_first().len() && m.drop_first()[j] == c;
                        assert(m[j + 1] == c);
                    }
                },
                _ => {
                    assert(out[k] == rest[k]);
                    let c = rest[k].0;
                    assert(m.drop_first().contains(c));
                    let j = choose|j: int| 0 <= j < m.drop_first().len() && m.drop_first()[j] == c;
                    assert(m[j + 1] == c);
                },
            }
        }
    }
}

/// Only active alerts on the ticked market are notified, each with an event
/// that names the alert and carries the tick's price and the instant of
/// handling.
pub proof fn law_only_active_alerts_notify(
    cfg: AlertManagerConfig,
    w: Map<Seq<char>, Seq<Timestamp>>,
    s: Seq<AlertSubscription>,
    tick: MarketTick,
    now: Timestamp,
)
    ensures
        forall|k: int|
            0 <= k < run_tick(cfg, w, s, on_market(active_of(s), tick.slug@), tick, now).2.len() ==> {
                let (a, ev) = #[trigger] run_tick(cfg, w, s, on_market(active_of(s), tick.slug@), tick, now).2[k];
                &&& a.status == AlertStatus::Active
                &&& a.slug@ == tick.slug@
                &&& ev.alert_id == a.id
                &&& ev.price == tick.price
                &&& ev.triggered_at == now
            },
{
    let act = active_of(s);
    let pa = |a: AlertSubscription| a.status == AlertStatus::Active;
    let pm = |a: AlertSubscription| a.slug@ == tick.slug@;
    let m = on_market(act, tick.slug@);
    lemma_run_tick_sends_from(cfg, w, s, m, tick, now);
    let out = run_tick(cfg, w, s, m, tick, now).2;
    assert forall|k: int| 0 <= k < out.len() implies {
        let (a, ev) = #[trigger] out[k];
        &&& a.status == AlertStatus::Active
        &&& a.slug@ == tick.slug@
        &&& ev.alert_id == a.id
        &&& ev.price == tick.price
        &&& ev.triggered_at == now
    } by {
        let a = out[k].0;
        assert(m.contains(a));
        let j = choose|j: int| 0 <= j < m.len() && m[j] == a;
        act.lemma_filter_pred(pm, j);
        lemma_filter_subset(act, pm, j);
        let i = choose|i: int| 0 <= i < act.len() && act[i] == a;
        s.lemma_filter_pred(pa, i);
    }
}

proof fn lemma_filter_subset(s: Seq<AlertSubscription>, p: spec_fn(AlertSubscription) -> bool, j: int)
    requires
        0 <= j < s.filter(p).len(),
    ensures
        s.contains(s.filter(p)[j]),
    decreases s.len(),
{
    reveal(Seq::filter);
    if s.len() > 0 {
        let t = s.drop_last();
        if p(s.last()) && j == s.filter(p).len() - 1 {
            assert(s.filter(p)[j] == s.last());
            assert(s[s.len() - 1] == s.last());
        } else {
            assert(s.filter(p)[j] == t.filter(p)[j]);
            lemma_filter_subset(t, p, j);
            let i = choose|i: int| 0 <= i < t.len() && t[i] == t.filter(p)[j];
            assert(s[i] == t[i]);
        }
    }
}

// ------------------------------------------------------------ rules

/// A percentage-move alert measures the move from its last seen price
/// `prev` to the tick's price relative to `prev`: with `percent` in
/// billionths of a percent, it fires only when `|price - prev| / prev * 100`
/// is at least `percent / 10^9`, so a smaller move never fires; and a move
/// that large does fire when no earlier firing holds it back.
pub proof fn law_percent_move_is_relative(cfg: EvaluatorConfig, a: AlertSubscription, tick: MarketTick)
    requires
        a.rule is PercentMove,
        a.trigger_state.last_seen_price matches Some(prev) && prev > 0,
    ensures
        ({
            let percent = a.rule->percent as int;
            let prev = a.trigger_state.last_seen_price->0 as int;
            let price = tick.price as int;
            let moved = if price >= prev {
                price - prev
            } else {
                prev - price
            };
            &&& moved * 100 * 1_000_000_000 < percent * prev ==> !fires(cfg, a, tick)
            &&& (moved * 100 * 1_000_000_000 >= percent * prev
                && a.trigger_state.last_triggered_at is None
                && a.trigger_state.last_triggered_price is None) ==> fires(cfg, a, tick)
        }),
{
}

/// An above alert fires only when the price crosses its threshold from
/// below (last seen price under it, new price at or over it), and a below
/// alert only when the price crosses from above (last seen over it, new at
/// or under it); such a crossing fires when no earlier firing holds it back.
pub proof fn law_threshold_crossing(cfg: EvaluatorConfig, a: AlertSubscription, tick: MarketTick)
    requires
        a.trigger_state.last_seen_price is Some,
    ensures
        ({
            let prev = a.trigger_state.last_seen_price->0;
            let price = tick.price;
            let fresh = a.trigger_state.last_triggered_at is None && a.trigger_state.last_triggered_price
                is None;
            &&& (a.rule matches AlertRule::Above { threshold } ==> (fires(cfg, a, tick) ==> prev
                < threshold && threshold <= price) && (fresh && prev < threshold && threshold <= price
                ==> fires(cfg, a, tick)))
            &&& (a.rule matches AlertRule::Below { threshold } ==> (fires(cfg, a, tick) ==> price
                <= threshold && threshold < prev) && (fresh && price <= threshold && threshold < prev
                ==> fires(cfg, a, tick)))
        }),
{
}

// ------------------------------------------------------------ window

proof fn lemma_filter_all(s: Seq<Timestamp>, p: spec_fn(Timestamp) -> bool)
    requires
        forall|i: int| 0 <= i < s.len() ==> p(#[trigger] s[i]),
    ensures
        s.filter(p) == s,
    decreases s.len(),
{
    reveal(Seq::filter);
    if s.len() > 0 {
        let t = s.drop_last();
        assert forall|i: int| 0 <= i < t.len() implies p(#[trigger] t[i]) by {
            assert(t[i] == s[i]);
        }
        lemma_filter_all(t, p);
        assert(p(s[s.len() - 1]));
        assert(t.push(s.last()) =~= s);
    }
}

proof fn lemma_filter_none(s: Seq<Timestamp>, p: spec_fn(Timestamp) -> bool)
    requires
        forall|i: int| 0 <= i < s.len() ==> !p(#[trigger] s[i]),
    ensures
        s.filter(p).len() == 0,
    decreases s.len(),
{
    reveal(Seq::filter);
    if s.len() > 0 {
        let t = s.drop_last();
        assert forall|i: int| 0 <= i < t.len() implies !p(#[trigger] t[i]) by {
            assert(t[i] == s[i]);
        }
        lemma_filter_none(t, p);
        assert(!p(s[s.len() - 1]));
    }
}

/// A notification stops counting against its owner once it is a full
/// minute old: an owner whose earlier notifications are all at least 60
/// seconds before `now` is allowed one more, whatever the limit (at least 1).
pub proof fn law_minute_old_notifications_do_not_count(
    m: Map<Seq<char>, Seq<Timestamp>>,
    owner: Seq<char>,
    now: Timestamp,
    limit: nat,
)
    requires
        limit >= 1,
        forall|i: int|
            0 <= i < times_of(m, owner).len() ==> ts_nanos(now) - ts_nanos(#[trigger] times_of(m, owner)[i])
                >= 60_000_000_000,
    ensures
        allow_step(m, owner, now, limit).1,
{
    let ts = times_of(m, owner);
    let p = |t: Timestamp| recent(now, t);
    assert forall|i: int| 0 <= i < ts.len() implies !p(#[trigger] ts[i]) by {
        assert(ts_nanos(now) - ts_nanos(ts[i]) >= 60_000_000_000);
    }
    lemma_filter_none(ts, p);
}

/// Notifications of the last minute count: an owner who already has
/// `limit` notifications, each less than 60 seconds before `now`, is not
/// allowed another.
pub proof fn law_notifications_within_a_minute_count(
    m: Map<Seq<char>, Seq<Timestamp>>,
    owner: Seq<char>,
    now: Timestamp,
    limit: nat,
)
    requires
        times_of(m, owner).len() >= limit,
        forall|i: int|
            0 <= i < times_of(m, owner).len() ==> ts_nanos(now) - ts_nanos(#[trigger] times_of(m, owner)[i])
                < 60_000_000_000,
    ensures
        !allow_step(m, owner, now, limit).1,
{
    let ts = times_of(m, owner);
    let p = |t: Timestamp| recent(now, t);
    assert forall|i: int| 0 <= i < ts.len() implies p(#[trigger] ts[i]) by {
        assert(ts_nanos(now) - ts_nanos(ts[i]) < 60_000_000_000);
    }
    lemma_filter_all(ts, p);
}

// ------------------------------------------------------------ descriptions

/// A rule's description names its kind first: an above rule reads
/// `above ...`, a below rule `below ...` and a move rule `moves by ...`;
/// so an above and a below rule on the same threshold never read alike.
pub proof fn law_description_names_the_rule(threshold: u64, percent: u64)
    ensures
        describe_rule(AlertRule::Above { threshold }).take(6) == "above "@,
        describe_rule(AlertRule::Below { threshold }).take(6) == "below "@,
        describe_rule(AlertRule::PercentMove { percent }).take(9) == "moves by "@,
        describe_rule(AlertRule::Above { threshold }) != describe_rule(AlertRule::Below { threshold }),
{
    reveal_strlit("above ");
    reveal_strlit("below ");
    reveal_strlit("moves by ");
    let a = describe_rule(AlertRule::Above { threshold });
    let b = describe_rule(AlertRule::Below { threshold });
    assert(a.take(6) =~= "above "@);
    assert(b.take(6) =~= "below "@);
    assert(describe_rule(AlertRule::PercentMove { percent }).take(9) =~= "moves by "@);
    assert(a[0] == 'a' && b[0] == 'b');
}

/// A threshold of a whole number `c` of cents reads as `c` with two zero
/// decimals and the cent sign: `below 40.00¢` for a below rule at 0.40.
pub proof fn law_whole_cent_thresholds(c: nat, threshold: u64)
    requires
        threshold == c * 10_000_000,
    ensures
        describe_rule(AlertRule::Above { threshold }) == "above "@ + dec(c) + ".00¢"@,
        describe_rule(AlertRule::Below { threshold }) == "below "@ + dec(c) + ".00¢"@,
{
    reveal_strlit(".00¢");
    reveal_strlit("¢");
    assert((c * 10_000_000) / 100_000 == c * 100 && (c * 10_000_000) % 100_000 == 0) by (nonlinear_arith);
    assert(round_half_even(threshold as nat, 100_000) == c * 100);
    assert((c * 100) / 100 == c && (c * 100) % 100 == 0) by (nonlinear_arith);
    reveal_with_fuel(dec_padded, 3);
    assert(dec_padded(0, 2) =~= seq!['0', '0']);
    assert(fixed2(c * 100) =~= dec(c) + seq!['.', '0', '0']);
    assert(describe_rule(AlertRule::Above { threshold }) =~= "above "@ + dec(c) + ".00¢"@);
    assert(describe_rule(AlertRule::Below { threshold }) =~= "below "@ + dec(c) + ".00¢"@);
}

} // verus!
