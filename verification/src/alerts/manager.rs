//! The alert manager: admission of new alerts, the set of markets to watch,
//! ownership checks, the notification throughput limit, and the handling of
//! each market tick.

use vstd::prelude::*;
use crate::alerts::error::AlertError;
use crate::alerts::evaluator::{fires, AlertEvaluator, EvaluatorConfig};
use crate::alerts::model::{
    is_uuid_v4_text,
    AlertEvent, AlertRule, AlertStatus, AlertSubscription, DeliveryChannel, DeliveryTarget,
    MarketTick, TriggerState,
};
use crate::alerts::repository::{
    active_count, active_of, has_id, ids_unique, index_of, lookup, owned_by, owner_check,
    owner_may_change, with_status, with_trigger, InMemoryAlertRepository,
};
use crate::alerts::window::{allow_step, NotificationWindow};
use crate::text::{str_eq, views};
use crate::time::{utc_now, Timestamp};

verus! {

/// Limits and timing of the alert subsystem.
#[derive(Clone, Copy, Debug)]
pub struct AlertManagerConfig {
    pub max_alerts_per_user: usize,
    pub cooldown_seconds: u64,
    pub hysteresis_bps: u32,
    pub notifications_per_minute: usize,
    pub refresh_seconds: u64,
    pub stream_enabled: bool,
    pub reconnect_backoff_initial_seconds: u64,
    pub reconnect_backoff_max_seconds: u64,
}

/// What to do about one alert on one tick.
#[derive(Debug)]
pub enum TickDecision {
    /// Send the event, then record the tick and the firing.
    Notify { event: AlertEvent, seen_price: Option<u64> },
    /// The alert fired but its owner reached the throughput limit: nothing
    /// is sent and nothing is recorded.
    Dropped,
    /// The alert did not fire: record the tick.
    Record { seen_price: Option<u64> },
}

/// The distinct slugs of `s`, in order of first appearance.
pub open spec fn distinct_slugs(s: Seq<AlertSubscription>) -> Seq<Seq<char>>
    decreases s.len(),
{
    if s.len() == 0 {
        seq![]
    } else {
        let d = distinct_slugs(s.drop_last());
        if d.contains(s.last().slug@) {
            d
        } else {
            d.push(s.last().slug@)
        }
    }
}

/// The alerts of `s` on market `slug`, in order.
pub open spec fn on_market(s: Seq<AlertSubscription>, slug: Seq<char>) -> Seq<AlertSubscription> {
    s.filter(|a: AlertSubscription| a.slug@ == slug)
}

/// The evaluator configuration that a manager configuration implies.
pub open spec fn eval_config_of(c: AlertManagerConfig) -> EvaluatorConfig {
    EvaluatorConfig { cooldown_seconds: c.cooldown_seconds, hysteresis_bps: c.hysteresis_bps }
}

/// The decision on `alert` for `tick` at `now`, and the window after it.
pub open spec fn decide_spec(
    cfg: AlertManagerConfig,
    w: Map<Seq<char>, Seq<Timestamp>>,
    alert: AlertSubscription,
    tick: MarketTick,
    now: Timestamp,
) -> (Map<Seq<char>, Seq<Timestamp>>, TickDecision) {
    if fires(eval_config_of(cfg), alert, tick) {
        let (w2, ok) = allow_step(w, alert.delivery.pubkey@, now, cfg.notifications_per_minute as nat);
        if ok {
            (
                w2,
                TickDecision::Notify {
                    event: AlertEvent {
                        alert_id: alert.id,
                        slug: alert.slug,
                        price: tick.price,
                        triggered_at: now,
                    },
                    seen_price: Some(tick.price),
                },
            )
        } else {
            (w2, TickDecision::Dropped)
        }
    } else {
        (w, TickDecision::Record { seen_price: Some(tick.price) })
    }
}

/// The store after recording a tick for the alert with this id.
pub open spec fn record(
    s: Seq<AlertSubscription>,
    id: Seq<char>,
    seen: Option<u64>,
    fired_price: Option<u64>,
    fired_at: Option<Timestamp>,
    now: Timestamp,
) -> Seq<AlertSubscription> {
    if has_id(s, id) {
        s.update(index_of(s, id), with_trigger(s[index_of(s, id)], seen, fired_price, fired_at, now))
    } else {
        s
    }
}

/// Handling the alerts `m` in order on one tick at `now`: the window and the
/// store after, and the notifications to send. A fired alert is left as it
/// is here: its firing is recorded once its notification has gone out.
pub open spec fn run_tick(
    cfg: AlertManagerConfig,
    w: Map<Seq<char>, Seq<Timestamp>>,
    s: Seq<AlertSubscription>,
    m: Seq<AlertSubscription>,
    tick: MarketTick,
    now: Timestamp,
) -> (Map<Seq<char>, Seq<Timestamp>>, Seq<AlertSubscription>, Seq<(AlertSubscription, AlertEvent)>)
    decreases m.len(),
{
    if m.len() == 0 {
        (w, s, seq![])
    } else {
        let a = m[0];
        let (w1, d) = decide_spec(cfg, w, a, tick, now);
        let (s1, out1) = match d {
            TickDecision::Notify { event, seen_price } => (s, seq![(a, event)]),
            TickDecision::Dropped => (s, seq![]),
            TickDecision::Record { seen_price } => (record(s, a.id@, seen_price, None, None, now), seq![]),
        };
        let rest = run_tick(cfg, w1, s1, m.drop_first(), tick, now);
        (rest.0, rest.1, out1 + rest.2)
    }
}

/// The store after saving `a`: it replaces the subscription with its id, or
/// is appended.
pub open spec fn stored(s: Seq<AlertSubscription>, a: AlertSubscription) -> Seq<AlertSubscription> {
    if has_id(s, a.id@) {
        s.update(index_of(s, a.id@), a)
    } else {
        s.push(a)
    }
}

/// Decides about alerts and ticks; keeps the watched markets and the
/// per-owner notification window.
pub struct AlertManager {
    config: AlertManagerConfig,
    evaluator: AlertEvaluator,
    subscribed_slugs: Vec<String>,
    notif_window: NotificationWindow,
}

proof fn lemma_record_keeps_ids(s: Seq<AlertSubscription>, id: Seq<char>, seen: Option<u64>, fp: Option<u64>, fa: Option<Timestamp>, now: Timestamp, other: Seq<char>)
    ensures
        has_id(record(s, id, seen, fp, fa, now), other) == has_id(s, other),
        record(s, id, seen, fp, fa, now).len() == s.len(),
{
    let t = record(s, id, seen, fp, fa, now);
    if has_id(s, id) {
        let k = index_of(s, id);
        if has_id(s, other) {
            let j = choose|j: int| 0 <= j < s.len() && #[trigger] s[j].id@ == other;
            assert(t[j].id@ == other);
        }
        if has_id(t, other) {
            let j = choose|j: int| 0 <= j < t.len() && #[trigger] t[j].id@ == other;
            assert(s[j].id@ == other);
        }
    }
}

impl AlertManager {
    /// The configuration.
    pub closed spec fn config_view(&self) -> AlertManagerConfig {
        self.config
    }

    /// The evaluator's configuration.
    pub closed spec fn eval_config(&self) -> EvaluatorConfig {
        self.evaluator.config()
    }

    /// The markets currently watched.
    pub closed spec fn watched(&self) -> Seq<Seq<char>> {
        views(self.subscribed_slugs@)
    }

    /// The per-owner notification window.
    pub closed spec fn window(&self) -> Map<Seq<char>, Seq<Timestamp>> {
        self.notif_window.view()
    }

    /// The manager's parts are consistent: the evaluator uses the cooldown
    /// and hysteresis of the configuration.
    pub open spec fn wf(&self) -> bool {
        self.eval_config() == eval_config_of(self.config_view())
    }

    /// A manager with this configuration, watching nothing, with an empty window.
    pub fn new(config: AlertManagerConfig) -> (m: Self)
        ensures
            m.wf(),
            m.config_view() == config,
            m.watched() == Seq::<Seq<char>>::empty(),
            m.window() == Map::<Seq<char>, Seq<Timestamp>>::empty(),
    {
        let evaluator = AlertEvaluator::new(
            EvaluatorConfig {
                cooldown_seconds: config.cooldown_seconds,
                hysteresis_bps: config.hysteresis_bps,
            },
        );
        let m = AlertManager {
            config,
            evaluator,
            subscribed_slugs: Vec::new(),
            notif_window: NotificationWindow::new(),
        };
        assert(m.watched() =~= Seq::<Seq<char>>::empty());
        m
    }

    /// The configuration.
    pub fn config(&self) -> (c: AlertManagerConfig)
        ensures
            c == self.config_view(),
    {
        self.config
    }

    /// The markets currently watched.
    pub fn watched_slugs(&self) -> (v: Vec<String>)
        ensures
            views(v@) == self.watched(),
    {
        let mut v: Vec<String> = Vec::new();
        let mut i: usize = 0;
        while i < self.subscribed_slugs.len()
            invariant
                i <= self.subscribed_slugs.len(),
                v@ == self.subscribed_slugs@.take(i as int),
            decreases self.subscribed_slugs.len() - i,
        {
            v.push(self.subscribed_slugs[i].clone());
            assert(v@ =~= self.subscribed_slugs@.take(i + 1));
            i += 1;
        }
        assert(self.subscribed_slugs@.take(self.subscribed_slugs.len() as int) =~= self.subscribed_slugs@);
        assert(v@ == self.subscribed_slugs@);
        v
    }

    /// Whether an owner holding `active_count` active alerts may add one
    /// more; `MaxAlertsReached` with the limit when not.
    pub fn check_capacity(&self, active_count: usize) -> (r: Result<(), AlertError>)
        ensures
            active_count >= self.config_view().max_alerts_per_user ==> (r matches Err(
                AlertError::MaxAlertsReached(n),
            ) && n == self.config_view().max_alerts_per_user),
            active_count < self.config_view().max_alerts_per_user ==> r is Ok,
    {
        if active_count >= self.config.max_alerts_per_user {
            Err(AlertError::MaxAlertsReached(self.config.max_alerts_per_user))
        } else {
            Ok(())
        }
    }

    /// The distinct markets of a list of alerts, in order of first appearance.
    pub fn slugs_of(active: &Vec<AlertSubscription>) -> (v: Vec<String>)
        ensures
            views(v@) == distinct_slugs(active@),
    {
        let mut v: Vec<String> = Vec::new();
        let mut i: usize = 0;
        while i < active.len()
            invariant
                i <= active.len(),
                views(v@) == distinct_slugs(active@.take(i as int)),
            decreases active.len() - i,
        {
            let ghost pre = active@.take(i as int);
            assert(active@.take(i + 1).drop_last() =~= pre);
            let mut seen = false;
            let mut j: usize = 0;
            while j < v.len()
                invariant
                    j <= v.len(),
                    i < active.len(),
                    seen == views(v@).take(j as int).contains(active@[i as int].slug@),
                decreases v.len() - j,
            {
                if str_eq(v[j].as_str(), active[i].slug.as_str()) {
                    seen = true;
                }
                proof {
                    let t = views(v@).take(j + 1);
                    assert(t =~= views(v@).take(j as int).push(v@[j as int]@));
                    if seen && !views(v@).take(j as int).contains(active@[i as int].slug@) {
                        assert(t[j as int] == active@[i as int].slug@);
                    }
                    if t.contains(active@[i as int].slug@) {
                        let k = choose|k: int| 0 <= k < t.len() && t[k] == active@[i as int].slug@;
                        if k < j {
                            assert(views(v@).take(j as int)[k] == t[k]);
                        }
                    }
                }
                j += 1;
            }
            assert(views(v@).take(v.len() as int) =~= views(v@));
            if !seen {
                v.push(active[i].slug.clone());
                assert(views(v@) =~= distinct_slugs(active@.take(i + 1)));
            }
            i += 1;
        }
        assert(active@.take(active.len() as int) =~= active@);
        v
    }

    /// Watches exactly the distinct markets of `active`; returns them.
    pub fn set_watched(&mut self, active: &Vec<AlertSubscription>) -> (v: Vec<String>)
        ensures
            views(v@) == distinct_slugs(active@),
            final(self).watched() == distinct_slugs(active@),
            final(self).config_view() == old(self).config_view(),
            final(self).eval_config() == old(self).eval_config(),
            final(self).window() == old(self).window(),
    {
        let v = Self::slugs_of(active);
        self.subscribed_slugs = Self::slugs_of(active);
        v
    }

    /// Checks that a looked-up alert exists and belongs to `owner`, for a
    /// test notification.
    pub fn authorize_test(found: Option<AlertSubscription>, owner: &str, alert_id: &str) -> (r: Result<
        AlertSubscription,
        AlertError,
    >)
        ensures
            found is None ==> (r matches Err(AlertError::AlertNotFound(m)) && m@ == alert_id@),
            found matches Some(a) ==> (if a.delivery.pubkey@ != owner@ {
                r matches Err(e) && e is Unauthorized
            } else {
                r == Ok::<AlertSubscription, AlertError>(a)
            }),
    {
        match found {
            None => Err(AlertError::AlertNotFound(alert_id.to_owned())),
            Some(a) => {
                if !str_eq(a.delivery.pubkey.as_str(), owner) {
                    Err(AlertError::Unauthorized)
                } else {
                    Ok(a)
                }
            },
        }
    }

    /// Whether `owner` may be sent one more notification now; records the
    /// sending when so.
    pub fn allow_notification(&mut self, owner: &str) -> (r: bool)
        ensures
            exists|now: Timestamp|
                (final(self).window(), r) == #[trigger] allow_step(
                    old(self).window(),
                    owner@,
                    now,
                    old(self).config_view().notifications_per_minute as nat,
                ),
            final(self).config_view() == old(self).config_view(),
            final(self).eval_config() == old(self).eval_config(),
            final(self).watched() == old(self).watched(),
    {
        let now = utc_now();
        self.allow_notification_at(owner, now)
    }

    /// Whether `owner` may be sent one more notification at `now`: fewer than
    /// `notifications_per_minute` were sent in the minute before.
    pub fn allow_notification_at(&mut self, owner: &str, now: Timestamp) -> (r: bool)
        ensures
            (final(self).window(), r) == allow_step(
                old(self).window(),
                owner@,
                now,
                old(self).config_view().notifications_per_minute as nat,
            ),
            final(self).config_view() == old(self).config_view(),
            final(self).eval_config() == old(self).eval_config(),
            final(self).watched() == old(self).watched(),
    {
        self.notif_window.allow_at(owner, now, self.config.notifications_per_minute)
    }

    /// What to do about `alert` on `tick` at `now`.
    pub fn decide_at(&mut self, alert: &AlertSubscription, tick: &MarketTick, now: Timestamp) -> (d:
        TickDecision)
        requires
            old(self).wf(),
        ensures
            (final(self).window(), d) == decide_spec(old(self).config_view(), old(self).window(), *alert, *tick, now),
            final(self).config_view() == old(self).config_view(),
            final(self).eval_config() == old(self).eval_config(),
            final(self).watched() == old(self).watched(),
    {
        let (event, seen) = self.evaluator.evaluate_at(alert, tick, now);
        match event {
            Some(ev) => {
                if self.allow_notification_at(alert.delivery.pubkey.as_str(), now) {
                    TickDecision::Notify { event: ev, seen_price: seen }
                } else {
                    TickDecision::Dropped
                }
            },
            None => TickDecision::Record { seen_price: seen },
        }
    }

    /// What to do about `alert` on `tick`, reading the clock for the firing
    /// time and for the throughput window.
    pub fn decide(&mut self, alert: &AlertSubscription, tick: &MarketTick) -> (d: TickDecision)
        requires
            old(self).wf(),
        ensures
            exists|now: Timestamp|
                (final(self).window(), d) == #[trigger] decide_spec(
                    old(self).config_view(),
                    old(self).window(),
                    *alert,
                    *tick,
                    now,
                ),
            final(self).config_view() == old(self).config_view(),
            final(self).eval_config() == old(self).eval_config(),
            final(self).watched() == old(self).watched(),
    {
        let now = utc_now();
        self.decide_at(alert, tick, now)
    }

    /// Adds an alert for `owner` unless the owner already holds the maximum
    /// of active alerts, then watches the markets of all active alerts.
    pub fn add_alert(
        &mut self,
        repo: &mut InMemoryAlertRepository,
        owner_pubkey_hex: String,
        channel: DeliveryChannel,
        slug: String,
        rule: AlertRule,
    ) -> (r: Result<AlertSubscription, AlertError>)
        ensures
            active_count(old(repo).view(), owner_pubkey_hex@) >= old(self).config_view().max_alerts_per_user
                ==> {
                &&& r matches Err(AlertError::MaxAlertsReached(n))
                &&& n == old(self).config_view().max_alerts_per_user
                &&& final(repo).view() == old(repo).view()
                &&& final(self).watched() == old(self).watched()
            },
            active_count(old(repo).view(), owner_pubkey_hex@) < old(self).config_view().max_alerts_per_user
                ==> {
                &&& r matches Ok(a)
                &&& a.id@.len() == 36
                &&& is_uuid_v4_text(a.id@)
                &&& a.slug == slug
                &&& a.rule == rule
                &&& a.status == AlertStatus::Active
                &&& a.delivery == (DeliveryTarget { pubkey: owner_pubkey_hex, channel })
                &&& a.trigger_state == TriggerState::new_spec()
                &&& final(repo).view() == stored(old(repo).view(), a)
                &&& final(self).watched() == distinct_slugs(active_of(final(repo).view()))
            },
            ids_unique(final(repo).view()),
            final(self).config_view() == old(self).config_view(),
            final(self).eval_config() == old(self).eval_config(),
            final(self).window() == old(self).window(),
    {
        repo.ids_are_unique();
        let count = match repo.count_by_pubkey(owner_pubkey_hex.as_str()) {
            Ok(n) => n,
            Err(e) => return Err(e),
        };
        match self.check_capacity(count) {
            Ok(()) => {},
            Err(e) => return Err(e),
        }
        let alert = AlertSubscription::new(
            slug,
            rule,
            DeliveryTarget { pubkey: owner_pubkey_hex, channel },
        );
        let created = match repo.create(alert) {
            Ok(a) => a,
            Err(e) => return Err(e),
        };
        let active = match repo.list_active() {
            Ok(v) => v,
            Err(e) => return Err(e),
        };
        self.set_watched(&active);
        Ok(created)
    }

    /// The alerts of `owner`.
    pub fn list_alerts(&self, repo: &InMemoryAlertRepository, owner_pubkey_hex: &str) -> (r: Result<
        Vec<AlertSubscription>,
        AlertError,
    >)
        ensures
            r matches Ok(v) && v@ == owned_by(repo.view(), owner_pubkey_hex@),
    {
        repo.list_by_pubkey(owner_pubkey_hex)
    }

    /// Removes an alert on behalf of its owner, then watches the markets of
    /// the remaining active alerts.
    pub fn remove_alert(
        &mut self,
        repo: &mut InMemoryAlertRepository,
        owner_pubkey_hex: &str,
        alert_id: &str,
    ) -> (r: Result<(), AlertError>)
        ensures
            r is Ok <==> owner_may_change(old(repo).view(), alert_id@, owner_pubkey_hex@),
            r matches Err(e) ==> owner_check(old(repo).view(), alert_id@, owner_pubkey_hex@, e)
                && final(repo).view() == old(repo).view() && final(self).watched() == old(self).watched(),
            r is Ok ==> final(repo).view() == old(repo).view().remove(
                index_of(old(repo).view(), alert_id@),
            ) && final(self).watched() == distinct_slugs(active_of(final(repo).view())),
            ids_unique(final(repo).view()),
            final(self).config_view() == old(self).config_view(),
            final(self).eval_config() == old(self).eval_config(),
            final(self).window() == old(self).window(),
    {
        match repo.delete_by_owner(alert_id, owner_pubkey_hex) {
            Ok(()) => {},
            Err(e) => return Err(e),
        }
        let active = match repo.list_active() {
            Ok(v) => v,
            Err(e) => return Err(e),
        };
        self.set_watched(&active);
        Ok(())
    }

    /// Pauses an alert on behalf of its owner.
    pub fn pause_alert(&self, repo: &mut InMemoryAlertRepository, owner_pubkey_hex: &str, alert_id: &str) -> (r:
        Result<AlertSubscription, AlertError>)
        ensures
            r is Ok <==> owner_may_change(old(repo).view(), alert_id@, owner_pubkey_hex@),
            r matches Err(e) ==> owner_check(old(repo).view(), alert_id@, owner_pubkey_hex@, e)
                && final(repo).view() == old(repo).view(),
            r matches Ok(a) ==> {
                let k = index_of(old(repo).view(), alert_id@);
                &&& a == with_status(old(repo).view()[k], AlertStatus::Paused, a.updated_at)
                &&& final(repo).view() == old(repo).view().update(k, a)
            },
            ids_unique(final(repo).view()),
    {
        repo.set_status_by_owner(alert_id, owner_pubkey_hex, AlertStatus::Paused)
    }

    /// Resumes an alert on behalf of its owner.
    pub fn resume_alert(&self, repo: &mut InMemoryAlertRepository, owner_pubkey_hex: &str, alert_id: &str) -> (r:
        Result<AlertSubscription, AlertError>)
        ensures
            r is Ok <==> owner_may_change(old(repo).view(), alert_id@, owner_pubkey_hex@),
            r matches Err(e) ==> owner_check(old(repo).view(), alert_id@, owner_pubkey_hex@, e)
                && final(repo).view() == old(repo).view(),
            r matches Ok(a) ==> {
                let k = index_of(old(repo).view(), alert_id@);
                &&& a == with_status(old(repo).view()[k], AlertStatus::Active, a.updated_at)
                &&& final(repo).view() == old(repo).view().update(k, a)
            },
            ids_unique(final(repo).view()),
    {
        repo.set_status_by_owner(alert_id, owner_pubkey_hex, AlertStatus::Active)
    }

    /// The alert a test notification goes to: it must exist and belong to `owner`.
    pub fn send_test(&self, repo: &InMemoryAlertRepository, owner_pubkey_hex: &str, alert_id: &str) -> (r: Result<
        AlertSubscription,
        AlertError,
    >)
        ensures
            lookup(repo.view(), alert_id@) is None ==> (r matches Err(AlertError::AlertNotFound(m))
                && m@ == alert_id@),
            lookup(repo.view(), alert_id@) matches Some(a) ==> (if a.delivery.pubkey@ != owner_pubkey_hex@ {
                r matches Err(e) && e is Unauthorized
            } else {
                r == Ok::<AlertSubscription, AlertError>(a)
            }),
    {
        let found = match repo.get(alert_id) {
            Ok(f) => f,
            Err(e) => return Err(e),
        };
        Self::authorize_test(found, owner_pubkey_hex, alert_id)
    }

    /// Records that a fired alert's notification went out: the tick's price
    /// as last seen, and the firing's price and instant.
    pub fn record_firing(&self, repo: &mut InMemoryAlertRepository, event: &AlertEvent) -> (r: Result<
        (),
        AlertError,
    >)
        ensures
            ids_unique(final(repo).view()),
            r is Ok <==> has_id(old(repo).view(), event.alert_id@),
            r matches Err(e) ==> e matches AlertError::AlertNotFound(m) && m@ == event.alert_id@
                && final(repo).view() == old(repo).view(),
            r is Ok ==> exists|now: Timestamp|
                final(repo).view() == #[trigger] record(
                    old(repo).view(),
                    event.alert_id@,
                    Some(event.price),
                    Some(event.price),
                    Some(event.triggered_at),
                    now,
                ),
    {
        let r = repo.update_trigger_state(
            event.alert_id.as_str(),
            Some(event.price),
            Some(event.price),
            Some(event.triggered_at),
        );
        proof {
            if r is Ok {
                let s0 = old(repo).view();
                let k = index_of(s0, event.alert_id@);
                let now = choose|now: Timestamp|
                    repo.view() == s0.update(
                        k,
                        #[trigger] with_trigger(
                            s0[k],
                            Some(event.price),
                            Some(event.price),
                            Some(event.triggered_at),
                            now,
                        ),
                    );
                assert(repo.view() == record(
                    s0,
                    event.alert_id@,
                    Some(event.price),
                    Some(event.price),
                    Some(event.triggered_at),
                    now,
                ));
            }
        }
        r
    }

    /// Handles one tick at `now`: each active alert on the tick's market is
    /// judged in store order; fired alerts within the throughput limit are
    /// returned for sending (their firing is recorded by `record_firing`
    /// once sent), dropped ones are left untouched, the others record the
    /// tick.
    pub fn process_tick_at(&mut self, repo: &mut InMemoryAlertRepository, tick: &MarketTick, now: Timestamp) -> (r:
        Result<Vec<(AlertSubscription, AlertEvent)>, AlertError>)
        requires
            old(self).wf(),
        ensures
            r matches Ok(out) && {
                let expected = run_tick(
                    old(self).config_view(),
                    old(self).window(),
                    old(repo).view(),
                    on_market(active_of(old(repo).view()), tick.slug@),
                    *tick,
                    now,
                );
                &&& final(self).window() == expected.0
                &&& final(repo).view() == expected.1
                &&& out@ == expected.2
            },
            ids_unique(final(repo).view()),
            final(self).wf(),
            final(self).config_view() == old(self).config_view(),
            final(self).watched() == old(self).watched(),
    {
        repo.ids_are_unique();
        let active = match repo.list_active() {
            Ok(v) => v,
            Err(e) => return Err(e),
        };
        let ghost cfg = self.config_view();
        let ghost target = run_tick(
            cfg,
            self.window(),
            repo.view(),
            on_market(active@, tick.slug@),
            *tick,
            now,
        );
        let ghost pred = |a: AlertSubscription| a.slug@ == tick.slug@;
        let mut out: Vec<(AlertSubscription, AlertEvent)> = Vec::new();
        let mut i: usize = 0;
        proof {
            assert(active@.skip(0) =~= active@);
            assert forall|k: int| 0 <= k < active@.len() implies has_id(repo.view(), #[trigger] active@[k].id@) by {
                repo.view().lemma_filter_contains_rev(|a: AlertSubscription| a.status == AlertStatus::Active, active@[k]);
                let j = choose|j: int| 0 <= j < repo.view().len() && repo.view()[j] == active@[k];
                assert(repo.view()[j].id@ == active@[k].id@);
            }
        }
        while i < active.len()
            invariant
                i <= active.len(),
                pred == (|a: AlertSubscription| a.slug@ == tick.slug@),
                self.wf(),
                self.config_view() == cfg,
                self.watched() == old(self).watched(),
                ids_unique(repo.view()),
                forall|k: int| 0 <= k < active@.len() ==> has_id(repo.view(), #[trigger] active@[k].id@),
                ({
                    let rest = run_tick(cfg, self.window(), repo.view(), active@.skip(i as int).filter(pred), *tick, now);
                    &&& target.0 == rest.0
                    &&& target.1 == rest.1
                    &&& target.2 == out@ + rest.2
                }),
            decreases active.len() - i,
        {
            let a = &active[i];
            let ghost w0 = self.window();
            let ghost s0 = repo.view();
            proof {
                assert(active@.skip(i as int) =~= seq![active@[i as int]] + active@.skip(i + 1));
                active@.skip(i + 1).lemma_filter_prepend(active@[i as int], pred);
            }
            if str_eq(a.slug.as_str(), tick.slug.as_str()) {
                let ghost m = active@.skip(i as int).filter(pred);
                assert(pred(active@[i as int]));
                assert(m == seq![active@[i as int]] + active@.skip(i + 1).filter(pred));
                assert(m[0] == *a);
                assert(m.drop_first() =~= active@.skip(i + 1).filter(pred));
                let d = self.decide_at(a, tick, now);
                match d {
                    TickDecision::Notify { event, seen_price } => {
                        out.push((a.clone(), event));
                    },
                    TickDecision::Dropped => {},
                    TickDecision::Record { seen_price } => {
                        match repo.update_trigger_state_at(a.id.as_str(), seen_price, None, None, now) {
                            Ok(()) => {},
                            Err(e) => return Err(e),
                        }
                        proof {
                            assert forall|k: int| 0 <= k < active@.len() implies has_id(repo.view(), #[trigger] active@[k].id@) by {
                                lemma_record_keeps_ids(s0, a.id@, seen_price, None, None, now, active@[k].id@);
                            }
                        }
                    },
                }
            } else {
                assert(!pred(active@[i as int]));
                assert(active@.skip(i as int).filter(pred) == active@.skip(i + 1).filter(pred));
            }
            i += 1;
        }
        proof {
            assert(active@.skip(active.len() as int) =~= Seq::<AlertSubscription>::empty());
            assert(Seq::<AlertSubscription>::empty().filter(pred) =~= Seq::<AlertSubscription>::empty()) by {
                reveal(Seq::filter);
            }
            assert(out@ =~= out@ + Seq::<(AlertSubscription, AlertEvent)>::empty());
        }
        Ok(out)
    }

    /// Handles one tick, reading the clock once for all its alerts.
    pub fn process_tick(&mut self, repo: &mut InMemoryAlertRepository, tick: &MarketTick) -> (r: Result<
        Vec<(AlertSubscription, AlertEvent)>,
        AlertError,
    >)
        requires
            old(self).wf(),
        ensures
            r matches Ok(out) && exists|now: Timestamp| {
                let expected = #[trigger] run_tick(
                    old(self).config_view(),
                    old(self).window(),
                    old(repo).view(),
                    on_market(active_of(old(repo).view()), tick.slug@),
                    *tick,
                    now,
                );
                &&& final(self).window() == expected.0
                &&& final(repo).view() == expected.1
                &&& out@ == expected.2
            },
            ids_unique(final(repo).view()),
            final(self).wf(),
            final(self).config_view() == old(self).config_view(),
            final(self).watched() == old(self).watched(),
    {
        repo.ids_are_unique();
        let now = utc_now();
        self.process_tick_at(repo, tick, now)
    }
}

} // verus!
