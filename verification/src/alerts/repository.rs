//! The in-memory store of alert subscriptions, keyed by alert id, with the
//! ownership checks that guard changes to them.

use vstd::prelude::*;
use crate::alerts::error::AlertError;
use crate::alerts::model::{AlertStatus, AlertSubscription, DeliveryTarget};
use crate::text::str_eq;
use crate::time::{utc_now, Timestamp};

verus! {

/// No two subscriptions share an id.
pub open spec fn ids_unique(s: Seq<AlertSubscription>) -> bool {
    forall|i: int, j: int|
        0 <= i < s.len() && 0 <= j < s.len() && i != j ==> #[trigger] s[i].id@ != #[trigger] s[j].id@
}

/// Some subscription has this id.
pub open spec fn has_id(s: Seq<AlertSubscription>, id: Seq<char>) -> bool {
    exists|i: int| 0 <= i < s.len() && #[trigger] s[i].id@ == id
}

/// The position of the subscription with this id.
pub open spec fn index_of(s: Seq<AlertSubscription>, id: Seq<char>) -> int {
    choose|i: int| 0 <= i < s.len() && #[trigger] s[i].id@ == id
}

/// The subscription with this id, if any.
pub open spec fn lookup(s: Seq<AlertSubscription>, id: Seq<char>) -> Option<AlertSubscription> {
    if has_id(s, id) {
        Some(s[index_of(s, id)])
    } else {
        None
    }
}

/// The subscriptions owned by `pubkey`, in store order.
pub open spec fn owned_by(s: Seq<AlertSubscription>, pubkey: Seq<char>) -> Seq<AlertSubscription> {
    s.filter(|a: AlertSubscription| a.delivery.pubkey@ == pubkey)
}

/// The active subscriptions, in store order.
pub open spec fn active_of(s: Seq<AlertSubscription>) -> Seq<AlertSubscription> {
    s.filter(|a: AlertSubscription| a.status == AlertStatus::Active)
}

/// The number of active subscriptions owned by `pubkey`.
pub open spec fn active_count(s: Seq<AlertSubscription>, pubkey: Seq<char>) -> nat {
    active_of(owned_by(s, pubkey)).len()
}

/// `a` with a new status, updated at `now`.
pub open spec fn with_status(a: AlertSubscription, status: AlertStatus, now: Timestamp) -> AlertSubscription {
    AlertSubscription {
        id: a.id,
        slug: a.slug,
        rule: a.rule,
        status,
        created_at: a.created_at,
        updated_at: now,
        delivery: a.delivery,
        trigger_state: a.trigger_state,
    }
}

/// `a` with a new delivery target, updated at `now`.
pub open spec fn with_delivery(a: AlertSubscription, delivery: DeliveryTarget, now: Timestamp) -> AlertSubscription {
    AlertSubscription {
        id: a.id,
        slug: a.slug,
        rule: a.rule,
        status: a.status,
        created_at: a.created_at,
        updated_at: now,
        delivery,
        trigger_state: a.trigger_state,
    }
}

/// `a` after recording a tick: the last seen price is replaced, the firing
/// price and time only when given, and the update time is `now`.
pub open spec fn with_trigger(
    a: AlertSubscription,
    last_seen: Option<u64>,
    fired_price: Option<u64>,
    fired_at: Option<Timestamp>,
    now: Timestamp,
) -> AlertSubscription {
    AlertSubscription {
        id: a.id,
        slug: a.slug,
        rule: a.rule,
        status: a.status,
        created_at: a.created_at,
        updated_at: now,
        delivery: a.delivery,
        trigger_state: crate::alerts::model::TriggerState {
            last_seen_price: last_seen,
            last_triggered_price: if fired_price is Some {
                fired_price
            } else {
                a.trigger_state.last_triggered_price
            },
            last_triggered_at: if fired_at is Some {
                fired_at
            } else {
                a.trigger_state.last_triggered_at
            },
        },
    }
}

/// The outcome of an owner-checked change: `AlertNotFound(id)` when no
/// subscription has the id, `Unauthorized` when another key owns it.
pub open spec fn owner_check(
    s: Seq<AlertSubscription>,
    id: Seq<char>,
    owner: Seq<char>,
    e: AlertError,
) -> bool {
    if !has_id(s, id) {
        e matches AlertError::AlertNotFound(m) && m@ == id
    } else {
        e is Unauthorized && s[index_of(s, id)].delivery.pubkey@ != owner
    }
}

/// Whether an owner-checked change on `id` by `owner` goes through.
pub open spec fn owner_may_change(s: Seq<AlertSubscription>, id: Seq<char>, owner: Seq<char>) -> bool {
    has_id(s, id) && s[index_of(s, id)].delivery.pubkey@ == owner
}

/// Alert subscriptions held in memory.
pub struct InMemoryAlertRepository {
    alerts: Vec<AlertSubscription>,
}

impl InMemoryAlertRepository {
    #[verifier::type_invariant]
    spec fn inv(self) -> bool {
        ids_unique(self.alerts@)
    }

    /// The stored subscriptions, in the order they were first created.
    pub closed spec fn view(&self) -> Seq<AlertSubscription> {
        self.alerts@
    }

    /// The ids of the stored subscriptions are distinct (the store's
    /// invariant, made available to callers).
    pub fn ids_are_unique(&self)
        ensures
            ids_unique(self.view()),
    {
        proof {
            use_type_invariant(self);
        }
    }

    /// An empty store.
    pub fn new() -> (r: Self)
        ensures
            r.view() == Seq::<AlertSubscription>::empty(),
            ids_unique(r.view()),
    {
        InMemoryAlertRepository { alerts: Vec::new() }
    }

    /// The position of the subscription with this id, if any.
    fn position(&self, id: &str) -> (r: Option<usize>)
        ensures
            r is Some <==> has_id(self.view(), id@),
            r matches Some(i) ==> i == index_of(self.view(), id@) && i < self.view().len(),
    {
        proof {
            use_type_invariant(self);
        }
        let mut i: usize = 0;
        while i < self.alerts.len()
            invariant
                i <= self.alerts.len(),
                ids_unique(self.alerts@),
                forall|j: int| 0 <= j < i ==> #[trigger] self.alerts@[j].id@ != id@,
            decreases self.alerts.len() - i,
        {
            if str_eq(self.alerts[i].id.as_str(), id) {
                proof {
                    let k = index_of(self.view(), id@);
                    assert(self.view()[i as int].id@ == id@);
                    assert(0 <= k < self.view().len() && self.view()[k].id@ == id@);
                    assert(ids_unique(self.alerts@));
                    if k != i {
                        assert(self.alerts@[k].id@ != self.alerts@[i as int].id@);
                    }
                }
                return Some(i);
            }
            i += 1;
        }
        None
    }

    /// Stores a subscription, replacing one with the same id.
    pub fn create(&mut self, alert: AlertSubscription) -> (r: Result<AlertSubscription, AlertError>)
        ensures
            ids_unique(final(self).view()),
            r == Ok::<AlertSubscription, AlertError>(alert),
            has_id(old(self).view(), alert.id@) ==> final(self).view() == old(self).view().update(
                index_of(old(self).view(), alert.id@),
                alert,
            ),
            !has_id(old(self).view(), alert.id@) ==> final(self).view() == old(self).view().push(
                alert,
            ),
    {
        proof {
            use_type_invariant(&*self);
        }
        let copy = alert.clone();
        match self.position(alert.id.as_str()) {
            Some(i) => {
                let ghost s = self.alerts@;
                proof {
                    let t = s.update(i as int, alert);
                    assert forall|a: int, b: int|
                        0 <= a < t.len() && 0 <= b < t.len() && a != b implies #[trigger] t[a].id@
                        != #[trigger] t[b].id@ by {
                        if a != i && b != i {
                            assert(t[a] == s[a] && t[b] == s[b]);
                        } else if a == i {
                            assert(t[b] == s[b]);
                            assert(s[i as int].id@ == alert.id@);
                        } else {
                            assert(t[a] == s[a]);
                            assert(s[i as int].id@ == alert.id@);
                        }
                    }
                }
                let mut v: Vec<AlertSubscription> = Vec::new();
        std::mem::swap(&mut v, &mut self.alerts);
        v.set(i, alert);
        self.alerts = v;
            },
            None => {
                let ghost s = self.alerts@;
                proof {
                    let t = s.push(alert);
                    assert forall|a: int, b: int|
                        0 <= a < t.len() && 0 <= b < t.len() && a != b implies #[trigger] t[a].id@
                        != #[trigger] t[b].id@ by {
                        if a < s.len() && b < s.len() {
                            assert(t[a] == s[a] && t[b] == s[b]);
                        } else if a == s.len() {
                            assert(t[b] == s[b]);
                            assert(!(s[b].id@ == alert.id@));
                        } else {
                            assert(t[a] == s[a]);
                            assert(!(s[a].id@ == alert.id@));
                        }
                    }
                }
                let mut v: Vec<AlertSubscription> = Vec::new();
        std::mem::swap(&mut v, &mut self.alerts);
        v.push(alert);
        self.alerts = v;
            },
        }
        Ok(copy)
    }

    /// Every stored subscription, in store order.
    pub fn snapshot(&self) -> (v: Vec<AlertSubscription>)
        ensures
            v@ == self.view(),
    {
        let mut out: Vec<AlertSubscription> = Vec::new();
        let mut i: usize = 0;
        while i < self.alerts.len()
            invariant
                i <= self.alerts.len(),
                out@ == self.alerts@.take(i as int),
            decreases self.alerts.len() - i,
        {
            out.push(self.alerts[i].clone());
            assert(out@ =~= self.alerts@.take(i + 1));
            i += 1;
        }
        assert(self.alerts@.take(self.alerts.len() as int) =~= self.alerts@);
        out
    }

    /// The subscriptions owned by `pubkey`.
    pub fn list_by_pubkey(&self, pubkey: &str) -> (r: Result<Vec<AlertSubscription>, AlertError>)
        ensures
            r matches Ok(v) && v@ == owned_by(self.view(), pubkey@),
    {
        let mut out: Vec<AlertSubscription> = Vec::new();
        let mut i: usize = 0;
        while i < self.alerts.len()
            invariant
                i <= self.alerts.len(),
                out@ == owned_by(self.alerts@.take(i as int), pubkey@),
            decreases self.alerts.len() - i,
        {
            let ghost pre = self.alerts@.take(i as int);
            assert(self.alerts@.take(i + 1) =~= pre.push(self.alerts@[i as int]));
            proof {
                pre.lemma_filter_push(
                    self.alerts@[i as int],
                    |a: AlertSubscription| a.delivery.pubkey@ == pubkey@,
                );
            }
            if str_eq(self.alerts[i].delivery.pubkey.as_str(), pubkey) {
                out.push(self.alerts[i].clone());
            }
            i += 1;
        }
        assert(self.alerts@.take(self.alerts.len() as int) =~= self.alerts@);
        Ok(out)
    }

    /// The active subscriptions.
    pub fn list_active(&self) -> (r: Result<Vec<AlertSubscription>, AlertError>)
        ensures
            r matches Ok(v) && v@ == active_of(self.view()),
    {
        let mut out: Vec<AlertSubscription> = Vec::new();
        let mut i: usize = 0;
        while i < self.alerts.len()
            invariant
                i <= self.alerts.len(),
                out@ == active_of(self.alerts@.take(i as int)),
            decreases self.alerts.len() - i,
        {
            let ghost pre = self.alerts@.take(i as int);
            assert(self.alerts@.take(i + 1) =~= pre.push(self.alerts@[i as int]));
            proof {
                pre.lemma_filter_push(
                    self.alerts@[i as int],
                    |a: AlertSubscription| a.status == AlertStatus::Active,
                );
            }
            if self.alerts[i].status == AlertStatus::Active {
                out.push(self.alerts[i].clone());
            }
            i += 1;
        }
        assert(self.alerts@.take(self.alerts.len() as int) =~= self.alerts@);
        Ok(out)
    }

    /// The subscription with this id.
    pub fn get(&self, alert_id: &str) -> (r: Result<Option<AlertSubscription>, AlertError>)
        ensures
            r == Ok::<Option<AlertSubscription>, AlertError>(lookup(self.view(), alert_id@)),
    {
        match self.position(alert_id) {
            Some(i) => Ok(Some(self.alerts[i].clone())),
            None => Ok(None),
        }
    }

    /// Removes a subscription on behalf of its owner.
    pub fn delete_by_owner(&mut self, alert_id: &str, owner_pubkey: &str) -> (r: Result<
        (),
        AlertError,
    >)
        ensures
            ids_unique(final(self).view()),
            r is Ok <==> owner_may_change(old(self).view(), alert_id@, owner_pubkey@),
            r matches Err(e) ==> owner_check(old(self).view(), alert_id@, owner_pubkey@, e)
                && final(self).view() == old(self).view(),
            r is Ok ==> final(self).view() == old(self).view().remove(
                index_of(old(self).view(), alert_id@),
            ),
    {
        proof {
            use_type_invariant(&*self);
        }
        let i = match self.position(alert_id) {
            Some(i) => i,
            None => return Err(AlertError::AlertNotFound(alert_id.to_owned())),
        };
        if !str_eq(self.alerts[i].delivery.pubkey.as_str(), owner_pubkey) {
            return Err(AlertError::Unauthorized);
        }
        let ghost s = self.alerts@;
        proof {
            let t = s.remove(i as int);
            assert forall|a: int, b: int|
                0 <= a < t.len() && 0 <= b < t.len() && a != b implies #[trigger] t[a].id@
                != #[trigger] t[b].id@ by {
                let a2 = if a < i {
                    a
                } else {
                    a + 1
                };
                let b2 = if b < i {
                    b
                } else {
                    b + 1
                };
                assert(t[a] == s[a2]);
                assert(t[b] == s[b2]);
            }
        }
        let mut v: Vec<AlertSubscription> = Vec::new();
        std::mem::swap(&mut v, &mut self.alerts);
        v.remove(i);
        self.alerts = v;
        Ok(())
    }

    /// Changes a subscription's status on behalf of its owner, stamping the
    /// change with the clock.
    pub fn set_status_by_owner(&mut self, alert_id: &str, owner_pubkey: &str, status: AlertStatus) -> (r:
        Result<AlertSubscription, AlertError>)
        ensures
            ids_unique(final(self).view()),
            r is Ok <==> owner_may_change(old(self).view(), alert_id@, owner_pubkey@),
            r matches Err(e) ==> owner_check(old(self).view(), alert_id@, owner_pubkey@, e)
                && final(self).view() == old(self).view(),
            r matches Ok(a) ==> {
                let k = index_of(old(self).view(), alert_id@);
                &&& a == with_status(old(self).view()[k], status, a.updated_at)
                &&& final(self).view() == old(self).view().update(k, a)
            },
    {
        let now = utc_now();
        self.set_status_by_owner_at(alert_id, owner_pubkey, status, now)
    }

    /// Changes a subscription's status on behalf of its owner at `now`.
    pub fn set_status_by_owner_at(
        &mut self,
        alert_id: &str,
        owner_pubkey: &str,
        status: AlertStatus,
        now: Timestamp,
    ) -> (r: Result<AlertSubscription, AlertError>)
        ensures
            ids_unique(final(self).view()),
            r is Ok <==> owner_may_change(old(self).view(), alert_id@, owner_pubkey@),
            r matches Err(e) ==> owner_check(old(self).view(), alert_id@, owner_pubkey@, e)
                && final(self).view() == old(self).view(),
            r matches Ok(a) ==> {
                let k = index_of(old(self).view(), alert_id@);
                &&& a == with_status(old(self).view()[k], status, now)
                &&& final(self).view() == old(self).view().update(k, a)
            },
    {
        proof {
            use_type_invariant(&*self);
        }
        let i = match self.position(alert_id) {
            Some(i) => i,
            None => return Err(AlertError::AlertNotFound(alert_id.to_owned())),
        };
        if !str_eq(self.alerts[i].delivery.pubkey.as_str(), owner_pubkey) {
            return Err(AlertError::Unauthorized);
        }
        let mut a = self.alerts[i].clone();
        a.status = status;
        a.updated_at = now;
        let out = a.clone();
        self.replace_same_id(i, a);
        Ok(out)
    }

    /// Replaces the subscription at `i` with one of the same id.
    fn replace_same_id(&mut self, i: usize, a: AlertSubscription)
        requires
            i < old(self).view().len(),
            a.id == old(self).view()[i as int].id,
        ensures
            final(self).view() == old(self).view().update(i as int, a),
    {
        proof {
            use_type_invariant(&*self);
        }
        let ghost s = self.alerts@;
        proof {
            let t = s.update(i as int, a);
            assert forall|x: int, y: int|
                0 <= x < t.len() && 0 <= y < t.len() && x != y implies #[trigger] t[x].id@
                != #[trigger] t[y].id@ by {
                if x == i {
                    assert(t[y] == s[y]);
                } else if y == i {
                    assert(t[x] == s[x]);
                } else {
                    assert(t[x] == s[x] && t[y] == s[y]);
                }
            }
        }
        let mut v: Vec<AlertSubscription> = Vec::new();
        std::mem::swap(&mut v, &mut self.alerts);
        v.set(i, a);
        self.alerts = v;
    }

    /// Records a tick for a subscription, stamping the change with the clock.
    pub fn update_trigger_state(
        &mut self,
        alert_id: &str,
        last_seen_price: Option<u64>,
        last_triggered_price: Option<u64>,
        last_triggered_at: Option<Timestamp>,
    ) -> (r: Result<(), AlertError>)
        ensures
            ids_unique(final(self).view()),
            r is Ok <==> has_id(old(self).view(), alert_id@),
            r matches Err(e) ==> e matches AlertError::AlertNotFound(m) && m@ == alert_id@
                && final(self).view() == old(self).view(),
            r is Ok ==> {
                let k = index_of(old(self).view(), alert_id@);
                exists|now: Timestamp|
                    final(self).view() == old(self).view().update(
                        k,
                        #[trigger] with_trigger(
                            old(self).view()[k],
                            last_seen_price,
                            last_triggered_price,
                            last_triggered_at,
                            now,
                        ),
                    )
            },
    {
        let now = utc_now();
        self.update_trigger_state_at(
            alert_id,
            last_seen_price,
            last_triggered_price,
            last_triggered_at,
            now,
        )
    }

    /// Records a tick for a subscription at `now`: the last seen price is
    /// replaced, the firing price and time only when given.
    pub fn update_trigger_state_at(
        &mut self,
        alert_id: &str,
        last_seen_price: Option<u64>,
        last_triggered_price: Option<u64>,
        last_triggered_at: Option<Timestamp>,
        now: Timestamp,
    ) -> (r: Result<(), AlertError>)
        ensures
            ids_unique(final(self).view()),
            r is Ok <==> has_id(old(self).view(), alert_id@),
            r matches Err(e) ==> e matches AlertError::AlertNotFound(m) && m@ == alert_id@
                && final(self).view() == old(self).view(),
            r is Ok ==> final(self).view() == old(self).view().update(
                index_of(old(self).view(), alert_id@),
                with_trigger(
                    old(self).view()[index_of(old(self).view(), alert_id@)],
                    last_seen_price,
                    last_triggered_price,
                    last_triggered_at,
                    now,
                ),
            ),
    {
        proof {
            use_type_invariant(&*self);
        }
        let i = match self.position(alert_id) {
            Some(i) => i,
            None => return Err(AlertError::AlertNotFound(alert_id.to_owned())),
        };
        let mut a = self.alerts[i].clone();
        a.trigger_state.last_seen_price = last_seen_price;
        if last_triggered_price.is_some() {
            a.trigger_state.last_triggered_price = last_triggered_price;
        }
        if last_triggered_at.is_some() {
            a.trigger_state.last_triggered_at = last_triggered_at;
        }
        a.updated_at = now;
        self.replace_same_id(i, a);
        Ok(())
    }

    /// The number of active subscriptions owned by `pubkey`.
    pub fn count_by_pubkey(&self, pubkey: &str) -> (r: Result<usize, AlertError>)
        ensures
            r matches Ok(n) && n == active_count(self.view(), pubkey@),
    {
        let owned = match self.list_by_pubkey(pubkey) {
            Ok(v) => v,
            Err(e) => return Err(e),
        };
        let mut n: usize = 0;
        let mut i: usize = 0;
        while i < owned.len()
            invariant
                i <= owned.len(),
                n == active_of(owned@.take(i as int)).len(),
                n <= i,
            decreases owned.len() - i,
        {
            let ghost pre = owned@.take(i as int);
            assert(owned@.take(i + 1) =~= pre.push(owned@[i as int]));
            proof {
                pre.lemma_filter_push(
                    owned@[i as int],
                    |a: AlertSubscription| a.status == AlertStatus::Active,
                );
            }
            if owned[i].status == AlertStatus::Active {
                n += 1;
            }
            i += 1;
        }
        assert(owned@.take(owned.len() as int) =~= owned@);
        Ok(n)
    }

    /// Changes a subscription's delivery target on behalf of its owner,
    /// stamping the change with the clock.
    pub fn update_delivery_by_owner(
        &mut self,
        alert_id: &str,
        owner_pubkey: &str,
        delivery: DeliveryTarget,
    ) -> (r: Result<AlertSubscription, AlertError>)
        ensures
            ids_unique(final(self).view()),
            r is Ok <==> owner_may_change(old(self).view(), alert_id@, owner_pubkey@),
            r matches Err(e) ==> owner_check(old(self).view(), alert_id@, owner_pubkey@, e)
                && final(self).view() == old(self).view(),
            r matches Ok(a) ==> {
                let k = index_of(old(self).view(), alert_id@);
                &&& a == with_delivery(old(self).view()[k], delivery, a.updated_at)
                &&& final(self).view() == old(self).view().update(k, a)
            },
    {
        let now = utc_now();
        self.update_delivery_by_owner_at(alert_id, owner_pubkey, delivery, now)
    }

    /// Changes a subscription's delivery target on behalf of its owner at `now`.
    pub fn update_delivery_by_owner_at(
        &mut self,
        alert_id: &str,
        owner_pubkey: &str,
        delivery: DeliveryTarget,
        now: Timestamp,
    ) -> (r: Result<AlertSubscription, AlertError>)
        ensures
            ids_unique(final(self).view()),
            r is Ok <==> owner_may_change(old(self).view(), alert_id@, owner_pubkey@),
            r matches Err(e) ==> owner_check(old(self).view(), alert_id@, owner_pubkey@, e)
                && final(self).view() == old(self).view(),
            r matches Ok(a) ==> {
                let k = index_of(old(self).view(), alert_id@);
                &&& a == with_delivery(old(self).view()[k], delivery, now)
                &&& final(self).view() == old(self).view().update(k, a)
            },
    {
        proof {
            use_type_invariant(&*self);
        }
        let i = match self.position(alert_id) {
            Some(i) => i,
            None => return Err(AlertError::AlertNotFound(alert_id.to_owned())),
        };
        if !str_eq(self.alerts[i].delivery.pubkey.as_str(), owner_pubkey) {
            return Err(AlertError::Unauthorized);
        }
        let mut a = self.alerts[i].clone();
        a.delivery = delivery;
        a.updated_at = now;
        let out = a.clone();
        self.replace_same_id(i, a);
        Ok(out)
    }
}

} // verus!
