//! The per-owner notification window: how many notifications an owner was
//! sent in the last minute, and whether one more may go out.

use vstd::prelude::*;
use crate::text::str_eq;
use crate::time::{nanos_diff, nanos_between, Timestamp};

verus! {

/// A notification sent at `t` still counts at `now`: fewer than 60 whole
/// seconds lie between them, i.e. `(now - t).num_seconds() < 60`.
pub open spec fn recent(now: Timestamp, t: Timestamp) -> bool {
    nanos_between(now, t) < 60_000_000_000
}

/// The notification times of `w` that still count at `now`, in order.
pub open spec fn recent_of(w: Seq<Timestamp>, now: Timestamp) -> Seq<Timestamp> {
    w.filter(|t: Timestamp| recent(now, t))
}

/// No two entries share an owner.
pub open spec fn owners_unique(s: Seq<(String, Vec<Timestamp>)>) -> bool {
    forall|i: int, j: int|
        0 <= i < s.len() && 0 <= j < s.len() && i != j ==> #[trigger] s[i].0@ != #[trigger] s[j].0@
}

/// The map from owner to notification times that a list of entries stands for.
pub open spec fn entries_map(s: Seq<(String, Vec<Timestamp>)>) -> Map<Seq<char>, Seq<Timestamp>>
    decreases s.len(),
{
    if s.len() == 0 {
        Map::empty()
    } else {
        entries_map(s.drop_last()).insert(s.last().0@, s.last().1@)
    }
}

/// The times recorded for `owner` in a window map (none when absent).
pub open spec fn times_of(m: Map<Seq<char>, Seq<Timestamp>>, owner: Seq<char>) -> Seq<Timestamp> {
    if m.contains_key(owner) {
        m[owner]
    } else {
        Seq::empty()
    }
}

/// The window after asking, at `now`, whether `owner` may be sent one more
/// notification when at most `limit` may go out per minute: old times are
/// dropped, and `now` is recorded when the answer is yes.
pub open spec fn allow_step(
    m: Map<Seq<char>, Seq<Timestamp>>,
    owner: Seq<char>,
    now: Timestamp,
    limit: nat,
) -> (Map<Seq<char>, Seq<Timestamp>>, bool) {
    let kept = recent_of(times_of(m, owner), now);
    if kept.len() >= limit {
        (m.insert(owner, kept), false)
    } else {
        (m.insert(owner, kept.push(now)), true)
    }
}

/// Per-owner notification times.
pub struct NotificationWindow {
    entries: Vec<(String, Vec<Timestamp>)>,
}

proof fn lemma_entries_map_update(s: Seq<(String, Vec<Timestamp>)>, i: int, e: (String, Vec<Timestamp>))
    requires
        owners_unique(s),
        0 <= i < s.len(),
        e.0@ == s[i].0@,
    ensures
        owners_unique(s.update(i, e)),
        entries_map(s.update(i, e)) == entries_map(s).insert(e.0@, e.1@),
    decreases s.len(),
{
    let t = s.update(i, e);
    assert forall|a: int, b: int|
        0 <= a < t.len() && 0 <= b < t.len() && a != b implies #[trigger] t[a].0@ != #[trigger] t[b].0@ by {
        if a == i {
            assert(t[b] == s[b]);
        } else if b == i {
            assert(t[a] == s[a]);
        } else {
            assert(t[a] == s[a] && t[b] == s[b]);
        }
    }
    if i == s.len() - 1 {
        assert(t.drop_last() =~= s.drop_last());
        assert(entries_map(t) =~= entries_map(s).insert(e.0@, e.1@));
    } else {
        let p = s.drop_last();
        assert(owners_unique(p)) by {
            assert forall|a: int, b: int|
                0 <= a < p.len() && 0 <= b < p.len() && a != b implies #[trigger] p[a].0@
                != #[trigger] p[b].0@ by {
                assert(p[a] == s[a] && p[b] == s[b]);
            }
        }
        lemma_entries_map_update(p, i, e);
        assert(t.drop_last() =~= p.update(i, e));
        assert(t.last() == s.last());
        assert(s.last().0@ != e.0@) by {
            assert(s[s.len() - 1].0@ != s[i].0@);
        }
        assert(entries_map(t) =~= entries_map(s).insert(e.0@, e.1@));
    }
}

proof fn lemma_entries_map_absent(s: Seq<(String, Vec<Timestamp>)>, owner: Seq<char>)
    requires
        forall|j: int| 0 <= j < s.len() ==> #[trigger] s[j].0@ != owner,
    ensures
        !entries_map(s).contains_key(owner),
    decreases s.len(),
{
    if s.len() > 0 {
        let p = s.drop_last();
        assert forall|j: int| 0 <= j < p.len() implies #[trigger] p[j].0@ != owner by {
            assert(p[j] == s[j]);
        }
        lemma_entries_map_absent(p, owner);
        assert(s[s.len() - 1].0@ != owner);
    }
}

proof fn lemma_entries_map_at(s: Seq<(String, Vec<Timestamp>)>, i: int)
    requires
        owners_unique(s),
        0 <= i < s.len(),
    ensures
        entries_map(s).contains_key(s[i].0@),
        entries_map(s)[s[i].0@] == s[i].1@,
    decreases s.len(),
{
    let p = s.drop_last();
    assert(owners_unique(p)) by {
        assert forall|a: int, b: int|
            0 <= a < p.len() && 0 <= b < p.len() && a != b implies #[trigger] p[a].0@
            != #[trigger] p[b].0@ by {
            assert(p[a] == s[a] && p[b] == s[b]);
        }
    }
    if i < s.len() - 1 {
        lemma_entries_map_at(p, i);
        assert(p[i] == s[i]);
        assert(s[s.len() - 1].0@ != s[i].0@);
    }
}

fn find_owner(entries: &Vec<(String, Vec<Timestamp>)>, owner: &str) -> (r: Option<usize>)
    ensures
        r matches Some(k) ==> k < entries.len() && entries@[k as int].0@ == owner@,
        r is None ==> forall|j: int| 0 <= j < entries.len() ==> #[trigger] entries@[j].0@ != owner@,
{
    let mut i: usize = 0;
    while i < entries.len()
        invariant
            i <= entries.len(),
            forall|j: int| 0 <= j < i ==> #[trigger] entries@[j].0@ != owner@,
        decreases entries.len() - i,
    {
        if str_eq(entries[i].0.as_str(), owner) {
            return Some(i);
        }
        i += 1;
    }
    None
}

impl NotificationWindow {
    #[verifier::type_invariant]
    spec fn inv(self) -> bool {
        owners_unique(self.entries@)
    }

    /// Owner to notification times.
    pub closed spec fn view(&self) -> Map<Seq<char>, Seq<Timestamp>> {
        entries_map(self.entries@)
    }

    /// A window with nothing recorded.
    pub fn new() -> (w: Self)
        ensures
            w.view() == Map::<Seq<char>, Seq<Timestamp>>::empty(),
    {
        NotificationWindow { entries: Vec::new() }
    }

    /// Whether `owner` may be sent one more notification at `now` when at
    /// most `limit` may go out per minute; records `now` when so.
    pub fn allow_at(&mut self, owner: &str, now: Timestamp, limit: usize) -> (r: bool)
        ensures
            (final(self).view(), r) == allow_step(old(self).view(), owner@, now, limit as nat),
    {
        proof {
            use_type_invariant(&*self);
        }
        let idx = find_owner(&self.entries, owner);
        let ghost m = self.view();
        let mut entries: Vec<(String, Vec<Timestamp>)> = Vec::new();
        std::mem::swap(&mut entries, &mut self.entries);
        let ghost s = entries@;
        let (times, pos): (Vec<Timestamp>, Option<usize>) = match idx {
            Some(k) => {
                proof {
                    lemma_entries_map_at(s, k as int);
                }
                let t = entries[k].1.clone();
                (t, Some(k))
            },
            None => {
                proof {
                    lemma_entries_map_absent(s, owner@);
                }
                (Vec::new(), None)
            },
        };
        assert(times@ == times_of(m, owner@));
        let mut kept: Vec<Timestamp> = Vec::new();
        let mut j: usize = 0;
        while j < times.len()
            invariant
                j <= times.len(),
                kept@ == recent_of(times@.take(j as int), now),
            decreases times.len() - j,
        {
            let ghost pre = times@.take(j as int);
            assert(times@.take(j + 1) =~= pre.push(times@[j as int]));
            proof {
                pre.lemma_filter_push(times@[j as int], |t: Timestamp| recent(now, t));
            }
            if nanos_diff(now, times[j]) < 60_000_000_000 {
                kept.push(times[j]);
            }
            j += 1;
        }
        assert(times@.take(times.len() as int) =~= times@);
        let allowed = kept.len() < limit;
        if allowed {
            kept.push(now);
        }
        let ghost kv = kept@;
        let key = owner.to_owned();
        match pos {
            Some(k) => {
                let e = (key, kept);
                proof {
                    lemma_entries_map_update(s, k as int, e);
                }
                entries.set(k, e);
            },
            None => {
                let e = (key, kept);
                proof {
                    let t = s.push(e);
                    assert forall|a: int, b: int|
                        0 <= a < t.len() && 0 <= b < t.len() && a != b implies #[trigger] t[a].0@
                        != #[trigger] t[b].0@ by {
                        if a < s.len() && b < s.len() {
                            assert(t[a] == s[a] && t[b] == s[b]);
                        } else if a == s.len() {
                            assert(t[b] == s[b]);
                        } else {
                            assert(t[a] == s[a]);
                        }
                    }
                    assert(t.drop_last() =~= s);
                }
                entries.push(e);
            },
        }
        self.entries = entries;
        proof {
            assert(self.view() =~= allow_step(m, owner@, now, limit as nat).0);
        }
        allowed
    }
}

} // verus!
