//! Polymarket data as the bot reads it: exact decimals, markets, events and
//! search results, wallet addresses, and the selection of trending and
//! closing events.

use vstd::prelude::*;
use crate::number::pow10;
use crate::text::{chars_of, push_range, push_str, string_of, trim, trim_bounds};
use crate::time::{nanos_diff, ts_nanos, Timestamp};

verus! {

/// A non-negative exact decimal `mantissa / 10^scale`, in the range of
/// `rust_decimal::Decimal` (a 96-bit mantissa, at most 28 decimal places).
#[derive(Clone, Copy, Debug)]
pub struct Dec {
    mantissa: u128,
    scale: u32,
}

/// `2^96`.
pub open spec fn mantissa_bound() -> nat {
    79228162514264337593543950336
}

impl Dec {
    #[verifier::type_invariant]
    spec fn inv(self) -> bool {
        self.mantissa < 79228162514264337593543950336 && self.scale <= 28
    }

    /// The mantissa.
    pub closed spec fn mant(&self) -> nat {
        self.mantissa as nat
    }

    /// The number of decimal places.
    pub closed spec fn sc(&self) -> nat {
        self.scale as nat
    }

    /// The decimal `mantissa / 10^scale`, when in range.
    pub fn new(mantissa: u128, scale: u32) -> (r: Option<Dec>)
        ensures
            r is Some <==> mantissa < mantissa_bound() && scale <= 28,
            r matches Some(d) ==> d.mant() == mantissa && d.sc() == scale,
    {
        if mantissa < 79228162514264337593543950336u128 && scale <= 28 {
            Some(Dec { mantissa, scale })
        } else {
            None
        }
    }

    /// The mantissa.
    pub fn mantissa(&self) -> (m: u128)
        ensures
            m == self.mant(),
            m < mantissa_bound(),
    {
        proof {
            use_type_invariant(self);
        }
        self.mantissa
    }

    /// The number of decimal places.
    pub fn scale(&self) -> (s: u32)
        ensures
            s == self.sc(),
            s <= 28,
    {
        proof {
            use_type_invariant(self);
        }
        self.scale
    }
}

/// `a < b` by value.
pub open spec fn dec_lt(a: Dec, b: Dec) -> bool {
    a.mant() * pow10(b.sc()) < b.mant() * pow10(a.sc())
}

/// `10^n` as a machine integer.
pub fn pow10_u128(n: u32) -> (r: u128)
    requires
        n <= 38,
    ensures
        r == pow10(n as nat),
{
    let mut r: u128 = 1;
    let mut i: u32 = 0;
    proof {
        crate::number::lemma_pow10_pos(38);
        assert(pow10(38) == 100000000000000000000000000000000000000) by {
            reveal_with_fuel(pow10, 39);
        }
    }
    while i < n
        invariant
            i <= n <= 38,
            r == pow10(i as nat),
            r <= pow10(38),
            pow10(38) == 100000000000000000000000000000000000000,
        decreases n - i,
    {
        proof {
            assert(pow10((i + 1) as nat) == 10 * pow10(i as nat));
            crate::number::lemma_pow10_mono(i as nat + 1, 38);
        }
        r = r * 10;
        i += 1;
    }
    r
}

/// `m * 10^k`, or `None` when it does not fit in 128 bits.
fn scale_up(m: u128, k: u32) -> (r: Option<u128>)
    requires
        k <= 38,
    ensures
        r matches Some(v) ==> v == m * pow10(k as nat),
        r is None ==> m * pow10(k as nat) > u128::MAX,
{
    let p = pow10_u128(k);
    m.checked_mul(p)
}

/// Whether `a < b` by value.
pub fn dec_less(a: &Dec, b: &Dec) -> (r: bool)
    ensures
        r == dec_lt(*a, *b),
{
    let am = a.mantissa();
    let asc = a.scale();
    let bm = b.mantissa();
    let bsc = b.scale();
    proof {
        crate::number::lemma_pow10_pos(asc as nat);
        crate::number::lemma_pow10_pos(bsc as nat);
    }
    if asc <= bsc {
        let d = bsc - asc;
        proof {
            crate::number::lemma_pow10_add(asc as nat, d as nat);
            lemma_cross_lt(am as nat, bm as nat, pow10(asc as nat), pow10(d as nat));
        }
        match scale_up(am, d) {
            Some(x) => x < bm,
            None => false,
        }
    } else {
        let d = asc - bsc;
        proof {
            crate::number::lemma_pow10_add(bsc as nat, d as nat);
            lemma_cross_lt_rev(am as nat, bm as nat, pow10(bsc as nat), pow10(d as nat));
        }
        match scale_up(bm, d) {
            Some(y) => am < y,
            None => true,
        }
    }
}

proof fn lemma_cross_lt(am: nat, bm: nat, pa: nat, pd: nat)
    requires
        pa >= 1,
    ensures
        (am * (pa * pd) < bm * pa) == (am * pd < bm),
{
    assert((am * (pa * pd) < bm * pa) == (am * pd < bm)) by (nonlinear_arith)
        requires
            pa >= 1,
    ;
}

proof fn lemma_cross_lt_rev(am: nat, bm: nat, pb: nat, pd: nat)
    requires
        pb >= 1,
    ensures
        (am * pb < bm * (pb * pd)) == (am < bm * pd),
{
    assert((am * pb < bm * (pb * pd)) == (am < bm * pd)) by (nonlinear_arith)
        requires
            pb >= 1,
    ;
}

/// A market as the bot shows it.
#[derive(Debug)]
pub struct MarketInfo {
    pub question: Option<String>,
    pub slug: Option<String>,
    pub description: Option<String>,
    pub outcomes: Option<Vec<String>>,
    pub outcome_prices: Option<Vec<Dec>>,
    pub volume: Option<Dec>,
    pub liquidity: Option<Dec>,
    pub end_date: Option<Timestamp>,
    pub resolution_source: Option<String>,
}

/// An event (a group of markets) as the bot shows it.
#[derive(Debug)]
pub struct EventInfo {
    pub title: Option<String>,
    pub slug: Option<String>,
    pub description: Option<String>,
    pub volume: Option<Dec>,
    pub volume_24hr: Option<Dec>,
    pub liquidity: Option<Dec>,
    pub end_date: Option<Timestamp>,
    pub closed: Option<bool>,
    pub archived: Option<bool>,
    pub markets: Option<Vec<MarketInfo>>,
}

/// Search results.
#[derive(Debug)]
pub struct SearchInfo {
    pub events: Option<Vec<EventInfo>>,
}

// ------------------------------------------------------------ addresses

/// What a wallet address argument becomes before it is checked as a hex
/// address: the trimmed text, and that text with a `0x` prefix added when
/// it has none. An empty argument is refused.
pub open spec fn address_candidate(input: Seq<char>) -> Result<(Seq<char>, Seq<char>), Seq<char>> {
    let t = trim(input);
    if t.len() == 0 {
        Err("Wallet address is required."@)
    } else if t.len() >= 2 && t[0] == '0' && t[1] == 'x' {
        Ok((t, t))
    } else {
        Ok((t, "0x"@ + t))
    }
}

/// Prepares a wallet address argument: `(trimmed, with 0x prefix)`.
pub fn prepare_address(address: &str) -> (r: Result<(String, String), String>)
    ensures
        match r {
            Ok((t, n)) => address_candidate(address@) == Ok::<(Seq<char>, Seq<char>), Seq<char>>(
                (t@, n@),
            ),
            Err(m) => address_candidate(address@) == Err::<(Seq<char>, Seq<char>), Seq<char>>(m@),
        },
{
    let v = chars_of(address);
    let (a, b) = trim_bounds(&v);
    if a == b {
        return Err(string_of("Wallet address is required."));
    }
    let mut t = String::new();
    push_range(&mut t, &v, a, b);
    let mut n = String::new();
    if b - a >= 2 && v[a] == '0' && v[a + 1] == 'x' {
        push_range(&mut n, &v, a, b);
    } else {
        push_str(&mut n, "0x");
        push_range(&mut n, &v, a, b);
    }
    assert(t@ =~= v@.subrange(a as int, b as int));
    Ok((t, n))
}

/// The refusal of an address that is not a 20-byte hex address.
pub fn invalid_address_message(trimmed: &str) -> (s: String)
    ensures
        s@ == "Invalid wallet address: '"@ + trimmed@
            + "'. Expected a 20-byte hex address (with or without 0x prefix)."@,
{
    let mut s = string_of("Invalid wallet address: '");
    push_str(&mut s, trimmed);
    push_str(&mut s, "'. Expected a 20-byte hex address (with or without 0x prefix).");
    s
}

// ------------------------------------------------------------ selection

/// `opt.unwrap_or(false)`.
pub open spec fn flag(o: Option<bool>) -> bool {
    match o {
        Some(b) => b,
        None => false,
    }
}

/// An event is trending material: not closed, not archived, and ending
/// after `now`.
pub open spec fn is_live(e: EventInfo, now: Timestamp) -> bool {
    &&& !flag(e.closed)
    &&& !flag(e.archived)
    &&& match e.end_date {
        Some(t) => ts_nanos(t) > ts_nanos(now),
        None => false,
    }
}

/// An event has a first market, and that market has outcome prices.
pub open spec fn has_first_prices(e: EventInfo) -> bool {
    match e.markets {
        Some(ms) => ms@.len() > 0 && match ms@[0].outcome_prices {
            Some(ps) => ps@.len() > 0,
            None => false,
        },
        None => false,
    }
}

/// An event closes within the window: it has an end date after `now` and
/// at most `hours` hours later, is neither closed nor archived, and has a
/// first market with outcome prices.
pub open spec fn closes_within(e: EventInfo, now: Timestamp, hours: nat) -> bool {
    &&& !flag(e.closed)
    &&& !flag(e.archived)
    &&& has_first_prices(e)
    &&& match e.end_date {
        Some(t) => ts_nanos(now) < ts_nanos(t) <= ts_nanos(now) + hours * 3_600_000_000_000,
        None => false,
    }
}

/// The events that may be listed as trending at `now`, in order.
pub open spec fn live_events(s: Seq<EventInfo>, now: Timestamp) -> Seq<EventInfo> {
    s.filter(|e: EventInfo| is_live(e, now))
}

/// The events closing within the window, in order.
pub open spec fn closing_events(s: Seq<EventInfo>, now: Timestamp, hours: nat) -> Seq<EventInfo> {
    s.filter(|e: EventInfo| closes_within(e, now, hours))
}

/// How many events to fetch for `limit` trending ones: five times as many,
/// at most 200.
pub fn trending_fetch_limit(limit: u32) -> (r: i32)
    requires
        limit <= 429_496_729,
    ensures
        r == if 5 * limit < 200 {
            5 * limit
        } else {
            200
        },
{
    let f = (limit as i32) * 5;
    if f < 200 {
        f
    } else {
        200
    }
}

/// How many events to fetch for `limit` closing ones: twenty times as many,
/// at most 200.
pub fn closing_fetch_limit(limit: usize) -> (r: usize)
    requires
        limit * 20 <= usize::MAX,
    ensures
        r == if 20 * limit < 200 {
            20 * limit
        } else {
            200
        },
{
    let f = limit * 20;
    if f < 200 {
        f
    } else {
        200
    }
}

/// `o.unwrap_or(false)`.
fn flag_of(o: Option<bool>) -> (b: bool)
    ensures
        b == flag(o),
{
    match o {
        Some(b) => b,
        None => false,
    }
}

/// `n`, capped at `cap`.
pub open spec fn cap_at(n: int, cap: int) -> int {
    if n <= cap {
        n
    } else {
        cap
    }
}

/// Whether an event is still open at `now`.
fn live_at(e: &EventInfo, now: Timestamp) -> (b: bool)
    ensures
        b == is_live(*e, now),
{
    !flag_of(e.closed) && !flag_of(e.archived) && match e.end_date {
        Some(t) => nanos_diff(t, now) > 0,
        None => false,
    }
}

/// Whether an event closes within `hours` hours of `now`.
fn first_prices_at(e: &EventInfo) -> (b: bool)
    ensures
        b == has_first_prices(*e),
{
    match &e.markets {
        Some(ms) => ms.len() > 0 && match &ms[0].outcome_prices {
            Some(ps) => ps.len() > 0,
            None => false,
        },
        None => false,
    }
}

fn closing_at(e: &EventInfo, now: Timestamp, hours: u64) -> (b: bool)
    ensures
        b == closes_within(*e, now, hours as nat),
{
    !flag_of(e.closed) && !flag_of(e.archived) && first_prices_at(e) && match e.end_date {
        Some(t) => {
            let d = nanos_diff(t, now);
            let w: u128 = (hours as u128) * 3_600_000_000_000u128;
            d > 0 && (d as u128) <= w
        },
        None => false,
    }
}

/// The first `limit` events that may be listed as trending at `now`, in
/// the order given.
pub fn select_trending_events(events: Vec<EventInfo>, now: Timestamp, limit: u32) -> (r: Vec<EventInfo>)
    ensures
        r@ == live_events(events@, now).take(cap_at(limit as int, live_events(events@, now).len() as int)),
{
    let ghost p = |e: EventInfo| is_live(e, now);
    let ghost all = events@;
    let mut src = events;
    let mut kept: Vec<EventInfo> = Vec::new();
    while src.len() > 0
        invariant
            p == (|e: EventInfo| is_live(e, now)),
            src@.len() <= all.len(),
            src@ == all.skip(all.len() - src@.len()),
            kept@ == all.take(all.len() - src@.len()).filter(p),
        decreases src.len(),
    {
        let ghost k = all.len() - src@.len();
        let e = src.remove(0);
        proof {
            assert(all[k] == e);
            assert(all.take(k + 1) =~= all.take(k).push(e));
            assert(src@ =~= all.skip(k + 1));
            all.take(k).lemma_filter_push(e, p);
        }
        if live_at(&e, now) {
            kept.push(e);
        }
    }
    assert(all.take(all.len() as int) =~= all);
    let n: usize = if (limit as usize) < kept.len() {
        limit as usize
    } else {
        kept.len()
    };
    kept.truncate(n);
    kept
}

/// `a` is strictly greater than `b` in the order `Option<&Decimal>` has:
/// any amount above none, amounts by value.
pub open spec fn vol_gt(a: Option<Dec>, b: Option<Dec>) -> bool {
    match (a, b) {
        (Some(x), Some(y)) => dec_lt(y, x),
        (Some(_), None) => true,
        _ => false,
    }
}

/// The end instant of an event, in nanoseconds (0 when it has none).
pub open spec fn end_nanos(e: EventInfo) -> int {
    match e.end_date {
        Some(t) => ts_nanos(t),
        None => 0,
    }
}

/// `a` goes strictly before `b` among closing events: it ends sooner, or
/// ends at the same instant with the larger 24-hour volume.
pub open spec fn goes_before(a: EventInfo, b: EventInfo) -> bool {
    ||| end_nanos(a) < end_nanos(b)
    ||| (end_nanos(a) == end_nanos(b) && vol_gt(a.volume_24hr, b.volume_24hr))
}

/// `e` inserted into `s` after every element it does not go before: one
/// step of a stable insertion sort.
pub open spec fn insert_stable(s: Seq<EventInfo>, e: EventInfo) -> Seq<EventInfo>
    decreases s.len(),
{
    if s.len() == 0 {
        seq![e]
    } else if goes_before(e, s.last()) {
        insert_stable(s.drop_last(), e).push(s.last())
    } else {
        s.push(e)
    }
}

/// `s` stably sorted by `goes_before`: elements that neither goes before
/// the other keep their order.
pub open spec fn stable_sort(s: Seq<EventInfo>) -> Seq<EventInfo>
    decreases s.len(),
{
    if s.len() == 0 {
        s
    } else {
        insert_stable(stable_sort(s.drop_last()), s.last())
    }
}

/// What the closing list holds: the events closing within the window,
/// soonest first and the busiest first among equal end instants, at most
/// `limit` of them.
pub open spec fn closing_selection(s: Seq<EventInfo>, now: Timestamp, hours: nat, limit: nat) -> Seq<EventInfo> {
    let sorted = stable_sort(closing_events(s, now, hours));
    sorted.take(cap_at(limit as int, sorted.len() as int))
}

/// Whether `a` is larger than `b` by the order of `Option<Decimal>`.
fn vol_greater(a: &Option<Dec>, b: &Option<Dec>) -> (r: bool)
    ensures
        r == vol_gt(*a, *b),
{
    match (a, b) {
        (Some(x), Some(y)) => dec_less(y, x),
        (Some(_), None) => true,
        _ => false,
    }
}

fn end_nanos_of(e: &EventInfo) -> (n: i128)
    ensures
        n == end_nanos(*e),
{
    match e.end_date {
        Some(t) => nanos_diff(t, Timestamp { secs: 0, nanos: 0 }),
        None => 0,
    }
}

fn before(a: &EventInfo, b: &EventInfo) -> (r: bool)
    ensures
        r == goes_before(*a, *b),
{
    let ea = end_nanos_of(a);
    let eb = end_nanos_of(b);
    ea < eb || (ea == eb && vol_greater(&a.volume_24hr, &b.volume_24hr))
}

proof fn lemma_insert_at(s: Seq<EventInfo>, e: EventInfo, j: int)
    requires
        0 <= j <= s.len(),
        forall|k: int| j <= k < s.len() ==> goes_before(e, #[trigger] s[k]),
        j > 0 ==> !goes_before(e, s[j - 1]),
    ensures
        insert_stable(s, e) == s.take(j).push(e) + s.skip(j),
    decreases s.len(),
{
    if s.len() == 0 {
        assert(s.take(j).push(e) + s.skip(j) =~= seq![e]);
    } else if j == s.len() {
        assert(s.take(j) =~= s);
        assert(s.take(j).push(e) + s.skip(j) =~= s.push(e));
    } else {
        let t = s.drop_last();
        assert(goes_before(e, s[s.len() - 1]));
        assert forall|k: int| j <= k < t.len() implies goes_before(e, #[trigger] t[k]) by {
            assert(t[k] == s[k]);
        }
        lemma_insert_at(t, e, j);
        assert(s.take(j).push(e) + s.skip(j) =~= (t.take(j).push(e) + t.skip(j)).push(s.last()));
    }
}

/// Inserts `e` into the sorted `v` as `insert_stable` does.
fn insert_event(v: &mut Vec<EventInfo>, e: EventInfo)
    ensures
        final(v)@ == insert_stable(old(v)@, e),
{
    let mut j = v.len();
    while j > 0 && before(&e, &v[j - 1])
        invariant
            j <= v@.len(),
            forall|k: int| j <= k < v@.len() ==> goes_before(e, #[trigger] v@[k]),
        decreases j,
    {
        j -= 1;
    }
    proof {
        lemma_insert_at(v@, e, j as int);
        assert(v@.take(j as int).push(e) + v@.skip(j as int) =~= v@.insert(j as int, e));
    }
    v.insert(j, e);
}

/// The first `limit` events closing within `within_hours` hours of `now`,
/// soonest first, the larger 24-hour volume first among equal end instants,
/// and otherwise in the order given.
pub fn select_closing_events(events: Vec<EventInfo>, now: Timestamp, within_hours: u64, limit: usize) -> (r: Vec<EventInfo>)
    ensures
        r@ == closing_selection(events@, now, within_hours as nat, limit as nat),
{
    let ghost p = |e: EventInfo| closes_within(e, now, within_hours as nat);
    let ghost all = events@;
    let mut src = events;
    let mut sorted: Vec<EventInfo> = Vec::new();
    while src.len() > 0
        invariant
            p == (|e: EventInfo| closes_within(e, now, within_hours as nat)),
            src@.len() <= all.len(),
            src@ == all.skip(all.len() - src@.len()),
            sorted@ == stable_sort(all.take(all.len() - src@.len()).filter(p)),
        decreases src.len(),
    {
        let ghost k = all.len() - src@.len();
        let e = src.remove(0);
        proof {
            assert(all[k] == e);
            assert(all.take(k + 1) =~= all.take(k).push(e));
            assert(src@ =~= all.skip(k + 1));
            all.take(k).lemma_filter_push(e, p);
            let f = all.take(k).filter(p);
            assert(f.push(e).drop_last() =~= f);
        }
        if closing_at(&e, now, within_hours) {
            insert_event(&mut sorted, e);
        }
    }
    assert(all.take(all.len() as int) =~= all);
    let n: usize = if limit < sorted.len() {
        limit
    } else {
        sorted.len()
    };
    sorted.truncate(n);
    sorted
}

// ------------------------------------------------------------ order laws

/// Sorted by `goes_before`: no element goes before one ahead of it.
pub open spec fn sorted_closing(s: Seq<EventInfo>) -> bool {
    forall|i: int, j: int| 0 <= i < j < s.len() ==> !goes_before(#[trigger] s[j], #[trigger] s[i])
}

proof fn lemma_dec_neg_trans(x: Dec, y: Dec, z: Dec)
    requires
        dec_lt(z, x),
    ensures
        dec_lt(y, x) || dec_lt(z, y),
{
    let (xm, ym, zm) = (x.mant() as int, y.mant() as int, z.mant() as int);
    let (px, py, pz) = (pow10(x.sc()) as int, pow10(y.sc()) as int, pow10(z.sc()) as int);
    crate::number::lemma_pow10_pos(y.sc());
    if !dec_lt(y, x) && !dec_lt(z, y) {
        assert(false) by (nonlinear_arith)
            requires
                xm * py <= ym * px,
                ym * pz <= zm * py,
                zm * px < xm * pz,
                py >= 1,
                px >= 0,
                pz >= 0,
                xm >= 0,
                ym >= 0,
                zm >= 0,
        {
            assert(xm * py * pz <= ym * px * pz);
            assert(ym * pz * px <= zm * py * px);
            assert(zm * px * py < xm * pz * py);
        }
    }
}

proof fn lemma_vol_neg_trans(x: Option<Dec>, y: Option<Dec>, z: Option<Dec>)
    requires
        vol_gt(x, z),
    ensures
        vol_gt(x, y) || vol_gt(y, z),
{
    match (x, y, z) {
        (Some(a), Some(b), Some(c)) => lemma_dec_neg_trans(a, b, c),
        _ => {},
    }
}

proof fn lemma_vol_asym(x: Option<Dec>, y: Option<Dec>)
    ensures
        !(vol_gt(x, y) && vol_gt(y, x)),
{
    match (x, y) {
        (Some(a), Some(b)) => {
            let (am, bm) = (a.mant() as int, b.mant() as int);
            let (pa, pb) = (pow10(a.sc()) as int, pow10(b.sc()) as int);
            assert(!(am * pb < bm * pa && bm * pa < am * pb));
        },
        _ => {},
    }
}

/// `goes_before` is negatively transitive: if `a` goes before `c`, then
/// for every `b`, `a` goes before `b` or `b` goes before `c`.
proof fn lemma_before_neg_trans(a: EventInfo, b: EventInfo, c: EventInfo)
    requires
        goes_before(a, c),
    ensures
        goes_before(a, b) || goes_before(b, c),
{
    if end_nanos(a) == end_nanos(b) && end_nanos(b) == end_nanos(c) {
        lemma_vol_neg_trans(a.volume_24hr, b.volume_24hr, c.volume_24hr);
    }
}

proof fn lemma_before_asym(a: EventInfo, b: EventInfo)
    ensures
        !(goes_before(a, b) && goes_before(b, a)),
{
    lemma_vol_asym(a.volume_24hr, b.volume_24hr);
}

proof fn lemma_insert_sorted(s: Seq<EventInfo>, e: EventInfo)
    requires
        sorted_closing(s),
    ensures
        sorted_closing(insert_stable(s, e)),
        insert_stable(s, e).len() == s.len() + 1,
        forall|k: int|
            0 <= k < insert_stable(s, e).len() ==> #[trigger] insert_stable(s, e)[k] == e
                || s.contains(insert_stable(s, e)[k]),
    decreases s.len(),
{
    if s.len() == 0 {
    } else if goes_before(e, s.last()) {
        let t = s.drop_last();
        assert(sorted_closing(t)) by {
            assert forall|i: int, j: int| 0 <= i < j < t.len() implies !goes_before(#[trigger] t[j], #[trigger] t[i]) by {
                assert(t[i] == s[i] && t[j] == s[j]);
            }
        }
        lemma_insert_sorted(t, e);
        let r = insert_stable(t, e);
        let last = s.last();
        assert forall|k: int| 0 <= k < r.len() implies !goes_before(last, #[trigger] r[k]) by {
            if r[k] == e {
                lemma_before_asym(e, last);
            } else {
                assert(t.contains(r[k]));
                let m = choose|m: int| 0 <= m < t.len() && t[m] == r[k];
                assert(s[m] == r[k]);
                assert(!goes_before(s[s.len() - 1], s[m]));
            }
        }
        let out = r.push(last);
        assert forall|i: int, j: int| 0 <= i < j < out.len() implies !goes_before(#[trigger] out[j], #[trigger] out[i]) by {
            if j == out.len() - 1 {
                assert(out[j] == last);
                assert(out[i] == r[i]);
            } else {
                assert(out[i] == r[i] && out[j] == r[j]);
            }
        }
        assert forall|k: int| 0 <= k < out.len() implies #[trigger] out[k] == e || s.contains(out[k]) by {
            if k == out.len() - 1 {
                assert(s[s.len() - 1] == out[k]);
            } else {
                assert(out[k] == r[k]);
                if r[k] != e {
                    assert(t.contains(r[k]));
                    let m = choose|m: int| 0 <= m < t.len() && t[m] == r[k];
                    assert(s[m] == r[k]);
                }
            }
        }
    } else {
        let out = s.push(e);
        let last = s.last();
        assert forall|i: int, j: int| 0 <= i < j < out.len() implies !goes_before(#[trigger] out[j], #[trigger] out[i]) by {
            if j == out.len() - 1 {
                assert(out[j] == e);
                assert(out[i] == s[i]);
                if goes_before(e, s[i]) {
                    lemma_before_neg_trans(e, last, s[i]);
                    if i < s.len() - 1 {
                        assert(!goes_before(s[s.len() - 1], s[i]));
                    }
                }
            } else {
                assert(out[i] == s[i] && out[j] == s[j]);
            }
        }
        assert forall|k: int| 0 <= k < out.len() implies #[trigger] out[k] == e || s.contains(out[k]) by {
            if k < s.len() {
                assert(out[k] == s[k]);
            }
        }
    }
}

proof fn lemma_stable_sort(s: Seq<EventInfo>)
    ensures
        sorted_closing(stable_sort(s)),
        stable_sort(s).len() == s.len(),
        forall|k: int| 0 <= k < stable_sort(s).len() ==> s.contains(#[trigger] stable_sort(s)[k]),
    decreases s.len(),
{
    if s.len() > 0 {
        let t = s.drop_last();
        lemma_stable_sort(t);
        lemma_insert_sorted(stable_sort(t), s.last());
        let r = stable_sort(s);
        assert forall|k: int| 0 <= k < r.len() implies s.contains(#[trigger] r[k]) by {
            if r[k] == s.last() {
                assert(s[s.len() - 1] == r[k]);
            } else {
                assert(stable_sort(t).contains(r[k]));
                let m = choose|m: int| 0 <= m < stable_sort(t).len() && stable_sort(t)[m] == r[k];
                assert(t.contains(stable_sort(t)[m]));
                let q = choose|q: int| 0 <= q < t.len() && t[q] == r[k];
                assert(s[q] == r[k]);
            }
        }
    }
}

/// The closing list is ordered: soonest end first, and among events that
/// end at the same instant the larger 24-hour volume first (an absent
/// volume last); every event in it closes within the window.
pub proof fn law_closing_list_is_ordered(events: Seq<EventInfo>, now: Timestamp, hours: nat, limit: nat)
    ensures
        sorted_closing(closing_selection(events, now, hours, limit)),
        forall|k: int|
            0 <= k < closing_selection(events, now, hours, limit).len() ==> closes_within(
                #[trigger] closing_selection(events, now, hours, limit)[k],
                now,
                hours,
            ),
        closing_selection(events, now, hours, limit).len() <= limit,
{
    let p = |e: EventInfo| closes_within(e, now, hours);
    let f = closing_events(events, now, hours);
    lemma_stable_sort(f);
    let sorted = stable_sort(f);
    let r = closing_selection(events, now, hours, limit);
    assert forall|k: int| 0 <= k < r.len() implies closes_within(#[trigger] r[k], now, hours) by {
        assert(r[k] == sorted[k]);
        assert(f.contains(sorted[k]));
        let m = choose|m: int| 0 <= m < f.len() && f[m] == sorted[k];
        events.lemma_filter_pred(p, m);
    }
    assert forall|i: int, j: int| 0 <= i < j < r.len() implies !goes_before(#[trigger] r[j], #[trigger] r[i]) by {
        assert(r[i] == sorted[i] && r[j] == sorted[j]);
    }
}

/// Every trending event is open at `now` (not closed, not archived, ending
/// later), and there are at most `limit` of them.
pub proof fn law_trending_events_are_live(events: Seq<EventInfo>, now: Timestamp, limit: nat)
    ensures
        ({
            let live = live_events(events, now);
            let r = live.take(cap_at(limit as int, live.len() as int));
            &&& r.len() <= limit
            &&& forall|k: int| 0 <= k < r.len() ==> is_live(#[trigger] r[k], now)
        }),
{
    let p = |e: EventInfo| is_live(e, now);
    let live = live_events(events, now);
    events.lemma_filter_len(p);
    let r = live.take(cap_at(limit as int, live.len() as int));
    assert forall|k: int| 0 <= k < r.len() implies is_live(#[trigger] r[k], now) by {
        assert(r[k] == live[k]);
        events.lemma_filter_pred(p, k);
    }
}

/// The first `limit` events open now, in the order given; the clock is
/// read here.
pub fn trending_events_now(events: Vec<EventInfo>, limit: u32) -> (r: Vec<EventInfo>)
    ensures
        exists|now: Timestamp|
            r@ == live_events(events@, now).take(cap_at(limit as int, live_events(events@, now).len() as int)),
{
    let now = crate::time::utc_now();
    select_trending_events(events, now, limit)
}

/// The first `limit` events closing within `within_hours` hours from now,
/// soonest first; the clock is read here.
pub fn closing_events_now(events: Vec<EventInfo>, within_hours: u64, limit: usize) -> (r: Vec<EventInfo>)
    ensures
        exists|now: Timestamp| r@ == closing_selection(events@, now, within_hours as nat, limit as nat),
{
    let now = crate::time::utc_now();
    select_closing_events(events, now, within_hours, limit)
}

} // verus!
