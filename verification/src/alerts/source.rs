//! What the polling price source decides: how often it polls, and the tick
//! a fetched market gives.

use vstd::prelude::*;
use crate::alerts::model::MarketTick;
use crate::number::pow10;
use crate::polymarket::{pow10_u128, Dec, MarketInfo};
use crate::text::string_of;
use crate::time::Timestamp;
use crate::alerts::model::round_half_even;

verus! {

/// The polling interval: the configured one, but at least 3 seconds.
pub fn poll_interval(interval_seconds: u64) -> (r: u64)
    ensures
        r == if interval_seconds < 3 {
            3
        } else {
            interval_seconds
        },
{
    if interval_seconds < 3 {
        3
    } else {
        interval_seconds
    }
}

/// A price in billionths, rounded to the nearest, ties to even.
pub open spec fn billionths(p: Dec) -> nat {
    round_half_even(p.mant() * 1_000_000_000, pow10(p.sc()))
}

/// The first outcome price of a market, if it has one.
pub open spec fn first_price(m: MarketInfo) -> Option<Dec> {
    match m.outcome_prices {
        Some(ps) => if ps@.len() > 0 {
            Some(ps@[0])
        } else {
            None
        },
        None => None,
    }
}

/// The tick a market fetched for `slug` gives: its first outcome price in
/// billionths, seen at `seen_at`; none when it has no price (or a price
/// beyond the range of a tick).
pub fn tick_from_market(slug: &str, market: &MarketInfo, seen_at: Timestamp) -> (r: Option<MarketTick>)
    ensures
        match r {
            Some(t) => (first_price(*market) matches Some(p) && t.price == billionths(p) && t.slug@
                == slug@ && t.seen_at == seen_at),
            None => (first_price(*market) matches Some(p) ==> billionths(p) > u64::MAX),
        },
{
    match &market.outcome_prices {
        Some(ps) => {
            if ps.len() == 0 {
                return None;
            }
            let p = ps[0];
            let m = p.mantissa();
            let den = pow10_u128(p.scale());
            proof {
                crate::number::lemma_pow10_pos(p.sc());
            }
            let n = m * 1_000_000_000;
            let q = n / den;
            let rem = n % den;
            let mut v = q;
            if rem > den - rem || (rem == den - rem && q % 2 == 1) {
                assert(q < n) by (nonlinear_arith)
                    requires
                        q == n / den,
                        rem == n % den,
                        rem > 0 || rem == den - rem,
                        den > 0,
                ;
                v = q + 1;
            }
            assert(v == billionths(p));
            if v > 18446744073709551615u128 {
                return None;
            }
            Some(MarketTick { slug: string_of(slug), price: v as u64, seen_at })
        },
        None => None,
    }
}

} // verus!
