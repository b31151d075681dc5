use vstd::prelude::*;

verus! {

use crate::prices::PriceValue;

/// The marketplace charges two independent percentage fees on top of a
/// payload price: a 5% wallet fee and a 10% publisher fee, each floored at
/// one minor unit.  `add_fee` applies them; `subtract_fee` is the bounded
/// best-effort inverse used to recover a pre-fee payload from a total.
pub struct SteamFee;

/// The wallet fee is 1/20 (5%) of the payload.
pub const WALLET_FEE_DIVISOR: u64 = 20;

/// The publisher fee is 1/10 (10%) of the payload.
pub const PUBLISHER_FEE_DIVISOR: u64 = 10;

/// A total is roughly 23/20 (1.15) times its payload; the inverse seeds its
/// search with the payload predicted from that ratio.
pub const FEE_RATIO_NUM: u64 = 23;

/// See `FEE_RATIO_NUM`.
pub const FEE_RATIO_DEN: u64 = 20;

/// Largest price the fee arithmetic accepts: adding both fees multiplies a
/// price by at most 23/20, which must still fit in `u64`.
pub const FEE_INPUT_MAX: u64 = 16_000_000_000_000_000_000;

/// 5% of the payload, floored at one minor unit.
pub open spec fn wallet_fee(payload: int) -> int {
    if payload / 20 < 1 {
        1
    } else {
        payload / 20
    }
}

/// 10% of the payload, floored at one minor unit.
pub open spec fn publisher_fee(payload: int) -> int {
    if payload / 10 < 1 {
        1
    } else {
        payload / 10
    }
}

/// The post-fee total of a payload price.
pub open spec fn add_fee_spec(payload: int) -> int {
    payload + wallet_fee(payload) + publisher_fee(payload)
}

/// First candidate payload for a given total: floor(total / 1.15) + 2.
pub open spec fn fee_seed(total: int) -> int {
    20 * total / 23 + 2
}

/// The bounded inverse: starting from the seed, step down at most four
/// times, stopping at the first candidate whose total does not exceed the
/// target; if the bound is exhausted the last candidate is returned even
/// though it was never checked.
pub open spec fn subtract_fee_spec(total: int) -> int {
    let s = fee_seed(total);
    if add_fee_spec(s) <= total {
        s
    } else if add_fee_spec(s - 1) <= total {
        s - 1
    } else if add_fee_spec(s - 2) <= total {
        s - 2
    } else if add_fee_spec(s - 3) <= total {
        s - 3
    } else {
        s - 4
    }
}

impl SteamFee {
    /// Apply both marketplace fees to a payload price.
    pub fn add_fee(payload: PriceValue) -> (total: PriceValue)
        requires
            1 <= payload,
            payload <= FEE_INPUT_MAX,
        ensures
            total == add_fee_spec(payload as int),
    {
        let fifth: u64 = payload / WALLET_FEE_DIVISOR;
        let steam_fee: u64 = if fifth < 1 {
            1
        } else {
            fifth
        };
        let tenth: u64 = payload / PUBLISHER_FEE_DIVISOR;
        let game_fee: u64 = if tenth < 1 {
            1
        } else {
            tenth
        };
        payload + steam_fee + game_fee
    }

    /// Recover the approximate pre-fee payload of a post-fee total.
    pub fn subtract_fee(total: PriceValue) -> (payload: PriceValue)
        requires
            3 <= total,
            total <= FEE_INPUT_MAX,
        ensures
            payload == subtract_fee_spec(total as int),
    {
        let q: u64 = total / FEE_RATIO_NUM;
        let r: u64 = total % FEE_RATIO_NUM;
        let predicted_payload: u64 = FEE_RATIO_DEN * q + (FEE_RATIO_DEN * r) / FEE_RATIO_NUM;
        proof {
            let x = total as int;
            vstd::arithmetic::div_mod::lemma_fundamental_div_mod(x, 23);
            vstd::arithmetic::div_mod::lemma_hoist_over_denominator(
                20 * (r as int),
                q as int * 20,
                23,
            );
            assert(20 * (r as int) + (q as int * 20) * 23 == 20 * x) by (nonlinear_arith)
                requires
                    x == 23 * (q as int) + r as int,
            ;
        }
        let mut payload: u64 = predicted_payload + 2;
        if Self::add_fee(payload) <= total {
            return payload;
        }
        payload = payload - 1;
        if Self::add_fee(payload) <= total {
            return payload;
        }
        payload = payload - 1;
        if Self::add_fee(payload) <= total {
            return payload;
        }
        payload = payload - 1;
        if Self::add_fee(payload) <= total {
            return payload;
        }
        payload - 1
    }
}

} // verus!
