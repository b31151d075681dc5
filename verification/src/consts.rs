use vstd::prelude::*;

verus! {

use crate::prices::PriceValue;

/// Percentile levels cached per market name, as integer percents.
pub fn percentile_levels() -> (r: Vec<u8>)
    ensures
        r@ == seq![60u8, 65u8, 70u8, 75u8, 80u8],
{
    let v = vec![60u8, 65u8, 70u8, 75u8, 80u8];
    proof {
        assert(v@ =~= seq![60u8, 65u8, 70u8, 75u8, 80u8]);
    }
    v
}

/// The percentile level the profitability join reads.
pub const DESIRED_PERCENTILE: u8 = 60;

/// Cheapest listing the rules look at: $0.50.
pub const LISTING_MIN_PRICE: PriceValue = 50;

/// Dearest listing the rules look at: $75.
pub const LISTING_MAX_PRICE: PriceValue = 7500;

/// Weekly sales floor below which a profitable listing is not notified.
pub const MIN_SOLD_PER_WEEK: u64 = 50;

/// Profit floor for a notification, in percent.
pub const TG_NOTIFY_MIN_PROFIT_PCT: u64 = 30;

/// Profit floor for an automatic purchase, in percent.
pub const AUTOBUY_FROM_PROFIT_PCT: u64 = 45;

/// Global switch for automatic purchases.
pub const IS_AUTOBUY_ALLOWED: bool = false;

} // verus!
