use vstd::prelude::*;

verus! {

use crate::consts::{
    AUTOBUY_FROM_PROFIT_PCT, LISTING_MAX_PRICE, LISTING_MIN_PRICE, MIN_SOLD_PER_WEEK,
    TG_NOTIFY_MIN_PROFIT_PCT,
};
use crate::events::{ProfitableListingEvent, ProfitableListingKind, ProfitableView};
use crate::models::{CsfloatListingStruct, ListingView};
use crate::prices::PriceValue;
use crate::strings::str_eq;

/// Price ceiling for the special Factory New phase listing: $60.
pub const PHASE_FACTORY_NEW_PRICE: PriceValue = 6000;

/// Price ceiling for the special Minimal Wear phase listing: $45.
pub const PHASE_MINIMAL_WEAR_PRICE: PriceValue = 4500;

/// Price ceiling for the special Field-Tested phase listing: $35.
pub const PHASE_FIELD_TESTED_PRICE: PriceValue = 3500;

/// A listing the rules look at: not a souvenir, and priced inside the
/// configured band.
pub open spec fn prefilter_spec(l: ListingView) -> bool {
    &&& !l.item.is_souvenir
    &&& LISTING_MIN_PRICE <= l.price
    &&& l.price <= LISTING_MAX_PRICE
}

/// Whether the rules look at this listing at all.
pub fn prefilter_listing(listing: &CsfloatListingStruct) -> (r: bool)
    ensures
        r == prefilter_spec(listing@),
{
    // Skip souvenir listings
    if listing.item.is_souvenir {
        return false;
    }
    // Skip too cheap or rich items
    if listing.price < LISTING_MIN_PRICE || listing.price > LISTING_MAX_PRICE {
        return false;
    }
    true
}

/// The one specially watched item variant: a Phase 4 Gamma Doppler
/// Glock-18, each wear tier capped at its own price ceiling.
pub open spec fn good_phase_spec(l: ListingView) -> bool {
    match l.item.phase {
        Some(p) => p == "Phase 4"@ && {
            ||| l.item.market_hash_name == "Glock-18 | Gamma Doppler (Factory New)"@ && l.price
                <= PHASE_FACTORY_NEW_PRICE
            ||| l.item.market_hash_name == "Glock-18 | Gamma Doppler (Minimal Wear)"@ && l.price
                <= PHASE_MINIMAL_WEAR_PRICE
            ||| l.item.market_hash_name == "Glock-18 | Gamma Doppler (Field-Tested)"@ && l.price
                <= PHASE_FIELD_TESTED_PRICE
        },
        None => false,
    }
}

/// Whether the listing is the specially watched phase variant inside its
/// wear tier's price ceiling.
pub fn is_good_glock_phase_listing(listing: &CsfloatListingStruct) -> (r: bool)
    ensures
        r == good_phase_spec(listing@),
{
    let phase = match &listing.item.phase {
        None => {
            return false;
        },
        Some(p) => p,
    };
    if str_eq(phase.as_str(), "Phase 4") {
        let price = listing.price;
        let name = listing.item.market_hash_name.as_str();
        if str_eq(name, "Glock-18 | Gamma Doppler (Factory New)") {
            return price <= PHASE_FACTORY_NEW_PRICE;
        }
        if str_eq(name, "Glock-18 | Gamma Doppler (Minimal Wear)") {
            return price <= PHASE_MINIMAL_WEAR_PRICE;
        }
        if str_eq(name, "Glock-18 | Gamma Doppler (Field-Tested)") {
            return price <= PHASE_FIELD_TESTED_PRICE;
        }
        return false;
    }
    false
}

/// The reference price, net of fees, exceeds the observed price by more
/// than `pct` percent.
pub open spec fn exceeds_profit_pct(steam_no_fee: int, csfloat_price: int, pct: int) -> bool {
    100 * steam_no_fee > (100 + pct) * csfloat_price
}

/// A special-phase find always notifies; a profitable one only when the
/// reference series is stable, sells enough per week, and the profit
/// clears the notification floor.
pub open spec fn notify_spec(e: ProfitableView) -> bool {
    ||| e.kind == ProfitableListingKind::GoodPhase
    ||| (e.is_stable && e.sold_per_week >= MIN_SOLD_PER_WEEK && exceeds_profit_pct(
        e.steam_no_fee as int,
        e.csfloat_price as int,
        TG_NOTIFY_MIN_PROFIT_PCT as int,
    ))
}

/// Whether this classification is worth a notification.
pub fn is_need_notify_via_telegram(event: &ProfitableListingEvent) -> (r: bool)
    ensures
        r == notify_spec(event@),
{
    match event.kind {
        ProfitableListingKind::GoodPhase => true,
        ProfitableListingKind::Profitable => {
            let factor: u128 = 100 + TG_NOTIFY_MIN_PROFIT_PCT as u128;
            proof {
                assert(100 * (event.steam_no_fee as int) < 0x200_0000_0000_0000_0000)
                    by (nonlinear_arith)
                    requires
                        event.steam_no_fee <= u64::MAX,
                ;
                assert(factor * (event.csfloat_price as int) < 0x200_0000_0000_0000_0000)
                    by (nonlinear_arith)
                    requires
                        event.csfloat_price <= u64::MAX,
                        factor == 130,
                ;
            }
            let profitable_enough = 100u128 * (event.steam_no_fee as u128) > factor * (
            event.csfloat_price as u128);
            event.is_stable && event.sold_per_week >= MIN_SOLD_PER_WEEK && profitable_enough
        },
    }
}

/// Only a plainly profitable listing is bought, and only when the profit
/// clears the stricter automatic-purchase floor.
pub open spec fn autobuy_spec(e: ProfitableView) -> bool {
    e.kind == ProfitableListingKind::Profitable && exceeds_profit_pct(
        e.steam_no_fee as int,
        e.csfloat_price as int,
        AUTOBUY_FROM_PROFIT_PCT as int,
    )
}

/// Whether this classification is worth an automatic purchase attempt.
pub fn is_need_to_autobuy(event: &ProfitableListingEvent) -> (r: bool)
    ensures
        r == autobuy_spec(event@),
{
    match event.kind {
        ProfitableListingKind::GoodPhase => false,
        ProfitableListingKind::Profitable => {
            let factor: u128 = 100 + AUTOBUY_FROM_PROFIT_PCT as u128;
            proof {
                assert(100 * (event.steam_no_fee as int) < 0x200_0000_0000_0000_0000)
                    by (nonlinear_arith)
                    requires
                        event.steam_no_fee <= u64::MAX,
                ;
                assert(factor * (event.csfloat_price as int) < 0x200_0000_0000_0000_0000)
                    by (nonlinear_arith)
                    requires
                        event.csfloat_price <= u64::MAX,
                        factor == 145,
                ;
            }
            100u128 * (event.steam_no_fee as u128) > factor * (event.csfloat_price as u128)
        },
    }
}

} // verus!
