use csfloat_monitor::business_logic::{
    is_good_glock_phase_listing, is_need_notify_via_telegram, is_need_to_autobuy,
    prefilter_listing,
};
use csfloat_monitor::events::{ProfitableListingEvent, ProfitableListingKind};
use csfloat_monitor::events::ProfitableListingKind::{GoodPhase, Profitable};
use csfloat_monitor::models::{CsfloatListingItem, CsfloatListingStruct, CsfloatListingState};

fn listing(name: &str, price: u64, souvenir: bool, phase: Option<&str>) -> CsfloatListingStruct {
    CsfloatListingStruct {
        id: "x".to_string(),
        price,
        state: CsfloatListingState::Listed,
        created_at: 0,
        item: CsfloatListingItem {
            market_hash_name: name.to_string(),
            is_souvenir: souvenir,
            float_value: None,
            phase: phase.map(|p| p.to_string()),
        },
    }
}

fn event(kind: ProfitableListingKind, csfloat: u64, no_fee: u64, sold: u64, stable: bool)
    -> ProfitableListingEvent {
    ProfitableListingEvent {
        kind,
        market_name: "Kilowatt Case".to_string(),
        listing_id: "x".to_string(),
        csfloat_price: csfloat,
        steam_price: 0,
        steam_no_fee: no_fee,
        sold_per_week: sold,
        is_stable: stable,
        profit_pct: 0,
        float: None,
    }
}

#[test]
fn test_prefilter_listing() {
    assert!(prefilter_listing(&listing("A", 50, false, None)));
    assert!(prefilter_listing(&listing("A", 7500, false, None)));
    assert!(!prefilter_listing(&listing("A", 49, false, None)));
    assert!(!prefilter_listing(&listing("A", 7501, false, None)));
    assert!(!prefilter_listing(&listing("A", 100, true, None)));
}

#[test]
fn test_good_phase_listing() {
    let fac = "Glock-18 | Gamma Doppler (Factory New)";
    let min = "Glock-18 | Gamma Doppler (Minimal Wear)";
    let fld = "Glock-18 | Gamma Doppler (Field-Tested)";
    assert!(is_good_glock_phase_listing(&listing(fac, 6000, false, Some("Phase 4"))));
    assert!(!is_good_glock_phase_listing(&listing(fac, 6001, false, Some("Phase 4"))));
    assert!(is_good_glock_phase_listing(&listing(min, 4500, false, Some("Phase 4"))));
    assert!(!is_good_glock_phase_listing(&listing(min, 4501, false, Some("Phase 4"))));
    assert!(is_good_glock_phase_listing(&listing(fld, 3500, false, Some("Phase 4"))));
    assert!(!is_good_glock_phase_listing(&listing(fld, 3501, false, Some("Phase 4"))));
    // wrong phase, missing phase, wrong item
    assert!(!is_good_glock_phase_listing(&listing(fac, 1000, false, Some("Phase 2"))));
    assert!(!is_good_glock_phase_listing(&listing(fac, 1000, false, None)));
    assert!(!is_good_glock_phase_listing(&listing("Kilowatt Case", 100, false, Some("Phase 4"))));
}

#[test]
fn test_notify_rules() {
    // a special phase find always notifies
    assert!(is_need_notify_via_telegram(&event(GoodPhase, 100, 0, 0, false)));
    // profitable: needs stability, weekly volume and > 30% profit
    assert!(is_need_notify_via_telegram(&event(Profitable, 100, 131, 50, true)));
    // exactly 30% is not enough
    assert!(!is_need_notify_via_telegram(&event(Profitable, 100, 130, 50, true)));
    assert!(!is_need_notify_via_telegram(&event(Profitable, 100, 131, 49, true)));
    assert!(!is_need_notify_via_telegram(&event(Profitable, 100, 131, 50, false)));
}

#[test]
fn test_autobuy_rules() {
    // needs > 45% profit and the Profitable kind
    assert!(is_need_to_autobuy(&event(Profitable, 100, 146, 0, false)));
    assert!(!is_need_to_autobuy(&event(Profitable, 100, 145, 0, false)));
    assert!(!is_need_to_autobuy(&event(GoodPhase, 100, 146, 0, false)));
}
