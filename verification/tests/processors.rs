use csfloat_monitor::business_logic::{is_need_notify_via_telegram, is_need_to_autobuy};
use csfloat_monitor::csfloat::CsfloatScheduler;
use csfloat_monitor::event_processors::{
    extract_market_hash_name, process_parsed_csfloat_listings, process_steam_response,
    process_updated_csfloat_listing,
};
use csfloat_monitor::events::{
    Event, PrimEvent, ProfitableListingKind, SecEvent, SteamResponseEvent,
    UpdatedCsfloatListingsEvent,
};
use csfloat_monitor::models::{CsfloatListingItem, CsfloatListingState, CsfloatListingStruct};
use csfloat_monitor::steam_analyzer::AnalysisResult;
use csfloat_monitor::storages::{CsfloatEngine, SteamEngine};

fn listing(id: &str, name: &str, price: u64) -> CsfloatListingStruct {
    CsfloatListingStruct {
        id: id.to_string(),
        price,
        state: CsfloatListingState::Listed,
        created_at: 1_708_000_000,
        item: CsfloatListingItem {
            market_hash_name: name.to_string(),
            is_souvenir: false,
            float_value: Some(132_179_096),
            phase: None,
        },
    }
}

fn analysis(percentiles: Vec<(u8, u64)>, stable: bool, sold: u64) -> AnalysisResult {
    AnalysisResult {
        rsd: Some(10_000),
        is_stable: Some(stable),
        sold_per_week: Some(sold),
        percentiles,
        percentiles_no_fee: vec![],
    }
}

#[test]
fn test_process_parsed_csfloat_listings() {
    let mut engine = CsfloatEngine::new();
    let mut sched = CsfloatScheduler::new();
    let l = listing("679718648830624407", "Glock-18 | Wasteland Rebel (Minimal Wear)", 355);
    let result = process_parsed_csfloat_listings(vec![l], &mut engine, &mut sched, 1_708_304_400);
    assert_eq!(result.len(), 1);
    match &result[0] {
        Event::Primary(PrimEvent::UpdatedCsfloatListings(UpdatedCsfloatListingsEvent {
            listing_ids,
        })) => {
            assert_eq!(listing_ids, &vec!["679718648830624407".to_string()]);
        }
        _ => panic!("expected an updated-listings event"),
    }
    assert_eq!(engine.get_size(), 1);
    assert_eq!(sched.get_size(), 1);
    let stored = engine.get_listing(&"679718648830624407".to_string()).unwrap();
    assert_eq!(stored.price, 355);
    assert_eq!(stored.state, CsfloatListingState::Listed);
    assert_eq!(stored.item.float_value, Some(132_179_096));
    assert_eq!(stored.item.is_souvenir, false);
    assert_eq!(
        stored.item.market_hash_name,
        "Glock-18 | Wasteland Rebel (Minimal Wear)".to_string()
    );
}

#[test]
fn test_process_parsed_prefilters_and_mirrors() {
    let mut engine = CsfloatEngine::new();
    let mut sched = CsfloatScheduler::new();
    let cheap = listing("cheap", "A", 10);
    let ok = listing("ok", "A", 100);
    let result =
        process_parsed_csfloat_listings(vec![cheap, ok], &mut engine, &mut sched, 1_708_304_400);
    // the too-cheap listing never enters the store
    assert_eq!(engine.get_size(), 1);
    assert_eq!(sched.get_size(), 1);
    assert_eq!(result.len(), 1);
    // a sold resubmission leaves both sides
    let sold = CsfloatListingStruct { state: CsfloatListingState::Sold, ..listing("ok", "A", 100) };
    let result2 =
        process_parsed_csfloat_listings(vec![sold], &mut engine, &mut sched, 1_708_304_401);
    assert_eq!(result2.len(), 0);
    assert_eq!(engine.get_size(), 0);
    assert_eq!(sched.get_size(), 0);
}

#[test]
fn test_profitability_join_end_to_end() {
    // a $3.55 listing whose market has a 60th-percentile reference of $6.00:
    // fee-adjusted reference 522 cents, profit 47.04%
    let mut csfloat_engine = CsfloatEngine::new();
    let mut steam_engine = SteamEngine::new();
    let l = listing("679718648830624407", "Kilowatt Case", 355);
    csfloat_engine.update_listing(&l);
    steam_engine.update(&"Kilowatt Case".to_string(), analysis(vec![(60, 600)], true, 604_240));
    let event = UpdatedCsfloatListingsEvent { listing_ids: vec!["679718648830624407".to_string()] };
    let result = process_updated_csfloat_listing(&mut steam_engine, &mut csfloat_engine, &event);
    assert_eq!(result.len(), 1);
    match &result[0] {
        Event::Secondary(SecEvent::ProfitableListing(e)) => {
            assert_eq!(e.kind, ProfitableListingKind::Profitable);
            assert_eq!(e.market_name, "Kilowatt Case".to_string());
            assert_eq!(e.listing_id, "679718648830624407".to_string());
            assert_eq!(e.csfloat_price, 355);
            assert_eq!(e.steam_price, 600);
            assert_eq!(e.steam_no_fee, 522);
            assert_eq!(e.sold_per_week, 604_240);
            assert_eq!(e.is_stable, true);
            assert_eq!(e.profit_pct, 4704);
            assert_eq!(e.float, Some(132_179_096));
            // stable, high volume, 47% > 30%: notified; 47% > 45%: bought
            assert!(is_need_notify_via_telegram(e));
            assert!(is_need_to_autobuy(e));
        }
        _ => panic!("expected a profitable-listing event"),
    }
}

#[test]
fn test_profitability_join_thin_margin() {
    // reference $5.00 nets 436 after fees: profitable at 22.81%, but below
    // both action thresholds
    let mut csfloat_engine = CsfloatEngine::new();
    let mut steam_engine = SteamEngine::new();
    let l = listing("a", "Kilowatt Case", 355);
    csfloat_engine.update_listing(&l);
    steam_engine.update(&"Kilowatt Case".to_string(), analysis(vec![(60, 500)], true, 604_240));
    let event = UpdatedCsfloatListingsEvent { listing_ids: vec!["a".to_string()] };
    let result = process_updated_csfloat_listing(&mut steam_engine, &mut csfloat_engine, &event);
    assert_eq!(result.len(), 1);
    match &result[0] {
        Event::Secondary(SecEvent::ProfitableListing(e)) => {
            assert_eq!(e.steam_no_fee, 436);
            assert_eq!(e.profit_pct, 2281);
            assert!(!is_need_notify_via_telegram(e));
            assert!(!is_need_to_autobuy(e));
        }
        _ => panic!("expected a profitable-listing event"),
    }
}

#[test]
fn test_join_skips_unprofitable_and_unknown() {
    let mut csfloat_engine = CsfloatEngine::new();
    let mut steam_engine = SteamEngine::new();
    // listing dearer than its fee-adjusted reference: no event
    let l = listing("a", "Kilowatt Case", 450);
    csfloat_engine.update_listing(&l);
    steam_engine.update(&"Kilowatt Case".to_string(), analysis(vec![(60, 500)], true, 100));
    // an id without a listing and a listing without analysis: skipped
    let l2 = listing("b", "Unknown Item", 100);
    csfloat_engine.update_listing(&l2);
    let event = UpdatedCsfloatListingsEvent {
        listing_ids: vec!["a".to_string(), "b".to_string(), "ghost".to_string()],
    };
    let result = process_updated_csfloat_listing(&mut steam_engine, &mut csfloat_engine, &event);
    assert_eq!(result.len(), 0);
}

#[test]
fn test_good_phase_emits_event() {
    let mut csfloat_engine = CsfloatEngine::new();
    let mut steam_engine = SteamEngine::new();
    let mut l = listing("p", "Glock-18 | Gamma Doppler (Factory New)", 5000);
    l.item.phase = Some("Phase 4".to_string());
    csfloat_engine.update_listing(&l);
    let event = UpdatedCsfloatListingsEvent { listing_ids: vec!["p".to_string()] };
    let result = process_updated_csfloat_listing(&mut steam_engine, &mut csfloat_engine, &event);
    assert_eq!(result.len(), 1);
    match &result[0] {
        Event::Secondary(SecEvent::ProfitableListing(e)) => {
            assert_eq!(e.kind, ProfitableListingKind::GoodPhase);
            assert_eq!(e.csfloat_price, 5000);
            assert_eq!(e.steam_no_fee, 0);
            assert!(is_need_notify_via_telegram(e));
            assert!(!is_need_to_autobuy(e));
        }
        _ => panic!("expected a good-phase event"),
    }
}

#[test]
fn test_extract_market_hash_name() {
    let page = "<head><title>Steam Community Market :: Listings for Kilowatt Case</title></head>";
    assert_eq!(extract_market_hash_name(page), Some("Kilowatt Case".to_string()));
    assert_eq!(extract_market_hash_name("<title>something else</title>"), None);
    assert_eq!(extract_market_hash_name(""), None);
}

#[test]
fn test_process_steam_response_stores_analysis() {
    let mut steam_engine = SteamEngine::new();
    let page = "<title>Steam Community Market :: Listings for Kilowatt Case</title>\n\tvar line1=[\
[\"Feb 14 2024 01: +0\",2.0,\"10\"],\
[\"Feb 15 2024 01: +0\",2.0,\"10\"],\
[\"Feb 16 2024 01: +0\",2.0,\"10\"],\
[\"Feb 17 2024 01: +0\",2.0,\"10\"],\
[\"Feb 18 2024 01: +0\",2.0,\"10\"]];";
    let event = SteamResponseEvent { timestamp: 1_708_304_400, response: page.to_string() };
    let result = process_steam_response(&mut steam_engine, &event);
    assert_eq!(result.len(), 0);
    let a = steam_engine.get_analysis(&"Kilowatt Case".to_string()).unwrap();
    assert_eq!(a.is_stable, Some(true));
    assert_eq!(a.sold_per_week, Some(50));
    assert_eq!(a.get_price_by_percentile(60), Some(200));
}

#[test]
fn test_process_steam_response_unreadable_page() {
    let mut steam_engine = SteamEngine::new();
    let event = SteamResponseEvent { timestamp: 1_708_304_400, response: "garbage".to_string() };
    let result = process_steam_response(&mut steam_engine, &event);
    assert_eq!(result.len(), 0);
    assert_eq!(steam_engine.get_size(), 0);
}
