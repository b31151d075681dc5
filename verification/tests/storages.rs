use csfloat_monitor::csfloat::CsfloatScheduler;
use csfloat_monitor::models::{CsfloatListingItem, CsfloatListingState, CsfloatListingStruct};
use csfloat_monitor::storages::{CsfloatEngine, CsfloatEngineListingDecision};

fn listing(id: &str, price: u64, state: CsfloatListingState) -> CsfloatListingStruct {
    CsfloatListingStruct {
        id: id.to_string(),
        price,
        state,
        created_at: 1_700_000_000,
        item: CsfloatListingItem {
            market_hash_name: "Kilowatt Case".to_string(),
            is_souvenir: false,
            float_value: None,
            phase: None,
        },
    }
}

#[test]
fn test_update_listing_decisions() {
    let mut engine = CsfloatEngine::new();
    let a = listing("a", 100, CsfloatListingState::Listed);
    // first-seen id
    assert_eq!(engine.update_listing(&a), CsfloatEngineListingDecision::New);
    assert_eq!(engine.get_size(), 1);
    // identical resubmission
    assert_eq!(engine.update_listing(&a), CsfloatEngineListingDecision::NotChanged);
    // price-only change
    let a2 = listing("a", 150, CsfloatListingState::Listed);
    assert_eq!(engine.update_listing(&a2), CsfloatEngineListingDecision::Updated);
    // resubmission with a removal state deletes the entry
    let a3 = listing("a", 150, CsfloatListingState::Sold);
    assert_eq!(engine.update_listing(&a3), CsfloatEngineListingDecision::Removed);
    assert_eq!(engine.get_size(), 0);
    assert!(engine.get_listing(&"a".to_string()).is_none());
}

#[test]
fn test_unseen_sold_listing_is_new() {
    let mut engine = CsfloatEngine::new();
    let a = listing("a", 100, CsfloatListingState::Sold);
    assert_eq!(engine.update_listing(&a), CsfloatEngineListingDecision::New);
    assert_eq!(engine.get_size(), 1);
}

#[test]
fn test_remove_listing_is_idempotent() {
    let mut engine = CsfloatEngine::new();
    let a = listing("a", 100, CsfloatListingState::Listed);
    engine.update_listing(&a);
    engine.remove_listing(&"a".to_string());
    engine.remove_listing(&"a".to_string());
    assert_eq!(engine.get_size(), 0);
}

#[test]
fn test_get_listing_returns_stored_record() {
    let mut engine = CsfloatEngine::new();
    let a = listing("a", 100, CsfloatListingState::Listed);
    engine.update_listing(&a);
    let stored = engine.get_listing(&"a".to_string()).unwrap();
    assert_eq!(stored.id, "a".to_string());
    assert_eq!(stored.price, 100);
    assert_eq!(stored.state, CsfloatListingState::Listed);
}

#[test]
fn test_store_scheduler_sizes_stay_equal() {
    // mirror every decision into the scheduler: sizes match after each step
    let mut engine = CsfloatEngine::new();
    let mut sched = CsfloatScheduler::new();
    let steps = vec![
        listing("a", 100, CsfloatListingState::Listed),
        listing("b", 200, CsfloatListingState::Listed),
        listing("a", 110, CsfloatListingState::Listed),
        listing("b", 200, CsfloatListingState::Listed),
        listing("a", 110, CsfloatListingState::Sold),
        listing("c", 300, CsfloatListingState::Listed),
        listing("b", 220, CsfloatListingState::Delisted),
    ];
    for l in steps {
        match engine.update_listing(&l) {
            CsfloatEngineListingDecision::New | CsfloatEngineListingDecision::Updated => {
                sched.upsert_listing(&l.id);
            }
            CsfloatEngineListingDecision::NotChanged => {}
            CsfloatEngineListingDecision::Removed => {
                sched.remove_listing(&l.id);
            }
        }
        assert_eq!(engine.get_size(), sched.get_size());
    }
    assert_eq!(engine.get_size(), 1);
}

#[test]
fn test_ids_by_update_time_sorted() {
    let mut engine = CsfloatEngine::new();
    // explicit stamps, inserted out of order
    engine.update_listing_at(&listing("late", 100, CsfloatListingState::Listed), 3000);
    engine.update_listing_at(&listing("early", 100, CsfloatListingState::Listed), 1000);
    engine.update_listing_at(&listing("mid", 100, CsfloatListingState::Listed), 2000);
    let ids = engine.get_listing_ids_by_update_time();
    assert_eq!(ids, vec!["early".to_string(), "mid".to_string(), "late".to_string()]);
}
