use csfloat_monitor::csfloat::CsfloatScheduler;

#[test]
fn test_scheduler_empty_returns_none() {
    let mut s = CsfloatScheduler::new();
    assert_eq!(s.get_size(), 0);
    assert_eq!(s.get_next(), None);
}

#[test]
fn test_scheduler_round_robin() {
    let mut s = CsfloatScheduler::new();
    s.upsert_listing(&"A".to_string());
    s.upsert_listing(&"B".to_string());
    s.upsert_listing(&"C".to_string());
    assert_eq!(s.get_size(), 3);
    assert_eq!(s.get_next(), Some("A".to_string()));
    assert_eq!(s.get_next(), Some("B".to_string()));
    assert_eq!(s.get_next(), Some("C".to_string()));
    assert_eq!(s.get_next(), Some("A".to_string()));
}

#[test]
fn test_scheduler_remove_mid_rotation() {
    let mut s = CsfloatScheduler::new();
    s.upsert_listing(&"A".to_string());
    s.upsert_listing(&"B".to_string());
    s.upsert_listing(&"C".to_string());
    assert_eq!(s.get_next(), Some("A".to_string()));
    s.remove_listing(&"B".to_string());
    assert_eq!(s.get_size(), 2);
    // no repeat, no skip: the rotation continues with C, then wraps to A
    assert_eq!(s.get_next(), Some("C".to_string()));
    assert_eq!(s.get_next(), Some("A".to_string()));
}

#[test]
fn test_scheduler_upsert_is_idempotent() {
    let mut s = CsfloatScheduler::new();
    s.upsert_listing(&"A".to_string());
    s.upsert_listing(&"A".to_string());
    assert_eq!(s.get_size(), 1);
}

#[test]
fn test_scheduler_remove_is_idempotent() {
    let mut s = CsfloatScheduler::new();
    s.upsert_listing(&"A".to_string());
    s.remove_listing(&"A".to_string());
    s.remove_listing(&"A".to_string());
    assert_eq!(s.get_size(), 0);
}
