use csfloat_monitor::csfloat_autobuy::PurchaseCooldown;

#[test]
fn test_cooldown_allows_then_blocks() {
    let mut gate = PurchaseCooldown::new(1_000);
    assert!(gate.try_acquire(1_000));
    // inside the ten-second window: not performed
    assert!(!gate.try_acquire(1_005));
    assert!(!gate.try_acquire(1_009));
    // window elapsed
    assert!(gate.try_acquire(1_010));
    assert!(!gate.try_acquire(1_011));
}

#[test]
fn test_cooldown_blocked_attempt_keeps_window() {
    let mut gate = PurchaseCooldown::new(0);
    assert!(gate.try_acquire(100));
    assert!(!gate.try_acquire(105));
    // the refused attempt did not extend the window
    assert!(gate.try_acquire(110));
}
