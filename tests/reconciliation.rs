use inventory_sync::{decide, DriftAction, ReconcilePolicy, Shopify, RO};

fn policy(debounce: u64, correct_on_timeout: bool) -> ReconcilePolicy {
    ReconcilePolicy { debounce, correct_on_timeout }
}

#[test]
fn decide_no_drift_is_reconciled() {
    let d = decide(0, Some(3), 10, policy(5, true));
    assert_eq!(d.action, DriftAction::Reconciled);
    assert_eq!(d.caution_since, None);
}

#[test]
fn decide_negative_drift_corrects_at_once() {
    let d = decide(-4, None, 10, policy(5, false));
    assert_eq!(d.action, DriftAction::Correct(-4));
    assert_eq!(d.caution_since, None);
}

#[test]
fn decide_positive_drift_opens_a_wait() {
    let d = decide(3, None, 10, policy(5, true));
    assert_eq!(d.action, DriftAction::Wait);
    assert_eq!(d.caution_since, Some(10));
}

#[test]
fn decide_positive_drift_inside_window_waits() {
    let d = decide(3, Some(10), 14, policy(5, true));
    assert_eq!(d.action, DriftAction::Wait);
    assert_eq!(d.caution_since, Some(10));
}

#[test]
fn decide_positive_drift_past_window_corrects() {
    let d = decide(3, Some(10), 15, policy(5, true));
    assert_eq!(d.action, DriftAction::Correct(3));
    assert_eq!(d.caution_since, None);
}

#[test]
fn decide_positive_drift_past_window_goes_to_review() {
    let d = decide(3, Some(10), 20, policy(5, false));
    assert_eq!(d.action, DriftAction::Review(3));
    assert_eq!(d.caution_since, Some(10));
}

#[test]
fn decide_clock_going_back_keeps_waiting() {
    let d = decide(3, Some(10), 2, policy(0, true));
    assert_eq!(d.action, DriftAction::Wait);
    assert_eq!(d.caution_since, Some(10));
}

#[test]
fn reconcile_in_step_is_reconciled() {
    let mut shopify = Shopify::new();
    let mut ro = RO::new();
    ro.make_adjustment(10);
    ro.sync_inventory(&mut shopify);
    shopify.place_order(2);
    assert_eq!(ro.reconcile_shopify(&mut shopify, policy(5, true), 0), DriftAction::Reconciled);
    assert_eq!(ro.available(), 8);
    assert_eq!(shopify.available(), 8);
}

#[test]
fn reconcile_corrects_overstated_remote_at_once() {
    let mut shopify = Shopify::new();
    let mut ro = RO::new();
    ro.make_adjustment(10);
    ro.sync_inventory(&mut shopify);
    shopify.make_adjustment(5);
    assert_eq!(ro.reconcile_shopify(&mut shopify, policy(5, false), 0), DriftAction::Correct(-5));
    assert_eq!(shopify.available(), 10);
    assert_eq!(ro.available(), 10);
    assert_eq!(ro.shadow_available(), 10);
    assert_eq!(ro.sync_inventory(&mut shopify), 0);
    assert_eq!(shopify.available(), 10);
}

#[test]
fn reconcile_correction_carries_unpushed_local_change() {
    let mut shopify = Shopify::new();
    let mut ro = RO::new();
    ro.make_adjustment(10);
    ro.sync_inventory(&mut shopify);
    ro.make_adjustment(-4);
    shopify.make_adjustment(2);
    assert_eq!(ro.reconcile_shopify(&mut shopify, policy(5, false), 0), DriftAction::Correct(-6));
    assert_eq!(shopify.available(), 6);
    assert_eq!(ro.shadow_available(), 6);
    assert_eq!(ro.sync_inventory(&mut shopify), 0);
    assert_eq!(shopify.available(), 6);
}

#[test]
fn reconcile_waits_then_corrects_understated_remote() {
    let mut shopify = Shopify::new();
    let mut ro = RO::new();
    ro.make_adjustment(10);
    ro.sync_inventory(&mut shopify);
    shopify.make_adjustment(-3);
    let p = policy(5, true);
    assert_eq!(ro.reconcile_shopify(&mut shopify, p, 100), DriftAction::Wait);
    assert_eq!(shopify.available(), 7);
    assert_eq!(ro.reconcile_shopify(&mut shopify, p, 104), DriftAction::Wait);
    assert_eq!(shopify.available(), 7);
    assert_eq!(ro.reconcile_shopify(&mut shopify, p, 105), DriftAction::Correct(3));
    assert_eq!(shopify.available(), 10);
    assert_eq!(ro.reconcile_shopify(&mut shopify, p, 106), DriftAction::Reconciled);
}

#[test]
fn reconcile_sends_lasting_drift_to_review() {
    let mut shopify = Shopify::new();
    let mut ro = RO::new();
    ro.make_adjustment(10);
    ro.sync_inventory(&mut shopify);
    shopify.make_adjustment(-4);
    let p = policy(2, false);
    assert_eq!(ro.reconcile_shopify(&mut shopify, p, 1), DriftAction::Wait);
    assert_eq!(ro.reconcile_shopify(&mut shopify, p, 3), DriftAction::Review(4));
    assert_eq!(shopify.available(), 6);
    assert_eq!(ro.available(), 10);
}

#[test]
fn reconcile_pulls_orders_before_measuring() {
    let mut shopify = Shopify::new();
    let mut ro = RO::new();
    ro.make_adjustment(10);
    ro.sync_inventory(&mut shopify);
    shopify.place_order(6);
    assert_eq!(ro.reconcile_shopify(&mut shopify, policy(5, true), 0), DriftAction::Reconciled);
    assert!(ro.is_ingested(0));
    assert_eq!(ro.available(), 4);
}

#[test]
fn anomaly_on_negative_count() {
    let mut shopify = Shopify::new();
    let mut ro = RO::new();
    assert!(!ro.availability_anomaly(&shopify));
    ro.make_adjustment(2);
    ro.sync_inventory(&mut shopify);
    shopify.place_order(5);
    assert!(ro.availability_anomaly(&shopify));
    ro.pull_orders(&shopify);
    assert_eq!(ro.available(), -3);
    assert!(ro.availability_anomaly(&shopify));
}
