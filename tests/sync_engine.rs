use inventory_sync::{InvModel, Ledger, Shopify, RO};

#[test]
fn end_to_end_scenario() {
    let mut shopify = Shopify::default();
    let mut ro = RO::default();

    ro.make_adjustment(10);
    let applied = ro.sync_inventory(&mut shopify);
    assert_eq!(applied, 10);
    assert_eq!(shopify.available(), 10);

    shopify.place_order(1);
    shopify.place_order(1);
    assert_eq!(shopify.available(), 8);

    ro.make_adjustment(-1);
    ro.make_adjustment(-1);
    assert_eq!(ro.available(), 8);

    let applied = ro.sync_inventory(&mut shopify);
    assert_eq!(applied, -2);
    assert_eq!(ro.available(), 8);
    assert_eq!(shopify.available(), 6);

    ro.pull_orders(&shopify);
    assert_eq!(ro.available(), 6);
    assert_eq!(shopify.available(), 6);

    let applied = ro.sync_inventory(&mut shopify);
    assert_eq!(applied, 0);
}

#[test]
fn second_sync_applies_nothing() {
    let mut shopify = Shopify::new();
    let mut ro = RO::new();
    ro.make_adjustment(7);
    ro.make_adjustment(-3);
    assert_eq!(ro.sync_inventory(&mut shopify), 4);
    assert_eq!(ro.sync_inventory(&mut shopify), 0);
    assert_eq!(shopify.available(), 4);
    assert_eq!(ro.shadow_available(), 4);
}

#[test]
fn sync_with_nothing_outstanding_is_noop() {
    let mut shopify = Shopify::new();
    let mut ro = RO::new();
    assert_eq!(ro.sync_inventory(&mut shopify), 0);
    assert_eq!(shopify.available(), 0);
    assert_eq!(ro.shadow_available(), 0);
}

#[test]
fn shadow_matches_local_after_sync() {
    let mut shopify = Shopify::new();
    let mut ro = RO::new();
    ro.make_adjustment(12);
    ro.sync_inventory(&mut shopify);
    assert_eq!(ro.shadow_available(), ro.available());
    ro.make_adjustment(-5);
    ro.make_adjustment(2);
    assert_eq!(ro.shadow_available(), 12);
    assert_eq!(ro.sync_inventory(&mut shopify), -3);
    assert_eq!(ro.shadow_available(), ro.available());
    assert_eq!(ro.shadow_available(), 9);
}

#[test]
fn available_is_sum_in_any_order() {
    let quantities = [5, -2, 9, -4, 1];
    let mut forward = Ledger::new();
    let mut backward = Ledger::new();
    for q in quantities.iter() {
        forward.record(*q);
    }
    for q in quantities.iter().rev() {
        backward.record(*q);
    }
    assert_eq!(forward.available(), 9);
    assert_eq!(backward.available(), 9);

    let mut ro = RO::new();
    for q in [3, -8, 4] {
        ro.make_adjustment(q);
    }
    assert_eq!(ro.available(), -1);
}

#[test]
fn empty_ledger_has_nothing_available() {
    assert_eq!(Ledger::new().available(), 0);
    assert_eq!(InvModel::new().available(), 0);
    assert_eq!(RO::new().available(), 0);
    assert_eq!(Shopify::new().available(), 0);
}

#[test]
fn ledger_accepts_extreme_running_totals() {
    let mut ledger = Ledger::new();
    ledger.record(i32::MAX);
    ledger.record(-1);
    ledger.record(i32::MIN);
    assert_eq!(ledger.available(), -2);
}

#[test]
fn inv_model_sums_its_adjustments() {
    let mut shadow = InvModel::new();
    shadow.make_adjustment(6);
    shadow.make_adjustment(-4);
    assert_eq!(shadow.available(), 2);
}

#[test]
fn place_order_assigns_fresh_ids() {
    let mut shopify = Shopify::new();
    shopify.make_adjustment(20);
    assert_eq!(shopify.place_order(3), 0);
    assert_eq!(shopify.place_order(5), 1);
    assert_eq!(shopify.available(), 12);
    let orders = shopify.orders();
    assert_eq!(orders.len(), 2);
    assert_eq!(orders[0].id, 0);
    assert_eq!(orders[0].quantity, 3);
    assert_eq!(orders[1].id, 1);
    assert_eq!(orders[1].quantity, 5);
}

#[test]
fn pull_withdraws_from_local_and_shadow() {
    let mut shopify = Shopify::new();
    let mut ro = RO::new();
    ro.make_adjustment(10);
    ro.sync_inventory(&mut shopify);
    shopify.place_order(4);
    ro.pull_orders(&shopify);
    assert_eq!(ro.available(), 6);
    assert_eq!(ro.shadow_available(), 6);
    assert!(ro.is_ingested(0));
    assert!(!ro.is_ingested(1));
}

#[test]
fn pull_twice_changes_nothing() {
    let mut shopify = Shopify::new();
    let mut ro = RO::new();
    ro.make_adjustment(10);
    ro.sync_inventory(&mut shopify);
    shopify.place_order(2);
    shopify.place_order(3);
    ro.pull_orders(&shopify);
    let local = ro.available();
    let shadow = ro.shadow_available();
    assert_eq!(local, 5);
    ro.pull_orders(&shopify);
    assert_eq!(ro.available(), local);
    assert_eq!(ro.shadow_available(), shadow);
}

#[test]
fn pull_takes_only_new_orders() {
    let mut shopify = Shopify::new();
    let mut ro = RO::new();
    ro.make_adjustment(10);
    ro.sync_inventory(&mut shopify);
    shopify.place_order(2);
    ro.pull_orders(&shopify);
    shopify.place_order(3);
    ro.pull_orders(&shopify);
    assert_eq!(ro.available(), 5);
    assert_eq!(ro.shadow_available(), 5);
    assert_eq!(shopify.available(), 5);
}

#[test]
fn sync_pull_sync_converges_after_interleaving() {
    let mut shopify = Shopify::new();
    let mut ro = RO::new();
    ro.make_adjustment(30);
    shopify.place_order(4);
    ro.make_adjustment(-6);
    ro.sync_inventory(&mut shopify);
    shopify.place_order(2);
    ro.make_adjustment(5);
    shopify.place_order(7);
    ro.make_adjustment(-1);

    ro.sync_inventory(&mut shopify);
    ro.pull_orders(&shopify);
    ro.sync_inventory(&mut shopify);
    assert_eq!(ro.available(), shopify.available());
    assert_eq!(ro.available(), 15);
}
