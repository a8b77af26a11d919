//! What holds across several operations: repeated syncs and pulls change
//! nothing, the local and remote sides stay in step under any interleaving of
//! local adjustments and remote orders, and a sync, a pull and a sync bring the
//! two counts together.
use vstd::prelude::*;

use crate::ingest::{has_id, lemma_unseen_after_ingest, unseen, withdrawals};
use crate::ledger::{total, Adjustment};
use crate::remote::{orders_wf, Order, ShopifyView};
use crate::sync::{consistent, lemma_pull_consistent, pull_step, sync_step, ROView};

verus! {

/// Recording one more adjustment adds its quantity to the total.
proof fn lemma_total_push(log: Seq<Adjustment>, a: Adjustment)
    ensures
        total(log.push(a)) == total(log) + a.quantity,
{
    assert(log.push(a).drop_last() =~= log);
}

/// A second sync with no local adjustment in between pushes nothing: it
/// returns 0 and leaves both sides as they were.
pub proof fn lemma_sync_idempotent(
    ro0: ROView,
    shop0: ShopifyView,
    ro1: ROView,
    shop1: ShopifyView,
    r1: i32,
    ro2: ROView,
    shop2: ShopifyView,
    r2: i32,
)
    requires
        sync_step(ro0, shop0, ro1, shop1, r1 as int),
        sync_step(ro1, shop1, ro2, shop2, r2 as int),
    ensures
        r2 == 0,
        ro2 == ro1,
        shop2 == shop1,
{
    if r1 != 0 {
        lemma_total_push(ro0.shadow, Adjustment { quantity: r1 });
    }
}

/// Pulling the same remote orders a second time changes nothing locally, in
/// particular neither the local count nor the shadow.
pub proof fn lemma_pull_idempotent(ro0: ROView, shop: ShopifyView, ro1: ROView, ro2: ROView)
    requires
        pull_step(ro0, shop, ro1),
        pull_step(ro1, shop, ro2),
    ensures
        ro2 == ro1,
        total(ro2.local) == total(ro1.local),
        total(ro2.shadow) == total(ro1.shadow),
{
    lemma_unseen_after_ingest(shop.orders, ro0.ingested);
    let none = unseen(shop.orders, ro1.ingested);
    assert(withdrawals(none) =~= Seq::<Adjustment>::empty());
    assert(ro2.ingested =~= ro1.ingested);
    assert(ro2.local =~= ro1.local);
    assert(ro2.shadow =~= ro1.shadow);
}

/// A fresh local side and a fresh remote platform start in step.
pub proof fn lemma_fresh_consistent(ro: ROView, shop: ShopifyView)
    requires
        ro.shadow == Seq::<Adjustment>::empty(),
        ro.ingested == Seq::<Order>::empty(),
        shop.log == Seq::<Adjustment>::empty(),
        shop.orders == Seq::<Order>::empty(),
    ensures
        consistent(ro, shop),
{
}

/// A local adjustment leaves the sides in step: it touches neither the shadow
/// nor the ingested orders.
pub proof fn lemma_local_adjustment_consistent(ro0: ROView, ro1: ROView, shop: ShopifyView)
    requires
        consistent(ro0, shop),
        ro1.shadow == ro0.shadow,
        ro1.ingested == ro0.ingested,
    ensures
        consistent(ro1, shop),
{
}

/// An order placed on the remote platform leaves the sides in step: the remote
/// count drops by its quantity, and the order joins those not yet ingested.
pub proof fn lemma_remote_order_consistent(ro: ROView, shop0: ShopifyView, shop1: ShopifyView, order: Order)
    requires
        consistent(ro, shop0),
        order.id == shop0.orders.len(),
        shop1.orders == shop0.orders.push(order),
        total(shop1.log) == total(shop0.log) - order.quantity,
    ensures
        consistent(ro, shop1),
{
    if has_id(ro.ingested, order.id) {
        let k = choose|k: int| 0 <= k < ro.ingested.len() && #[trigger] ro.ingested[k].id == order.id;
        assert(ro.ingested[k].id < shop0.orders.len());
    }
    assert(shop1.orders.drop_last() =~= shop0.orders);
    let u = unseen(shop1.orders, ro.ingested);
    assert(u.drop_last() =~= unseen(shop0.orders, ro.ingested));
}

/// From any state in which the sides are in step, a sync, then a pull of the
/// remote orders, then another sync leave the local and remote counts equal.
pub proof fn lemma_in_step_sync_pull_sync_converges(
    ro0: ROView,
    shop0: ShopifyView,
    ro1: ROView,
    shop1: ShopifyView,
    r1: i32,
    ro2: ROView,
    ro3: ROView,
    shop3: ShopifyView,
    r3: i32,
)
    requires
        orders_wf(shop0.orders),
        consistent(ro0, shop0),
        sync_step(ro0, shop0, ro1, shop1, r1 as int),
        pull_step(ro1, shop1, ro2),
        sync_step(ro2, shop1, ro3, shop3, r3 as int),
    ensures
        total(ro3.local) == total(shop3.log),
{
    lemma_sync_consistent(ro0, shop0, ro1, shop1, r1);
    lemma_pull_consistent(ro1, shop1, ro2);
    if r3 != 0 {
        lemma_total_push(ro2.shadow, Adjustment { quantity: r3 });
        lemma_total_push(shop1.log, Adjustment { quantity: r3 });
    }
}

/// A sync keeps the sides in step: it adds the same delta to the shadow and
/// to the remote count.
pub proof fn lemma_sync_consistent(ro0: ROView, shop0: ShopifyView, ro1: ROView, shop1: ShopifyView, r: i32)
    requires
        consistent(ro0, shop0),
        sync_step(ro0, shop0, ro1, shop1, r as int),
    ensures
        consistent(ro1, shop1),
{
    if r != 0 {
        lemma_total_push(ro0.shadow, Adjustment { quantity: r });
        lemma_total_push(shop0.log, Adjustment { quantity: r });
    }
}

/// `(ro1, shop1)` follows from `(ro0, shop0)` by one local adjustment: an
/// adjustment is appended to the local ledger and nothing else changes.
pub open spec fn local_adjustment_step(ro0: ROView, shop0: ShopifyView, ro1: ROView, shop1: ShopifyView) -> bool {
    &&& exists|a: Adjustment| ro1.local == #[trigger] ro0.local.push(a)
    &&& ro1.shadow == ro0.shadow
    &&& ro1.ingested == ro0.ingested
    &&& ro1.caution_since == ro0.caution_since
    &&& shop1 == shop0
}

/// `(ro1, shop1)` follows from `(ro0, shop0)` by one order placed on the
/// remote platform, with a positive quantity and the next identifier.
pub open spec fn remote_order_step(ro0: ROView, shop0: ShopifyView, ro1: ROView, shop1: ShopifyView) -> bool {
    let o = shop1.orders.last();
    &&& ro1 == ro0
    &&& shop1.orders.len() > 0
    &&& o.id == shop0.orders.len()
    &&& o.quantity > 0
    &&& shop1.orders == shop0.orders.push(o)
    &&& shop1.log == shop0.log.push(Adjustment { quantity: (-o.quantity) as i32 })
}

/// `(ro1, shop1)` follows from `(ro0, shop0)` by a local adjustment, a remote
/// order, a sync, or a pull.
pub open spec fn any_step(ro0: ROView, shop0: ShopifyView, ro1: ROView, shop1: ShopifyView) -> bool {
    ||| local_adjustment_step(ro0, shop0, ro1, shop1)
    ||| remote_order_step(ro0, shop0, ro1, shop1)
    ||| exists|r: i32| sync_step(ro0, shop0, ro1, shop1, r as int)
    ||| pull_step(ro0, shop0, ro1) && shop1 == shop0
}

/// `ros` and `shops` are the successive states of a fresh local side and a
/// fresh remote platform under some interleaving of local adjustments, remote
/// orders, syncs and pulls.
pub open spec fn is_history(ros: Seq<ROView>, shops: Seq<ShopifyView>) -> bool {
    &&& ros.len() == shops.len()
    &&& ros.len() > 0
    &&& ros[0].local == Seq::<Adjustment>::empty()
    &&& ros[0].shadow == Seq::<Adjustment>::empty()
    &&& ros[0].ingested == Seq::<Order>::empty()
    &&& shops[0].log == Seq::<Adjustment>::empty()
    &&& shops[0].orders == Seq::<Order>::empty()
    &&& forall|i: int| 0 <= i < ros.len() - 1 ==> #[trigger] any_step(ros[i], shops[i], ros[i + 1], shops[i + 1])
}

/// Every step of a history keeps the sides in step and the remote orders well
/// formed.
pub proof fn lemma_step_consistent(ro0: ROView, shop0: ShopifyView, ro1: ROView, shop1: ShopifyView)
    requires
        orders_wf(shop0.orders),
        consistent(ro0, shop0),
        any_step(ro0, shop0, ro1, shop1),
    ensures
        orders_wf(shop1.orders),
        consistent(ro1, shop1),
{
    if local_adjustment_step(ro0, shop0, ro1, shop1) {
        lemma_local_adjustment_consistent(ro0, ro1, shop0);
    } else if remote_order_step(ro0, shop0, ro1, shop1) {
        let o = shop1.orders.last();
        lemma_total_push(shop0.log, Adjustment { quantity: (-o.quantity) as i32 });
        lemma_remote_order_consistent(ro0, shop0, shop1, o);
        assert forall|i: int| 0 <= i < shop1.orders.len() implies #[trigger] shop1.orders[i].id == i
            && shop1.orders[i].quantity > 0 by {
            if i < shop0.orders.len() {
                assert(shop1.orders[i] == shop0.orders[i]);
            }
        }
    } else if exists|r: i32| sync_step(ro0, shop0, ro1, shop1, r as int) {
        let r = choose|r: i32| sync_step(ro0, shop0, ro1, shop1, r as int);
        lemma_sync_consistent(ro0, shop0, ro1, shop1, r);
    } else {
        lemma_pull_consistent(ro0, shop0, ro1);
    }
}

/// Whatever interleaving of local adjustments, remote orders, syncs and pulls
/// produced it, the last state of a history has the sides in step.
pub proof fn lemma_history_consistent(ros: Seq<ROView>, shops: Seq<ShopifyView>)
    requires
        is_history(ros, shops),
    ensures
        orders_wf(shops.last().orders),
        consistent(ros.last(), shops.last()),
    decreases ros.len(),
{
    if ros.len() == 1 {
        lemma_fresh_consistent(ros[0], shops[0]);
    } else {
        let n = ros.len() - 1;
        let (ros0, shops0) = (ros.drop_last(), shops.drop_last());
        assert forall|i: int| 0 <= i < ros0.len() - 1 implies #[trigger] any_step(
            ros0[i],
            shops0[i],
            ros0[i + 1],
            shops0[i + 1],
        ) by {
            assert(any_step(ros[i], shops[i], ros[i + 1], shops[i + 1]));
        }
        lemma_history_consistent(ros0, shops0);
        let m = n - 1;
        assert(any_step(ros[m], shops[m], ros[m + 1], shops[m + 1]));
        assert(ros0.last() == ros[m] && shops0.last() == shops[m]);
        lemma_step_consistent(ros[m], shops[m], ros[m + 1], shops[m + 1]);
    }
}

/// Whatever interleaving of local adjustments and remote orders (and syncs
/// and pulls) came before, starting from fresh sides, a sync, then a pull of
/// the remote orders, then another sync leave the local and remote counts
/// equal.
pub proof fn lemma_sync_pull_sync_converges(
    ros: Seq<ROView>,
    shops: Seq<ShopifyView>,
    ro1: ROView,
    shop1: ShopifyView,
    r1: i32,
    ro2: ROView,
    ro3: ROView,
    shop3: ShopifyView,
    r3: i32,
)
    requires
        is_history(ros, shops),
        sync_step(ros.last(), shops.last(), ro1, shop1, r1 as int),
        pull_step(ro1, shop1, ro2),
        sync_step(ro2, shop1, ro3, shop3, r3 as int),
    ensures
        total(ro3.local) == total(shop3.log),
{
    lemma_history_consistent(ros, shops);
    lemma_in_step_sync_pull_sync_converges(ros.last(), shops.last(), ro1, shop1, r1, ro2, ro3, shop3, r3);
}

} // verus!
