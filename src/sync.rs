//! The local side: the system-of-record ledger, the shadow of what has been
//! pushed to the remote platform, and the orders already ingested from it.
use vstd::prelude::*;

use crate::ingest::{
    has_id, lemma_unseen_after_ingest, lemma_unseen_contained, lemma_unseen_prefix_total,
    lemma_withdrawals_total, order_total, unseen, withdrawals,
};
use crate::ledger::{fits_i32, lemma_total_concat, lemma_total_fits, prefixes_fit, total, Adjustment, Ledger};
use crate::reconcile::{decide, decision, DriftAction, ReconcilePolicy};
use crate::remote::{orders_wf, Order, Shopify, ShopifyView};

verus! {

/// The shadow model: the local side's record of every delta it has
/// communicated to the remote platform. Only the sync engine changes it.
pub struct InvModel {
    adjustments: Ledger,
}

impl View for InvModel {
    type V = Seq<Adjustment>;

    closed spec fn view(&self) -> Seq<Adjustment> {
        self.adjustments@
    }
}

impl InvModel {
    pub open spec fn wf(&self) -> bool {
        prefixes_fit(self@)
    }

    pub fn new() -> (r: InvModel)
        ensures
            r@ == Seq::<Adjustment>::empty(),
            r.wf(),
    {
        InvModel { adjustments: Ledger::new() }
    }

    /// The net quantity communicated so far.
    pub fn available(&self) -> (r: i32)
        requires
            self.wf(),
        ensures
            r == total(self@),
    {
        self.adjustments.available()
    }

    pub fn make_adjustment(&mut self, quantity: i32)
        requires
            old(self).wf(),
            fits_i32(total(old(self)@) + quantity),
        ensures
            final(self)@ == old(self)@.push(Adjustment { quantity }),
            total(final(self)@) == total(old(self)@) + quantity,
            final(self).wf(),
    {
        self.adjustments.record(quantity);
    }
}

/// The local side's state as a mathematical value.
pub struct ROView {
    /// The local system of record.
    pub local: Seq<Adjustment>,
    /// What has been communicated to the remote platform.
    pub shadow: Seq<Adjustment>,
    /// The remote orders folded in so far, in the order folded in.
    pub ingested: Seq<Order>,
    /// When the current spell of positive drift was first seen, if one is open.
    pub caution_since: Option<u64>,
}

/// The local system of record together with the sync engine, the order
/// ingester and the drift monitor that keep the remote platform in step.
pub struct RO {
    adjustments: Ledger,
    orders: Vec<Order>,
    inv_model: InvModel,
    caution_since: Option<u64>,
}

impl View for RO {
    type V = ROView;

    closed spec fn view(&self) -> ROView {
        ROView {
            local: self.adjustments@,
            shadow: self.inv_model@,
            ingested: self.orders@,
            caution_since: self.caution_since,
        }
    }
}

/// The delta that a sync pushes: what the local count has moved since the
/// last push.
pub open spec fn outstanding(ro: ROView) -> int {
    total(ro.local) - total(ro.shadow)
}

/// `(ro1, shop1)` is what a sync that returned `r` makes of `(ro0, shop0)`:
/// the outstanding delta, when there is one, is pushed to the remote ledger
/// and folded into the shadow; nothing else changes.
pub open spec fn sync_step(
    ro0: ROView,
    shop0: ShopifyView,
    ro1: ROView,
    shop1: ShopifyView,
    r: int,
) -> bool {
    &&& r == outstanding(ro0)
    &&& ro1.local == ro0.local
    &&& ro1.ingested == ro0.ingested
    &&& ro1.caution_since == ro0.caution_since
    &&& shop1.orders == shop0.orders
    &&& if r == 0 {
        ro1.shadow == ro0.shadow && shop1.log == shop0.log
    } else {
        &&& ro1.shadow == ro0.shadow.push(Adjustment { quantity: r as i32 })
        &&& shop1.log == shop0.log.push(Adjustment { quantity: r as i32 })
    }
}

/// `ro1` is what pulling the orders of `shop` makes of `ro0`: each order not
/// yet ingested is recorded as ingested and withdrawn from both the local
/// ledger and the shadow, in the order placed.
pub open spec fn pull_step(ro0: ROView, shop: ShopifyView, ro1: ROView) -> bool {
    let fresh = unseen(shop.orders, ro0.ingested);
    &&& ro1.ingested == ro0.ingested + fresh
    &&& ro1.local == ro0.local + withdrawals(fresh)
    &&& ro1.shadow == ro0.shadow + withdrawals(fresh)
    &&& ro1.caution_since == ro0.caution_since
}

/// The drift the monitor measures: the local count, less the orders not yet
/// ingested, minus the remote count.
pub open spec fn drift_after_pull(ro: ROView, shop: ShopifyView) -> int {
    total(ro.local) - order_total(unseen(shop.orders, ro.ingested)) - total(shop.log)
}

/// The local side and the remote platform are in step: the shadow exceeds the
/// remote count by exactly the orders not yet ingested, and every ingested
/// order is one the platform reported.
pub open spec fn consistent(ro: ROView, shop: ShopifyView) -> bool {
    &&& total(ro.shadow) - total(shop.log) == order_total(unseen(shop.orders, ro.ingested))
    &&& forall|k: int| 0 <= k < ro.ingested.len() ==> #[trigger] ro.ingested[k].id < shop.orders.len()
}

/// A pull keeps the sides in step, and leaves the shadow equal to the remote
/// count: every order it withdraws is one the remote count already reflects.
pub proof fn lemma_pull_consistent(ro0: ROView, shop: ShopifyView, ro1: ROView)
    requires
        orders_wf(shop.orders),
        consistent(ro0, shop),
        pull_step(ro0, shop, ro1),
    ensures
        consistent(ro1, shop),
        total(ro1.shadow) == total(shop.log),
{
    let all = shop.orders;
    let fresh = unseen(all, ro0.ingested);
    assert(all.take(all.len() as int) =~= all);
    lemma_unseen_prefix_total(all, ro0.ingested, all.len() as int);
    lemma_withdrawals_total(fresh);
    lemma_total_concat(ro0.shadow, withdrawals(fresh));
    lemma_unseen_after_ingest(all, ro0.ingested);
    lemma_unseen_contained(all, ro0.ingested);
    assert forall|k: int| 0 <= k < ro1.ingested.len() implies #[trigger] ro1.ingested[k].id < all.len() by {
        if k >= ro0.ingested.len() {
            let e = fresh[k - ro0.ingested.len()];
            assert(ro1.ingested[k] == e);
            assert(all.contains(e));
            let j = choose|j: int| 0 <= j < all.len() && all[j] == e;
            assert(all[j].id == j);
        } else {
            assert(ro1.ingested[k] == ro0.ingested[k]);
        }
    }
}

impl RO {
    pub open spec fn wf(&self) -> bool {
        &&& prefixes_fit(self@.local)
        &&& prefixes_fit(self@.shadow)
    }

    pub fn new() -> (r: RO)
        ensures
            r@.local == Seq::<Adjustment>::empty(),
            r@.shadow == Seq::<Adjustment>::empty(),
            r@.ingested == Seq::<Order>::empty(),
            r@.caution_since == None::<u64>,
            r.wf(),
    {
        RO {
            adjustments: Ledger::new(),
            orders: Vec::new(),
            inv_model: InvModel::new(),
            caution_since: None,
        }
    }

    /// Records a local change of the count (a receipt, a correction, a
    /// consumption seen by another system).
    pub fn make_adjustment(&mut self, quantity: i32)
        requires
            old(self).wf(),
            fits_i32(total(old(self)@.local) + quantity),
        ensures
            final(self)@.local == old(self)@.local.push(Adjustment { quantity }),
            final(self)@.shadow == old(self)@.shadow,
            final(self)@.ingested == old(self)@.ingested,
            final(self)@.caution_since == old(self)@.caution_since,
            final(self).wf(),
    {
        self.adjustments.record(quantity);
    }

    /// The local count: the sum of every local adjustment, ingested orders
    /// included.
    pub fn available(&self) -> (r: i32)
        requires
            self.wf(),
        ensures
            r == total(self@.local),
    {
        self.adjustments.available()
    }

    /// The net quantity communicated to the remote platform so far.
    pub fn shadow_available(&self) -> (r: i32)
        requires
            self.wf(),
        ensures
            r == total(self@.shadow),
    {
        self.inv_model.available()
    }

    /// Whether an order with this identifier has been ingested.
    pub fn is_ingested(&self, id: u64) -> (r: bool)
        ensures
            r == has_id(self@.ingested, id),
    {
        let mut i: usize = 0;
        while i < self.orders.len()
            invariant
                i <= self.orders.len(),
                forall|k: int| 0 <= k < i ==> #[trigger] self.orders@[k].id != id,
            decreases self.orders.len() - i,
        {
            if self.orders[i].id == id {
                return true;
            }
            i = i + 1;
        }
        false
    }

    /// Pushes the local change since the last push to the remote platform as a
    /// relative correction, folds it into the shadow, and returns it. Returns
    /// 0 and changes nothing when there is none.
    pub fn sync_inventory(&mut self, shopify: &mut Shopify) -> (r: i32)
        requires
            old(self).wf(),
            old(shopify).wf(),
            fits_i32(outstanding(old(self)@)),
            fits_i32(old(shopify).available_spec() + outstanding(old(self)@)),
        ensures
            sync_step(old(self)@, old(shopify)@, final(self)@, final(shopify)@, r as int),
            total(final(self)@.shadow) == total(final(self)@.local),
            final(shopify).available_spec() == old(shopify).available_spec() + r,
            consistent(old(self)@, old(shopify)@) ==> consistent(final(self)@, final(shopify)@),
            final(self).wf(),
            final(shopify).wf(),
    {
        let delta = self.available() - self.inv_model.available();
        if delta != 0 {
            // The remote platform takes the delta first; only then is it
            // counted as communicated.
            shopify.make_adjustment(delta);
            self.inv_model.make_adjustment(delta);
        }
        delta
    }

    /// Whether either count has fallen below zero. Such a count may be a
    /// legitimate backorder, so it is reported and never repaired here.
    pub fn availability_anomaly(&self, shopify: &Shopify) -> (r: bool)
        requires
            self.wf(),
            shopify.wf(),
        ensures
            r == (total(self@.local) < 0 || shopify.available_spec() < 0),
    {
        self.available() < 0 || shopify.available() < 0
    }

    /// One round of the drift monitor at time `now`: pulls the known orders,
    /// measures `drift = local - remote`, and acts on it as `policy` says. A
    /// correction is pushed to the remote platform only. The shadow then takes
    /// in just the local change that had not been pushed yet (which the
    /// correction carried along), so that it ends equal to the local count and
    /// the next sync pushes nothing back. Any other action changes neither count.
    pub fn reconcile_shopify(&mut self, shopify: &mut Shopify, policy: ReconcilePolicy, now: u64) -> (r: DriftAction)
        requires
            old(self).wf(),
            old(shopify).wf(),
            fits_i32(total(old(self)@.local) - order_total(unseen(old(shopify)@.orders, old(self)@.ingested))),
            fits_i32(total(old(self)@.shadow) - order_total(unseen(old(shopify)@.orders, old(self)@.ingested))),
            fits_i32(drift_after_pull(old(self)@, old(shopify)@)),
            fits_i32(outstanding(old(self)@)),
        ensures
            ({
                let fresh = unseen(old(shopify)@.orders, old(self)@.ingested);
                let d = decision(drift_after_pull(old(self)@, old(shopify)@), old(self)@.caution_since, now, policy);
                &&& r == d.action
                &&& final(self)@.caution_since == d.caution_since
                &&& final(self)@.ingested == old(self)@.ingested + fresh
                &&& final(self)@.local == old(self)@.local + withdrawals(fresh)
                &&& final(shopify)@.orders == old(shopify)@.orders
                &&& match r {
                    DriftAction::Correct(c) => {
                        &&& final(self)@.shadow == if outstanding(old(self)@) == 0 {
                            old(self)@.shadow + withdrawals(fresh)
                        } else {
                            (old(self)@.shadow + withdrawals(fresh)).push(
                                Adjustment { quantity: outstanding(old(self)@) as i32 },
                            )
                        }
                        &&& final(shopify)@.log == old(shopify)@.log.push(Adjustment { quantity: c })
                        &&& final(shopify).available_spec() == total(final(self)@.local)
                        &&& total(final(self)@.shadow) == total(final(self)@.local)
                    },
                    _ => {
                        &&& final(self)@.shadow == old(self)@.shadow + withdrawals(fresh)
                        &&& final(shopify)@.log == old(shopify)@.log
                    },
                }
            }),
            consistent(old(self)@, old(shopify)@) ==> consistent(final(self)@, final(shopify)@),
            final(self).wf(),
            final(shopify).wf(),
    {
        self.pull_orders(shopify);
        let drift = self.available() - shopify.available();
        let decision = decide(drift, self.caution_since, now, policy);
        if let DriftAction::Correct(c) = decision.action {
            shopify.make_adjustment(c);
            let unpushed = self.available() - self.inv_model.available();
            if unpushed != 0 {
                self.inv_model.make_adjustment(unpushed);
            }
        }
        self.caution_since = decision.caution_since;
        decision.action
    }

    /// Folds in every remote order not yet ingested: records it, and withdraws
    /// its quantity from the local ledger and from the shadow (the remote
    /// count already reflects it). Orders already ingested are skipped, so a
    /// second pull changes nothing.
    pub fn pull_orders(&mut self, shopify: &Shopify)
        requires
            old(self).wf(),
            shopify.wf(),
            fits_i32(total(old(self)@.local) - order_total(unseen(shopify@.orders, old(self)@.ingested))),
            fits_i32(total(old(self)@.shadow) - order_total(unseen(shopify@.orders, old(self)@.ingested))),
        ensures
            pull_step(old(self)@, shopify@, final(self)@),
            total(final(self)@.local) == total(old(self)@.local) - order_total(
                unseen(shopify@.orders, old(self)@.ingested),
            ),
            total(final(self)@.shadow) == total(old(self)@.shadow) - order_total(
                unseen(shopify@.orders, old(self)@.ingested),
            ),
            unseen(shopify@.orders, final(self)@.ingested) == Seq::<Order>::empty(),
            consistent(old(self)@, shopify@) ==> consistent(final(self)@, shopify@),
            consistent(old(self)@, shopify@) ==> total(final(self)@.shadow) == shopify.available_spec(),
            final(self).wf(),
    {
        let orders = shopify.orders();
        let ghost ro0 = self@;
        let ghost all = orders@;
        let mut i: usize = 0;
        assert(all.take(0) =~= Seq::<Order>::empty());
        assert(ro0.ingested + Seq::<Order>::empty() =~= ro0.ingested);
        assert(ro0.local + withdrawals(Seq::<Order>::empty()) =~= ro0.local);
        assert(ro0.shadow + withdrawals(Seq::<Order>::empty()) =~= ro0.shadow);
        while i < orders.len()
            invariant
                i <= orders.len(),
                orders@ == all,
                all == shopify@.orders,
                orders_wf(all),
                self.wf(),
                fits_i32(total(ro0.local) - order_total(unseen(all, ro0.ingested))),
                fits_i32(total(ro0.shadow) - order_total(unseen(all, ro0.ingested))),
                self@.ingested == ro0.ingested + unseen(all.take(i as int), ro0.ingested),
                self@.local == ro0.local + withdrawals(unseen(all.take(i as int), ro0.ingested)),
                self@.shadow == ro0.shadow + withdrawals(unseen(all.take(i as int), ro0.ingested)),
                total(self@.local) == total(ro0.local) - order_total(unseen(all.take(i as int), ro0.ingested)),
                total(self@.shadow) == total(ro0.shadow) - order_total(unseen(all.take(i as int), ro0.ingested)),
                self@.caution_since == ro0.caution_since,
            decreases orders.len() - i,
        {
            let order = orders[i];
            let ghost before = unseen(all.take(i as int), ro0.ingested);
            let ghost after = unseen(all.take(i + 1), ro0.ingested);
            proof {
                assert(all.take(i + 1).drop_last() =~= all.take(i as int));
                assert(all[i as int].id == i);
                lemma_unseen_contained(all.take(i as int), ro0.ingested);
                lemma_unseen_prefix_total(all, ro0.ingested, i + 1);
                // Ingested orders beyond those at the start all come from
                // earlier positions, so their identifiers differ from this one.
                if has_id(self@.ingested, order.id) {
                    let k = choose|k: int| 0 <= k < self@.ingested.len() && #[trigger] self@.ingested[k].id == order.id;
                    if k >= ro0.ingested.len() {
                        let e = before[k - ro0.ingested.len()];
                        assert(self@.ingested[k] == e);
                        assert(all.take(i as int).contains(e));
                        let j = choose|j: int| 0 <= j < all.take(i as int).len() && all.take(i as int)[j] == e;
                        assert(all[j].id == j);
                        assert(false);
                    }
                    assert(ro0.ingested[k].id == order.id);
                }
                if has_id(ro0.ingested, order.id) {
                    let k = choose|k: int| 0 <= k < ro0.ingested.len() && #[trigger] ro0.ingested[k].id == order.id;
                    assert(self@.ingested[k] == ro0.ingested[k]);
                }
                assert(all.take(i + 1).last() == order);
            }
            if !self.is_ingested(order.id) {
                proof {
                    assert(after == before.push(order));
                    assert(after.drop_last() =~= before);
                    assert(order_total(after) == order_total(before) + order.quantity);
                    assert(after.last().quantity > 0);
                    lemma_total_fits(self@.local);
                    lemma_total_fits(self@.shadow);
                }
                self.orders.push(order);
                self.adjustments.record(-order.quantity);
                self.inv_model.make_adjustment(-order.quantity);
                proof {
                    assert(self@.ingested =~= ro0.ingested + after);
                    assert(withdrawals(after) =~= withdrawals(before).push(Adjustment { quantity: (-order.quantity) as i32 }));
                    assert(self@.local =~= ro0.local + withdrawals(after));
                    assert(self@.shadow =~= ro0.shadow + withdrawals(after));
                }
            } else {
                assert(after == before);
            }
            i = i + 1;
        }
        proof {
            assert(all.take(i as int) =~= all);
            lemma_unseen_after_ingest(all, ro0.ingested);
            if consistent(ro0, shopify@) {
                lemma_pull_consistent(ro0, shopify@, self@);
            }
        }
    }
}

impl Default for RO {
    fn default() -> (r: RO)
        ensures
            r@.local == Seq::<Adjustment>::empty(),
            r@.shadow == Seq::<Adjustment>::empty(),
            r@.ingested == Seq::<Order>::empty(),
            r@.caution_since == None::<u64>,
            r.wf(),
    {
        RO::new()
    }
}

} // verus!
