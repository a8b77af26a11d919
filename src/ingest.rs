//! What ingesting remote orders means: which orders are still unseen, and the
//! withdrawals they cause in a ledger.
use vstd::prelude::*;

use crate::ledger::{total, Adjustment};
use crate::remote::{orders_wf, Order};

verus! {

/// Some order in `orders` carries the identifier `id`.
pub open spec fn has_id(orders: Seq<Order>, id: u64) -> bool {
    exists|k: int| 0 <= k < orders.len() && #[trigger] orders[k].id == id
}

/// The orders of `orders`, in their order, whose identifiers `seen` does not
/// carry.
pub open spec fn unseen(orders: Seq<Order>, seen: Seq<Order>) -> Seq<Order>
    decreases orders.len(),
{
    if orders.len() == 0 {
        Seq::empty()
    } else {
        let rest = unseen(orders.drop_last(), seen);
        if has_id(seen, orders.last().id) {
            rest
        } else {
            rest.push(orders.last())
        }
    }
}

/// The sum of the quantities of some orders.
pub open spec fn order_total(orders: Seq<Order>) -> int
    decreases orders.len(),
{
    if orders.len() == 0 {
        0
    } else {
        order_total(orders.drop_last()) + orders.last().quantity
    }
}

/// The ledger adjustments that ingesting `orders` records: one of minus its
/// quantity for each order.
pub open spec fn withdrawals(orders: Seq<Order>) -> Seq<Adjustment> {
    orders.map_values(|o: Order| Adjustment { quantity: (-o.quantity) as i32 })
}

pub open spec fn quantities_positive(orders: Seq<Order>) -> bool {
    forall|k: int| 0 <= k < orders.len() ==> #[trigger] orders[k].quantity > 0
}

/// The withdrawals for some orders take their total quantity off a ledger.
pub proof fn lemma_withdrawals_total(orders: Seq<Order>)
    requires
        quantities_positive(orders),
    ensures
        total(withdrawals(orders)) == -order_total(orders),
    decreases orders.len(),
{
    if orders.len() > 0 {
        let rest = orders.drop_last();
        lemma_withdrawals_total(rest);
        assert(withdrawals(orders).drop_last() =~= withdrawals(rest));
    }
}

/// Every unseen order is one of the orders it was picked from.
pub proof fn lemma_unseen_contained(orders: Seq<Order>, seen: Seq<Order>)
    ensures
        forall|k: int|
            0 <= k < unseen(orders, seen).len() ==> orders.contains(#[trigger] unseen(orders, seen)[k]),
    decreases orders.len(),
{
    if orders.len() > 0 {
        let rest = orders.drop_last();
        lemma_unseen_contained(rest, seen);
        let u = unseen(orders, seen);
        assert forall|k: int| 0 <= k < u.len() implies orders.contains(#[trigger] u[k]) by {
            if k < unseen(rest, seen).len() {
                let j = choose|j: int| 0 <= j < rest.len() && rest[j] == unseen(rest, seen)[k];
                assert(orders[j] == u[k]);
            } else {
                assert(orders[orders.len() - 1] == u[k]);
            }
        }
    }
}

/// Unseen orders of a well-formed order list have positive quantities, and
/// taking more of the list never lowers their total.
pub proof fn lemma_unseen_prefix_total(orders: Seq<Order>, seen: Seq<Order>, i: int)
    requires
        orders_wf(orders),
        0 <= i <= orders.len(),
    ensures
        quantities_positive(unseen(orders.take(i), seen)),
        order_total(unseen(orders.take(i), seen)) <= order_total(unseen(orders, seen)),
    decreases orders.len() - i,
{
    let u = unseen(orders.take(i), seen);
    lemma_unseen_contained(orders.take(i), seen);
    assert forall|k: int| 0 <= k < u.len() implies #[trigger] u[k].quantity > 0 by {
        assert(orders.take(i).contains(u[k]));
        let j = choose|j: int| 0 <= j < orders.take(i).len() && orders.take(i)[j] == u[k];
        assert(orders.take(i)[j] == orders[j]);
        assert(orders[j].id == j);
    }
    if i == orders.len() {
        assert(orders.take(i) =~= orders);
    } else {
        lemma_unseen_prefix_total(orders, seen, i + 1);
        assert(orders.take(i + 1).drop_last() =~= orders.take(i));
        let v = unseen(orders.take(i + 1), seen);
        if !has_id(seen, orders[i].id) {
            assert(v.drop_last() =~= u);
            assert(v.last().quantity > 0);
        }
    }
}

/// Once every order's identifier has been seen, no order is unseen.
pub proof fn lemma_all_seen(orders: Seq<Order>, seen: Seq<Order>)
    requires
        forall|j: int| 0 <= j < orders.len() ==> has_id(seen, #[trigger] orders[j].id),
    ensures
        unseen(orders, seen) == Seq::<Order>::empty(),
    decreases orders.len(),
{
    if orders.len() > 0 {
        let rest = orders.drop_last();
        assert forall|j: int| 0 <= j < rest.len() implies has_id(seen, #[trigger] rest[j].id) by {
            assert(orders[j] == rest[j]);
        }
        lemma_all_seen(rest, seen);
        assert(has_id(seen, orders[orders.len() - 1].id));
    }
}

/// After the unseen orders are added to what was seen, nothing is unseen.
pub proof fn lemma_unseen_after_ingest(orders: Seq<Order>, seen: Seq<Order>)
    ensures
        unseen(orders, seen + unseen(orders, seen)) == Seq::<Order>::empty(),
{
    let u = unseen(orders, seen);
    let after = seen + u;
    assert forall|j: int| 0 <= j < orders.len() implies has_id(after, #[trigger] orders[j].id) by {
        lemma_unseen_has_each(orders, seen, j);
        if has_id(seen, orders[j].id) {
            let k = choose|k: int| 0 <= k < seen.len() && #[trigger] seen[k].id == orders[j].id;
            assert(after[k].id == orders[j].id);
        } else {
            let k = choose|k: int| 0 <= k < u.len() && u[k] == orders[j];
            assert(after[seen.len() + k].id == orders[j].id);
        }
    }
    lemma_all_seen(orders, after);
}

/// Each order is either already seen or among the unseen ones.
pub proof fn lemma_unseen_has_each(orders: Seq<Order>, seen: Seq<Order>, j: int)
    requires
        0 <= j < orders.len(),
    ensures
        has_id(seen, orders[j].id) || unseen(orders, seen).contains(orders[j]),
    decreases orders.len(),
{
    let rest = orders.drop_last();
    if j < orders.len() - 1 {
        lemma_unseen_has_each(rest, seen, j);
        assert(rest[j] == orders[j]);
        if !has_id(seen, orders[j].id) {
            let k = choose|k: int| 0 <= k < unseen(rest, seen).len() && unseen(rest, seen)[k] == orders[j];
            assert(unseen(orders, seen)[k] == orders[j]);
        }
    } else if !has_id(seen, orders[j].id) {
        assert(unseen(orders, seen)[unseen(rest, seen).len() as int] == orders[j]);
    }
}

} // verus!
