//! The remote selling platform: its own ledger, and the orders placed on it.
use vstd::prelude::*;

use crate::ledger::{fits_i32, prefixes_fit, total, Adjustment, Ledger};

verus! {

/// One consumption event on the remote platform, with the identifier under
/// which the platform reported it.
#[derive(Clone, Copy, Debug, PartialEq, Eq, Structural)]
pub struct Order {
    pub id: u64,
    pub quantity: i32,
}

/// The remote platform's state as a mathematical value.
pub struct ShopifyView {
    /// Every adjustment applied to the remote count, orders included.
    pub log: Seq<Adjustment>,
    /// Every order placed, in the order placed.
    pub orders: Seq<Order>,
}

/// The remote platform: it accepts relative corrections and takes orders of
/// its own, each of which lowers its count.
pub struct Shopify {
    adjustments: Ledger,
    orders: Vec<Order>,
}

impl View for Shopify {
    type V = ShopifyView;

    closed spec fn view(&self) -> ShopifyView {
        ShopifyView { log: self.adjustments@, orders: self.orders@ }
    }
}

/// Each order's identifier is its position, and its quantity is positive.
pub open spec fn orders_wf(orders: Seq<Order>) -> bool {
    forall|i: int| 0 <= i < orders.len() ==> #[trigger] orders[i].id == i && orders[i].quantity > 0
}

impl Shopify {
    pub open spec fn wf(&self) -> bool {
        &&& prefixes_fit(self@.log)
        &&& orders_wf(self@.orders)
    }

    /// The remote count, as a mathematical integer.
    pub open spec fn available_spec(&self) -> int {
        total(self@.log)
    }

    pub fn new() -> (r: Shopify)
        ensures
            r@.log == Seq::<Adjustment>::empty(),
            r@.orders == Seq::<Order>::empty(),
            r.wf(),
    {
        Shopify { adjustments: Ledger::new(), orders: Vec::new() }
    }

    /// The remote count: the sum of every adjustment applied to it.
    pub fn available(&self) -> (r: i32)
        requires
            self.wf(),
        ensures
            r == self.available_spec(),
    {
        self.adjustments.available()
    }

    /// Applies a relative correction to the remote count.
    pub fn make_adjustment(&mut self, quantity: i32)
        requires
            old(self).wf(),
            fits_i32(old(self).available_spec() + quantity),
        ensures
            final(self)@.log == old(self)@.log.push(Adjustment { quantity }),
            final(self)@.orders == old(self)@.orders,
            final(self).available_spec() == old(self).available_spec() + quantity,
            final(self).wf(),
    {
        self.adjustments.record(quantity);
    }

    /// Takes an order on the remote side: records it under a fresh identifier
    /// and lowers the remote count by its quantity. Returns the identifier.
    pub fn place_order(&mut self, quantity: i32) -> (id: u64)
        requires
            old(self).wf(),
            quantity > 0,
            fits_i32(old(self).available_spec() - quantity),
        ensures
            id == old(self)@.orders.len(),
            final(self)@.orders == old(self)@.orders.push(Order { id, quantity }),
            final(self)@.log == old(self)@.log.push(Adjustment { quantity: (-quantity) as i32 }),
            final(self).available_spec() == old(self).available_spec() - quantity,
            final(self).wf(),
    {
        let id = self.orders.len() as u64;
        self.orders.push(Order { id, quantity });
        assert forall|i: int| 0 <= i < self@.orders.len() implies #[trigger] self@.orders[i].id == i
            && self@.orders[i].quantity > 0 by {
            if i < old(self)@.orders.len() {
                assert(self@.orders[i] == old(self)@.orders[i]);
            }
        }
        self.make_adjustment(-quantity);
        id
    }

    /// Every order placed so far, with its identifier, in the order placed.
    pub fn orders(&self) -> (r: &Vec<Order>)
        ensures
            r@ == self@.orders,
    {
        &self.orders
    }
}

impl Default for Shopify {
    fn default() -> (r: Shopify)
        ensures
            r@.log == Seq::<Adjustment>::empty(),
            r@.orders == Seq::<Order>::empty(),
            r.wf(),
    {
        Shopify::new()
    }
}

} // verus!
