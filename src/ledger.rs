//! Append-only logs of signed quantity adjustments.
use vstd::prelude::*;

verus! {

/// One atomic, signed change to an inventory count.
#[derive(Clone, Copy, Debug, PartialEq, Eq, Structural)]
pub struct Adjustment {
    pub quantity: i32,
}

/// The sum of the quantities in a log.
pub open spec fn total(log: Seq<Adjustment>) -> int
    decreases log.len(),
{
    if log.len() == 0 {
        0
    } else {
        total(log.drop_last()) + log.last().quantity
    }
}

pub open spec fn fits_i32(v: int) -> bool {
    i32::MIN <= v <= i32::MAX
}

/// Every running total of the log, from the empty prefix to the whole log, is
/// representable as an `i32`.
pub open spec fn prefixes_fit(log: Seq<Adjustment>) -> bool {
    forall|i: int| 0 <= i <= log.len() ==> fits_i32(#[trigger] total(log.take(i)))
}

/// A log whose running totals all fit has a total that fits.
pub proof fn lemma_total_fits(log: Seq<Adjustment>)
    requires
        prefixes_fit(log),
    ensures
        fits_i32(total(log)),
{
    assert(log.take(log.len() as int) =~= log);
}

/// The total of two logs laid end to end is the sum of their totals.
pub proof fn lemma_total_concat(a: Seq<Adjustment>, b: Seq<Adjustment>)
    ensures
        total(a + b) == total(a) + total(b),
    decreases b.len(),
{
    if b.len() == 0 {
        assert(a + b =~= a);
    } else {
        lemma_total_concat(a, b.drop_last());
        assert((a + b).drop_last() =~= a + b.drop_last());
    }
}

/// Taking one adjustment out of a log takes its quantity out of the total.
pub proof fn lemma_total_remove(log: Seq<Adjustment>, i: int)
    requires
        0 <= i < log.len(),
    ensures
        total(log.remove(i)) == total(log) - log[i].quantity,
    decreases log.len(),
{
    if i == log.len() - 1 {
        assert(log.remove(i) =~= log.drop_last());
    } else {
        lemma_total_remove(log.drop_last(), i);
        assert(log.remove(i).drop_last() =~= log.drop_last().remove(i));
        assert(log.remove(i).last() == log.last());
    }
}

/// The total of a log does not depend on the order in which its adjustments
/// were recorded: two logs holding the same adjustments have the same total.
pub proof fn lemma_total_order_independent(a: Seq<Adjustment>, b: Seq<Adjustment>)
    requires
        a.to_multiset() == b.to_multiset(),
    ensures
        total(a) == total(b),
    decreases a.len(),
{
    broadcast use vstd::seq_lib::group_to_multiset_ensures;

    if a.len() == 0 {
        assert(b.to_multiset().len() == 0);
    } else {
        let x = a.last();
        assert(a.drop_last().push(x) =~= a);
        assert(a.to_multiset().count(x) > 0);
        assert(b.contains(x));
        let j = choose|j: int| 0 <= j < b.len() && b[j] == x;
        assert(b.remove(j).to_multiset() == b.to_multiset().remove(x));
        assert(a.drop_last().to_multiset() =~= a.to_multiset().remove(x));
        lemma_total_order_independent(a.drop_last(), b.remove(j));
        lemma_total_remove(b, j);
    }
}

/// An append-only log whose `available` count is always the sum of the log.
pub struct Ledger {
    adjustments: Vec<Adjustment>,
}

impl View for Ledger {
    type V = Seq<Adjustment>;

    closed spec fn view(&self) -> Seq<Adjustment> {
        self.adjustments@
    }
}

impl Ledger {
    pub open spec fn wf(&self) -> bool {
        prefixes_fit(self@)
    }

    pub fn new() -> (r: Ledger)
        ensures
            r@ == Seq::<Adjustment>::empty(),
            r.wf(),
    {
        let r = Ledger { adjustments: Vec::new() };
        assert(r@.take(0) =~= Seq::<Adjustment>::empty());
        r
    }

    /// Appends an adjustment. Any sign is accepted; the running total must stay
    /// representable.
    pub fn record(&mut self, quantity: i32)
        requires
            old(self).wf(),
            fits_i32(total(old(self)@) + quantity),
        ensures
            final(self)@ == old(self)@.push(Adjustment { quantity }),
            total(final(self)@) == total(old(self)@) + quantity,
            final(self).wf(),
    {
        let ghost before = self@;
        self.adjustments.push(Adjustment { quantity });
        let ghost after = self@;
        assert(after.drop_last() =~= before);
        assert forall|i: int| 0 <= i <= after.len() implies fits_i32(#[trigger] total(after.take(i))) by {
            if i <= before.len() {
                assert(after.take(i) =~= before.take(i));
            } else {
                assert(after.take(i) =~= after);
                assert(after.drop_last() =~= before);
                assert(before.take(before.len() as int) =~= before);
            }
        }
    }

    /// The sum of every recorded quantity.
    pub fn available(&self) -> (r: i32)
        requires
            self.wf(),
        ensures
            r == total(self@),
    {
        let mut sum: i32 = 0;
        let mut i: usize = 0;
        assert(self@.take(0) =~= Seq::<Adjustment>::empty());
        while i < self.adjustments.len()
            invariant
                i <= self.adjustments.len(),
                self.wf(),
                sum == total(self@.take(i as int)),
            decreases self.adjustments.len() - i,
        {
            assert(self@.take(i + 1).drop_last() =~= self@.take(i as int));
            assert(fits_i32(total(self@.take(i + 1))));
            sum = sum + self.adjustments[i].quantity;
            i = i + 1;
        }
        assert(self@.take(i as int) =~= self@);
        sum
    }
}

} // verus!
