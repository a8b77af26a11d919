//! Keeps an inventory count consistent between a local system of record and a
//! remote selling platform, using only relative (delta) pushes, order pulls and
//! a drift-reconciliation policy.
use vstd::prelude::*;

pub mod convergence;
pub mod ingest;
pub mod ledger;
pub mod reconcile;
pub mod remote;
pub mod sync;

pub use ledger::{Adjustment, Ledger};
pub use reconcile::{decide, Decision, DriftAction, ReconcilePolicy};
pub use remote::{Order, Shopify};
pub use sync::{InvModel, RO};

verus! {

} // verus!
