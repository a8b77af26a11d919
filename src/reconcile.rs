//! The drift policy: what to do when the local and remote counts disagree
//! once every known order has been pulled.
use vstd::prelude::*;

verus! {

/// How the monitor treats positive drift (local above remote).
#[derive(Clone, Copy, Debug, PartialEq, Eq, Structural)]
pub struct ReconcilePolicy {
    /// How long positive drift must persist before it is acted on, in the
    /// caller's clock units.
    pub debounce: u64,
    /// Whether drift that outlasts the debounce window is corrected (pushed to
    /// the remote platform) or handed to manual review.
    pub correct_on_timeout: bool,
}

/// What the monitor does about the drift it found.
#[derive(Clone, Copy, Debug, PartialEq, Eq, Structural)]
pub enum DriftAction {
    /// The counts agree.
    Reconciled,
    /// Local is above remote: wait for in-flight orders to surface.
    Wait,
    /// Push this corrective delta to the remote platform now.
    Correct(i32),
    /// Positive drift of this size outlasted the debounce window.
    Review(i32),
}

/// An action together with the monitor's next record of when the current
/// spell of positive drift began.
#[derive(Clone, Copy, Debug)]
pub struct Decision {
    pub action: DriftAction,
    pub caution_since: Option<u64>,
}

/// At least `debounce` has passed from `since` to `now`. A clock that went
/// backwards counts as no time passed.
pub open spec fn debounce_elapsed(since: u64, now: u64, debounce: u64) -> bool {
    since <= now && now - since >= debounce
}

/// The asymmetric drift policy. Negative drift (remote overstates stock) is
/// corrected at once; positive drift is waited on for the debounce window,
/// then corrected or sent to review as the policy says; no drift closes any
/// open spell of caution.
pub open spec fn decision(drift: int, since: Option<u64>, now: u64, policy: ReconcilePolicy) -> Decision {
    if drift == 0 {
        Decision { action: DriftAction::Reconciled, caution_since: None }
    } else if drift < 0 {
        Decision { action: DriftAction::Correct(drift as i32), caution_since: None }
    } else {
        match since {
            None => Decision { action: DriftAction::Wait, caution_since: Some(now) },
            Some(t) => if !debounce_elapsed(t, now, policy.debounce) {
                Decision { action: DriftAction::Wait, caution_since: Some(t) }
            } else if policy.correct_on_timeout {
                Decision { action: DriftAction::Correct(drift as i32), caution_since: None }
            } else {
                Decision { action: DriftAction::Review(drift as i32), caution_since: Some(t) }
            },
        }
    }
}

/// Applies the drift policy to `drift = local - remote`, given when the open
/// spell of positive drift began (if any) and the current time.
pub fn decide(drift: i32, caution_since: Option<u64>, now: u64, policy: ReconcilePolicy) -> (r: Decision)
    ensures
        r == decision(drift as int, caution_since, now, policy),
{
    if drift == 0 {
        Decision { action: DriftAction::Reconciled, caution_since: None }
    } else if drift < 0 {
        Decision { action: DriftAction::Correct(drift), caution_since: None }
    } else {
        match caution_since {
            None => Decision { action: DriftAction::Wait, caution_since: Some(now) },
            Some(t) => {
                if !(t <= now && now - t >= policy.debounce) {
                    Decision { action: DriftAction::Wait, caution_since: Some(t) }
                } else if policy.correct_on_timeout {
                    Decision { action: DriftAction::Correct(drift), caution_since: None }
                } else {
                    Decision { action: DriftAction::Review(drift), caution_since: Some(t) }
                }
            },
        }
    }
}

} // verus!
