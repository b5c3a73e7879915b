//! Detects a Ctrl+C chord held for a threshold duration, firing once per hold.
//!
//! Times are monotonic timestamps in milliseconds (from any fixed origin), and
//! the threshold is a length of time in milliseconds.
use vstd::prelude::*;

verus! {

/// What a `HoldDetector` remembers.
pub struct HoldState {
    pub ctrl_down: bool,
    pub c_down: bool,
    /// When the current hold was first observed by `check`, if it has been.
    pub hold_started_at: Option<u64>,
    /// Whether the current hold has already fired.
    pub fired: bool,
}

pub struct HoldDetector {
    ctrl_down: bool,
    c_down: bool,
    hold_started_at: Option<u64>,
    fired: bool,
}

/// Time elapsed from `start` to `now`, zero if `now` is earlier
/// (`Instant::duration_since` saturates).
pub open spec fn elapsed(now: u64, start: u64) -> int {
    if now >= start {
        now - start
    } else {
        0
    }
}

/// Both keys are down: the chord is being held.
pub open spec fn held(s: HoldState) -> bool {
    s.ctrl_down && s.c_down
}

/// The state after one of the keys changed: leaving the chord forgets the
/// current hold entirely.
pub open spec fn spec_keys_changed(ctrl_down: bool, c_down: bool, s: HoldState) -> HoldState {
    if ctrl_down && c_down {
        HoldState { ctrl_down, c_down, hold_started_at: s.hold_started_at, fired: s.fired }
    } else {
        HoldState { ctrl_down, c_down, hold_started_at: None, fired: false }
    }
}

pub open spec fn spec_set_ctrl(s: HoldState, down: bool) -> HoldState {
    spec_keys_changed(down, s.c_down, s)
}

pub open spec fn spec_set_c(s: HoldState, down: bool) -> HoldState {
    spec_keys_changed(s.ctrl_down, down, s)
}

/// One periodic check at time `now`: the state after it, and whether it fired.
/// While the chord is held, the hold starts at the first check that sees it,
/// and fires (once) when `threshold` has elapsed since then.
pub open spec fn spec_check(s: HoldState, now: u64, threshold: u64) -> (HoldState, bool) {
    if held(s) {
        let start = match s.hold_started_at {
            Some(t) => t,
            None => now,
        };
        if !s.fired && elapsed(now, start) >= threshold {
            (HoldState { hold_started_at: Some(start), fired: true, ..s }, true)
        } else {
            (HoldState { hold_started_at: Some(start), ..s }, false)
        }
    } else {
        (s, false)
    }
}

/// A reachable state: outside the chord nothing is remembered, and a hold
/// fires only after it has started.
pub open spec fn hold_state_wf(s: HoldState) -> bool {
    &&& !held(s) ==> s.hold_started_at is None && !s.fired
    &&& s.fired ==> s.hold_started_at is Some
}

impl HoldDetector {
    pub closed spec fn view(&self) -> HoldState {
        HoldState {
            ctrl_down: self.ctrl_down,
            c_down: self.c_down,
            hold_started_at: self.hold_started_at,
            fired: self.fired,
        }
    }

    #[verifier::type_invariant]
    closed spec fn inv(&self) -> bool {
        hold_state_wf(self.view())
    }

    pub fn new() -> (d: Self)
        ensures
            d.view() == (HoldState { ctrl_down: false, c_down: false, hold_started_at: None, fired: false }),
            hold_state_wf(d.view()),
    {
        HoldDetector { ctrl_down: false, c_down: false, hold_started_at: None, fired: false }
    }

    /// The detector after a key change to `ctrl_down`/`c_down`.
    fn on_state_change(&self, ctrl_down: bool, c_down: bool) -> (d: Self)
        ensures
            d.view() == spec_keys_changed(ctrl_down, c_down, self.view()),
    {
        proof {
            use_type_invariant(self);
        }
        if ctrl_down && c_down {
            HoldDetector { ctrl_down, c_down, hold_started_at: self.hold_started_at, fired: self.fired }
        } else {
            HoldDetector { ctrl_down, c_down, hold_started_at: None, fired: false }
        }
    }

    pub fn set_ctrl(&mut self, down: bool)
        ensures
            final(self).view() == spec_set_ctrl(old(self).view(), down),
            hold_state_wf(final(self).view()),
    {
        let next = self.on_state_change(down, self.c_down);
        *self = next;
        proof {
            use_type_invariant(&*self);
        }
    }

    pub fn set_c(&mut self, down: bool)
        ensures
            final(self).view() == spec_set_c(old(self).view(), down),
            hold_state_wf(final(self).view()),
    {
        let next = self.on_state_change(self.ctrl_down, down);
        *self = next;
        proof {
            use_type_invariant(&*self);
        }
    }

    /// Called periodically (e.g. every 100ms) with the current time; returns
    /// `true` exactly once per hold, at the first check at which `threshold`
    /// has elapsed since the hold was first seen.
    pub fn check(&mut self, now: u64, threshold: u64) -> (fired: bool)
        ensures
            (final(self).view(), fired) == spec_check(old(self).view(), now, threshold),
            hold_state_wf(final(self).view()),
    {
        proof {
            use_type_invariant(&*self);
        }
        if self.ctrl_down && self.c_down {
            let start = match self.hold_started_at {
                Some(t) => t,
                None => now,
            };
            let since = if now >= start { now - start } else { 0 };
            if !self.fired && since >= threshold {
                *self = HoldDetector {
                    ctrl_down: self.ctrl_down,
                    c_down: self.c_down,
                    hold_started_at: Some(start),
                    fired: true,
                };
                return true;
            }
            *self = HoldDetector {
                ctrl_down: self.ctrl_down,
                c_down: self.c_down,
                hold_started_at: Some(start),
                fired: self.fired,
            };
        }
        false
    }
}

/// A check fires only while both Ctrl and C are down.
pub proof fn lemma_fires_only_while_held(s: HoldState, now: u64, threshold: u64)
    requires
        spec_check(s, now, threshold).1,
    ensures
        s.ctrl_down && s.c_down,
{
}

/// Once a hold has fired, no later check fires again until a key changes.
pub proof fn lemma_fires_at_most_once_per_hold(s: HoldState, now: u64, later: u64, threshold: u64)
    requires
        spec_check(s, now, threshold).1,
    ensures
        !spec_check(spec_check(s, now, threshold).0, later, threshold).1,
        spec_check(spec_check(s, now, threshold).0, later, threshold).0 == spec_check(s, now, threshold).0,
{
}

/// Releasing either key forgets the hold: after pressing the chord again, a
/// check fires only once the full threshold has elapsed since the first check
/// of the new hold.
pub proof fn lemma_release_restarts_window(
    s: HoldState,
    release_ctrl: bool,
    first_check: u64,
    now: u64,
    threshold: u64,
)
    ensures
        ({
            let released = if release_ctrl { spec_set_ctrl(s, false) } else { spec_set_c(s, false) };
            let pressed = spec_set_c(spec_set_ctrl(released, true), true);
            let after_first = spec_check(pressed, first_check, threshold).0;
            &&& pressed.hold_started_at is None
            &&& !pressed.fired
            &&& (spec_check(after_first, now, threshold).1 <==> (!spec_check(pressed, first_check, threshold).1
                && elapsed(now, first_check) >= threshold))
        }),
{
}

/// A held chord fires at the first check at which the threshold has elapsed
/// since the hold was first seen, and not at any earlier one.
pub proof fn lemma_fires_when_threshold_reached(s: HoldState, now: u64, threshold: u64)
    requires
        held(s),
        !s.fired,
        s.hold_started_at is Some,
    ensures
        spec_check(s, now, threshold).1 <==> elapsed(now, s.hold_started_at->0) >= threshold,
{
}

/// Every step keeps a reachable state reachable: key changes and checks
/// preserve `hold_state_wf`.
pub proof fn lemma_steps_keep_state_wf(s: HoldState, down: bool, now: u64, threshold: u64)
    requires
        hold_state_wf(s),
    ensures
        hold_state_wf(spec_set_ctrl(s, down)),
        hold_state_wf(spec_set_c(s, down)),
        hold_state_wf(spec_check(s, now, threshold).0),
{
}

/// A run of checks at the times `times`, in order, with no key change in
/// between: the final state and how many of the checks fired.
pub open spec fn spec_checks(s: HoldState, times: Seq<u64>, threshold: u64) -> (HoldState, nat)
    decreases times.len(),
{
    if times.len() == 0 {
        (s, 0)
    } else {
        let (next, fired) = spec_check(s, times[0], threshold);
        let (last, count) = spec_checks(next, times.drop_first(), threshold);
        (last, count + if fired { 1nat } else { 0nat })
    }
}

/// However many checks run while both keys stay down, at most one of them
/// fires, and none does once the hold has already fired.
pub proof fn lemma_one_firing_per_hold(s: HoldState, times: Seq<u64>, threshold: u64)
    requires
        held(s),
    ensures
        spec_checks(s, times, threshold).1 <= 1,
        s.fired ==> spec_checks(s, times, threshold).1 == 0,
    decreases times.len(),
{
    if times.len() > 0 {
        let (next, fired) = spec_check(s, times[0], threshold);
        lemma_one_firing_per_hold(next, times.drop_first(), threshold);
    }
}

} // verus!
