//! Factory reset: hold the BOOT button for 3 seconds to reset the settings.
//!
//! The caller polls the pressed button every 50 ms and acts on the decision.

use vstd::prelude::*;

use crate::config::RESET_HOLD_MS;

verus! {

/// What to do after polling a pressed BOOT button.
#[derive(Debug, Clone, Copy, PartialEq, Eq, Structural)]
pub enum HoldAction {
    /// The button went up: wait for the next press
    Released,
    /// Held long enough: erase the settings and restart
    FactoryReset,
    /// Still held: poll again
    KeepPolling,
}

/// Decision after a poll: `released` is whether the button is up again,
/// `held_ms` how long it has been down.
pub open spec fn hold_decision(released: bool, held_ms: u64) -> HoldAction {
    if released {
        HoldAction::Released
    } else if held_ms >= RESET_HOLD_MS {
        HoldAction::FactoryReset
    } else {
        HoldAction::KeepPolling
    }
}

pub fn hold_action(released: bool, held_ms: u64) -> (r: HoldAction)
    ensures
        r == hold_decision(released, held_ms),
{
    if released {
        HoldAction::Released
    } else if held_ms >= RESET_HOLD_MS {
        HoldAction::FactoryReset
    } else {
        HoldAction::KeepPolling
    }
}

/// The settings are wiped only by a press held for the full hold time.
pub proof fn lemma_reset_needs_full_hold(released: bool, held_ms: u64)
    ensures
        hold_decision(released, held_ms) == HoldAction::FactoryReset <==> !released && held_ms
            >= 3000,
{
}

/// What a press comes to, given its polls in order, each whether the button
/// was up and how long it had been down: the first decision that is not to
/// keep polling, or `KeepPolling` while none came.
pub open spec fn press_outcome(polls: Seq<(bool, u64)>) -> HoldAction
    decreases polls.len(),
{
    if polls.len() == 0 {
        HoldAction::KeepPolling
    } else {
        match hold_decision(polls[0].0, polls[0].1) {
            HoldAction::KeepPolling => press_outcome(polls.drop_first()),
            d => d,
        }
    }
}

/// A press wipes the settings exactly when some poll finds the button still
/// down after the full hold time and every earlier poll found it down for
/// less; a release seen earlier ends the press with nothing erased.
pub proof fn lemma_press_resets_iff_held(polls: Seq<(bool, u64)>)
    ensures
        press_outcome(polls) == HoldAction::FactoryReset <==> exists|i: int|
            0 <= i < polls.len() && !(#[trigger] polls[i]).0 && polls[i].1 >= RESET_HOLD_MS
                && forall|j: int| 0 <= j < i ==> !(#[trigger] polls[j]).0 && polls[j].1 < RESET_HOLD_MS,
    decreases polls.len(),
{
    if polls.len() > 0 {
        let rest = polls.drop_first();
        lemma_press_resets_iff_held(rest);
        if hold_decision(polls[0].0, polls[0].1) == HoldAction::KeepPolling {
            if press_outcome(polls) == HoldAction::FactoryReset {
                let k = choose|k: int|
                    0 <= k < rest.len() && !(#[trigger] rest[k]).0 && rest[k].1 >= RESET_HOLD_MS
                        && forall|j: int|
                        0 <= j < k ==> !(#[trigger] rest[j]).0 && rest[j].1 < RESET_HOLD_MS;
                assert(polls[k + 1] == rest[k]);
                assert forall|j: int| 0 <= j < k + 1 implies !(#[trigger] polls[j]).0 && polls[j].1
                    < RESET_HOLD_MS by {
                    if j > 0 {
                        assert(polls[j] == rest[j - 1]);
                    }
                }
            } else {
                if exists|i: int|
                    0 <= i < polls.len() && !(#[trigger] polls[i]).0 && polls[i].1 >= RESET_HOLD_MS
                        && forall|j: int|
                        0 <= j < i ==> !(#[trigger] polls[j]).0 && polls[j].1 < RESET_HOLD_MS {
                    let i = choose|i: int|
                        0 <= i < polls.len() && !(#[trigger] polls[i]).0 && polls[i].1
                            >= RESET_HOLD_MS && forall|j: int|
                            0 <= j < i ==> !(#[trigger] polls[j]).0 && polls[j].1 < RESET_HOLD_MS;
                    assert(i > 0);
                    assert(rest[i - 1] == polls[i]);
                    assert forall|j: int| 0 <= j < i - 1 implies !(#[trigger] rest[j]).0 && rest[j].1
                        < RESET_HOLD_MS by {
                        assert(rest[j] == polls[j + 1]);
                    }
                }
            }
        } else if hold_decision(polls[0].0, polls[0].1) == HoldAction::FactoryReset {
            assert(!polls[0].0 && polls[0].1 >= RESET_HOLD_MS);
        } else {
            assert(polls[0].0);
        }
    }
}

} // verus!
