//! The decisions of the paste path: which window a paste goes to, and how
//! often focus is moved there before the paste key is sent.
use vstd::prelude::*;

use crate::text::{string_of, trim, trimmed_chars};

verus! {

/// How many times the target window is activated before the paste key is
/// sent regardless: one activation and one verified retry.
pub const MAX_FOCUS_ATTEMPTS: u32 = 2;

/// The window a paste targets: the window that was active before the picker
/// opened, trimmed; none when it was not learned or is blank, and the paste
/// then goes to whatever has focus.
pub fn paste_target(target: Option<&str>) -> (r: Option<String>)
    ensures
        match target {
            Some(t) => if trim(t@).len() > 0 {
                r matches Some(id) && id@ == trim(t@)
            } else {
                r is None
            },
            None => r is None,
        },
{
    match target {
        Some(t) => {
            let v = trimmed_chars(t);
            if v.len() > 0 {
                Some(string_of(&v))
            } else {
                None
            }
        },
        None => None,
    }
}

/// What follows an activation of the target window.
#[derive(Debug, PartialEq, Eq, Structural)]
pub enum FocusVerdict {
    /// Focus is on the target: send the paste key.
    Landed,
    /// Focus is elsewhere: activate the target again.
    Retry,
    /// Focus is elsewhere and the attempts are spent: send the paste key
    /// anyway.
    GiveUp,
}

/// The count of activations made for one paste.
#[derive(Debug)]
pub struct FocusAttempts {
    pub made: u32,
}

/// The verdict after `made` activations, the last of which `landed` or not.
pub open spec fn focus_verdict(made: u32, landed: bool) -> FocusVerdict {
    if landed {
        FocusVerdict::Landed
    } else if made >= MAX_FOCUS_ATTEMPTS {
        FocusVerdict::GiveUp
    } else {
        FocusVerdict::Retry
    }
}

impl FocusAttempts {
    /// No activation made yet.
    pub fn new() -> (r: Self)
        ensures
            r.made == 0,
    {
        FocusAttempts { made: 0 }
    }

    /// Records one activation of the target window and whether focus then
    /// landed on it, and decides what follows.
    pub fn record(&mut self, landed: bool) -> (v: FocusVerdict)
        requires
            old(self).made < MAX_FOCUS_ATTEMPTS,
        ensures
            final(self).made == old(self).made + 1,
            v == focus_verdict(final(self).made, landed),
            v == FocusVerdict::Retry ==> final(self).made < MAX_FOCUS_ATTEMPTS,
    {
        self.made = self.made + 1;
        if landed {
            FocusVerdict::Landed
        } else if self.made >= MAX_FOCUS_ATTEMPTS {
            FocusVerdict::GiveUp
        } else {
            FocusVerdict::Retry
        }
    }
}

/// The number of activations one paste makes when the activations land as
/// `landed` says, in order: it stops at the first that lands, and after the
/// last attempt.
pub open spec fn activations_from(made: u32, landed: Seq<bool>) -> nat
    decreases landed.len(),
{
    if landed.len() == 0 || made >= MAX_FOCUS_ATTEMPTS {
        0
    } else {
        match focus_verdict((made + 1) as u32, landed[0]) {
            FocusVerdict::Retry => 1 + activations_from((made + 1) as u32, landed.drop_first()),
            _ => 1,
        }
    }
}

/// One window activation per paste, plus at most one retry: whatever focus
/// does, a paste activates the target window at most `MAX_FOCUS_ATTEMPTS`
/// times, and exactly once when the first activation lands.
pub proof fn law_activations_bounded(landed: Seq<bool>)
    ensures
        activations_from(0, landed) <= MAX_FOCUS_ATTEMPTS,
        landed.len() > 0 ==> activations_from(0, landed) >= 1,
        landed.len() > 0 && landed[0] ==> activations_from(0, landed) == 1,
{
    reveal_with_fuel(activations_from, 3);
}

} // verus!
