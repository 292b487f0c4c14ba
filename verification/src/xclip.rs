//! The decisions of the bounded `xclip` helpers: when a child process is
//! waited for, killed or given up on, and when a spawned `xclip` is taken to
//! own the clipboard.
use vstd::prelude::*;

use crate::clipboard::{offers, offers_target};

verus! {

/// What polling a child process found.
#[derive(Debug, Clone, Copy, PartialEq, Eq, Structural)]
pub enum ChildPoll {
    /// The child has exited.
    Exited,
    /// The child is still running.
    Running,
    /// Polling the child failed.
    Failed,
}

/// What follows a poll of an `xclip` child that is given a deadline.
#[derive(Debug, Clone, Copy, PartialEq, Eq, Structural)]
pub enum WaitStep {
    /// Collect its output.
    Collect,
    /// Kill it and report nothing: the deadline has passed.
    Kill,
    /// Pause and poll again.
    Poll,
    /// Report nothing.
    Fail,
}

/// A child that exited is collected; one still running past the deadline is
/// killed, else polled again; a failed poll gives up.
pub fn wait_step(poll: ChildPoll, past_deadline: bool) -> (r: WaitStep)
    ensures
        r == match poll {
            ChildPoll::Exited => WaitStep::Collect,
            ChildPoll::Running => if past_deadline {
                WaitStep::Kill
            } else {
                WaitStep::Poll
            },
            ChildPoll::Failed => WaitStep::Fail,
        },
{
    match poll {
        ChildPoll::Exited => WaitStep::Collect,
        ChildPoll::Running => if past_deadline {
            WaitStep::Kill
        } else {
            WaitStep::Poll
        },
        ChildPoll::Failed => WaitStep::Fail,
    }
}

/// What follows a look at the clipboard's advertised targets while a spawned
/// `xclip` takes the clipboard over to serve a PNG.
#[derive(Debug, Clone, Copy, PartialEq, Eq, Structural)]
pub enum ClaimStep {
    /// The PNG is served, at a first look: pause briefly and look again,
    /// since the owner may not answer requests yet.
    Confirm,
    /// Not served yet: pause and look again.
    Wait,
    /// Served at two looks in a row: `xclip` owns the clipboard.
    Claimed,
    /// Not served and the deadline has passed: stop `xclip`.
    Abandon,
}

/// The step after a look that found the PNG `served` or not, when the look
/// before it `confirmed` it.
pub open spec fn claim_step(confirmed: bool, served: bool, past_deadline: bool) -> ClaimStep {
    if served {
        if confirmed {
            ClaimStep::Claimed
        } else {
            ClaimStep::Confirm
        }
    } else if past_deadline {
        ClaimStep::Abandon
    } else {
        ClaimStep::Wait
    }
}

/// A listing of the clipboard's targets, when it could be read, offers
/// `image/png`.
pub open spec fn serves_png(targets: Option<Seq<char>>) -> bool {
    match targets {
        Some(t) => offers(t, "image/png"@),
        None => false,
    }
}

/// The looks made while `xclip` takes the clipboard over: whether the last
/// one confirmed that the PNG is served.
#[derive(Debug)]
pub struct ClaimWatch {
    pub confirmed: bool,
}

impl ClaimWatch {
    /// No look made yet.
    pub fn new() -> (r: Self)
        ensures
            !r.confirmed,
    {
        ClaimWatch { confirmed: false }
    }

    /// Takes a look at the targets listing (`None` when it could not be
    /// read), with whether the deadline has passed, and decides what follows.
    pub fn look(&mut self, targets: Option<&str>, past_deadline: bool) -> (step: ClaimStep)
        ensures
            step == claim_step(
                old(self).confirmed,
                serves_png(
                    match targets {
                        Some(t) => Some(t@),
                        None => None,
                    },
                ),
                past_deadline,
            ),
            final(self).confirmed == (step == ClaimStep::Confirm),
    {
        let served = match targets {
            Some(t) => offers_target(t, "image/png"),
            None => false,
        };
        let step = if served {
            if self.confirmed {
                ClaimStep::Claimed
            } else {
                ClaimStep::Confirm
            }
        } else if past_deadline {
            ClaimStep::Abandon
        } else {
            ClaimStep::Wait
        };
        self.confirmed = step == ClaimStep::Confirm;
        step
    }
}

/// Ownership is taken only after two looks in a row found the PNG served:
/// whatever came before, a look that claims the clipboard follows a look that
/// confirmed it, and a first look never claims it.
pub proof fn law_claim_needs_two_looks(
    confirmed: bool,
    served1: bool,
    late1: bool,
    served2: bool,
    late2: bool,
)
    ensures
        claim_step(false, served1, late1) != ClaimStep::Claimed,
        claim_step(claim_step(confirmed, served1, late1) == ClaimStep::Confirm, served2, late2)
            == ClaimStep::Claimed ==> served1 && served2,
        claim_step(confirmed, served1, late1) == ClaimStep::Abandon ==> !served1 && late1,
{
}

} // verus!
