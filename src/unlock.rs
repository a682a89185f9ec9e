//! The passphrase loop that unlocks a container.
use vstd::prelude::*;

verus! {

/// What an attempt to open a container with a passphrase gave.
#[derive(Debug, Clone, Copy, PartialEq, Eq, Structural)]
pub enum OpenOutcome {
    Opened,
    WrongPassphrase,
    Failed,
}

/// What to do next.
#[derive(Debug, Clone, Copy, PartialEq, Eq, Structural)]
pub enum UnlockAction {
    /// Go on to read the container.
    Proceed,
    /// Ask for the passphrase again.
    Prompt,
    /// Give this source up; the other sources are still processed.
    Abort,
}

/// A wrong passphrase is asked for again, without end; any other failure
/// ends the work on this source.
pub fn unlock_step(o: OpenOutcome) -> (r: UnlockAction)
    ensures
        r == match o {
            OpenOutcome::Opened => UnlockAction::Proceed,
            OpenOutcome::WrongPassphrase => UnlockAction::Prompt,
            OpenOutcome::Failed => UnlockAction::Abort,
        },
{
    match o {
        OpenOutcome::Opened => UnlockAction::Proceed,
        OpenOutcome::WrongPassphrase => UnlockAction::Prompt,
        OpenOutcome::Failed => UnlockAction::Abort,
    }
}

} // verus!
