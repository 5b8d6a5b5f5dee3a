//! The startup provisioning of the auth back channel: pushing the app
//! configuration, registering the app where it is unknown, and creating the
//! bootstrap admin account where it is missing. The calls themselves are
//! I/O against the auth server; this state machine decides which call comes
//! next and when provisioning has failed.

use vstd::prelude::*;

verus! {

/// Where provisioning stands: each non-terminal state names the back-channel
/// call in flight.
#[derive(PartialEq, Eq, Structural, Clone, Copy, Debug)]
pub enum ProvisionState {
    /// Pushing the app configuration to the auth server.
    UpdatingConfig,
    /// The configuration push was refused: registering the app first.
    Registering,
    /// Asking whether the admin account exists.
    CheckingUser,
    /// The admin is missing: temporarily allowing signup.
    EnablingSignup,
    /// Opening the admin signup and obtaining its challenge.
    PreparingSignup,
    /// Performing the admin signup with the signed challenge.
    PerformingSignup,
    /// Closing signup again.
    DisablingSignup,
    /// Reading the admin's tags.
    CheckingTags,
    /// Granting the admin tag that was missing.
    EditingTags,
    /// Provisioning finished.
    Done,
    /// Provisioning failed; the process exits.
    Failed,
}

/// Whether a back-channel call succeeded.
#[derive(PartialEq, Eq, Structural, Clone, Copy, Debug)]
pub enum StepOutcome {
    Succeeded,
    Failed,
}

/// One provisioning transition. A refused configuration push falls back to
/// registering; a known admin skips to the tag check and an unknown one is
/// signed up under a temporary signup window; any other failure is fatal.
/// `has_restricted_tag` matters only when the tags were read: an admin
/// already holding a restricted tag finishes, any other gets one granted.
pub fn provision_step(state: ProvisionState, outcome: StepOutcome, has_restricted_tag: bool) -> (r:
    ProvisionState)
    ensures
        state == ProvisionState::UpdatingConfig ==> r == (if outcome == StepOutcome::Succeeded {
            ProvisionState::CheckingUser
        } else {
            ProvisionState::Registering
        }),
        state == ProvisionState::Registering ==> r == (if outcome == StepOutcome::Succeeded {
            ProvisionState::CheckingUser
        } else {
            ProvisionState::Failed
        }),
        state == ProvisionState::CheckingUser ==> r == (if outcome == StepOutcome::Succeeded {
            ProvisionState::CheckingTags
        } else {
            ProvisionState::EnablingSignup
        }),
        state == ProvisionState::EnablingSignup ==> r == (if outcome == StepOutcome::Succeeded {
            ProvisionState::PreparingSignup
        } else {
            ProvisionState::Failed
        }),
        state == ProvisionState::PreparingSignup ==> r == (if outcome == StepOutcome::Succeeded {
            ProvisionState::PerformingSignup
        } else {
            ProvisionState::Failed
        }),
        state == ProvisionState::PerformingSignup ==> r == (if outcome == StepOutcome::Succeeded {
            ProvisionState::DisablingSignup
        } else {
            ProvisionState::Failed
        }),
        state == ProvisionState::DisablingSignup ==> r == (if outcome == StepOutcome::Succeeded {
            ProvisionState::CheckingTags
        } else {
            ProvisionState::Failed
        }),
        state == ProvisionState::CheckingTags ==> r == (if outcome != StepOutcome::Succeeded {
            ProvisionState::Failed
        } else if has_restricted_tag {
            ProvisionState::Done
        } else {
            ProvisionState::EditingTags
        }),
        state == ProvisionState::EditingTags ==> r == (if outcome == StepOutcome::Succeeded {
            ProvisionState::Done
        } else {
            ProvisionState::Failed
        }),
        state == ProvisionState::Done ==> r == ProvisionState::Done,
        state == ProvisionState::Failed ==> r == ProvisionState::Failed,
{
    match state {
        ProvisionState::UpdatingConfig => {
            if outcome == StepOutcome::Succeeded {
                ProvisionState::CheckingUser
            } else {
                ProvisionState::Registering
            }
        },
        ProvisionState::Registering => {
            if outcome == StepOutcome::Succeeded {
                ProvisionState::CheckingUser
            } else {
                ProvisionState::Failed
            }
        },
        ProvisionState::CheckingUser => {
            if outcome == StepOutcome::Succeeded {
                ProvisionState::CheckingTags
            } else {
                ProvisionState::EnablingSignup
            }
        },
        ProvisionState::EnablingSignup => {
            if outcome == StepOutcome::Succeeded {
                ProvisionState::PreparingSignup
            } else {
                ProvisionState::Failed
            }
        },
        ProvisionState::PreparingSignup => {
            if outcome == StepOutcome::Succeeded {
                ProvisionState::PerformingSignup
            } else {
                ProvisionState::Failed
            }
        },
        ProvisionState::PerformingSignup => {
            if outcome == StepOutcome::Succeeded {
                ProvisionState::DisablingSignup
            } else {
                ProvisionState::Failed
            }
        },
        ProvisionState::DisablingSignup => {
            if outcome == StepOutcome::Succeeded {
                ProvisionState::CheckingTags
            } else {
                ProvisionState::Failed
            }
        },
        ProvisionState::CheckingTags => {
            if outcome != StepOutcome::Succeeded {
                ProvisionState::Failed
            } else if has_restricted_tag {
                ProvisionState::Done
            } else {
                ProvisionState::EditingTags
            }
        },
        ProvisionState::EditingTags => {
            if outcome == StepOutcome::Succeeded {
                ProvisionState::Done
            } else {
                ProvisionState::Failed
            }
        },
        ProvisionState::Done => ProvisionState::Done,
        ProvisionState::Failed => ProvisionState::Failed,
    }
}

} // verus!
