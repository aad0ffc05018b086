//! The mutator's side of a kill: what the outcome of the termination command
//! means for the session.

use crate::host::{decode_lossy, lossy_text, CommandOutcome};
use vstd::prelude::*;

verus! {

/// Why a process was not terminated.
#[derive(Debug, PartialEq, Eq)]
pub enum KillFailure {
    /// The termination command could not be started.
    Unavailable,
    /// The termination command ran and reported failure, with this diagnostic.
    Refused(String),
}

/// Turns the outcome of the termination command into the result of the kill:
/// success exactly where the command ran and reported success. The diagnostic
/// of a refusal is what the command wrote to its standard error, decoded
/// leniently.
pub fn kill_outcome(outcome: &CommandOutcome) -> (done: Result<(), KillFailure>)
    ensures
        done is Ok <==> outcome matches CommandOutcome::Exited { success: true, .. },
        outcome is NotRun ==> done == Err::<(), KillFailure>(KillFailure::Unavailable),
        outcome matches CommandOutcome::Exited { success: false, stderr, .. } ==> (done matches Err(
            KillFailure::Refused(diagnostic),
        ) && diagnostic@ == lossy_text(stderr@)),
{
    match outcome {
        CommandOutcome::NotRun => Err(KillFailure::Unavailable),
        CommandOutcome::Exited { success, stdout, stderr } => {
            if *success {
                Ok(())
            } else {
                Err(KillFailure::Refused(decode_lossy(stderr)))
            }
        },
    }
}

} // verus!
