use portmanager::host::CommandOutcome;
use portmanager::mutator::{kill_outcome, KillFailure};

#[test]
fn kill_outcome_is_success_where_the_command_reported_success() {
    let outcome = CommandOutcome::Exited { success: true, stdout: Vec::new(), stderr: Vec::new() };
    assert_eq!(kill_outcome(&outcome), Ok(()));
    let noisy =
        CommandOutcome::Exited { success: true, stdout: b"done".to_vec(), stderr: b"warning".to_vec() };
    assert_eq!(kill_outcome(&noisy), Ok(()));
}

#[test]
fn kill_outcome_is_a_refusal_with_the_diagnostic_of_the_command() {
    let outcome = CommandOutcome::Exited {
        success: false,
        stdout: b"ignored".to_vec(),
        stderr: b"kill: (1): Operation not permitted\n".to_vec(),
    };
    assert_eq!(
        kill_outcome(&outcome),
        Err(KillFailure::Refused("kill: (1): Operation not permitted\n".to_string()))
    );
}

#[test]
fn kill_outcome_decodes_the_diagnostic_leniently() {
    let outcome =
        CommandOutcome::Exited { success: false, stdout: Vec::new(), stderr: vec![b'n', 0xff, b'o'] };
    assert_eq!(kill_outcome(&outcome), Err(KillFailure::Refused("n\u{FFFD}o".to_string())));
}

#[test]
fn kill_outcome_is_unavailable_where_the_command_could_not_be_started() {
    assert_eq!(kill_outcome(&CommandOutcome::NotRun), Err(KillFailure::Unavailable));
}
