use typst_gateway::errors::{error_status, RequestError};

#[test]
fn exclusion_and_absence_have_their_own_statuses() {
    assert_eq!(error_status(RequestError::Forbidden), 403);
    assert_eq!(error_status(RequestError::NotFound), 404);
}

#[test]
fn compiler_failures_answer_bad_gateway() {
    assert_eq!(error_status(RequestError::CompilerLaunch), 502);
    assert_eq!(error_status(RequestError::CompilerTimeout), 502);
    assert_eq!(error_status(RequestError::CompilerExit), 502);
    assert_eq!(error_status(RequestError::MissingArtifact), 502);
}

#[test]
fn io_failures_answer_internal_error() {
    assert_eq!(error_status(RequestError::UnreadableFile), 500);
    assert_eq!(error_status(RequestError::UnreadableDirectory), 500);
}
