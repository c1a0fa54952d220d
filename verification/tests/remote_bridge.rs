use herdr_attention::remote::{
    client_socket_override_is_independent, copy_step, ensure_remote_server_running,
    reject_independent_client_socket_override, CopyStep, ReadOutcome, RemoteBridgeError,
    RemoteServerAction,
};

#[test]
fn client_only_socket_override_is_rejected_without_session_or_api_identity() {
    assert!(client_socket_override_is_independent(false, false, true));
    assert!(!client_socket_override_is_independent(true, false, true));
    assert!(!client_socket_override_is_independent(false, true, true));
    assert!(!client_socket_override_is_independent(false, false, false));
}

#[test]
fn independent_override_is_an_input_error() {
    let err = reject_independent_client_socket_override(false, false, true).unwrap_err();
    assert_eq!(err, RemoteBridgeError::IndependentClientSocket);
    assert!(err.is_invalid_input());
    assert!(err.message().starts_with("HERDR_CLIENT_SOCKET_PATH cannot be used"));
    assert!(reject_independent_client_socket_override(true, true, true).is_ok());
}

#[test]
fn server_is_started_attached_or_refused_by_protocol() {
    assert_eq!(ensure_remote_server_running(false, None, 7), Ok(RemoteServerAction::SpawnAndWait));
    assert_eq!(ensure_remote_server_running(true, Some(Some(7)), 7), Ok(RemoteServerAction::Attach));
    assert_eq!(ensure_remote_server_running(true, Some(Some(6)), 7), Err(RemoteBridgeError::RestartRequired));
    assert_eq!(ensure_remote_server_running(true, Some(None), 7), Err(RemoteBridgeError::RestartRequired));
    assert_eq!(ensure_remote_server_running(true, None, 7), Err(RemoteBridgeError::StatusUnavailable));
    assert!(!RemoteBridgeError::StatusUnavailable.is_invalid_input());
    assert_eq!(RemoteBridgeError::StatusUnavailable.message(), "remote server status API is unavailable");
}

#[test]
fn copy_counts_forwarded_bytes_and_retries_interruptions() {
    assert_eq!(copy_step(10, ReadOutcome::Data(0)), CopyStep::Done(10));
    assert_eq!(copy_step(10, ReadOutcome::Data(5)), CopyStep::Forward(5, 15));
    assert_eq!(copy_step(10, ReadOutcome::Interrupted), CopyStep::Retry);
    assert_eq!(copy_step(10, ReadOutcome::Failed), CopyStep::Fail);
}
