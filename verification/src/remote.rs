//! The decisions of the remote host's stdio bridge: which socket overrides it accepts, when
//! it attaches to, starts, or refuses the host server, and how it copies a stream.
use vstd::prelude::*;

verus! {

/// Why the bridge refuses to run.
#[derive(Clone, Copy, PartialEq, Eq, Debug, Structural)]
pub enum RemoteBridgeError {
    /// Only the client socket is overridden, so the client and API sockets may name
    /// different servers.
    IndependentClientSocket,
    /// The server listens but its status API does not answer.
    StatusUnavailable,
    /// The server speaks another protocol version and must be restarted first.
    RestartRequired,
}

impl RemoteBridgeError {
    /// Whether the error is the caller's input (else it is another kind of failure).
    pub fn is_invalid_input(&self) -> (r: bool)
        ensures
            r == (*self == RemoteBridgeError::IndependentClientSocket),
    {
        match self {
            RemoteBridgeError::IndependentClientSocket => true,
            _ => false,
        }
    }

    /// The error's message.
    pub fn message(&self) -> (r: &'static str)
        ensures
            r@ == remote_error_message(*self),
    {
        match self {
            RemoteBridgeError::IndependentClientSocket => "HERDR_CLIENT_SOCKET_PATH cannot be used with remote-client-bridge; set HERDR_SOCKET_PATH so the API and client sockets identify the same server",
            RemoteBridgeError::StatusUnavailable => "remote server status API is unavailable",
            RemoteBridgeError::RestartRequired => "remote herdr server must restart before this bridge can attach; rerun `herdr --remote` from an interactive terminal to approve stopping it",
        }
    }
}

pub open spec fn remote_error_message(e: RemoteBridgeError) -> Seq<char> {
    match e {
        RemoteBridgeError::IndependentClientSocket => "HERDR_CLIENT_SOCKET_PATH cannot be used with remote-client-bridge; set HERDR_SOCKET_PATH so the API and client sockets identify the same server"@,
        RemoteBridgeError::StatusUnavailable => "remote server status API is unavailable"@,
        RemoteBridgeError::RestartRequired => "remote herdr server must restart before this bridge can attach; rerun `herdr --remote` from an interactive terminal to approve stopping it"@,
    }
}

/// Whether the client socket is overridden on its own: no session was named and the API
/// socket is not overridden, so nothing ties the client socket to the API's server.
pub fn client_socket_override_is_independent(
    explicit_session: bool,
    api_override: bool,
    client_override: bool,
) -> (r: bool)
    ensures
        r == (!explicit_session && !api_override && client_override),
{
    !explicit_session && !api_override && client_override
}

/// Refuses an independent client socket override (see
/// [`client_socket_override_is_independent`]).
pub fn reject_independent_client_socket_override(
    explicit_session: bool,
    api_override: bool,
    client_override: bool,
) -> (r: Result<(), RemoteBridgeError>)
    ensures
        r is Err <==> (!explicit_session && !api_override && client_override),
        r matches Err(e) ==> e == RemoteBridgeError::IndependentClientSocket,
{
    if client_socket_override_is_independent(explicit_session, api_override, client_override) {
        Err(RemoteBridgeError::IndependentClientSocket)
    } else {
        Ok(())
    }
}

/// What the bridge does about the host server before it connects.
#[derive(Clone, Copy, PartialEq, Eq, Debug, Structural)]
pub enum RemoteServerAction {
    /// The server runs and speaks this protocol: connect to it.
    Attach,
    /// No server listens: start one and wait for its socket.
    SpawnAndWait,
}

/// The bridge's decision about the host server. `listening` says whether a server listens;
/// `status` is its status answer, if it gave one, carrying the protocol version it reported,
/// if any. A listening server is attached to only when it reports `expected_protocol`.
pub fn ensure_remote_server_running(
    listening: bool,
    status: Option<Option<u32>>,
    expected_protocol: u32,
) -> (r: Result<RemoteServerAction, RemoteBridgeError>)
    ensures
        !listening ==> r == Ok::<RemoteServerAction, RemoteBridgeError>(
            RemoteServerAction::SpawnAndWait,
        ),
        listening && status is None ==> r == Err::<RemoteServerAction, RemoteBridgeError>(
            RemoteBridgeError::StatusUnavailable,
        ),
        listening && status == Some(Some(expected_protocol)) ==> r == Ok::<
            RemoteServerAction,
            RemoteBridgeError,
        >(RemoteServerAction::Attach),
        listening && status is Some && status != Some(Some(expected_protocol)) ==> r == Err::<
            RemoteServerAction,
            RemoteBridgeError,
        >(RemoteBridgeError::RestartRequired),
{
    if !listening {
        return Ok(RemoteServerAction::SpawnAndWait);
    }
    match status {
        None => Err(RemoteBridgeError::StatusUnavailable),
        Some(protocol) => match protocol {
            Some(p) => {
                if p == expected_protocol {
                    Ok(RemoteServerAction::Attach)
                } else {
                    Err(RemoteBridgeError::RestartRequired)
                }
            },
            None => Err(RemoteBridgeError::RestartRequired),
        },
    }
}

/// What a read from the source gave.
#[derive(Clone, Copy, PartialEq, Eq, Debug, Structural)]
pub enum ReadOutcome {
    /// The given number of bytes.
    Data(usize),
    /// The read was interrupted before any byte.
    Interrupted,
    /// The read failed.
    Failed,
}

/// The next step of a copy that has moved `total` bytes.
#[derive(Clone, Copy, PartialEq, Eq, Debug, Structural)]
pub enum CopyStep {
    /// The source ended: the copy is done, having moved this many bytes.
    Done(u64),
    /// Read again.
    Retry,
    /// Write the bytes read, flush, and go on with this many moved.
    Forward(usize, u64),
    /// The read failed: stop with its error.
    Fail,
}

/// One decision of the copy loop: an empty read ends the copy with the total moved, an
/// interrupted read is retried, bytes read are forwarded and counted, and a failed read
/// stops it.
pub fn copy_step(total: u64, read: ReadOutcome) -> (r: CopyStep)
    requires
        read matches ReadOutcome::Data(n) ==> total + n <= u64::MAX,
    ensures
        r == match read {
            ReadOutcome::Data(n) => if n == 0 {
                CopyStep::Done(total)
            } else {
                CopyStep::Forward(n, (total + n) as u64)
            },
            ReadOutcome::Interrupted => CopyStep::Retry,
            ReadOutcome::Failed => CopyStep::Fail,
        },
{
    match read {
        ReadOutcome::Data(n) => {
            if n == 0 {
                CopyStep::Done(total)
            } else {
                CopyStep::Forward(n, total + n as u64)
            }
        },
        ReadOutcome::Interrupted => CopyStep::Retry,
        ReadOutcome::Failed => CopyStep::Fail,
    }
}

} // verus!
