//! The error taxonomy of the browser-control client.

use vstd::prelude::*;

verus! {

/// Everything a core operation can fail with.
///
/// `BrowserNotFound`: no browser executable could be resolved.
/// `LaunchTimeout`: the process spawned but never announced its control
/// endpoint. `ConnectionClosed`: the socket dropped, failing every request
/// pending on it. `Timeout`: no response arrived within the bound, the
/// connection itself still being alive. `ProtocolError`: a malformed or
/// unexpected envelope. `ScriptError`: the browser reported an exception
/// from an evaluated script. `SessionClosed`: an operation on a page
/// session that was already closed.
#[derive(Debug, Clone)]
pub enum CdpError {
    BrowserNotFound,
    LaunchTimeout,
    ConnectionClosed,
    Timeout,
    ProtocolError,
    ScriptError(String),
    SessionClosed,
}

} // verus!
