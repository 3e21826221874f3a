//! The decisions of the entry points: which status a call comes back
//! with, and what it leaves in the registry.

use crate::bytes::copy_bytes;
use crate::client::{ClientPhase, ClientSession, ClientView};
use crate::event::{CommandView, WorkerCommand};
use crate::hexcode::{decode_hex, hex_bytes, is_hex_text};
use crate::registry::SessionRegistry;
use crate::server::{ServerSession, ServerView};
use crate::status::CcQuicStatus;
use crate::text::{lowercase_of, trim, trimmed};
use crate::trust::{allowlist_of, parse_allowlist};
use vstd::prelude::*;
use vstd::utf8::{decode_utf8, valid_utf8};

verus! {

/// The step at which the setup of a session failed.
#[derive(Copy, Clone, Debug, PartialEq, Eq, Structural)]
pub enum SetupStep {
    /// A required argument is missing.
    Arguments,
    /// An argument is not the text it should be.
    Text,
    /// The engine refused to build a configuration.
    Configuration,
    /// The engine refused the application protocol.
    Protocol,
    /// The certificate chain or the private key could not be loaded.
    Credentials,
    /// The address is not one.
    Address,
    /// The socket could not be bound.
    Socket,
}

/// The status that a failed setup comes back with.
pub open spec fn setup_status_of(step: SetupStep) -> CcQuicStatus {
    match step {
        SetupStep::Arguments => CcQuicStatus::NullPointer,
        SetupStep::Text => CcQuicStatus::Internal,
        SetupStep::Configuration => CcQuicStatus::ConfigError,
        SetupStep::Protocol => CcQuicStatus::InvalidAlpn,
        SetupStep::Credentials => CcQuicStatus::CertLoadError,
        SetupStep::Address => CcQuicStatus::SocketError,
        SetupStep::Socket => CcQuicStatus::SocketError,
    }
}

/// The status that a failed setup comes back with. It is never the status
/// of success.
pub fn setup_status(step: SetupStep) -> (status: CcQuicStatus)
    ensures
        status == setup_status_of(step),
        status != CcQuicStatus::Success,
{
    match step {
        SetupStep::Arguments => CcQuicStatus::NullPointer,
        SetupStep::Text => CcQuicStatus::Internal,
        SetupStep::Configuration => CcQuicStatus::ConfigError,
        SetupStep::Protocol => CcQuicStatus::InvalidAlpn,
        SetupStep::Credentials => CcQuicStatus::CertLoadError,
        SetupStep::Address => CcQuicStatus::SocketError,
        SetupStep::Socket => CcQuicStatus::SocketError,
    }
}

/// Calls `core::str::from_utf8`. Believed of it: it succeeds on the byte
/// strings that are UTF-8 and on no other, and gives the text that the
/// bytes encode.
#[verifier::external_body]
fn utf8_text(bytes: &[u8]) -> (text: Option<&str>)
    ensures
        text is Some <==> valid_utf8(bytes@),
        text matches Some(t) ==> t@ == decode_utf8(bytes@),
{
    core::str::from_utf8(bytes).ok()
}

/// The command that a request to send stands for, or the status that it
/// fails with. The payload and the id must not be empty; the id comes as
/// UTF-8 text in hexadecimal, white space around it passed over.
pub open spec fn send_request(conn_id_text: Seq<u8>, data: Seq<u8>) -> Result<
    CommandView,
    CcQuicStatus,
> {
    if data.len() == 0 || conn_id_text.len() == 0 {
        Err(CcQuicStatus::NullPointer)
    } else if !valid_utf8(conn_id_text) {
        Err(CcQuicStatus::Internal)
    } else if !is_hex_text(trimmed(decode_utf8(conn_id_text))) {
        Err(CcQuicStatus::Internal)
    } else {
        Ok(
            CommandView::Send {
                conn_id: hex_bytes(trimmed(decode_utf8(conn_id_text))),
                payload: data,
            },
        )
    }
}

/// Reads a request to send.
pub fn parse_send(conn_id_text: &[u8], data: &[u8]) -> (request: Result<
    WorkerCommand,
    CcQuicStatus,
>)
    ensures
        match request {
            Ok(command) => send_request(conn_id_text@, data@) == Ok::<CommandView, CcQuicStatus>(
                command@,
            ),
            Err(status) => send_request(conn_id_text@, data@) == Err::<CommandView, CcQuicStatus>(
                status,
            ),
        },
{
    if data.len() == 0 || conn_id_text.len() == 0 {
        return Err(CcQuicStatus::NullPointer);
    }
    let text = match utf8_text(conn_id_text) {
        Some(t) => t,
        None => {
            return Err(CcQuicStatus::Internal);
        },
    };
    match decode_hex(trim(text)) {
        Some(conn_id) => Ok(WorkerCommand::Send { conn_id, payload: copy_bytes(data) }),
        None => Err(CcQuicStatus::Internal),
    }
}

/// Hands a payload to the session behind a handle, for the connection
/// whose id is given in hexadecimal text. A request that cannot be read
/// comes back with its status and leaves the registry alone; one for a
/// handle that is not registered comes back as an internal failure.
pub fn conn_send(
    registry: &mut SessionRegistry,
    handle: u64,
    conn_id_text: &[u8],
    data: &[u8],
) -> (status: CcQuicStatus)
    requires
        old(registry)@.well_formed(),
    ensures
        final(registry)@.well_formed(),
        match send_request(conn_id_text@, data@) {
            Ok(command) => final(registry)@ == old(registry)@.dispatch(handle, command).0
                && status == if old(registry)@.dispatch(handle, command).1 {
                CcQuicStatus::Success
            } else {
                CcQuicStatus::Internal
            },
            Err(failure) => final(registry)@ == old(registry)@ && status == failure,
        },
{
    match parse_send(conn_id_text, data) {
        Ok(command) => {
            if registry.dispatch(handle, command) {
                CcQuicStatus::Success
            } else {
                CcQuicStatus::Internal
            }
        },
        Err(failure) => failure,
    }
}

/// Asks the session behind a handle to close all its connections. For a
/// handle that is not registered the call comes back as an internal
/// failure and leaves the registry alone.
pub fn conn_close(registry: &mut SessionRegistry, handle: u64) -> (status: CcQuicStatus)
    requires
        old(registry)@.well_formed(),
    ensures
        final(registry)@.well_formed(),
        final(registry)@ == old(registry)@.dispatch(
            handle,
            CommandView::Close { conn_id: None },
        ).0,
        status == if old(registry)@.queues.dom().contains(handle) {
            CcQuicStatus::Success
        } else {
            CcQuicStatus::Internal
        },
        !old(registry)@.queues.dom().contains(handle) ==> final(registry)@ == old(registry)@,
{
    if registry.dispatch(handle, WorkerCommand::Close { conn_id: None }) {
        CcQuicStatus::Success
    } else {
        CcQuicStatus::Internal
    }
}

/// Registers a connecting side once its socket and credentials are ready:
/// it gets a fresh handle and starts in the handshake, pinning the
/// expected fingerprint in lowercase. Where the handles are used up the
/// call fails as an internal failure and registers nothing.
pub fn start_client(
    registry: &mut SessionRegistry,
    conn_id: Vec<u8>,
    expected_fingerprint: &str,
) -> (started: Result<ClientSession, CcQuicStatus>)
    requires
        old(registry)@.well_formed(),
    ensures
        final(registry)@.well_formed(),
        final(registry)@ == old(registry)@.allocate().0,
        match started {
            Ok(session) => old(registry)@.allocate().1 == Some(session@.handle) && session@ == (
            ClientView {
                handle: session@.handle,
                conn_id: conn_id@,
                pin: lowercase_of(expected_fingerprint@),
                phase: ClientPhase::Handshaking,
            }),
            Err(status) => old(registry)@.allocate().1 is None && status == CcQuicStatus::Internal,
        },
{
    match registry.allocate() {
        Some(handle) => Ok(ClientSession::new(handle, conn_id, expected_fingerprint)),
        None => Err(CcQuicStatus::Internal),
    }
}

/// Registers an accepting side once its socket and credentials are ready:
/// it gets a fresh handle, no connections, and the allowlist that the
/// comma-separated text stands for. Where the handles are used up the call
/// fails as an internal failure and registers nothing.
pub fn start_server(registry: &mut SessionRegistry, trusted_fingerprints_csv: &str) -> (started:
    Result<ServerSession, CcQuicStatus>)
    requires
        old(registry)@.well_formed(),
    ensures
        final(registry)@.well_formed(),
        final(registry)@ == old(registry)@.allocate().0,
        match started {
            Ok(session) => old(registry)@.allocate().1 == Some(session@.handle) && session.wf()
                && session@ == (ServerView {
                handle: session@.handle,
                allowlist: allowlist_of(trusted_fingerprints_csv@),
                conns: Seq::empty(),
                stopped: false,
            }),
            Err(status) => old(registry)@.allocate().1 is None && status == CcQuicStatus::Internal,
        },
{
    match registry.allocate() {
        Some(handle) => Ok(ServerSession::new(handle, parse_allowlist(trusted_fingerprints_csv))),
        None => Err(CcQuicStatus::Internal),
    }
}

} // verus!
