//! The settings that a session asks of the transport engine.

use vstd::prelude::*;

verus! {

/// Idle time after which the engine gives a connection up, in
/// milliseconds.
pub const DEFAULT_IDLE_TIMEOUT_MS: u64 = 30_000;

/// The largest UDP payload sent or taken.
pub const DEFAULT_MAX_UDP_PAYLOAD: usize = 1350;

/// The flow-control window of a connection and of each of its streams.
pub const DEFAULT_STREAM_WINDOW: u64 = 1_048_576;

/// The size of the buffer for an outgoing datagram.
pub const MAX_DATAGRAM_SIZE: usize = 1350;

/// The size of the buffer for one read of a stream.
pub const STREAM_READ_SIZE: usize = 65_535;

/// The settings of a session, as plain values for whoever builds the
/// engine's configuration from them.
#[derive(Debug, PartialEq, Eq)]
pub struct TransportSettings {
    /// The one application protocol that is offered and accepted.
    pub application_protocol: String,
    pub verify_peer: bool,
    pub max_idle_timeout_ms: u64,
    pub max_recv_udp_payload_size: usize,
    pub max_send_udp_payload_size: usize,
    pub initial_max_data: u64,
    pub initial_max_stream_data_bidi_local: u64,
    pub initial_max_stream_data_bidi_remote: u64,
    pub initial_max_stream_data_uni: u64,
    pub initial_max_streams_bidi: u64,
    pub initial_max_streams_uni: u64,
    pub datagrams_enabled: bool,
    pub datagram_recv_queue_len: usize,
    pub datagram_send_queue_len: usize,
    pub pacing: bool,
}

/// The name of the application protocol.
pub open spec fn control_alpn() -> Seq<char> {
    "cribcall-ctrl"@
}

impl TransportSettings {
    /// The settings that every session starts from.
    pub fn new() -> (settings: TransportSettings)
        ensures
            settings.application_protocol@ == control_alpn(),
            settings.verify_peer,
            settings.max_idle_timeout_ms == DEFAULT_IDLE_TIMEOUT_MS,
            settings.max_recv_udp_payload_size == DEFAULT_MAX_UDP_PAYLOAD,
            settings.max_send_udp_payload_size == DEFAULT_MAX_UDP_PAYLOAD,
            settings.initial_max_data == DEFAULT_STREAM_WINDOW,
            settings.initial_max_stream_data_bidi_local == DEFAULT_STREAM_WINDOW,
            settings.initial_max_stream_data_bidi_remote == DEFAULT_STREAM_WINDOW,
            settings.initial_max_stream_data_uni == DEFAULT_STREAM_WINDOW,
            settings.initial_max_streams_bidi == 8,
            settings.initial_max_streams_uni == 4,
            settings.datagrams_enabled,
            settings.datagram_recv_queue_len == 1024,
            settings.datagram_send_queue_len == 1024,
            settings.pacing,
    {
        TransportSettings {
            application_protocol: "cribcall-ctrl".to_owned(),
            verify_peer: true,
            max_idle_timeout_ms: DEFAULT_IDLE_TIMEOUT_MS,
            max_recv_udp_payload_size: DEFAULT_MAX_UDP_PAYLOAD,
            max_send_udp_payload_size: DEFAULT_MAX_UDP_PAYLOAD,
            initial_max_data: DEFAULT_STREAM_WINDOW,
            initial_max_stream_data_bidi_local: DEFAULT_STREAM_WINDOW,
            initial_max_stream_data_bidi_remote: DEFAULT_STREAM_WINDOW,
            initial_max_stream_data_uni: DEFAULT_STREAM_WINDOW,
            initial_max_streams_bidi: 8,
            initial_max_streams_uni: 4,
            datagrams_enabled: true,
            datagram_recv_queue_len: 1024,
            datagram_send_queue_len: 1024,
            pacing: true,
        }
    }
}

} // verus!
