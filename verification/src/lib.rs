//! Session orchestration for secure datagram sessions.
//!
//! The crate holds the rules of a session: which events leave it, which
//! calls are owed to the transport engine, which peers are trusted and how
//! commands reach a running session. The engine, the socket and the event
//! sink stay with the caller, who feeds what they report into the session
//! types of this crate and carries out what these answer.

pub mod bytes;
pub mod client;
pub mod client_laws;
pub mod connid;
pub mod conns;
pub mod entry;
pub mod event;
pub mod hexcode;
pub mod registry;
pub mod server;
pub mod server_laws;
pub mod settings;
pub mod status;
pub mod text;
pub mod timer;
pub mod trace;
pub mod trust;
pub mod trust_laws;
