//! Status codes handed back by the fallible entry points.

use vstd::prelude::*;

verus! {

/// Outcome of an entry point, as it crosses the boundary to the host.
#[derive(Copy, Clone, Debug, PartialEq, Eq, Structural)]
pub enum CcQuicStatus {
    Success,
    NullPointer,
    ConfigError,
    InvalidAlpn,
    CertLoadError,
    SocketError,
    HandshakeError,
    EventSendError,
    Internal,
}

impl CcQuicStatus {
    /// The number that stands for this status on the host's side.
    pub open spec fn spec_code(self) -> int {
        match self {
            CcQuicStatus::Success => 0,
            CcQuicStatus::NullPointer => 1,
            CcQuicStatus::ConfigError => 2,
            CcQuicStatus::InvalidAlpn => 3,
            CcQuicStatus::CertLoadError => 4,
            CcQuicStatus::SocketError => 5,
            CcQuicStatus::HandshakeError => 6,
            CcQuicStatus::EventSendError => 7,
            CcQuicStatus::Internal => 255,
        }
    }

    /// The number that stands for this status on the host's side.
    pub fn code(self) -> (c: i32)
        ensures
            c == self.spec_code(),
    {
        match self {
            CcQuicStatus::Success => 0,
            CcQuicStatus::NullPointer => 1,
            CcQuicStatus::ConfigError => 2,
            CcQuicStatus::InvalidAlpn => 3,
            CcQuicStatus::CertLoadError => 4,
            CcQuicStatus::SocketError => 5,
            CcQuicStatus::HandshakeError => 6,
            CcQuicStatus::EventSendError => 7,
            CcQuicStatus::Internal => 255,
        }
    }
}

/// Two statuses with the same code are the same status, and only `Success` has
/// code zero.
pub proof fn lemma_codes_distinct(a: CcQuicStatus, b: CcQuicStatus)
    ensures
        a.spec_code() == b.spec_code() <==> a == b,
        a.spec_code() == 0 <==> a == CcQuicStatus::Success,
        0 <= a.spec_code() <= 255,
{
}

} // verus!
