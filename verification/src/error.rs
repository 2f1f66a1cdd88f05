//! The ways in which delivering a command can fail.

use vstd::prelude::*;

verus! {

/// Why a session could not be opened or a message could not be delivered.
#[derive(Clone, Copy, Debug, PartialEq, Eq, Structural)]
pub enum ScpiError {
    /// The text is not an IPv4 or IPv6 address.
    AddressParse,
    /// The number does not name a network mode.
    InvalidModeCode,
    /// The mode exists but has no transport (TCP has no multicast).
    UnsupportedMode,
    /// Multicast was asked for with a group that is not an IPv4 address.
    UnsupportedAddressFamily,
    /// The local UDP socket could not be bound.
    Bind,
    /// The TCP connection could not be established.
    Connect,
    /// The bound socket could not join the multicast group.
    MulticastJoin,
    /// Writing a message failed; `message` is its position in the request.
    Io { message: usize },
}

impl ScpiError {
    /// What went wrong, in words.
    pub open spec fn text(self) -> Seq<char> {
        match self {
            ScpiError::AddressParse => "invalid IP address syntax"@,
            ScpiError::InvalidModeCode => "Not a valid enum in range [0, 4]"@,
            ScpiError::UnsupportedMode => "Tcp Multicast not yet supported"@,
            ScpiError::UnsupportedAddressFamily => "Ipv6 Addresses not yet supported"@,
            ScpiError::Bind => "could not bind the local socket"@,
            ScpiError::Connect => "could not connect to the remote host"@,
            ScpiError::MulticastJoin => "could not join the multicast group"@,
            ScpiError::Io { .. } => "could not send the message"@,
        }
    }

    /// What went wrong, in words, for a log or an error value of the caller's.
    pub fn message(&self) -> (text: &'static str)
        ensures
            text@ == self.text(),
    {
        match self {
            ScpiError::AddressParse => "invalid IP address syntax",
            ScpiError::InvalidModeCode => "Not a valid enum in range [0, 4]",
            ScpiError::UnsupportedMode => "Tcp Multicast not yet supported",
            ScpiError::UnsupportedAddressFamily => "Ipv6 Addresses not yet supported",
            ScpiError::Bind => "could not bind the local socket",
            ScpiError::Connect => "could not connect to the remote host",
            ScpiError::MulticastJoin => "could not join the multicast group",
            ScpiError::Io { .. } => "could not send the message",
        }
    }
}

} // verus!
