//! Addressing strategies and the transports they lead to.

use vstd::prelude::*;
use crate::error::ScpiError;

verus! {

/// How a session reaches its destination.
#[derive(Clone, Copy, Debug, PartialEq, Eq, Structural)]
pub enum NetworkMode {
    Udp,
    Tcp,
    UdpMulticast,
    TcpMulticast,
}

/// The kind of socket a live session writes to.
#[derive(Clone, Copy, Debug, PartialEq, Eq, Structural)]
pub enum NetworkSender {
    Udp,
    Tcp,
}

/// A network mode as it crosses a foreign-language boundary: a small number.
#[derive(Clone, Copy, Debug, PartialEq, Eq, Structural)]
pub enum ScpiNetworkMode {
    Udp,
    Tcp,
    UdpMulticast,
    TcpMulticast,
}

impl NetworkMode {
    /// The kind of socket this mode sends through, if it has one.
    pub open spec fn transport(self) -> Option<NetworkSender> {
        match self {
            NetworkMode::Udp => Some(NetworkSender::Udp),
            NetworkMode::Tcp => Some(NetworkSender::Tcp),
            NetworkMode::UdpMulticast => Some(NetworkSender::Udp),
            NetworkMode::TcpMulticast => None,
        }
    }

    /// The kind of socket this mode sends through; `None` for TCP multicast,
    /// which no transport implements.
    pub fn sender(&self) -> (kind: Option<NetworkSender>)
        ensures
            kind == self.transport(),
    {
        match self {
            NetworkMode::Udp => Some(NetworkSender::Udp),
            NetworkMode::Tcp => Some(NetworkSender::Tcp),
            NetworkMode::UdpMulticast => Some(NetworkSender::Udp),
            NetworkMode::TcpMulticast => None,
        }
    }
}

impl ScpiNetworkMode {
    /// The mode that a code stands for: 0 is UDP, 1 TCP, 2 UDP multicast and
    /// 3 TCP multicast. No other number is a mode.
    pub open spec fn decode(code: u8) -> Option<ScpiNetworkMode> {
        if code == 0 {
            Some(ScpiNetworkMode::Udp)
        } else if code == 1 {
            Some(ScpiNetworkMode::Tcp)
        } else if code == 2 {
            Some(ScpiNetworkMode::UdpMulticast)
        } else if code == 3 {
            Some(ScpiNetworkMode::TcpMulticast)
        } else {
            None
        }
    }

    /// The number that stands for this mode.
    pub open spec fn encode(self) -> u8 {
        match self {
            ScpiNetworkMode::Udp => 0,
            ScpiNetworkMode::Tcp => 1,
            ScpiNetworkMode::UdpMulticast => 2,
            ScpiNetworkMode::TcpMulticast => 3,
        }
    }

    /// The mode without its numeric dress.
    pub open spec fn as_network_mode(self) -> NetworkMode {
        match self {
            ScpiNetworkMode::Udp => NetworkMode::Udp,
            ScpiNetworkMode::Tcp => NetworkMode::Tcp,
            ScpiNetworkMode::UdpMulticast => NetworkMode::UdpMulticast,
            ScpiNetworkMode::TcpMulticast => NetworkMode::TcpMulticast,
        }
    }

    /// Reads a mode code; any number above 3 is refused.
    pub fn new(mode: u8) -> (result: Result<ScpiNetworkMode, ScpiError>)
        ensures
            match Self::decode(mode) {
                Some(m) => result == Ok::<ScpiNetworkMode, ScpiError>(m),
                None => result == Err::<ScpiNetworkMode, ScpiError>(ScpiError::InvalidModeCode),
            },
    {
        match mode {
            0 => Ok(ScpiNetworkMode::Udp),
            1 => Ok(ScpiNetworkMode::Tcp),
            2 => Ok(ScpiNetworkMode::UdpMulticast),
            3 => Ok(ScpiNetworkMode::TcpMulticast),
            _ => Err(ScpiError::InvalidModeCode),
        }
    }

    /// The code that `new` reads back as this mode.
    pub fn code(&self) -> (code: u8)
        ensures
            code == self.encode(),
    {
        match self {
            ScpiNetworkMode::Udp => 0,
            ScpiNetworkMode::Tcp => 1,
            ScpiNetworkMode::UdpMulticast => 2,
            ScpiNetworkMode::TcpMulticast => 3,
        }
    }

    /// Drops the numeric dress.
    pub fn network_mode(&self) -> (mode: NetworkMode)
        ensures
            mode == self.as_network_mode(),
    {
        match self {
            ScpiNetworkMode::Udp => NetworkMode::Udp,
            ScpiNetworkMode::Tcp => NetworkMode::Tcp,
            ScpiNetworkMode::UdpMulticast => NetworkMode::UdpMulticast,
            ScpiNetworkMode::TcpMulticast => NetworkMode::TcpMulticast,
        }
    }
}

/// A mode's code reads back as the mode, and a code is a mode's code only if
/// it reads as that mode.
pub proof fn lemma_mode_code_round_trip(mode: ScpiNetworkMode, code: u8)
    ensures
        ScpiNetworkMode::decode(mode.encode()) == Some(mode),
        ScpiNetworkMode::decode(code) == Some(mode) <==> code == mode.encode(),
        ScpiNetworkMode::decode(code) is Some <==> code <= 3,
{
}

} // verus!
