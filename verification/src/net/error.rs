use vstd::prelude::*;
use vstd::string::StringExecFns;

use crate::net::ipv4::{Ipv4Addr, SocketAddrV4};
use crate::net::source::SourceBinding;

verus! {

/// What can go wrong between a URL and its datagrams.
#[derive(Debug)]
pub enum NetError {
    /// The address is not of a group.
    NotMulticast(Ipv4Addr),
    /// The port is zero.
    InvalidPort,
    /// The URL is neither of UDP nor of RTP.
    UnknownScheme(String),
    /// The URL cannot be read.
    MalformedUrl(String),
    /// The group could not be joined, for the given reason.
    JoinFailed(String),
    /// Any other socket call failed, for the given reason.
    Io(String),
}

impl NetError {
    /// The text shown for the error.
    pub open spec fn message_spec(&self) -> Seq<char> {
        match self {
            NetError::NotMulticast(addr) => "endereço não é multicast: "@ + addr.text(),
            NetError::InvalidPort => "porta inválida: 0"@,
            NetError::UnknownScheme(scheme) => "esquema de URL não suportado: "@ + scheme@,
            NetError::MalformedUrl(what) => "URL malformada: "@ + what@,
            NetError::JoinFailed(reason) => "falha ao entrar no grupo multicast: "@ + reason@,
            NetError::Io(reason) => "erro de I/O: "@ + reason@,
        }
    }

    /// The text shown for the error.
    pub fn message(&self) -> (r: String)
        ensures
            r@ == self.message_spec(),
    {
        match self {
            NetError::NotMulticast(addr) => {
                let mut s = String::from_str("endereço não é multicast: ");
                addr.push_text(&mut s);
                s
            },
            NetError::InvalidPort => String::from_str("porta inválida: 0"),
            NetError::UnknownScheme(scheme) => {
                let mut s = String::from_str("esquema de URL não suportado: ");
                s.append(scheme.as_str());
                s
            },
            NetError::MalformedUrl(what) => {
                let mut s = String::from_str("URL malformada: ");
                s.append(what.as_str());
                s
            },
            NetError::JoinFailed(reason) => {
                let mut s = String::from_str("falha ao entrar no grupo multicast: ");
                s.append(reason.as_str());
                s
            },
            NetError::Io(reason) => {
                let mut s = String::from_str("erro de I/O: ");
                s.append(reason.as_str());
                s
            },
        }
    }
}

/// What the reception of a stream reports.
#[derive(Debug, Clone)]
pub enum NetEvent {
    /// No datagram came for a while.
    Timeout,
    Started,
    Stopped,
    /// The group was joined, with the parameters in effect.
    Joined(SourceBinding),
    /// The group was left.
    Left,
    JoinFailed { reason: String },
    /// The first datagram of a sender.
    SourceSeen(SocketAddrV4),
}

/// What the removal of RTP headers reports.
#[derive(Debug, Clone, Copy, PartialEq, Eq, Structural)]
pub enum RtpEvent {
    /// A packet did not have the expected number.
    OutOfOrder { expected: u16, got: u16 },
}

} // verus!
