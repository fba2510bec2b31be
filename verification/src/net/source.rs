use vstd::prelude::*;
use vstd::string::StringExecFns;

use crate::net::error::NetError;
use crate::net::ipv4::{Ipv4Addr, SocketAddrV4};

pub mod capture;

verus! {

/// A datagram, who sent it, and when it came in nanoseconds.
#[derive(Debug, Clone)]
pub struct Datagram {
    pub data: bytes::Bytes,
    pub from: SocketAddrV4,
    pub at: u64,
}

/// What a source of datagrams can observe beyond their contents.
#[derive(Debug, Clone, Copy, PartialEq, Eq, Structural)]
pub struct SourceCapabilities {
    /// Headers of the network layer.
    pub ip_header: bool,
    /// Fragments, and the size limit of the link.
    pub link_mtu: bool,
}

impl SourceCapabilities {
    /// A socket, which hides the network layer.
    pub fn socket() -> (r: Self)
        ensures
            r == (SourceCapabilities { ip_header: false, link_mtu: false }),
    {
        SourceCapabilities { ip_header: false, link_mtu: false }
    }

    /// A capture at the network interface.
    pub fn capture() -> (r: Self)
        ensures
            r == (SourceCapabilities { ip_header: true, link_mtu: true }),
    {
        SourceCapabilities { ip_header: true, link_mtu: true }
    }

    /// The name shown for the kind of source.
    pub fn label(self) -> (r: &'static str)
        ensures
            r@ == if self.ip_header {
                "capture"@
            } else {
                "socket"@
            },
    {
        if self.ip_header {
            "capture"
        } else {
            "socket"
        }
    }
}

/// What a socket is bound to, as it is in effect.
#[derive(Debug, Clone, Copy, PartialEq, Eq, Structural)]
pub struct SourceBinding {
    pub group: Ipv4Addr,
    pub port: u16,
    /// The interface joined on; the unspecified address leaves the choice to
    /// the routing table.
    pub iface: Ipv4Addr,
    /// The only sender that is let through, if any.
    pub source: Option<Ipv4Addr>,
    /// Size of the receive buffer that the system granted.
    pub so_rcvbuf_bytes: usize,
}

impl SourceBinding {
    /// The interface as text, or `default`.
    pub fn iface_label(&self) -> (r: String)
        ensures
            r@ == if self.iface == (Ipv4Addr { a: 0, b: 0, c: 0, d: 0 }) {
                "default"@
            } else {
                self.iface.text()
            },
    {
        if self.iface.is_unspecified() {
            String::from_str("default")
        } else {
            self.iface.to_text()
        }
    }
}

/// Where datagrams come from.
pub trait PacketSource: Send {
    /// Receives a datagram through `buf`; `Ok(None)` if none came in time.
    fn recv(&mut self, buf: &mut [u8]) -> Result<Option<Datagram>, NetError>;

    fn capabilities(&self) -> SourceCapabilities;

    fn binding(&self) -> SourceBinding;
}

/// How a socket is set up.
#[derive(Debug, Clone, Copy, PartialEq, Eq, Structural)]
pub struct SocketSourceConfig {
    /// Requested size of the receive buffer.
    pub buf_size: usize,
    /// How long to wait for a datagram, in milliseconds.
    pub timeout_ms: u64,
}

impl Default for SocketSourceConfig {
    fn default() -> (r: Self)
        ensures
            r == (SocketSourceConfig { buf_size: 4_194_304, timeout_ms: 5_000 }),
    {
        SocketSourceConfig { buf_size: 4_194_304, timeout_ms: 5_000 }
    }
}

/// Why a socket call failed, as far as it matters.
#[derive(Debug, Clone, Copy, PartialEq, Eq, Structural)]
pub enum IoFailure {
    WouldBlock,
    TimedOut,
    Interrupted,
    Other,
}

/// Whether a call failed because time ran out.
pub fn is_timeout(e: IoFailure) -> (r: bool)
    ensures
        r == (e is WouldBlock || e is TimedOut),
{
    match e {
        IoFailure::WouldBlock | IoFailure::TimedOut => true,
        _ => false,
    }
}

/// Whether a call failed because it was interrupted.
pub fn is_interrupted(e: IoFailure) -> (r: bool)
    ensures
        r == (e is Interrupted),
{
    match e {
        IoFailure::Interrupted => true,
        _ => false,
    }
}

/// What a failed receive means: nothing for now, or an error for the given
/// reason.
pub fn receive_failure(e: IoFailure, reason: String) -> (r: Result<(), NetError>)
    ensures
        match r {
            Ok(_) => e !is Other,
            Err(error) => e is Other && error == NetError::Io(reason),
        },
{
    if is_timeout(e) || is_interrupted(e) {
        Ok(())
    } else {
        Err(NetError::Io(reason))
    }
}

/// The steps in which a socket is made and a group is joined.
#[derive(Debug, Clone, Copy, PartialEq, Eq, Structural)]
pub enum JoinStep {
    Create,
    SetBuffer,
    /// Read back the size of the receive buffer; this may fail.
    ReadBuffer,
    Reuse,
    Bind,
    /// Join the group, for one sender only where one is given.
    Join,
    SetTimeout,
}

impl JoinStep {
    /// The place of the step in the order.
    pub open spec fn position(self) -> int {
        match self {
            JoinStep::Create => 0,
            JoinStep::SetBuffer => 1,
            JoinStep::ReadBuffer => 2,
            JoinStep::Reuse => 3,
            JoinStep::Bind => 4,
            JoinStep::Join => 5,
            JoinStep::SetTimeout => 6,
        }
    }

    /// Moves on after a step that succeeded, or failed for the given reason.
    /// After the last step the socket is ready.
    pub fn advance(self, failure: Option<String>) -> (r: Result<Option<JoinStep>, NetError>)
        ensures
            match r {
                Ok(Some(next)) => {
                    &&& failure is None || self is ReadBuffer
                    &&& next.position() == self.position() + 1
                },
                Ok(None) => failure is None && self is SetTimeout,
                Err(e) => {
                    &&& failure is Some
                    &&& self !is ReadBuffer
                    &&& e == if self is Join {
                        NetError::JoinFailed(failure->0)
                    } else {
                        NetError::Io(failure->0)
                    }
                },
            },
    {
        match failure {
            Some(reason) => match self {
                JoinStep::Join => Err(NetError::JoinFailed(reason)),
                JoinStep::ReadBuffer => Ok(Some(JoinStep::Reuse)),
                _ => Err(NetError::Io(reason)),
            },
            None => Ok(
                match self {
                    JoinStep::Create => Some(JoinStep::SetBuffer),
                    JoinStep::SetBuffer => Some(JoinStep::ReadBuffer),
                    JoinStep::ReadBuffer => Some(JoinStep::Reuse),
                    JoinStep::Reuse => Some(JoinStep::Bind),
                    JoinStep::Bind => Some(JoinStep::Join),
                    JoinStep::Join => Some(JoinStep::SetTimeout),
                    JoinStep::SetTimeout => None,
                },
            ),
        }
    }
}

/// The binding of a socket that joined a group: an interface that was not
/// named is the unspecified one, and a buffer whose size could not be read
/// counts as none.
pub fn effective_binding(
    group: Ipv4Addr,
    port: u16,
    iface: Option<Ipv4Addr>,
    source: Option<Ipv4Addr>,
    granted: Option<usize>,
) -> (r: SourceBinding)
    ensures
        r.group == group,
        r.port == port,
        r.iface == match iface {
            Some(addr) => addr,
            None => Ipv4Addr { a: 0, b: 0, c: 0, d: 0 },
        },
        r.source == source,
        r.so_rcvbuf_bytes == match granted {
            Some(n) => n,
            None => 0,
        },
{
    SourceBinding {
        group,
        port,
        iface: match iface {
            Some(addr) => addr,
            None => Ipv4Addr::unspecified(),
        },
        source,
        so_rcvbuf_bytes: match granted {
            Some(n) => n,
            None => 0,
        },
    }
}

/// A socket is made, its buffer set and read back, and reuse allowed before it
/// is bound; the group is joined once it is, and the timeout set last.
pub proof fn law_groups_are_joined_in_order()
    ensures
        JoinStep::Create.position() == 0,
        JoinStep::SetBuffer.position() == JoinStep::Create.position() + 1,
        JoinStep::ReadBuffer.position() == JoinStep::SetBuffer.position() + 1,
        JoinStep::Reuse.position() == JoinStep::ReadBuffer.position() + 1,
        JoinStep::Bind.position() == JoinStep::Reuse.position() + 1,
        JoinStep::Join.position() == JoinStep::Bind.position() + 1,
        JoinStep::SetTimeout.position() == JoinStep::Join.position() + 1,
{
}

} // verus!
