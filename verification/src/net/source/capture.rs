use vstd::prelude::*;
use vstd::string::StringExecFns;

use crate::net::error::NetError;
use crate::net::source::{Datagram, PacketSource, SourceBinding, SourceCapabilities};

verus! {

/// A capture at the network interface.  There is no backend for it yet, so it
/// cannot be opened.
#[derive(Debug)]
pub struct CaptureSource {
    binding: SourceBinding,
}

impl CaptureSource {
    /// What the capture is bound to.
    pub closed spec fn bound_to(&self) -> SourceBinding {
        self.binding
    }

    /// Refuses: a capture cannot be opened yet.
    pub fn open(_binding: SourceBinding) -> (r: Result<Self, NetError>)
        ensures
            r matches Err(NetError::MalformedUrl(text)) && text@
                == "backend de captura pcap é fase 4 e ainda não foi implementado"@,
    {
        Err(
            NetError::MalformedUrl(
                String::from_str("backend de captura pcap é fase 4 e ainda não foi implementado"),
            ),
        )
    }
}

impl PacketSource for CaptureSource {
    /// Nothing comes in.
    fn recv(&mut self, buf: &mut [u8]) -> (r: Result<Option<Datagram>, NetError>)
        ensures
            r == Ok::<Option<Datagram>, NetError>(None),
            *final(self) == *old(self),
            final(buf)@ == old(buf)@,
    {
        Ok(None)
    }

    fn capabilities(&self) -> (r: SourceCapabilities)
        ensures
            r == (SourceCapabilities { ip_header: true, link_mtu: true }),
    {
        SourceCapabilities::capture()
    }

    fn binding(&self) -> (r: SourceBinding)
        ensures
            r == self.bound_to(),
    {
        self.binding
    }
}

} // verus!
