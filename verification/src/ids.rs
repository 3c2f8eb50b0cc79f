//! Small value identifiers shared by every protocol fact: TCP ports, TCP
//! stream numbers and raw TCP sequence numbers.

use vstd::prelude::*;

verus! {

/// A TCP or UDP port number.
#[derive(Debug, Clone, Copy, PartialEq, Eq, Hash, Structural)]
pub struct NetworkPort(pub u16);

impl NetworkPort {
    pub fn as_u16(&self) -> (r: u16)
        ensures
            r == self.0,
    {
        let NetworkPort(v) = self;
        *v
    }
}

/// The capture tool's identifier for one TCP connection.
#[derive(Debug, Clone, Copy, PartialEq, Eq, Hash, Structural)]
pub struct TcpStreamId(pub u32);

impl TcpStreamId {
    pub fn as_u32(&self) -> (r: u32)
        ensures
            r == self.0,
    {
        let TcpStreamId(v) = self;
        *v
    }
}

/// A raw TCP sequence number, used downstream to re-query a single packet.
#[derive(Debug, Clone, Copy, PartialEq, Eq, Hash, Structural)]
pub struct TcpSeqNumber(pub u32);

impl TcpSeqNumber {
    pub fn as_u32(&self) -> (r: u32)
        ensures
            r == self.0,
    {
        let TcpSeqNumber(v) = self;
        *v
    }
}

} // verus!
