//! The message-parser dispatcher.
//!
//! Each TCP connection is handed to exactly one reconstruction strategy,
//! chosen by testing which protocol facts its packets carry, in a fixed,
//! documented priority order: HTTP/1 first, then HTTP/2, then Postgres.
//! A mixed-protocol connection — a data anomaly — therefore goes to the
//! first matching strategy, and a connection matching none is reported as
//! an opaque, unclassified stream.

use crate::http::Http;
use crate::http::spec_parse_stream_http1;
use crate::http2::Http2;
use crate::http2::spec_parse_stream_http2;
use crate::message::StreamData;
use crate::packet::TSharkPacket;
use crate::pgsql::Postgres;
use crate::pgsql::spec_parse_stream_pgsql;
use vstd::prelude::*;

verus! {

/// The icon tag a strategy shows in the presentation layer.
#[derive(Debug, Clone, Copy, PartialEq, Eq, Structural)]
pub enum Icon {
    Http,
    Database,
    Lock,
}

/// The reconstruction strategy a connection is dispatched to.
#[derive(Debug, Clone, Copy, PartialEq, Eq, Structural)]
pub enum ProtocolKind {
    Http1,
    Http2,
    Postgres,
    /// No known protocol fact on any packet: the stream is reported
    /// opaque and dropped from reconstruction.
    Opaque,
}

impl Http {
    /// The icon tag of the HTTP/1 strategy.
    pub fn protocol_icon(&self) -> (r: Icon)
        ensures
            r == Icon::Http,
    {
        Icon::Http
    }
}

impl Http2 {
    /// The icon tag of the HTTP/2 strategy.
    pub fn protocol_icon(&self) -> (r: Icon)
        ensures
            r == Icon::Http,
    {
        Icon::Http
    }
}

impl Postgres {
    /// The icon tag of the Postgres strategy.
    pub fn protocol_icon(&self) -> (r: Icon)
        ensures
            r == Icon::Database,
    {
        Icon::Database
    }
}

impl ProtocolKind {
    /// The icon tag for a connection of this kind.
    pub open spec fn spec_icon(&self) -> Icon {
        match self {
            ProtocolKind::Http1 => Icon::Http,
            ProtocolKind::Http2 => Icon::Http,
            ProtocolKind::Postgres => Icon::Database,
            ProtocolKind::Opaque => Icon::Lock,
        }
    }

    /// The icon tag shown for a connection of this kind; an opaque,
    /// encrypted-or-unknown stream shows the lock.
    pub fn icon(&self) -> (r: Icon)
        ensures
            r == self.spec_icon(),
    {
        match self {
            ProtocolKind::Http1 => Icon::Http,
            ProtocolKind::Http2 => Icon::Http,
            ProtocolKind::Postgres => Icon::Database,
            ProtocolKind::Opaque => Icon::Lock,
        }
    }
}

/// The strategy a connection's packets select, in priority order.
pub open spec fn spec_protocol_of(pkts: Seq<TSharkPacket>) -> ProtocolKind {
    if exists|j: int| 0 <= j < pkts.len() && pkts[j].http is Some {
        ProtocolKind::Http1
    } else if exists|j: int| 0 <= j < pkts.len() && pkts[j].http2 is Some {
        ProtocolKind::Http2
    } else if exists|j: int| 0 <= j < pkts.len() && pkts[j].pgsql is Some {
        ProtocolKind::Postgres
    } else {
        ProtocolKind::Opaque
    }
}

/// Selects the strategy for one connection's packets.
pub fn protocol_of(packets: &Vec<TSharkPacket>) -> (k: ProtocolKind)
    ensures
        k == spec_protocol_of(packets@),
{
    let mut has_http1 = false;
    let mut has_http2 = false;
    let mut has_pgsql = false;
    let mut i: usize = 0;
    while i < packets.len()
        invariant
            i <= packets@.len(),
            has_http1 == exists|j: int| 0 <= j < i && packets@[j].http is Some,
            has_http2 == exists|j: int| 0 <= j < i && packets@[j].http2 is Some,
            has_pgsql == exists|j: int| 0 <= j < i && packets@[j].pgsql is Some,
        decreases packets@.len() - i,
    {
        if packets[i].http.is_some() {
            has_http1 = true;
        }
        if packets[i].http2.is_some() {
            has_http2 = true;
        }
        if packets[i].pgsql.is_some() {
            has_pgsql = true;
        }
        i = i + 1;
    }
    if has_http1 {
        ProtocolKind::Http1
    } else if has_http2 {
        ProtocolKind::Http2
    } else if has_pgsql {
        ProtocolKind::Postgres
    } else {
        ProtocolKind::Opaque
    }
}

/// Reconstructs one connection with the strategy its packets select; an
/// opaque connection yields no stream data.
pub fn reconstruct_stream(packets: Vec<TSharkPacket>) -> (r: (ProtocolKind, Option<StreamData>))
    ensures
        r.0 == spec_protocol_of(packets@),
        match r.1 {
            Some(sd) => {
                &&& r.0 != ProtocolKind::Opaque
                &&& r.0 == ProtocolKind::Http1 ==> sd@ == spec_parse_stream_http1(packets@)
                &&& r.0 == ProtocolKind::Http2 ==> sd@ == spec_parse_stream_http2(packets@)
                &&& r.0 == ProtocolKind::Postgres ==> sd@ == spec_parse_stream_pgsql(packets@)
            },
            None => r.0 == ProtocolKind::Opaque,
        },
{
    let kind = protocol_of(&packets);
    match kind {
        ProtocolKind::Http1 => {
            let sd = Http.parse_stream(packets);
            (ProtocolKind::Http1, Some(sd))
        },
        ProtocolKind::Http2 => {
            let sd = Http2.parse_stream(packets);
            (ProtocolKind::Http2, Some(sd))
        },
        ProtocolKind::Postgres => {
            let sd = Postgres.parse_stream(packets);
            (ProtocolKind::Postgres, Some(sd))
        },
        ProtocolKind::Opaque => (ProtocolKind::Opaque, None),
    }
}

} // verus!
