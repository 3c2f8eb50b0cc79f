//! Reconstruction engine for packet-capture metadata.
//!
//! The input is a PDML document: an XML dialect with one `<packet>` element
//! per captured network frame, whose nested `<proto>`/`<field>` elements carry
//! protocol fields.  The engine tokenizes the document ([`xml`]), extracts
//! typed per-packet protocol facts ([`packet`], with one sub-parser per
//! protocol in [`http`], [`http2`] and [`pgsql`]), and regroups the
//! per-frame fragments of one TCP connection into ordered, paired
//! request/response messages ([`message`]), under the strategy the
//! connection's facts select ([`dispatch`]).
//!
//! Reconstruction is a pure function over one connection's ordered packet
//! sequence: every parser and reconstructor is specified exactly, and the
//! laws the engine obeys — classification by `:status`, the
//! raw-appends/reassembled-replaces merge rule, request/response pairing,
//! last-write-wins role resolution, the write-once summary — are stated
//! and proved beside the code they govern.

pub mod assoc;
pub mod dispatch;
pub mod http;
pub mod http2;
pub mod ids;
pub mod message;
pub mod packet;
pub mod pgsql;
pub mod text;
pub mod time;
pub mod xml;
