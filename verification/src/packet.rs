//! Per-packet protocol facts.
//!
//! The packet assembler reads one `<packet>` element end to end and yields
//! one [`TSharkPacket`]: addressing facts plus whichever protocol facts the
//! packet's `<proto>` children carried.

use crate::http::HttpFactModel;
use crate::http::TSharkHttp;
use crate::http::http_acc_init;
use crate::http::http_fact_model;
use crate::http::http_fact_of_acc;
use crate::http::lemma_parse_http_bounds;
use crate::http::parse_http_info;
use crate::http::spec_parse_http;
use crate::http2::Http2MsgModel;
use crate::http2::TSharkHttp2Message;
use crate::http2::http2_msg_model;
use crate::http2::lemma_parse_http2_bounds;
use crate::http2::parse_http2_info;
use crate::http2::spec_parse_http2;
use crate::pgsql::lemma_parse_pgsql_bounds;
use crate::pgsql::parse_pgsql_info;
use crate::pgsql::spec_parse_pgsql;
use crate::ids::NetworkPort;
use crate::ids::TcpSeqNumber;
use crate::ids::TcpStreamId;
use crate::pgsql::PostgresWireMessage;
use crate::text::opt_str_view;
use crate::time::Timestamp;
use crate::time::frame_time_of;
use crate::time::parse_frame_time;
use crate::xml::EventModel;
use crate::xml::ParseError;
use crate::xml::XmlCursor;
use crate::xml::XmlEvent;
use crate::xml::attr_value;
use crate::xml::element_attr_val_number;
use crate::xml::element_attr_val_number_u16;
use crate::xml::element_attr_val_string;
use crate::xml::field_name_is;
use crate::xml::lemma_next_event_progress;
use crate::xml::lit_bytes;
use crate::xml::spec_attr_number;
use crate::xml::spec_attr_string;
use crate::xml::spec_next_event;
use crate::xml::tag_name_is;
use vstd::prelude::*;

verus! {

/// The addressing facts of one captured packet: exactly one IP pair and one
/// TCP 4-tuple.
#[derive(Debug, PartialEq, Eq)]
pub struct TSharkPacketBasicInfo {
    pub frame_time: Timestamp,
    pub ip_src: String,
    pub ip_dst: String,
    pub tcp_seq_number: TcpSeqNumber,
    pub tcp_stream_id: TcpStreamId,
    pub port_src: NetworkPort,
    pub port_dst: NetworkPort,
}

/// Copies a packet's addressing facts; the copy equals the original.
pub fn clone_basic_info(b: &TSharkPacketBasicInfo) -> (r: TSharkPacketBasicInfo)
    ensures
        r == *b,
{
    TSharkPacketBasicInfo {
        frame_time: b.frame_time,
        ip_src: b.ip_src.clone(),
        ip_dst: b.ip_dst.clone(),
        tcp_seq_number: b.tcp_seq_number,
        tcp_stream_id: b.tcp_stream_id,
        port_src: b.port_src,
        port_dst: b.port_dst,
    }
}

/// One captured packet: addressing facts plus zero-or-one HTTP/1 fact,
/// zero-or-many HTTP/2 facts (one TCP segment may coalesce several HTTP/2
/// frames) and zero-or-many Postgres wire-message facts.  A packet with no
/// protocol fact at all is a valid TCP/IP control packet.
#[derive(Debug, PartialEq, Eq)]
pub struct TSharkPacket {
    pub basic_info: TSharkPacketBasicInfo,
    pub http: Option<TSharkHttp>,
    pub http2: Option<Vec<TSharkHttp2Message>>,
    pub pgsql: Option<Vec<PostgresWireMessage>>,
}

/// Parsing a `frame` proto block from `pos` to its closing `</proto>`:
/// the timestamp of the first parseable `frame.time` field, or `None`
/// when the block has none.  A `frame.time` value that does not follow
/// the capture tool's format is fatal.
pub open spec fn spec_parse_frame(data: Seq<u8>, pos: int, acc: Option<Timestamp>) -> Result<
    (Option<Timestamp>, int),
    ParseError,
>
    decreases data.len() - pos,
{
    if !(0 <= pos <= data.len()) {
        Err(ParseError::Malformed { offset: 0 })
    } else {
        match spec_next_event(data, pos) {
            Err(e) => Err(e),
            Ok((ev, p2)) => {
                proof {
                    lemma_next_event_progress(data, pos);
                }
                match ev {
                    EventModel::Eof => Err(
                        ParseError::UnexpectedEof { offset: data.len() as usize },
                    ),
                    EventModel::End(n) => if n == lit_bytes("proto") {
                        Ok((acc, p2))
                    } else {
                        spec_parse_frame(data, p2, acc)
                    },
                    EventModel::Empty(t) => if acc is None && attr_value(t, lit_bytes("name"))
                        == Some(lit_bytes("frame.time")) {
                        match spec_attr_string(t, lit_bytes("show")) {
                            None => spec_parse_frame(data, p2, acc),
                            Some(s) => match frame_time_of(s) {
                                Some(ts) => spec_parse_frame(data, p2, Some(ts)),
                                None => Err(ParseError::BadTimestamp { offset: pos as usize }),
                            },
                        }
                    } else {
                        spec_parse_frame(data, p2, acc)
                    },
                    _ => spec_parse_frame(data, p2, acc),
                }
            },
        }
    }
}

/// Reads a `frame` proto block, as [`spec_parse_frame`] describes.
#[verifier::loop_isolation(false)]
pub fn parse_frame_info(cursor: &mut XmlCursor) -> (r: Result<Option<Timestamp>, ParseError>)
    requires
        old(cursor).wf(),
    ensures
        final(cursor).data == old(cursor).data,
        final(cursor).wf(),
        match r {
            Ok(ts) => spec_parse_frame(old(cursor).data@, old(cursor).pos as int, None) == Ok::<
                (Option<Timestamp>, int),
                ParseError,
            >((ts, final(cursor).pos as int)),
            Err(e) => spec_parse_frame(old(cursor).data@, old(cursor).pos as int, None) == Err::<
                (Option<Timestamp>, int),
                ParseError,
            >(e),
        },
{
    let mut acc: Option<Timestamp> = None;
    loop
        invariant
            cursor.data == old(cursor).data,
            cursor.wf(),
            spec_parse_frame(old(cursor).data@, old(cursor).pos as int, None) == spec_parse_frame(
                cursor.data@,
                cursor.pos as int,
                acc,
            ),
        decreases cursor.data@.len() - cursor.pos,
    {
        let pre_pos: usize = cursor.offset();
        proof {
            lemma_next_event_progress(cursor.data@, pre_pos as int);
        }
        match cursor.next_event() {
            Err(e) => {
                return Err(e);
            },
            Ok(ev) => match ev {
                XmlEvent::Eof => {
                    return Err(ParseError::UnexpectedEof { offset: cursor.data.len() });
                },
                XmlEvent::End(n) => {
                    if crate::xml::name_is(&n, "proto") {
                        return Ok(acc);
                    }
                },
                XmlEvent::Empty(t) => {
                    if acc.is_none() && field_name_is(&t, "frame.time") {
                        match element_attr_val_string(&t, "show".as_bytes()) {
                            None => {},
                            Some(s) => match parse_frame_time(s.as_str()) {
                                Some(ts) => {
                                    acc = Some(ts);
                                },
                                None => {
                                    return Err(ParseError::BadTimestamp { offset: pre_pos });
                                },
                            },
                        }
                    }
                },
                _ => {},
            },
        }
    }
}

/// Parsing an `ip` proto block: the last `ip.src` and `ip.dst` field
/// values, each `None` when never readable.
pub open spec fn spec_parse_ip(
    data: Seq<u8>,
    pos: int,
    src: Option<Seq<char>>,
    dst: Option<Seq<char>>,
) -> Result<((Option<Seq<char>>, Option<Seq<char>>), int), ParseError>
    decreases data.len() - pos,
{
    if !(0 <= pos <= data.len()) {
        Err(ParseError::Malformed { offset: 0 })
    } else {
        match spec_next_event(data, pos) {
            Err(e) => Err(e),
            Ok((ev, p2)) => {
                proof {
                    lemma_next_event_progress(data, pos);
                }
                match ev {
                    EventModel::Eof => Err(
                        ParseError::UnexpectedEof { offset: data.len() as usize },
                    ),
                    EventModel::End(n) => if n == lit_bytes("proto") {
                        Ok(((src, dst), p2))
                    } else {
                        spec_parse_ip(data, p2, src, dst)
                    },
                    EventModel::Empty(t) => if attr_value(t, lit_bytes("name")) == Some(
                        lit_bytes("ip.src"),
                    ) {
                        spec_parse_ip(data, p2, spec_attr_string(t, lit_bytes("show")), dst)
                    } else if attr_value(t, lit_bytes("name")) == Some(lit_bytes("ip.dst")) {
                        spec_parse_ip(data, p2, src, spec_attr_string(t, lit_bytes("show")))
                    } else {
                        spec_parse_ip(data, p2, src, dst)
                    },
                    _ => spec_parse_ip(data, p2, src, dst),
                }
            },
        }
    }
}

/// Reads an `ip` proto block, as [`spec_parse_ip`] describes.
#[verifier::loop_isolation(false)]
pub fn parse_ip_info(cursor: &mut XmlCursor) -> (r: Result<
    (Option<String>, Option<String>),
    ParseError,
>)
    requires
        old(cursor).wf(),
    ensures
        final(cursor).data == old(cursor).data,
        final(cursor).wf(),
        match r {
            Ok(pair) => spec_parse_ip(old(cursor).data@, old(cursor).pos as int, None, None)
                == Ok::<((Option<Seq<char>>, Option<Seq<char>>), int), ParseError>(
                ((opt_str_view(pair.0), opt_str_view(pair.1)), final(cursor).pos as int),
            ),
            Err(e) => spec_parse_ip(old(cursor).data@, old(cursor).pos as int, None, None)
                == Err::<((Option<Seq<char>>, Option<Seq<char>>), int), ParseError>(e),
        },
{
    let mut ip_src: Option<String> = None;
    let mut ip_dst: Option<String> = None;
    loop
        invariant
            cursor.data == old(cursor).data,
            cursor.wf(),
            spec_parse_ip(old(cursor).data@, old(cursor).pos as int, None, None) == spec_parse_ip(
                cursor.data@,
                cursor.pos as int,
                opt_str_view(ip_src),
                opt_str_view(ip_dst),
            ),
        decreases cursor.data@.len() - cursor.pos,
    {
        proof {
            lemma_next_event_progress(cursor.data@, cursor.pos as int);
        }
        match cursor.next_event() {
            Err(e) => {
                return Err(e);
            },
            Ok(ev) => match ev {
                XmlEvent::Eof => {
                    return Err(ParseError::UnexpectedEof { offset: cursor.data.len() });
                },
                XmlEvent::End(n) => {
                    if crate::xml::name_is(&n, "proto") {
                        return Ok((ip_src, ip_dst));
                    }
                },
                XmlEvent::Empty(t) => {
                    if field_name_is(&t, "ip.src") {
                        ip_src = element_attr_val_string(&t, "show".as_bytes());
                    } else if field_name_is(&t, "ip.dst") {
                        ip_dst = element_attr_val_string(&t, "show".as_bytes());
                    }
                },
                _ => {},
            },
        }
    }
}

/// Parsing a `tcp` proto block: the TCP 4-tuple read from the
/// `tcp.seq_raw`, `tcp.stream`, `tcp.srcport` and `tcp.dstport` fields.
/// A field whose value is absent or unreadable leaves its slot at the
/// default of zero, never aborts.
pub open spec fn spec_parse_tcp(
    data: Seq<u8>,
    pos: int,
    acc: (TcpSeqNumber, TcpStreamId, NetworkPort, NetworkPort),
) -> Result<((TcpSeqNumber, TcpStreamId, NetworkPort, NetworkPort), int), ParseError>
    decreases data.len() - pos,
{
    if !(0 <= pos <= data.len()) {
        Err(ParseError::Malformed { offset: 0 })
    } else {
        match spec_next_event(data, pos) {
            Err(e) => Err(e),
            Ok((ev, p2)) => {
                proof {
                    lemma_next_event_progress(data, pos);
                }
                match ev {
                    EventModel::Eof => Err(
                        ParseError::UnexpectedEof { offset: data.len() as usize },
                    ),
                    EventModel::End(n) => if n == lit_bytes("proto") {
                        Ok((acc, p2))
                    } else {
                        spec_parse_tcp(data, p2, acc)
                    },
                    EventModel::Empty(t) => spec_parse_tcp(data, p2, tcp_field_update(t, acc)),
                    _ => spec_parse_tcp(data, p2, acc),
                }
            },
        }
    }
}

/// One `field` element's effect on the TCP 4-tuple being read.
pub open spec fn tcp_field_update(
    t: crate::xml::TagModel,
    acc: (TcpSeqNumber, TcpStreamId, NetworkPort, NetworkPort),
) -> (TcpSeqNumber, TcpStreamId, NetworkPort, NetworkPort) {
    if attr_value(t, lit_bytes("name")) == Some(lit_bytes("tcp.srcport")) {
        match spec_attr_number(t, lit_bytes("show"), 0xFFFF) {
            Some(x) => (acc.0, acc.1, NetworkPort(x as u16), acc.3),
            None => acc,
        }
    } else if attr_value(t, lit_bytes("name")) == Some(lit_bytes("tcp.dstport")) {
        match spec_attr_number(t, lit_bytes("show"), 0xFFFF) {
            Some(x) => (acc.0, acc.1, acc.2, NetworkPort(x as u16)),
            None => acc,
        }
    } else if attr_value(t, lit_bytes("name")) == Some(lit_bytes("tcp.seq_raw")) {
        match spec_attr_number(t, lit_bytes("show"), 0xFFFF_FFFF) {
            Some(x) => (TcpSeqNumber(x as u32), acc.1, acc.2, acc.3),
            None => acc,
        }
    } else if attr_value(t, lit_bytes("name")) == Some(lit_bytes("tcp.stream")) {
        match spec_attr_number(t, lit_bytes("show"), 0xFFFF_FFFF) {
            Some(x) => (acc.0, TcpStreamId(x as u32), acc.2, acc.3),
            None => acc,
        }
    } else {
        acc
    }
}

/// A `frame` block parse makes progress and stays within bounds.
pub proof fn lemma_parse_frame_bounds(data: Seq<u8>, pos: int, acc: Option<Timestamp>)
    requires
        0 <= pos <= data.len(),
    ensures
        match spec_parse_frame(data, pos, acc) {
            Ok((_, p2)) => pos < p2 <= data.len(),
            Err(_) => true,
        },
    decreases data.len() - pos,
{
    match spec_next_event(data, pos) {
        Err(_) => {},
        Ok((ev, p2)) => {
            lemma_next_event_progress(data, pos);
            match ev {
                EventModel::Eof => {},
                EventModel::End(n) => {
                    if n != lit_bytes("proto") {
                        lemma_parse_frame_bounds(data, p2, acc);
                    }
                },
                EventModel::Empty(t) => {
                    if acc is None && attr_value(t, lit_bytes("name")) == Some(
                        lit_bytes("frame.time"),
                    ) {
                        match spec_attr_string(t, lit_bytes("show")) {
                            None => {
                                lemma_parse_frame_bounds(data, p2, acc);
                            },
                            Some(s) => {
                                match frame_time_of(s) {
                                    Some(ts) => {
                                        lemma_parse_frame_bounds(data, p2, Some(ts));
                                    },
                                    None => {},
                                }
                            },
                        }
                    } else {
                        lemma_parse_frame_bounds(data, p2, acc);
                    }
                },
                _ => {
                    lemma_parse_frame_bounds(data, p2, acc);
                },
            }
        },
    }
}

/// An `ip` block parse makes progress and stays within bounds.
pub proof fn lemma_parse_ip_bounds(
    data: Seq<u8>,
    pos: int,
    src: Option<Seq<char>>,
    dst: Option<Seq<char>>,
)
    requires
        0 <= pos <= data.len(),
    ensures
        match spec_parse_ip(data, pos, src, dst) {
            Ok((_, p2)) => pos < p2 <= data.len(),
            Err(_) => true,
        },
    decreases data.len() - pos,
{
    match spec_next_event(data, pos) {
        Err(_) => {},
        Ok((ev, p2)) => {
            lemma_next_event_progress(data, pos);
            match ev {
                EventModel::Eof => {},
                EventModel::End(n) => {
                    if n != lit_bytes("proto") {
                        lemma_parse_ip_bounds(data, p2, src, dst);
                    }
                },
                EventModel::Empty(t) => {
                    if attr_value(t, lit_bytes("name")) == Some(lit_bytes("ip.src")) {
                        lemma_parse_ip_bounds(
                            data,
                            p2,
                            spec_attr_string(t, lit_bytes("show")),
                            dst,
                        );
                    } else if attr_value(t, lit_bytes("name")) == Some(lit_bytes("ip.dst")) {
                        lemma_parse_ip_bounds(
                            data,
                            p2,
                            src,
                            spec_attr_string(t, lit_bytes("show")),
                        );
                    } else {
                        lemma_parse_ip_bounds(data, p2, src, dst);
                    }
                },
                _ => {
                    lemma_parse_ip_bounds(data, p2, src, dst);
                },
            }
        },
    }
}

/// A `tcp` block parse makes progress and stays within bounds.
pub proof fn lemma_parse_tcp_bounds(
    data: Seq<u8>,
    pos: int,
    acc: (TcpSeqNumber, TcpStreamId, NetworkPort, NetworkPort),
)
    requires
        0 <= pos <= data.len(),
    ensures
        match spec_parse_tcp(data, pos, acc) {
            Ok((_, p2)) => pos < p2 <= data.len(),
            Err(_) => true,
        },
    decreases data.len() - pos,
{
    match spec_next_event(data, pos) {
        Err(_) => {},
        Ok((ev, p2)) => {
            lemma_next_event_progress(data, pos);
            match ev {
                EventModel::Eof => {},
                EventModel::End(n) => {
                    if n != lit_bytes("proto") {
                        lemma_parse_tcp_bounds(data, p2, acc);
                    }
                },
                EventModel::Empty(t) => {
                    lemma_parse_tcp_bounds(data, p2, tcp_field_update(t, acc));
                },
                _ => {
                    lemma_parse_tcp_bounds(data, p2, acc);
                },
            }
        },
    }
}

/// Reads a `tcp` proto block, as [`spec_parse_tcp`] describes.
#[verifier::loop_isolation(false)]
pub fn parse_tcp_info(cursor: &mut XmlCursor) -> (r: Result<
    (TcpSeqNumber, TcpStreamId, NetworkPort, NetworkPort),
    ParseError,
>)
    requires
        old(cursor).wf(),
    ensures
        final(cursor).data == old(cursor).data,
        final(cursor).wf(),
        match r {
            Ok(acc) => spec_parse_tcp(
                old(cursor).data@,
                old(cursor).pos as int,
                (TcpSeqNumber(0), TcpStreamId(0), NetworkPort(0), NetworkPort(0)),
            ) == Ok::<((TcpSeqNumber, TcpStreamId, NetworkPort, NetworkPort), int), ParseError>(
                (acc, final(cursor).pos as int),
            ),
            Err(e) => spec_parse_tcp(
                old(cursor).data@,
                old(cursor).pos as int,
                (TcpSeqNumber(0), TcpStreamId(0), NetworkPort(0), NetworkPort(0)),
            ) == Err::<((TcpSeqNumber, TcpStreamId, NetworkPort, NetworkPort), int), ParseError>(
                e,
            ),
        },
{
    let mut acc = (TcpSeqNumber(0), TcpStreamId(0), NetworkPort(0), NetworkPort(0));
    loop
        invariant
            cursor.data == old(cursor).data,
            cursor.wf(),
            spec_parse_tcp(
                old(cursor).data@,
                old(cursor).pos as int,
                (TcpSeqNumber(0), TcpStreamId(0), NetworkPort(0), NetworkPort(0)),
            ) == spec_parse_tcp(cursor.data@, cursor.pos as int, acc),
        decreases cursor.data@.len() - cursor.pos,
    {
        proof {
            lemma_next_event_progress(cursor.data@, cursor.pos as int);
        }
        match cursor.next_event() {
            Err(e) => {
                return Err(e);
            },
            Ok(ev) => match ev {
                XmlEvent::Eof => {
                    return Err(ParseError::UnexpectedEof { offset: cursor.data.len() });
                },
                XmlEvent::End(n) => {
                    if crate::xml::name_is(&n, "proto") {
                        return Ok(acc);
                    }
                },
                XmlEvent::Empty(t) => {
                    if field_name_is(&t, "tcp.srcport") {
                        match element_attr_val_number_u16(&t, "show".as_bytes()) {
                            Some(x) => {
                                acc = (acc.0, acc.1, NetworkPort(x), acc.3);
                            },
                            None => {},
                        }
                    } else if field_name_is(&t, "tcp.dstport") {
                        match element_attr_val_number_u16(&t, "show".as_bytes()) {
                            Some(x) => {
                                acc = (acc.0, acc.1, acc.2, NetworkPort(x));
                            },
                            None => {},
                        }
                    } else if field_name_is(&t, "tcp.seq_raw") {
                        match element_attr_val_number(&t, "show".as_bytes()) {
                            Some(x) => {
                                acc = (TcpSeqNumber(x), acc.1, acc.2, acc.3);
                            },
                            None => {},
                        }
                    } else if field_name_is(&t, "tcp.stream") {
                        match element_attr_val_number(&t, "show".as_bytes()) {
                            Some(x) => {
                                acc = (acc.0, TcpStreamId(x), acc.2, acc.3);
                            },
                            None => {},
                        }
                    }
                },
                _ => {},
            },
        }
    }
}

/// What the packet assembler has gathered so far from one `<packet>`
/// element's proto blocks.
pub struct PacketAcc {
    pub frame_time: Option<Timestamp>,
    pub ip_src: Option<Seq<char>>,
    pub ip_dst: Option<Seq<char>>,
    pub tcp: (TcpSeqNumber, TcpStreamId, NetworkPort, NetworkPort),
    pub http: Option<HttpFactModel>,
    pub http2: Option<Seq<Http2MsgModel>>,
    pub pgsql: Option<Seq<Option<Seq<char>>>>,
}

/// The assembler's state before any proto block was read.
pub open spec fn packet_acc_init() -> PacketAcc {
    PacketAcc {
        frame_time: None,
        ip_src: None,
        ip_dst: None,
        tcp: (TcpSeqNumber(0), TcpStreamId(0), NetworkPort(0), NetworkPort(0)),
        http: None,
        http2: None,
        pgsql: None,
    }
}

/// The mathematical shape of one assembled packet.
pub struct PacketModel {
    pub frame_time: Timestamp,
    pub ip_src: Seq<char>,
    pub ip_dst: Seq<char>,
    pub tcp_seq_number: TcpSeqNumber,
    pub tcp_stream_id: TcpStreamId,
    pub port_src: NetworkPort,
    pub port_dst: NetworkPort,
    pub http: Option<HttpFactModel>,
    pub http2: Option<Seq<Http2MsgModel>>,
    pub pgsql: Option<Seq<Option<Seq<char>>>>,
}

/// The packet a finished accumulator yields; a packet without a frame
/// time gets the epoch.
pub open spec fn packet_of_acc(acc: PacketAcc) -> PacketModel
    recommends
        acc.ip_src is Some,
        acc.ip_dst is Some,
{
    PacketModel {
        frame_time: match acc.frame_time {
            Some(t) => t,
            None => Timestamp::spec_epoch(),
        },
        ip_src: acc.ip_src->0,
        ip_dst: acc.ip_dst->0,
        tcp_seq_number: acc.tcp.0,
        tcp_stream_id: acc.tcp.1,
        port_src: acc.tcp.2,
        port_dst: acc.tcp.3,
        http: acc.http,
        http2: acc.http2,
        pgsql: acc.pgsql,
    }
}

/// The mathematical reading of an assembled packet value.
pub open spec fn packet_model(p: TSharkPacket) -> PacketModel {
    PacketModel {
        frame_time: p.basic_info.frame_time,
        ip_src: p.basic_info.ip_src@,
        ip_dst: p.basic_info.ip_dst@,
        tcp_seq_number: p.basic_info.tcp_seq_number,
        tcp_stream_id: p.basic_info.tcp_stream_id,
        port_src: p.basic_info.port_src,
        port_dst: p.basic_info.port_dst,
        http: match p.http {
            Some(f) => Some(http_fact_model(f)),
            None => None,
        },
        http2: match p.http2 {
            Some(v) => Some(Seq::new(v@.len(), |i: int| http2_msg_model(v@[i]))),
            None => None,
        },
        pgsql: match p.pgsql {
            Some(v) => Some(Seq::new(v@.len(), |i: int| opt_str_view(v@[i].message_type))),
            None => None,
        },
    }
}

/// Parsing one `<packet>` element, from just inside its start tag to its
/// end tag: each recognized `<proto>` child is read by its sub-parser,
/// unknown protos are passed over, and the packet is complete only at an
/// end tag seen after both IP addresses were observed — otherwise reading
/// continues until they are, or the input ends.  A second `ip` block and
/// a second `http` block in one packet are protocol-invariant violations
/// and fatal.
pub open spec fn spec_parse_packet(data: Seq<u8>, pos: int, acc: PacketAcc) -> Result<
    (PacketModel, int),
    ParseError,
>
    decreases data.len() - pos,
{
    if !(0 <= pos <= data.len()) {
        Err(ParseError::Malformed { offset: 0 })
    } else {
        match spec_next_event(data, pos) {
            Err(e) => Err(e),
            Ok((ev, p2)) => {
                proof {
                    lemma_next_event_progress(data, pos);
                }
                match ev {
                    EventModel::Eof => Err(
                        ParseError::UnexpectedEof { offset: data.len() as usize },
                    ),
                    EventModel::End(n) => if n == lit_bytes("packet") && acc.ip_src is Some
                        && acc.ip_dst is Some {
                        Ok((packet_of_acc(acc), p2))
                    } else {
                        spec_parse_packet(data, p2, acc)
                    },
                    EventModel::Start(t) => if t.name == lit_bytes("proto") {
                        if attr_value(t, lit_bytes("name")) == Some(lit_bytes("frame")) {
                            proof {
                                lemma_parse_frame_bounds(data, p2, None);
                            }
                            match spec_parse_frame(data, p2, None) {
                                Err(e) => Err(e),
                                Ok((ts, p3)) => spec_parse_packet(
                                    data,
                                    p3,
                                    PacketAcc {
                                        frame_time: if ts is Some {
                                            ts
                                        } else {
                                            acc.frame_time
                                        },
                                        ..acc
                                    },
                                ),
                            }
                        } else if attr_value(t, lit_bytes("name")) == Some(lit_bytes("ip")) {
                            if acc.ip_src is Some {
                                Err(ParseError::DuplicateIp { offset: pos as usize })
                            } else {
                                proof {
                                    lemma_parse_ip_bounds(data, p2, None, None);
                                }
                                match spec_parse_ip(data, p2, None, None) {
                                    Err(e) => Err(e),
                                    Ok(((s, d), p3)) => spec_parse_packet(
                                        data,
                                        p3,
                                        PacketAcc { ip_src: s, ip_dst: d, ..acc },
                                    ),
                                }
                            }
                        } else if attr_value(t, lit_bytes("name")) == Some(lit_bytes("tcp")) {
                            proof {
                                lemma_parse_tcp_bounds(
                                    data,
                                    p2,
                                    (TcpSeqNumber(0), TcpStreamId(0), NetworkPort(0), NetworkPort(0)),
                                );
                            }
                            match spec_parse_tcp(
                                data,
                                p2,
                                (TcpSeqNumber(0), TcpStreamId(0), NetworkPort(0), NetworkPort(0)),
                            ) {
                                Err(e) => Err(e),
                                Ok((tcp, p3)) => spec_parse_packet(
                                    data,
                                    p3,
                                    PacketAcc { tcp, ..acc },
                                ),
                            }
                        } else if attr_value(t, lit_bytes("name")) == Some(lit_bytes("http")) {
                            if acc.http is Some {
                                Err(ParseError::Malformed { offset: pos as usize })
                            } else {
                                proof {
                                    lemma_parse_http_bounds(data, p2, http_acc_init());
                                }
                                match spec_parse_http(data, p2, http_acc_init()) {
                                    Err(e) => Err(e),
                                    Ok((ha, p3)) => spec_parse_packet(
                                        data,
                                        p3,
                                        PacketAcc { http: Some(http_fact_of_acc(ha)), ..acc },
                                    ),
                                }
                            }
                        } else if attr_value(t, lit_bytes("name")) == Some(lit_bytes("http2")) {
                            proof {
                                lemma_parse_http2_bounds(data, p2, Seq::empty());
                            }
                            match spec_parse_http2(data, p2, Seq::empty()) {
                                Err(e) => Err(e),
                                Ok((ms, p3)) => spec_parse_packet(
                                    data,
                                    p3,
                                    PacketAcc {
                                        http2: Some(
                                            (match acc.http2 {
                                                Some(sofar) => sofar,
                                                None => Seq::empty(),
                                            }) + ms,
                                        ),
                                        ..acc
                                    },
                                ),
                            }
                        } else if attr_value(t, lit_bytes("name")) == Some(lit_bytes("pgsql")) {
                            proof {
                                lemma_parse_pgsql_bounds(data, p2, None);
                            }
                            match spec_parse_pgsql(data, p2, None) {
                                Err(e) => Err(e),
                                Ok((mt, p3)) => spec_parse_packet(
                                    data,
                                    p3,
                                    PacketAcc {
                                        pgsql: Some(
                                            (match acc.pgsql {
                                                Some(sofar) => sofar,
                                                None => Seq::empty(),
                                            }).push(mt),
                                        ),
                                        ..acc
                                    },
                                ),
                            }
                        } else {
                            spec_parse_packet(data, p2, acc)
                        }
                    } else {
                        spec_parse_packet(data, p2, acc)
                    },
                    _ => spec_parse_packet(data, p2, acc),
                }
            },
        }
    }
}

/// A packet parse makes progress and stays within bounds.
pub proof fn lemma_parse_packet_bounds(data: Seq<u8>, pos: int, acc: PacketAcc)
    requires
        0 <= pos <= data.len(),
    ensures
        match spec_parse_packet(data, pos, acc) {
            Ok((_, p2)) => pos < p2 <= data.len(),
            Err(_) => true,
        },
    decreases data.len() - pos,
{
    match spec_next_event(data, pos) {
        Err(_) => {},
        Ok((ev, p2)) => {
            lemma_next_event_progress(data, pos);
            match ev {
                EventModel::Eof => {},
                EventModel::End(n) => {
                    if !(n == lit_bytes("packet") && acc.ip_src is Some && acc.ip_dst is Some) {
                        lemma_parse_packet_bounds(data, p2, acc);
                    }
                },
                EventModel::Start(t) => {
                    if t.name == lit_bytes("proto") {
                        if attr_value(t, lit_bytes("name")) == Some(lit_bytes("frame")) {
                            lemma_parse_frame_bounds(data, p2, None);
                            match spec_parse_frame(data, p2, None) {
                                Err(_) => {},
                                Ok((ts, p3)) => {
                                    lemma_parse_packet_bounds(
                                        data,
                                        p3,
                                        PacketAcc {
                                            frame_time: if ts is Some {
                                                ts
                                            } else {
                                                acc.frame_time
                                            },
                                            ..acc
                                        },
                                    );
                                },
                            }
                        } else if attr_value(t, lit_bytes("name")) == Some(lit_bytes("ip")) {
                            if !(acc.ip_src is Some) {
                                lemma_parse_ip_bounds(data, p2, None, None);
                                match spec_parse_ip(data, p2, None, None) {
                                    Err(_) => {},
                                    Ok(((s, d), p3)) => {
                                        lemma_parse_packet_bounds(
                                            data,
                                            p3,
                                            PacketAcc { ip_src: s, ip_dst: d, ..acc },
                                        );
                                    },
                                }
                            }
                        } else if attr_value(t, lit_bytes("name")) == Some(lit_bytes("tcp")) {
                            lemma_parse_tcp_bounds(
                                data,
                                p2,
                                (TcpSeqNumber(0), TcpStreamId(0), NetworkPort(0), NetworkPort(0)),
                            );
                            match spec_parse_tcp(
                                data,
                                p2,
                                (TcpSeqNumber(0), TcpStreamId(0), NetworkPort(0), NetworkPort(0)),
                            ) {
                                Err(_) => {},
                                Ok((tcp, p3)) => {
                                    lemma_parse_packet_bounds(data, p3, PacketAcc { tcp, ..acc });
                                },
                            }
                        } else if attr_value(t, lit_bytes("name")) == Some(lit_bytes("http")) {
                            if !(acc.http is Some) {
                                lemma_parse_http_bounds(data, p2, http_acc_init());
                                match spec_parse_http(data, p2, http_acc_init()) {
                                    Err(_) => {},
                                    Ok((ha, p3)) => {
                                        lemma_parse_packet_bounds(
                                            data,
                                            p3,
                                            PacketAcc { http: Some(http_fact_of_acc(ha)), ..acc },
                                        );
                                    },
                                }
                            }
                        } else if attr_value(t, lit_bytes("name")) == Some(lit_bytes("http2")) {
                            lemma_parse_http2_bounds(data, p2, Seq::empty());
                            match spec_parse_http2(data, p2, Seq::empty()) {
                                Err(_) => {},
                                Ok((ms, p3)) => {
                                    lemma_parse_packet_bounds(
                                        data,
                                        p3,
                                        PacketAcc {
                                            http2: Some(
                                                (match acc.http2 {
                                                    Some(sofar) => sofar,
                                                    None => Seq::empty(),
                                                }) + ms,
                                            ),
                                            ..acc
                                        },
                                    );
                                },
                            }
                        } else if attr_value(t, lit_bytes("name")) == Some(lit_bytes("pgsql")) {
                            lemma_parse_pgsql_bounds(data, p2, None);
                            match spec_parse_pgsql(data, p2, None) {
                                Err(_) => {},
                                Ok((mt, p3)) => {
                                    lemma_parse_packet_bounds(
                                        data,
                                        p3,
                                        PacketAcc {
                                            pgsql: Some(
                                                (match acc.pgsql {
                                                    Some(sofar) => sofar,
                                                    None => Seq::empty(),
                                                }).push(mt),
                                            ),
                                            ..acc
                                        },
                                    );
                                },
                            }
                        } else {
                            lemma_parse_packet_bounds(data, p2, acc);
                        }
                    } else {
                        lemma_parse_packet_bounds(data, p2, acc);
                    }
                },
                _ => {
                    lemma_parse_packet_bounds(data, p2, acc);
                },
            }
        },
    }
}

/// The mathematical reading of the assembler's in-progress state.
pub open spec fn packet_acc_model(
    frame_time: Option<Timestamp>,
    ip_src: Option<String>,
    ip_dst: Option<String>,
    tcp: (TcpSeqNumber, TcpStreamId, NetworkPort, NetworkPort),
    http: Option<TSharkHttp>,
    http2: Option<Vec<TSharkHttp2Message>>,
    pgsql: Option<Vec<PostgresWireMessage>>,
) -> PacketAcc {
    PacketAcc {
        frame_time,
        ip_src: opt_str_view(ip_src),
        ip_dst: opt_str_view(ip_dst),
        tcp,
        http: match http {
            Some(f) => Some(http_fact_model(f)),
            None => None,
        },
        http2: match http2 {
            Some(v) => Some(Seq::new(v@.len(), |i: int| http2_msg_model(v@[i]))),
            None => None,
        },
        pgsql: match pgsql {
            Some(v) => Some(Seq::new(v@.len(), |i: int| opt_str_view(v@[i].message_type))),
            None => None,
        },
    }
}

/// Reads one `<packet>` element end to end, as [`spec_parse_packet`]
/// describes.
#[verifier::loop_isolation(false)]
pub fn parse_packet(cursor: &mut XmlCursor) -> (r: Result<TSharkPacket, ParseError>)
    requires
        old(cursor).wf(),
    ensures
        final(cursor).data == old(cursor).data,
        final(cursor).wf(),
        match r {
            Ok(p) => spec_parse_packet(old(cursor).data@, old(cursor).pos as int, packet_acc_init())
                == Ok::<(PacketModel, int), ParseError>(
                (packet_model(p), final(cursor).pos as int),
            ),
            Err(e) => spec_parse_packet(
                old(cursor).data@,
                old(cursor).pos as int,
                packet_acc_init(),
            ) == Err::<(PacketModel, int), ParseError>(e),
        },
{
    let mut frame_time: Option<Timestamp> = None;
    let mut ip_src: Option<String> = None;
    let mut ip_dst: Option<String> = None;
    let mut tcp = (TcpSeqNumber(0), TcpStreamId(0), NetworkPort(0), NetworkPort(0));
    let mut http: Option<TSharkHttp> = None;
    let mut http2: Option<Vec<TSharkHttp2Message>> = None;
    let mut pgsql: Option<Vec<PostgresWireMessage>> = None;
    loop
        invariant
            cursor.data == old(cursor).data,
            cursor.wf(),
            spec_parse_packet(old(cursor).data@, old(cursor).pos as int, packet_acc_init())
                == spec_parse_packet(
                cursor.data@,
                cursor.pos as int,
                packet_acc_model(frame_time, ip_src, ip_dst, tcp, http, http2, pgsql),
            ),
        decreases cursor.data@.len() - cursor.pos,
    {
        let pre_pos: usize = cursor.offset();
        proof {
            lemma_next_event_progress(cursor.data@, pre_pos as int);
        }
        match cursor.next_event() {
            Err(e) => {
                return Err(e);
            },
            Ok(ev) => match ev {
                XmlEvent::Eof => {
                    return Err(ParseError::UnexpectedEof { offset: cursor.data.len() });
                },
                XmlEvent::End(n) => {
                    if crate::xml::name_is(&n, "packet") {
                        match (ip_src, ip_dst) {
                            (Some(s), Some(d)) => {
                                return Ok(
                                    TSharkPacket {
                                        basic_info: TSharkPacketBasicInfo {
                                            frame_time: match frame_time {
                                                Some(t) => t,
                                                None => Timestamp::epoch(),
                                            },
                                            ip_src: s,
                                            ip_dst: d,
                                            tcp_seq_number: tcp.0,
                                            tcp_stream_id: tcp.1,
                                            port_src: tcp.2,
                                            port_dst: tcp.3,
                                        },
                                        http,
                                        http2,
                                        pgsql,
                                    },
                                );
                            },
                            (s, d) => {
                                ip_src = s;
                                ip_dst = d;
                            },
                        }
                    }
                },
                XmlEvent::Start(t) => {
                    if tag_name_is(&t, "proto") {
                        if field_name_is(&t, "frame") {
                            let ghost sub = cursor.pos as int;
                            proof {
                                lemma_parse_frame_bounds(cursor.data@, sub, None);
                            }
                            match parse_frame_info(cursor) {
                                Err(e) => {
                                    return Err(e);
                                },
                                Ok(ts) => {
                                    if ts.is_some() {
                                        frame_time = ts;
                                    }
                                },
                            }
                        } else if field_name_is(&t, "ip") {
                            if ip_src.is_some() {
                                return Err(ParseError::DuplicateIp { offset: pre_pos });
                            }
                            let ghost sub = cursor.pos as int;
                            proof {
                                lemma_parse_ip_bounds(cursor.data@, sub, None, None);
                            }
                            match parse_ip_info(cursor) {
                                Err(e) => {
                                    return Err(e);
                                },
                                Ok((s, d)) => {
                                    ip_src = s;
                                    ip_dst = d;
                                },
                            }
                        } else if field_name_is(&t, "tcp") {
                            let ghost sub = cursor.pos as int;
                            proof {
                                lemma_parse_tcp_bounds(
                                    cursor.data@,
                                    sub,
                                    (TcpSeqNumber(0), TcpStreamId(0), NetworkPort(0), NetworkPort(0)),
                                );
                            }
                            match parse_tcp_info(cursor) {
                                Err(e) => {
                                    return Err(e);
                                },
                                Ok(acc) => {
                                    tcp = acc;
                                },
                            }
                        } else if field_name_is(&t, "http") {
                            if http.is_some() {
                                return Err(ParseError::Malformed { offset: pre_pos });
                            }
                            let ghost sub = cursor.pos as int;
                            proof {
                                lemma_parse_http_bounds(cursor.data@, sub, http_acc_init());
                            }
                            match parse_http_info(cursor) {
                                Err(e) => {
                                    return Err(e);
                                },
                                Ok(f) => {
                                    http = Some(f);
                                },
                            }
                        } else if field_name_is(&t, "http2") {
                            let ghost sub = cursor.pos as int;
                            let ghost pre_model = packet_acc_model(
                                frame_time,
                                ip_src,
                                ip_dst,
                                tcp,
                                http,
                                http2,
                                pgsql,
                            );
                            proof {
                                lemma_parse_http2_bounds(cursor.data@, sub, Seq::empty());
                            }
                            match parse_http2_info(cursor) {
                                Err(e) => {
                                    return Err(e);
                                },
                                Ok(more) => {
                                    let ghost ms = Seq::new(
                                        more@.len(),
                                        |i: int| http2_msg_model(more@[i]),
                                    );
                                    http2 = match http2 {
                                        Some(sofar) => {
                                            let mut grown = sofar;
                                            let mut tail = more;
                                            grown.append(&mut tail);
                                            Some(grown)
                                        },
                                        None => Some(more),
                                    };
                                    proof {
                                        let now = match &http2 {
                                            Some(v) => Seq::new(
                                                v@.len(),
                                                |i: int| http2_msg_model(v@[i]),
                                            ),
                                            None => Seq::empty(),
                                        };
                                        assert(now =~= (match pre_model.http2 {
                                            Some(sofar) => sofar,
                                            None => Seq::empty(),
                                        }) + ms);
                                    }
                                },
                            }
                        } else if field_name_is(&t, "pgsql") {
                            let ghost sub = cursor.pos as int;
                            let ghost pre_model = packet_acc_model(
                                frame_time,
                                ip_src,
                                ip_dst,
                                tcp,
                                http,
                                http2,
                                pgsql,
                            );
                            proof {
                                lemma_parse_pgsql_bounds(cursor.data@, sub, None);
                            }
                            match parse_pgsql_info(cursor) {
                                Err(e) => {
                                    return Err(e);
                                },
                                Ok(m) => {
                                    let ghost mt = opt_str_view(m.message_type);
                                    pgsql = match pgsql {
                                        Some(sofar) => {
                                            let mut grown = sofar;
                                            grown.push(m);
                                            Some(grown)
                                        },
                                        None => {
                                            let mut fresh: Vec<PostgresWireMessage> = Vec::new();
                                            fresh.push(m);
                                            Some(fresh)
                                        },
                                    };
                                    proof {
                                        let now = match &pgsql {
                                            Some(v) => Seq::new(
                                                v@.len(),
                                                |i: int| opt_str_view(v@[i].message_type),
                                            ),
                                            None => Seq::empty(),
                                        };
                                        assert(now =~= (match pre_model.pgsql {
                                            Some(sofar) => sofar,
                                            None => Seq::empty(),
                                        }).push(mt));
                                    }
                                },
                            }
                        }
                    }
                },
                _ => {},
            },
        }
    }
}

/// Parsing a whole capture document: every `<packet>` element in order,
/// each read by the packet assembler.  A fatal error stops the parse but
/// keeps the packets already assembled — connections reconstructed from
/// them stay usable.
pub open spec fn spec_parse_pdml(data: Seq<u8>, pos: int, acc: Seq<PacketModel>) -> (
    Seq<PacketModel>,
    Option<ParseError>,
)
    decreases data.len() - pos,
{
    if !(0 <= pos <= data.len()) {
        (acc, Some(ParseError::Malformed { offset: 0 }))
    } else {
        match spec_next_event(data, pos) {
            Err(e) => (acc, Some(e)),
            Ok((ev, p2)) => {
                proof {
                    lemma_next_event_progress(data, pos);
                }
                match ev {
                    EventModel::Eof => (acc, None),
                    EventModel::Start(t) => if t.name == lit_bytes("packet") {
                        proof {
                            lemma_parse_packet_bounds(data, p2, packet_acc_init());
                        }
                        match spec_parse_packet(data, p2, packet_acc_init()) {
                            Err(e) => (acc, Some(e)),
                            Ok((pm, p3)) => spec_parse_pdml(data, p3, acc.push(pm)),
                        }
                    } else {
                        spec_parse_pdml(data, p2, acc)
                    },
                    _ => spec_parse_pdml(data, p2, acc),
                }
            },
        }
    }
}

/// Reads a whole capture document into its packets, as
/// [`spec_parse_pdml`] describes: the packets assembled before the input
/// ended or went wrong, and the fatal error if one stopped the parse.
#[verifier::loop_isolation(false)]
pub fn parse_pdml(data: Vec<u8>) -> (r: (Vec<TSharkPacket>, Option<ParseError>))
    ensures
        (Seq::new(r.0@.len(), |i: int| packet_model(r.0@[i])), r.1) == spec_parse_pdml(
            data@,
            0,
            Seq::empty(),
        ),
{
    let ghost data0 = data@;
    let mut cursor = XmlCursor::new(data);
    let mut packets: Vec<TSharkPacket> = Vec::new();
    proof {
        assert(Seq::new(packets@.len(), |i: int| packet_model(packets@[i])) =~= Seq::<
            PacketModel,
        >::empty());
    }
    loop
        invariant
            cursor.wf(),
            cursor.data@ == data0,
            spec_parse_pdml(data0, 0, Seq::empty()) == spec_parse_pdml(
                cursor.data@,
                cursor.pos as int,
                Seq::new(packets@.len(), |i: int| packet_model(packets@[i])),
            ),
        decreases cursor.data@.len() - cursor.pos,
    {
        proof {
            lemma_next_event_progress(cursor.data@, cursor.pos as int);
        }
        match cursor.next_event() {
            Err(e) => {
                return (packets, Some(e));
            },
            Ok(ev) => match ev {
                XmlEvent::Eof => {
                    return (packets, None);
                },
                XmlEvent::Start(t) => {
                    if tag_name_is(&t, "packet") {
                        let ghost sub = cursor.pos as int;
                        let ghost pre = Seq::new(
                            packets@.len(),
                            |i: int| packet_model(packets@[i]),
                        );
                        proof {
                            lemma_parse_packet_bounds(cursor.data@, sub, packet_acc_init());
                        }
                        match parse_packet(&mut cursor) {
                            Err(e) => {
                                return (packets, Some(e));
                            },
                            Ok(p) => {
                                packets.push(p);
                                proof {
                                    assert(Seq::new(
                                        packets@.len(),
                                        |i: int| packet_model(packets@[i]),
                                    ) =~= pre.push(packet_model(packets@.last())));
                                }
                            },
                        }
                    }
                },
                _ => {},
            },
        }
    }
}

} // verus!
