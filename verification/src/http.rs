//! The HTTP/1 protocol fact and its reconstruction.
//!
//! HTTP/1 has no multiplexing: one connection carries at most one open
//! request at a time, and a response observed while none is open still
//! yields a response-only message (its request predates the capture
//! window).  The sub-parser cannot see a message's direction; the
//! reconstructor resolves it by which side of the TCP 4-tuple the packet's
//! source matches.

use crate::ids::NetworkPort;
use crate::message::BodyModel;
use crate::message::ContentEncoding;
use crate::message::HttpBody;
use crate::message::HttpDataModel;
use crate::message::HttpMessageData;
use crate::message::HttpMessageModel;
use crate::message::HttpRequestResponseData;
use crate::message::MessageData;
use crate::message::MessageModel;
use crate::message::StreamData;
use crate::message::StreamModel;
use crate::packet::TSharkPacket;
use crate::packet::TSharkPacketBasicInfo;
use crate::text::opt_str_view;
use crate::xml::EventModel;
use crate::xml::ParseError;
use crate::xml::TagModel;
use crate::xml::XmlCursor;
use crate::xml::XmlEvent;
use crate::xml::attr_value;
use crate::xml::element_attr_val_string;
use crate::xml::field_name_is;
use crate::xml::lemma_next_event_progress;
use crate::xml::lit_bytes;
use crate::xml::name_is;
use crate::xml::spec_attr_string;
use crate::xml::spec_next_event;
use vstd::prelude::*;
use vstd::string::StringExecFns;

verus! {

/// The direction of an HTTP/1 message.  The sub-parser cannot see it; the
/// stream reconstructor resolves it from which side of the TCP 4-tuple the
/// packet's address pair matches.
#[derive(Debug, Clone, Copy, PartialEq, Eq, Structural)]
pub enum HttpType {
    Request,
    Response,
}

/// The HTTP/1 fact of one packet; a packet carries at most one.
#[derive(Debug, PartialEq, Eq)]
pub struct TSharkHttp {
    /// Provisionally `Request`; resolved by the stream reconstructor.
    pub http_type: HttpType,
    /// The `Host` header value, when present.
    pub http_host: Option<String>,
    /// The summary line the capture tool synthesizes for the message.
    pub first_line: String,
    /// The remaining request/status lines, concatenated in encounter order.
    pub other_lines: String,
    /// The message body text, when present.
    pub body: Option<String>,
    pub content_type: Option<String>,
}

/// What an `http` proto block accumulates while its fields stream by.
pub struct HttpAcc {
    pub host: Option<Seq<char>>,
    pub first_line: Option<Seq<char>>,
    pub other_lines: Seq<char>,
    pub body: Option<Seq<char>>,
    pub content_type: Option<Seq<char>>,
}

/// The empty accumulator.
pub open spec fn http_acc_init() -> HttpAcc {
    HttpAcc {
        host: None,
        first_line: None,
        other_lines: Seq::empty(),
        body: None,
        content_type: None,
    }
}

/// One `field` element's effect on the accumulator.  The field's `name`
/// attribute selects its role: the empty name is the summary line the
/// capture tool synthesizes; `http.request.line` values append, in
/// encounter order, to the other-lines text; the rest each fill one slot.
/// A field whose text is unreadable leaves its slot untouched.
pub open spec fn http_field_update(t: TagModel, acc: HttpAcc) -> HttpAcc {
    if attr_value(t, lit_bytes("name")) == Some(lit_bytes("")) {
        HttpAcc { first_line: spec_attr_string(t, lit_bytes("show")), ..acc }
    } else if attr_value(t, lit_bytes("name")) == Some(lit_bytes("http.content_type")) {
        HttpAcc { content_type: spec_attr_string(t, lit_bytes("show")), ..acc }
    } else if attr_value(t, lit_bytes("name")) == Some(lit_bytes("http.host")) {
        HttpAcc { host: spec_attr_string(t, lit_bytes("show")), ..acc }
    } else if attr_value(t, lit_bytes("name")) == Some(lit_bytes("http.request.line")) {
        match spec_attr_string(t, lit_bytes("show")) {
            Some(s) => HttpAcc { other_lines: acc.other_lines + s, ..acc },
            None => acc,
        }
    } else if attr_value(t, lit_bytes("name")) == Some(lit_bytes("http.file_data")) {
        HttpAcc { body: spec_attr_string(t, lit_bytes("show")), ..acc }
    } else {
        acc
    }
}

/// Parsing an `http` proto block from `pos` to its closing `</proto>`.
pub open spec fn spec_parse_http(data: Seq<u8>, pos: int, acc: HttpAcc) -> Result<
    (HttpAcc, int),
    ParseError,
>
    decreases data.len() - pos,
{
    if !(0 <= pos <= data.len()) {
        Err(ParseError::Malformed { offset: 0 })
    } else {
        match spec_next_event(data, pos) {
            Err(e) => Err(e),
            Ok((ev, p2)) => {
                proof {
                    lemma_next_event_progress(data, pos);
                }
                match ev {
                    EventModel::Eof => Err(
                        ParseError::UnexpectedEof { offset: data.len() as usize },
                    ),
                    EventModel::End(n) => if n == lit_bytes("proto") {
                        Ok((acc, p2))
                    } else {
                        spec_parse_http(data, p2, acc)
                    },
                    EventModel::Empty(t) => spec_parse_http(data, p2, http_field_update(t, acc)),
                    _ => spec_parse_http(data, p2, acc),
                }
            },
        }
    }
}

/// An `http` block parse makes progress and stays within bounds.
pub proof fn lemma_parse_http_bounds(data: Seq<u8>, pos: int, acc: HttpAcc)
    requires
        0 <= pos <= data.len(),
    ensures
        match spec_parse_http(data, pos, acc) {
            Ok((_, p2)) => pos < p2 <= data.len(),
            Err(_) => true,
        },
    decreases data.len() - pos,
{
    match spec_next_event(data, pos) {
        Err(_) => {},
        Ok((ev, p2)) => {
            lemma_next_event_progress(data, pos);
            match ev {
                EventModel::Eof => {},
                EventModel::End(n) => {
                    if n != lit_bytes("proto") {
                        lemma_parse_http_bounds(data, p2, acc);
                    }
                },
                EventModel::Empty(t) => {
                    lemma_parse_http_bounds(data, p2, http_field_update(t, acc));
                },
                _ => {
                    lemma_parse_http_bounds(data, p2, acc);
                },
            }
        },
    }
}

/// The fact a finished `http` block yields: a missing summary line
/// becomes the empty string, and the direction is provisionally
/// `Request` until the stream reconstructor resolves it.
pub open spec fn http_fact_of_acc(acc: HttpAcc) -> HttpFactModel {
    HttpFactModel {
        http_host: acc.host,
        first_line: match acc.first_line {
            Some(s) => s,
            None => Seq::empty(),
        },
        other_lines: acc.other_lines,
        body: acc.body,
        content_type: acc.content_type,
    }
}

/// The mathematical shape of an HTTP/1 fact.
pub struct HttpFactModel {
    pub http_host: Option<Seq<char>>,
    pub first_line: Seq<char>,
    pub other_lines: Seq<char>,
    pub body: Option<Seq<char>>,
    pub content_type: Option<Seq<char>>,
}

/// The mathematical reading of an HTTP/1 fact value.
pub open spec fn http_fact_model(f: TSharkHttp) -> HttpFactModel {
    HttpFactModel {
        http_host: opt_str_view(f.http_host),
        first_line: f.first_line@,
        other_lines: f.other_lines@,
        body: opt_str_view(f.body),
        content_type: opt_str_view(f.content_type),
    }
}

/// Reads an `http` proto block into one HTTP/1 fact, as
/// [`spec_parse_http`] describes.
#[verifier::loop_isolation(false)]
pub fn parse_http_info(cursor: &mut XmlCursor) -> (r: Result<TSharkHttp, ParseError>)
    requires
        old(cursor).wf(),
    ensures
        final(cursor).data == old(cursor).data,
        final(cursor).wf(),
        match r {
            Ok(f) => ({
                &&& spec_parse_http(old(cursor).data@, old(cursor).pos as int, http_acc_init())
                    matches Ok((acc, p2))
                &&& http_fact_model(f) == http_fact_of_acc(acc)
                &&& final(cursor).pos as int == p2
                &&& f.http_type == HttpType::Request
            }),
            Err(e) => spec_parse_http(old(cursor).data@, old(cursor).pos as int, http_acc_init())
                == Err::<(HttpAcc, int), ParseError>(e),
        },
{
    let mut http_host: Option<String> = None;
    let mut first_line: Option<String> = None;
    let mut other_lines: String = String::new();
    let mut body: Option<String> = None;
    let mut content_type: Option<String> = None;
    loop
        invariant
            cursor.data == old(cursor).data,
            cursor.wf(),
            spec_parse_http(old(cursor).data@, old(cursor).pos as int, http_acc_init())
                == spec_parse_http(
                cursor.data@,
                cursor.pos as int,
                HttpAcc {
                    host: opt_str_view(http_host),
                    first_line: opt_str_view(first_line),
                    other_lines: other_lines@,
                    body: opt_str_view(body),
                    content_type: opt_str_view(content_type),
                },
            ),
        decreases cursor.data@.len() - cursor.pos,
    {
        proof {
            lemma_next_event_progress(cursor.data@, cursor.pos as int);
        }
        match cursor.next_event() {
            Err(e) => {
                return Err(e);
            },
            Ok(ev) => match ev {
                XmlEvent::Eof => {
                    return Err(ParseError::UnexpectedEof { offset: cursor.data.len() });
                },
                XmlEvent::End(n) => {
                    if name_is(&n, "proto") {
                        return Ok(
                            TSharkHttp {
                                http_type: HttpType::Request,
                                http_host,
                                first_line: match first_line {
                                    Some(s) => s,
                                    None => String::new(),
                                },
                                other_lines,
                                body,
                                content_type,
                            },
                        );
                    }
                },
                XmlEvent::Empty(t) => {
                    if field_name_is(&t, "") {
                        first_line = element_attr_val_string(&t, "show".as_bytes());
                    } else if field_name_is(&t, "http.content_type") {
                        content_type = element_attr_val_string(&t, "show".as_bytes());
                    } else if field_name_is(&t, "http.host") {
                        http_host = element_attr_val_string(&t, "show".as_bytes());
                    } else if field_name_is(&t, "http.request.line") {
                        match element_attr_val_string(&t, "show".as_bytes()) {
                            Some(s) => other_lines.append(s.as_str()),
                            None => {},
                        }
                    } else if field_name_is(&t, "http.file_data") {
                        body = element_attr_val_string(&t, "show".as_bytes());
                    }
                },
                _ => {},
            },
        }
    }
}

/// The message an HTTP/1 fact becomes, stamped with its packet's
/// addressing facts.  The upstream fact carries no structured header list,
/// so the header list is empty and no content encoding is announced.
pub open spec fn spec_http1_data(f: TSharkHttp, info: TSharkPacketBasicInfo) -> HttpDataModel {
    HttpDataModel {
        tcp_stream_no: info.tcp_stream_id,
        tcp_seq_number: info.tcp_seq_number,
        timestamp: info.frame_time,
        first_line: f.first_line@,
        content_type: match f.content_type {
            Some(c) => Some(c@),
            None => None,
        },
        headers: Seq::empty(),
        body: match f.body {
            Some(b) => BodyModel::Text(b@),
            None => BodyModel::Missing,
        },
        content_encoding: ContentEncoding::Plain,
    }
}

/// A packet speaks for the server exactly when its source matches the
/// connection's currently resolved server address and port; such a packet
/// carries a response, any other an HTTP request.
pub open spec fn spec_http1_direction(
    server_ip: Seq<char>,
    server_port: NetworkPort,
    info: TSharkPacketBasicInfo,
) -> HttpType {
    if info.ip_src@ == server_ip && info.port_src == server_port {
        HttpType::Response
    } else {
        HttpType::Request
    }
}

/// The HTTP/1 reconstructor's state while it walks a connection.
#[verifier::ext_equal]
pub struct Http1ReconModel {
    pub server_ip: Seq<char>,
    pub client_ip: Seq<char>,
    pub server_port: NetworkPort,
    /// The open request waiting for its response, if any.
    pub pending: Option<HttpDataModel>,
    pub summary_details: Option<Seq<char>>,
    pub messages: Seq<MessageModel>,
}

/// The state after the first packet seeds the connection roles.
pub open spec fn http1_init(first: TSharkPacketBasicInfo) -> Http1ReconModel {
    Http1ReconModel {
        server_ip: first.ip_dst@,
        client_ip: first.ip_src@,
        server_port: first.port_dst,
        pending: None,
        summary_details: None,
        messages: Seq::empty(),
    }
}

/// One HTTP/1 fact's effect on the reconstruction state.  A request opens
/// (or replaces) the pending slot, feeds the first non-empty `Host` value
/// into the connection summary and re-marks the packet's destination as the
/// server; a response closes the pending request (if any) into one
/// emitted message and re-marks the packet's source as the server.  Role
/// updates are last-write-wins, by most-recent evidence.
pub open spec fn http1_step(
    st: Http1ReconModel,
    info: TSharkPacketBasicInfo,
    f: TSharkHttp,
) -> Http1ReconModel {
    let d = spec_http1_data(f, info);
    if spec_http1_direction(st.server_ip, st.server_port, info) == HttpType::Response {
        Http1ReconModel {
            server_ip: info.ip_src@,
            client_ip: info.ip_dst@,
            server_port: info.port_src,
            pending: None,
            summary_details: st.summary_details,
            messages: st.messages.push(
                MessageModel::Http(HttpMessageModel { request: st.pending, response: Some(d) }),
            ),
        }
    } else {
        Http1ReconModel {
            server_ip: info.ip_dst@,
            client_ip: info.ip_src@,
            server_port: info.port_dst,
            pending: Some(d),
            summary_details: if st.summary_details is None {
                match f.http_host {
                    Some(h) => if h@.len() > 0 {
                        Some(h@)
                    } else {
                        None
                    },
                    None => None,
                }
            } else {
                st.summary_details
            },
            messages: st.messages,
        }
    }
}

/// The state after the first `i` packets; packets without an HTTP/1 fact
/// pass through untouched.
pub open spec fn http1_fold(pkts: Seq<TSharkPacket>, i: int, init: Http1ReconModel) -> (
    Http1ReconModel
)
    decreases i,
{
    if i <= 0 {
        init
    } else {
        let prev = http1_fold(pkts, i - 1, init);
        match pkts[i - 1].http {
            Some(f) => http1_step(prev, pkts[i - 1].basic_info, f),
            None => prev,
        }
    }
}

/// The reconstruction of one HTTP/1 connection: the folded state, plus a
/// request-only message for a request still open when the capture ended.
pub open spec fn spec_parse_stream_http1(pkts: Seq<TSharkPacket>) -> StreamModel
    recommends
        pkts.len() > 0,
{
    let fin = http1_fold(pkts, pkts.len() as int, http1_init(pkts[0].basic_info));
    StreamModel {
        server_ip: fin.server_ip,
        server_port: fin.server_port,
        client_ip: fin.client_ip,
        messages: match fin.pending {
            Some(d) => fin.messages.push(
                MessageModel::Http(HttpMessageModel { request: Some(d), response: None }),
            ),
            None => fin.messages,
        },
        summary_details: fin.summary_details,
    }
}

/// Pairing law: a response closes the open request, if one is pending,
/// into a single emitted message carrying both halves; everything already
/// emitted stays in place.
pub proof fn lemma_http1_response_pairs(
    st: Http1ReconModel,
    info: TSharkPacketBasicInfo,
    f: TSharkHttp,
)
    requires
        spec_http1_direction(st.server_ip, st.server_port, info) == HttpType::Response,
    ensures
        http1_step(st, info, f).messages == st.messages.push(
            MessageModel::Http(
                HttpMessageModel { request: st.pending, response: Some(spec_http1_data(f, info)) },
            ),
        ),
        http1_step(st, info, f).pending is None,
        http1_step(st, info, f).server_ip == info.ip_src@,
{
}

/// Builds one side of a reconstructed message from an HTTP/1 fact.
fn http1_data(f: TSharkHttp, info: &TSharkPacketBasicInfo) -> (r: HttpRequestResponseData)
    ensures
        r@ == spec_http1_data(f, *info),
{
    HttpRequestResponseData {
        tcp_stream_no: info.tcp_stream_id,
        tcp_seq_number: info.tcp_seq_number,
        timestamp: info.frame_time,
        first_line: f.first_line,
        content_type: f.content_type,
        headers: Vec::new(),
        body: match f.body {
            Some(b) => HttpBody::Text(b),
            None => HttpBody::Missing,
        },
        content_encoding: ContentEncoding::Plain,
    }
}

/// The HTTP/1 reconstruction strategy.
pub struct Http;

impl Http {
    /// Whether a packet belongs to this strategy: it carries an HTTP/1
    /// fact.
    pub fn is_my_message(&self, msg: &TSharkPacket) -> (r: bool)
        ensures
            r == (msg.http is Some),
    {
        msg.http.is_some()
    }

    /// Reconstructs one connection's ordered packets into its
    /// [`StreamData`], as [`spec_parse_stream_http1`] describes.
    #[verifier::loop_isolation(false)]
    pub fn parse_stream(&self, stream: Vec<TSharkPacket>) -> (r: StreamData)
        requires
            stream@.len() > 0,
        ensures
            r@ == spec_parse_stream_http1(stream@),
    {
        let ghost pkts0 = stream@;
        let mut server_ip = stream[0].basic_info.ip_dst.clone();
        let mut client_ip = stream[0].basic_info.ip_src.clone();
        let mut server_port = stream[0].basic_info.port_dst;
        let mut pending: Option<HttpRequestResponseData> = None;
        let mut summary_details: Option<String> = None;
        let mut messages: Vec<MessageData> = Vec::new();
        let mut pkts = stream;
        let ghost mut i: int = 0;
        while pkts.len() > 0
            invariant
                0 <= i <= pkts0.len(),
                pkts@ =~= pkts0.subrange(i, pkts0.len() as int),
                ({
                    let st = http1_fold(pkts0, i, http1_init(pkts0[0].basic_info));
                    &&& server_ip@ == st.server_ip
                    &&& client_ip@ == st.client_ip
                    &&& server_port == st.server_port
                    &&& (match pending {
                        Some(d) => Some(d@),
                        None => None,
                    }) == st.pending
                    &&& (match summary_details {
                        Some(s) => Some(s@),
                        None => None,
                    }) == st.summary_details
                    &&& Seq::new(messages@.len(), |t: int| messages@[t]@) =~= st.messages
                }),
            decreases pkts@.len(),
        {
            let p = pkts.remove(0);
            assert(p == pkts0[i]);
            let info = p.basic_info;
            if let Some(f) = p.http {
                let is_response = info.ip_src == server_ip && info.port_src == server_port;
                let host: Option<String> = match &f.http_host {
                    Some(h) => {
                        if h.as_str().is_empty() {
                            None
                        } else {
                            Some(h.clone())
                        }
                    },
                    None => None,
                };
                let d = http1_data(f, &info);
                if is_response {
                    server_ip = info.ip_src;
                    client_ip = info.ip_dst;
                    server_port = info.port_src;
                    let req = pending.take();
                    messages.push(
                        MessageData::Http(HttpMessageData { request: req, response: Some(d) }),
                    );
                } else {
                    if summary_details.is_none() {
                        summary_details = host;
                    }
                    server_ip = info.ip_dst;
                    client_ip = info.ip_src;
                    server_port = info.port_dst;
                    pending = Some(d);
                }
            }
            proof {
                i = i + 1;
                let st = http1_fold(pkts0, i, http1_init(pkts0[0].basic_info));
                assert(Seq::new(messages@.len(), |t: int| messages@[t]@) =~= st.messages);
            }
        }
        match pending {
            Some(d) => {
                messages.push(
                    MessageData::Http(HttpMessageData { request: Some(d), response: None }),
                );
            },
            None => {},
        }
        let result = StreamData { server_ip, server_port, client_ip, messages, summary_details };
        proof {
            assert(result@ =~= spec_parse_stream_http1(pkts0));
        }
        result
    }
}

} // verus!
