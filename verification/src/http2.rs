//! The HTTP/2 protocol facts and their reconstruction.
//!
//! One TCP segment may carry several HTTP/2 frames, each belonging to a
//! logical (multiplexed) stream scoped to the owning TCP connection.  The
//! reconstructor regroups the fragments by logical stream, folds each group
//! into messages at end-of-stream boundaries, classifies the messages by
//! the `:status` pseudo-header, and pairs requests with responses.

use crate::assoc::assoc_insert;
use crate::assoc::assoc_map;
use crate::assoc::assoc_remove;
use crate::assoc::assoc_unique;
use crate::ids::NetworkPort;
use crate::ids::TcpSeqNumber;
use crate::ids::TcpStreamId;
use crate::message::HttpMessageData;
use crate::message::HttpMessageModel;
use crate::message::MessageData;
use crate::message::MessageModel;
use crate::message::StreamData;
use crate::message::StreamModel;
use crate::packet::TSharkPacket;
use crate::packet::TSharkPacketBasicInfo;
use crate::packet::clone_basic_info;
use crate::xml::EventModel;
use crate::xml::ParseError;
use crate::xml::TagModel;
use crate::xml::XmlCursor;
use crate::xml::XmlEvent;
use crate::xml::attr_value;
use crate::xml::element_attr_val_bytes;
use crate::xml::element_attr_val_number;
use crate::xml::element_attr_val_string;
use crate::xml::field_name_is;
use crate::xml::lemma_next_event_progress;
use crate::xml::lit_bytes;
use crate::xml::name_is;
use crate::xml::spec_attr_number;
use crate::xml::spec_attr_string;
use crate::xml::spec_next_event;
use crate::message::BodyModel;
use crate::message::ContentEncoding;
use crate::message::HttpBody;
use crate::message::HttpDataModel;
use crate::message::HttpRequestResponseData;
use crate::message::spec_header_value;
use crate::message::get_http_header_value;
use crate::text::utf8_is_valid;
use crate::text::utf8_to_string;
use crate::time::Timestamp;
use vstd::prelude::*;
use vstd::string::StringExecFns;
use vstd::utf8::decode_utf8;
use vstd::utf8::valid_utf8;

verus! {

/// One HTTP/2 frame's data payload, tagged with how it merges with the
/// other fragments of its logical stream.
#[derive(Debug, PartialEq, Eq)]
pub enum Http2Data {
    /// A raw frame fragment: concatenated after the fragments before it.
    BasicData(Vec<u8>),
    /// A payload the capture tool already reassembled itself: it replaces
    /// whatever was accumulated before it, and is never appended.
    RecomposedData(Vec<u8>),
}

/// One HTTP/2 frame's contribution to its logical stream.
#[derive(Debug, PartialEq, Eq)]
pub struct TSharkHttp2Message {
    /// The multiplexed stream identifier, scoped to the TCP connection.
    pub stream_id: u32,
    /// Ordered header name/value pairs; duplicates allowed.
    pub headers: Vec<(String, String)>,
    /// The end-of-logical-stream flag as the capture tool reported it.
    pub is_end_stream: bool,
    pub data: Option<Http2Data>,
}

/// Whether a folded message is a request or a response.
#[derive(Debug, Clone, Copy, PartialEq, Eq, Structural)]
pub enum MsgType {
    Request,
    Response,
}

/// The mathematical shape of one frame's payload.
pub enum Http2DataModel {
    Basic(Seq<u8>),
    Recomposed(Seq<u8>),
}

/// The mathematical shape of one HTTP/2 fact.
pub struct Http2MsgModel {
    pub stream_id: u32,
    pub headers: Seq<(Seq<char>, Seq<char>)>,
    pub is_end_stream: bool,
    pub data: Option<Http2DataModel>,
}

/// The mathematical reading of an HTTP/2 fact value.
pub open spec fn http2_msg_model(m: TSharkHttp2Message) -> Http2MsgModel {
    Http2MsgModel {
        stream_id: m.stream_id,
        headers: Seq::new(m.headers@.len(), |i: int| (m.headers@[i].0@, m.headers@[i].1@)),
        is_end_stream: m.is_end_stream,
        data: match m.data {
            Some(Http2Data::BasicData(v)) => Some(Http2DataModel::Basic(v@)),
            Some(Http2Data::RecomposedData(v)) => Some(Http2DataModel::Recomposed(v@)),
            None => None,
        },
    }
}

/// A fact before any of its fields were read.
pub open spec fn http2_msg_init() -> Http2MsgModel {
    Http2MsgModel { stream_id: 0, headers: Seq::empty(), is_end_stream: false, data: None }
}

/// Parsing one `http2.header` element: the last `http2.header.name` and
/// `http2.header.value` field texts, up to the element's end tag.
pub open spec fn spec_parse_h2_header(
    data: Seq<u8>,
    pos: int,
    hn: Option<Seq<char>>,
    hv: Option<Seq<char>>,
) -> Result<((Option<Seq<char>>, Option<Seq<char>>), int), ParseError>
    decreases data.len() - pos,
{
    if !(0 <= pos <= data.len()) {
        Err(ParseError::Malformed { offset: 0 })
    } else {
        match spec_next_event(data, pos) {
            Err(e) => Err(e),
            Ok((ev, p2)) => {
                proof {
                    lemma_next_event_progress(data, pos);
                }
                match ev {
                    EventModel::Eof => Err(
                        ParseError::UnexpectedEof { offset: data.len() as usize },
                    ),
                    EventModel::End(_) => Ok(((hn, hv), p2)),
                    EventModel::Empty(t) => if attr_value(t, lit_bytes("name")) == Some(
                        lit_bytes("http2.header.name"),
                    ) {
                        spec_parse_h2_header(data, p2, spec_attr_string(t, lit_bytes("show")), hv)
                    } else if attr_value(t, lit_bytes("name")) == Some(
                        lit_bytes("http2.header.value"),
                    ) {
                        spec_parse_h2_header(data, p2, hn, spec_attr_string(t, lit_bytes("show")))
                    } else {
                        spec_parse_h2_header(data, p2, hn, hv)
                    },
                    _ => spec_parse_h2_header(data, p2, hn, hv),
                }
            },
        }
    }
}

/// A header-element parse makes progress and stays within bounds.
pub proof fn lemma_parse_h2_header_bounds(
    data: Seq<u8>,
    pos: int,
    hn: Option<Seq<char>>,
    hv: Option<Seq<char>>,
)
    requires
        0 <= pos <= data.len(),
    ensures
        match spec_parse_h2_header(data, pos, hn, hv) {
            Ok((_, p2)) => pos < p2 <= data.len(),
            Err(_) => true,
        },
    decreases data.len() - pos,
{
    match spec_next_event(data, pos) {
        Err(_) => {},
        Ok((ev, p2)) => {
            lemma_next_event_progress(data, pos);
            match ev {
                EventModel::Eof => {},
                EventModel::End(_) => {},
                EventModel::Empty(t) => {
                    if attr_value(t, lit_bytes("name")) == Some(lit_bytes("http2.header.name")) {
                        lemma_parse_h2_header_bounds(
                            data,
                            p2,
                            spec_attr_string(t, lit_bytes("show")),
                            hv,
                        );
                    } else if attr_value(t, lit_bytes("name")) == Some(
                        lit_bytes("http2.header.value"),
                    ) {
                        lemma_parse_h2_header_bounds(
                            data,
                            p2,
                            hn,
                            spec_attr_string(t, lit_bytes("show")),
                        );
                    } else {
                        lemma_parse_h2_header_bounds(data, p2, hn, hv);
                    }
                },
                _ => {
                    lemma_parse_h2_header_bounds(data, p2, hn, hv);
                },
            }
        },
    }
}

/// One `field` element's effect on the fact being read: `http2.streamid`
/// sets the logical stream, `http2.flags.end_stream` is set exactly by
/// the text `1`, `http2.data.data` starts a raw payload fragment and
/// `http2.body.reassembled.data` a payload the capture tool already
/// reassembled.
pub open spec fn h2_msg_field_update(t: TagModel, acc: Http2MsgModel) -> Http2MsgModel {
    if attr_value(t, lit_bytes("name")) == Some(lit_bytes("http2.streamid")) {
        match spec_attr_number(t, lit_bytes("show"), 0xFFFF_FFFF) {
            Some(x) => Http2MsgModel { stream_id: x as u32, ..acc },
            None => acc,
        }
    } else if attr_value(t, lit_bytes("name")) == Some(lit_bytes("http2.flags.end_stream")) {
        Http2MsgModel {
            is_end_stream: spec_attr_string(t, lit_bytes("show")) == Some("1"@),
            ..acc
        }
    } else if attr_value(t, lit_bytes("name")) == Some(lit_bytes("http2.data.data")) {
        match attr_value(t, lit_bytes("show")) {
            Some(v) => Http2MsgModel { data: Some(Http2DataModel::Basic(v)), ..acc },
            None => acc,
        }
    } else if attr_value(t, lit_bytes("name")) == Some(
        lit_bytes("http2.body.reassembled.data"),
    ) {
        match attr_value(t, lit_bytes("show")) {
            Some(v) => Http2MsgModel { data: Some(Http2DataModel::Recomposed(v)), ..acc },
            None => acc,
        }
    } else {
        acc
    }
}

/// Parsing one `http2.stream` element — one frame's fact — up to the
/// element's end tag.  A nested `http2.header` element contributes one
/// header pair when both its name and value are readable.
pub open spec fn spec_parse_h2_msg(data: Seq<u8>, pos: int, acc: Http2MsgModel) -> Result<
    (Http2MsgModel, int),
    ParseError,
>
    decreases data.len() - pos,
{
    if !(0 <= pos <= data.len()) {
        Err(ParseError::Malformed { offset: 0 })
    } else {
        match spec_next_event(data, pos) {
            Err(e) => Err(e),
            Ok((ev, p2)) => {
                proof {
                    lemma_next_event_progress(data, pos);
                }
                match ev {
                    EventModel::Eof => Err(
                        ParseError::UnexpectedEof { offset: data.len() as usize },
                    ),
                    EventModel::End(_) => Ok((acc, p2)),
                    EventModel::Empty(t) => spec_parse_h2_msg(data, p2, h2_msg_field_update(t, acc)),
                    EventModel::Start(t) => if attr_value(t, lit_bytes("name")) == Some(
                        lit_bytes("http2.header"),
                    ) {
                        proof {
                            lemma_parse_h2_header_bounds(data, p2, None, None);
                        }
                        match spec_parse_h2_header(data, p2, None, None) {
                            Err(e) => Err(e),
                            Ok(((hn, hv), p3)) => spec_parse_h2_msg(
                                data,
                                p3,
                                match (hn, hv) {
                                    (Some(n), Some(v)) => Http2MsgModel {
                                        headers: acc.headers.push((n, v)),
                                        ..acc
                                    },
                                    _ => acc,
                                },
                            ),
                        }
                    } else {
                        spec_parse_h2_msg(data, p2, acc)
                    },
                    _ => spec_parse_h2_msg(data, p2, acc),
                }
            },
        }
    }
}

/// A frame-fact parse makes progress and stays within bounds.
pub proof fn lemma_parse_h2_msg_bounds(data: Seq<u8>, pos: int, acc: Http2MsgModel)
    requires
        0 <= pos <= data.len(),
    ensures
        match spec_parse_h2_msg(data, pos, acc) {
            Ok((_, p2)) => pos < p2 <= data.len(),
            Err(_) => true,
        },
    decreases data.len() - pos,
{
    match spec_next_event(data, pos) {
        Err(_) => {},
        Ok((ev, p2)) => {
            lemma_next_event_progress(data, pos);
            match ev {
                EventModel::Eof => {},
                EventModel::End(_) => {},
                EventModel::Empty(t) => {
                    lemma_parse_h2_msg_bounds(data, p2, h2_msg_field_update(t, acc));
                },
                EventModel::Start(t) => {
                    if attr_value(t, lit_bytes("name")) == Some(lit_bytes("http2.header")) {
                        lemma_parse_h2_header_bounds(data, p2, None, None);
                        match spec_parse_h2_header(data, p2, None, None) {
                            Err(_) => {},
                            Ok(((hn, hv), p3)) => {
                                lemma_parse_h2_msg_bounds(
                                    data,
                                    p3,
                                    match (hn, hv) {
                                        (Some(n), Some(v)) => Http2MsgModel {
                                            headers: acc.headers.push((n, v)),
                                            ..acc
                                        },
                                        _ => acc,
                                    },
                                );
                            },
                        }
                    } else {
                        lemma_parse_h2_msg_bounds(data, p2, acc);
                    }
                },
                _ => {
                    lemma_parse_h2_msg_bounds(data, p2, acc);
                },
            }
        },
    }
}

/// Parsing an `http2` proto block from `pos` to its closing `</proto>`:
/// zero or more frame facts, one per `http2.stream` element, in document
/// order.
pub open spec fn spec_parse_http2(data: Seq<u8>, pos: int, acc: Seq<Http2MsgModel>) -> Result<
    (Seq<Http2MsgModel>, int),
    ParseError,
>
    decreases data.len() - pos,
{
    if !(0 <= pos <= data.len()) {
        Err(ParseError::Malformed { offset: 0 })
    } else {
        match spec_next_event(data, pos) {
            Err(e) => Err(e),
            Ok((ev, p2)) => {
                proof {
                    lemma_next_event_progress(data, pos);
                }
                match ev {
                    EventModel::Eof => Err(
                        ParseError::UnexpectedEof { offset: data.len() as usize },
                    ),
                    EventModel::End(n) => if n == lit_bytes("proto") {
                        Ok((acc, p2))
                    } else {
                        spec_parse_http2(data, p2, acc)
                    },
                    EventModel::Start(t) => if attr_value(t, lit_bytes("name")) == Some(
                        lit_bytes("http2.stream"),
                    ) {
                        proof {
                            lemma_parse_h2_msg_bounds(data, p2, http2_msg_init());
                        }
                        match spec_parse_h2_msg(data, p2, http2_msg_init()) {
                            Err(e) => Err(e),
                            Ok((m, p3)) => spec_parse_http2(data, p3, acc.push(m)),
                        }
                    } else {
                        spec_parse_http2(data, p2, acc)
                    },
                    _ => spec_parse_http2(data, p2, acc),
                }
            },
        }
    }
}

/// An `http2` block parse makes progress and stays within bounds.
pub proof fn lemma_parse_http2_bounds(data: Seq<u8>, pos: int, acc: Seq<Http2MsgModel>)
    requires
        0 <= pos <= data.len(),
    ensures
        match spec_parse_http2(data, pos, acc) {
            Ok((_, p2)) => pos < p2 <= data.len(),
            Err(_) => true,
        },
    decreases data.len() - pos,
{
    match spec_next_event(data, pos) {
        Err(_) => {},
        Ok((ev, p2)) => {
            lemma_next_event_progress(data, pos);
            match ev {
                EventModel::Eof => {},
                EventModel::End(n) => {
                    if n != lit_bytes("proto") {
                        lemma_parse_http2_bounds(data, p2, acc);
                    }
                },
                EventModel::Start(t) => {
                    if attr_value(t, lit_bytes("name")) == Some(lit_bytes("http2.stream")) {
                        lemma_parse_h2_msg_bounds(data, p2, http2_msg_init());
                        match spec_parse_h2_msg(data, p2, http2_msg_init()) {
                            Err(_) => {},
                            Ok((m, p3)) => {
                                lemma_parse_http2_bounds(data, p3, acc.push(m));
                            },
                        }
                    } else {
                        lemma_parse_http2_bounds(data, p2, acc);
                    }
                },
                _ => {
                    lemma_parse_http2_bounds(data, p2, acc);
                },
            }
        },
    }
}

/// Reads one `http2.header` element, as [`spec_parse_h2_header`]
/// describes.
#[verifier::loop_isolation(false)]
fn parse_http2_header(cursor: &mut XmlCursor) -> (r: Result<
    (Option<String>, Option<String>),
    ParseError,
>)
    requires
        old(cursor).wf(),
    ensures
        final(cursor).data == old(cursor).data,
        final(cursor).wf(),
        match r {
            Ok(pair) => spec_parse_h2_header(old(cursor).data@, old(cursor).pos as int, None, None)
                == Ok::<((Option<Seq<char>>, Option<Seq<char>>), int), ParseError>(
                (
                    (crate::text::opt_str_view(pair.0), crate::text::opt_str_view(pair.1)),
                    final(cursor).pos as int,
                ),
            ),
            Err(e) => spec_parse_h2_header(old(cursor).data@, old(cursor).pos as int, None, None)
                == Err::<((Option<Seq<char>>, Option<Seq<char>>), int), ParseError>(e),
        },
{
    let mut hn: Option<String> = None;
    let mut hv: Option<String> = None;
    loop
        invariant
            cursor.data == old(cursor).data,
            cursor.wf(),
            spec_parse_h2_header(old(cursor).data@, old(cursor).pos as int, None, None)
                == spec_parse_h2_header(
                cursor.data@,
                cursor.pos as int,
                crate::text::opt_str_view(hn),
                crate::text::opt_str_view(hv),
            ),
        decreases cursor.data@.len() - cursor.pos,
    {
        proof {
            lemma_next_event_progress(cursor.data@, cursor.pos as int);
        }
        match cursor.next_event() {
            Err(e) => {
                return Err(e);
            },
            Ok(ev) => match ev {
                XmlEvent::Eof => {
                    return Err(ParseError::UnexpectedEof { offset: cursor.data.len() });
                },
                XmlEvent::End(_) => {
                    return Ok((hn, hv));
                },
                XmlEvent::Empty(t) => {
                    if field_name_is(&t, "http2.header.name") {
                        hn = element_attr_val_string(&t, "show".as_bytes());
                    } else if field_name_is(&t, "http2.header.value") {
                        hv = element_attr_val_string(&t, "show".as_bytes());
                    }
                },
                _ => {},
            },
        }
    }
}

/// Reads one `http2.stream` element into one frame fact, as
/// [`spec_parse_h2_msg`] describes.
#[verifier::loop_isolation(false)]
fn parse_http2_msg(cursor: &mut XmlCursor) -> (r: Result<TSharkHttp2Message, ParseError>)
    requires
        old(cursor).wf(),
    ensures
        final(cursor).data == old(cursor).data,
        final(cursor).wf(),
        match r {
            Ok(m) => spec_parse_h2_msg(old(cursor).data@, old(cursor).pos as int, http2_msg_init())
                == Ok::<(Http2MsgModel, int), ParseError>(
                (http2_msg_model(m), final(cursor).pos as int),
            ),
            Err(e) => spec_parse_h2_msg(old(cursor).data@, old(cursor).pos as int, http2_msg_init())
                == Err::<(Http2MsgModel, int), ParseError>(e),
        },
{
    let mut msg = TSharkHttp2Message {
        stream_id: 0,
        headers: Vec::new(),
        is_end_stream: false,
        data: None,
    };
    proof {
        assert(http2_msg_model(msg).headers =~= http2_msg_init().headers);
    }
    loop
        invariant
            cursor.data == old(cursor).data,
            cursor.wf(),
            spec_parse_h2_msg(old(cursor).data@, old(cursor).pos as int, http2_msg_init())
                == spec_parse_h2_msg(cursor.data@, cursor.pos as int, http2_msg_model(msg)),
        decreases cursor.data@.len() - cursor.pos,
    {
        proof {
            lemma_next_event_progress(cursor.data@, cursor.pos as int);
        }
        match cursor.next_event() {
            Err(e) => {
                return Err(e);
            },
            Ok(ev) => match ev {
                XmlEvent::Eof => {
                    return Err(ParseError::UnexpectedEof { offset: cursor.data.len() });
                },
                XmlEvent::End(_) => {
                    return Ok(msg);
                },
                XmlEvent::Empty(t) => {
                    let ghost pre = http2_msg_model(msg);
                    if field_name_is(&t, "http2.streamid") {
                        match element_attr_val_number(&t, "show".as_bytes()) {
                            Some(x) => {
                                msg.stream_id = x;
                            },
                            None => {},
                        }
                    } else if field_name_is(&t, "http2.flags.end_stream") {
                        let one: String = "1".to_owned();
                        msg.is_end_stream = match element_attr_val_string(&t, "show".as_bytes()) {
                            Some(s) => s == one,
                            None => false,
                        };
                    } else if field_name_is(&t, "http2.data.data") {
                        match element_attr_val_bytes(&t, "show".as_bytes()) {
                            Some(v) => {
                                msg.data = Some(Http2Data::BasicData(v));
                            },
                            None => {},
                        }
                    } else if field_name_is(&t, "http2.body.reassembled.data") {
                        match element_attr_val_bytes(&t, "show".as_bytes()) {
                            Some(v) => {
                                msg.data = Some(Http2Data::RecomposedData(v));
                            },
                            None => {},
                        }
                    }
                    proof {
                        assert(http2_msg_model(msg).headers =~= h2_msg_field_update(
                            t@,
                            pre,
                        ).headers);
                        assert(http2_msg_model(msg) == h2_msg_field_update(t@, pre));
                    }
                },
                XmlEvent::Start(t) => {
                    if field_name_is(&t, "http2.header") {
                        let ghost pre = http2_msg_model(msg);
                        let ghost sub_pos = cursor.pos as int;
                        proof {
                            lemma_parse_h2_header_bounds(cursor.data@, sub_pos, None, None);
                        }
                        match parse_http2_header(cursor) {
                            Err(e) => {
                                return Err(e);
                            },
                            Ok((hn, hv)) => {
                                match (hn, hv) {
                                    (Some(n), Some(v)) => {
                                        msg.headers.push((n, v));
                                        proof {
                                            assert(http2_msg_model(msg).headers
                                                =~= pre.headers.push((n@, v@)));
                                        }
                                    },
                                    _ => {},
                                }
                            },
                        }
                    }
                },
                _ => {},
            },
        }
    }
}

/// Reads an `http2` proto block into its frame facts, as
/// [`spec_parse_http2`] describes.
#[verifier::loop_isolation(false)]
pub fn parse_http2_info(cursor: &mut XmlCursor) -> (r: Result<
    Vec<TSharkHttp2Message>,
    ParseError,
>)
    requires
        old(cursor).wf(),
    ensures
        final(cursor).data == old(cursor).data,
        final(cursor).wf(),
        match r {
            Ok(v) => spec_parse_http2(old(cursor).data@, old(cursor).pos as int, Seq::empty())
                == Ok::<(Seq<Http2MsgModel>, int), ParseError>(
                (
                    Seq::new(v@.len(), |i: int| http2_msg_model(v@[i])),
                    final(cursor).pos as int,
                ),
            ),
            Err(e) => spec_parse_http2(old(cursor).data@, old(cursor).pos as int, Seq::empty())
                == Err::<(Seq<Http2MsgModel>, int), ParseError>(e),
        },
{
    let mut msgs: Vec<TSharkHttp2Message> = Vec::new();
    proof {
        assert(Seq::new(msgs@.len(), |i: int| http2_msg_model(msgs@[i])) =~= Seq::<
            Http2MsgModel,
        >::empty());
    }
    loop
        invariant
            cursor.data == old(cursor).data,
            cursor.wf(),
            spec_parse_http2(old(cursor).data@, old(cursor).pos as int, Seq::empty())
                == spec_parse_http2(
                cursor.data@,
                cursor.pos as int,
                Seq::new(msgs@.len(), |i: int| http2_msg_model(msgs@[i])),
            ),
        decreases cursor.data@.len() - cursor.pos,
    {
        proof {
            lemma_next_event_progress(cursor.data@, cursor.pos as int);
        }
        match cursor.next_event() {
            Err(e) => {
                return Err(e);
            },
            Ok(ev) => match ev {
                XmlEvent::Eof => {
                    return Err(ParseError::UnexpectedEof { offset: cursor.data.len() });
                },
                XmlEvent::End(n) => {
                    if name_is(&n, "proto") {
                        return Ok(msgs);
                    }
                },
                XmlEvent::Start(t) => {
                    if field_name_is(&t, "http2.stream") {
                        let ghost pre = Seq::new(
                            msgs@.len(),
                            |i: int| http2_msg_model(msgs@[i]),
                        );
                        let ghost sub_pos = cursor.pos as int;
                        proof {
                            lemma_parse_h2_msg_bounds(cursor.data@, sub_pos, http2_msg_init());
                        }
                        match parse_http2_msg(cursor) {
                            Err(e) => {
                                return Err(e);
                            },
                            Ok(m) => {
                                msgs.push(m);
                                proof {
                                    assert(Seq::new(
                                        msgs@.len(),
                                        |i: int| http2_msg_model(msgs@[i]),
                                    ) =~= pre.push(http2_msg_model(msgs@.last())));
                                }
                            },
                        }
                    }
                },
                _ => {},
            },
        }
    }
}

/// The headers of the first `i` fragments, concatenated in fragment order.
pub open spec fn spec_fold_headers(msgs: Seq<TSharkHttp2Message>, i: int) -> Seq<
    (String, String),
>
    decreases i,
{
    if i <= 0 {
        Seq::empty()
    } else {
        spec_fold_headers(msgs, i - 1) + msgs[i - 1].headers@
    }
}

/// All headers of a fragment run, concatenated in fragment order.
pub open spec fn spec_merged_headers(msgs: Seq<TSharkHttp2Message>) -> Seq<(String, String)> {
    spec_fold_headers(msgs, msgs.len() as int)
}

/// The fold rule for data payloads: a raw fragment starts or extends the
/// buffer; a reassembled payload replaces it outright.
pub open spec fn spec_data_step(acc: Option<Seq<u8>>, d: Option<Http2Data>) -> Option<Seq<u8>> {
    match d {
        None => acc,
        Some(Http2Data::BasicData(n)) => match acc {
            None => Some(n@),
            Some(s) => Some(s + n@),
        },
        Some(Http2Data::RecomposedData(n)) => Some(n@),
    }
}

/// The merged payload of the first `i` fragments.
pub open spec fn spec_fold_data(msgs: Seq<TSharkHttp2Message>, i: int) -> Option<Seq<u8>>
    decreases i,
{
    if i <= 0 {
        None
    } else {
        spec_data_step(spec_fold_data(msgs, i - 1), msgs[i - 1].data)
    }
}

/// The merged payload of a fragment run, or `None` when no fragment
/// carried data.
pub open spec fn spec_merged_data(msgs: Seq<TSharkHttp2Message>) -> Option<Seq<u8>> {
    spec_fold_data(msgs, msgs.len() as int)
}

/// Classification: every HTTP/2 response carries a `:status`
/// pseudo-header, so a folded message is a response exactly when one is
/// present.
pub open spec fn spec_msg_type(msgs: Seq<TSharkHttp2Message>) -> MsgType {
    if spec_header_value(spec_merged_headers(msgs), ":status"@) is Some {
        MsgType::Response
    } else {
        MsgType::Request
    }
}

/// The first line shown for a folded message: `"<method> <path>"` for
/// requests (absent values render as `-`), `"HTTP/2 status <code>"` for
/// responses.
pub open spec fn spec_first_line(msgs: Seq<TSharkHttp2Message>) -> Seq<char> {
    let hs = spec_merged_headers(msgs);
    match spec_header_value(hs, ":status"@) {
        Some(code) => "HTTP/2 status "@ + code,
        None => (match spec_header_value(hs, ":method"@) {
            Some(m) => m,
            None => "-"@,
        }) + " "@ + (match spec_header_value(hs, ":path"@) {
            Some(p) => p,
            None => "-"@,
        }),
    }
}

/// The body resolved from the merged payload: decoded text when it is
/// valid UTF-8, the raw bytes otherwise, nothing when there was no payload.
pub open spec fn spec_body(msgs: Seq<TSharkHttp2Message>) -> BodyModel {
    match spec_merged_data(msgs) {
        None => BodyModel::Missing,
        Some(d) => if valid_utf8(d) {
            BodyModel::Text(decode_utf8(d))
        } else {
            BodyModel::Binary(d)
        },
    }
}

/// The content encoding resolved from the merged headers by exact,
/// case-sensitive match: `"br"` is Brotli, `"gzip"` is Gzip, anything else
/// (including `"identity"` or no header) is Plain.
pub open spec fn spec_content_encoding(msgs: Seq<TSharkHttp2Message>) -> ContentEncoding {
    match spec_header_value(spec_merged_headers(msgs), "content-encoding"@) {
        Some(v) => if v == "br"@ {
            ContentEncoding::Brotli
        } else if v == "gzip"@ {
            ContentEncoding::Gzip
        } else {
            ContentEncoding::Plain
        },
        None => ContentEncoding::Plain,
    }
}

/// The message a fragment run folds into.
pub open spec fn spec_prepared(
    msgs: Seq<TSharkHttp2Message>,
    tcp_stream_no: TcpStreamId,
    tcp_seq_number: TcpSeqNumber,
    timestamp: Timestamp,
) -> HttpDataModel {
    HttpDataModel {
        tcp_stream_no,
        tcp_seq_number,
        timestamp,
        first_line: spec_first_line(msgs),
        content_type: spec_header_value(spec_merged_headers(msgs), "content-type"@),
        headers: spec_merged_headers(msgs),
        body: spec_body(msgs),
        content_encoding: spec_content_encoding(msgs),
    }
}

/// Folds one logical stream's fragment run into a single message and
/// classifies it.  Headers concatenate in fragment order; payloads merge
/// under the raw-appends/reassembled-replaces rule; the message is a
/// response exactly when the folded headers carry `:status`.
pub fn prepare_http_message(
    tcp_stream_no: TcpStreamId,
    tcp_seq_number: TcpSeqNumber,
    timestamp: Timestamp,
    http2_msgs: Vec<TSharkHttp2Message>,
) -> (r: (HttpRequestResponseData, MsgType))
    ensures
        r.0@ == spec_prepared(http2_msgs@, tcp_stream_no, tcp_seq_number, timestamp),
        r.1 == spec_msg_type(http2_msgs@),
{
    let ghost msgs0 = http2_msgs@;
    let mut msgs = http2_msgs;
    let mut headers: Vec<(String, String)> = Vec::new();
    let mut data: Option<Vec<u8>> = None;
    let ghost mut i: int = 0;
    while msgs.len() > 0
        invariant
            0 <= i <= msgs0.len(),
            msgs@ =~= msgs0.subrange(i, msgs0.len() as int),
            headers@ == spec_fold_headers(msgs0, i),
            (match data {
                Some(d) => Some(d@),
                None => None,
            }) == spec_fold_data(msgs0, i),
        decreases msgs@.len(),
    {
        let mut cur = msgs.remove(0);
        assert(cur == msgs0[i]);
        headers.append(&mut cur.headers);
        data = match (data, cur.data) {
            (None, Some(Http2Data::BasicData(d))) => Some(d),
            (None, Some(Http2Data::RecomposedData(d))) => Some(d),
            (Some(s), Some(Http2Data::BasicData(n))) => {
                let mut grown = s;
                let mut tail = n;
                grown.append(&mut tail);
                Some(grown)
            },
            (Some(_), Some(Http2Data::RecomposedData(n))) => Some(n),
            (d, None) => d,
        };
        proof {
            i = i + 1;
        }
    }
    assert(headers@ == spec_merged_headers(msgs0));
    assert((match data {
        Some(d) => Some(d@),
        None => None,
    }) == spec_merged_data(msgs0));

    let body: HttpBody = match data {
        None => HttpBody::Missing,
        Some(d) => {
            if utf8_is_valid(d.as_slice()) {
                HttpBody::Text(utf8_to_string(d))
            } else {
                HttpBody::Binary(d)
            }
        },
    };

    let (first_line, msg_type): (String, MsgType) = match get_http_header_value(
        &headers,
        ":status",
    ) {
        Some(code) => {
            let mut fl: String = "HTTP/2 status ".to_owned();
            fl.append(code.as_str());
            (fl, MsgType::Response)
        },
        None => {
            let mut fl: String = match get_http_header_value(&headers, ":method") {
                Some(m) => m.clone(),
                None => "-".to_owned(),
            };
            fl.append(" ");
            match get_http_header_value(&headers, ":path") {
                Some(p) => fl.append(p.as_str()),
                None => fl.append("-"),
            }
            (fl, MsgType::Request)
        },
    };

    let content_type: Option<String> = match get_http_header_value(&headers, "content-type") {
        Some(v) => Some(v.clone()),
        None => None,
    };

    let content_encoding: ContentEncoding = match get_http_header_value(
        &headers,
        "content-encoding",
    ) {
        Some(v) => {
            let br_name: String = "br".to_owned();
            let gzip_name: String = "gzip".to_owned();
            if *v == br_name {
                ContentEncoding::Brotli
            } else if *v == gzip_name {
                ContentEncoding::Gzip
            } else {
                ContentEncoding::Plain
            }
        },
        None => ContentEncoding::Plain,
    };

    (
        HttpRequestResponseData {
            tcp_stream_no,
            tcp_seq_number,
            timestamp,
            first_line,
            content_type,
            headers,
            body,
            content_encoding,
        },
        msg_type,
    )
}

/// The HTTP/2 fragments a run of packets contributes, flattened in packet
/// arrival order and paired with their packet's addressing facts.
pub open spec fn frag_of_packet(p: TSharkPacket) -> Seq<
    (TSharkPacketBasicInfo, TSharkHttp2Message),
> {
    match p.http2 {
        Some(v) => Seq::new(v@.len(), |k: int| (p.basic_info, v@[k])),
        None => Seq::empty(),
    }
}

/// The flattened fragments of the first `i` packets.
pub open spec fn packet_fragments(pkts: Seq<TSharkPacket>, i: int) -> Seq<
    (TSharkPacketBasicInfo, TSharkHttp2Message),
>
    decreases i,
{
    if i <= 0 {
        Seq::empty()
    } else {
        packet_fragments(pkts, i - 1) + frag_of_packet(pkts[i - 1])
    }
}

/// Whether fragment `i` is the last one of its logical stream: no later
/// fragment carries the same stream identifier.
pub open spec fn is_last_of_stream(
    frags: Seq<(TSharkPacketBasicInfo, TSharkHttp2Message)>,
    i: int,
) -> bool {
    forall|j: int| i < j < frags.len() ==> frags[j].1.stream_id != frags[i].1.stream_id
}

/// The reconstructor's state while it walks a connection's fragments.
#[verifier::ext_equal]
pub struct Http2ReconModel {
    /// Per logical stream, the fragments accumulated since its last
    /// message boundary.
    pub open_msgs: Map<u32, Seq<TSharkHttp2Message>>,
    /// Per logical stream, a folded request waiting for its response.
    pub pending: Map<u32, HttpDataModel>,
    pub server_ip: Seq<char>,
    pub client_ip: Seq<char>,
    pub server_port: NetworkPort,
    pub summary_details: Option<Seq<char>>,
    pub messages: Seq<MessageModel>,
}

/// The state after the first packet seeds the connection roles: its
/// destination is taken as the server, its source as the client.
pub open spec fn http2_init(first: TSharkPacketBasicInfo) -> Http2ReconModel {
    Http2ReconModel {
        open_msgs: Map::empty(),
        pending: Map::empty(),
        server_ip: first.ip_dst@,
        client_ip: first.ip_src@,
        server_port: first.port_dst,
        summary_details: None,
        messages: Seq::empty(),
    }
}

/// One fragment's effect on the reconstruction state.
///
/// The fragment joins its logical stream's accumulated run.  The run folds
/// into a message when the fragment carries the end-of-stream flag or is
/// the stream's last available fragment.  A folded response closes the
/// stream's pending request (if any) into a paired message, emitted here,
/// and re-marks the packet's source as the server.  A folded request marks
/// the packet's destination as the server, feeds the first non-empty
/// `:authority` value into the connection summary, and either waits for its response
/// or, when nothing follows on its stream, is emitted request-only.
/// Role updates are last-write-wins, by most-recent evidence.
pub open spec fn http2_step(
    st: Http2ReconModel,
    info: TSharkPacketBasicInfo,
    m: TSharkHttp2Message,
    last_of_stream: bool,
) -> Http2ReconModel {
    let sid = m.stream_id;
    let run = (if st.open_msgs.contains_key(sid) {
        st.open_msgs[sid]
    } else {
        Seq::empty()
    }).push(m);
    if m.is_end_stream || last_of_stream {
        let folded = spec_prepared(run, info.tcp_stream_id, info.tcp_seq_number, info.frame_time);
        if spec_msg_type(run) == MsgType::Response {
            let paired = HttpMessageModel {
                request: if st.pending.contains_key(sid) {
                    Some(st.pending[sid])
                } else {
                    None
                },
                response: Some(folded),
            };
            Http2ReconModel {
                open_msgs: st.open_msgs.remove(sid),
                pending: st.pending.remove(sid),
                server_ip: info.ip_src@,
                client_ip: info.ip_dst@,
                server_port: info.port_src,
                summary_details: st.summary_details,
                messages: st.messages.push(MessageModel::Http(paired)),
            }
        } else {
            let summary = if st.summary_details is None {
                match spec_header_value(folded.headers, ":authority"@) {
                    Some(v) => if v.len() > 0 {
                        Some(v)
                    } else {
                        None
                    },
                    None => None,
                }
            } else {
                st.summary_details
            };
            if last_of_stream {
                Http2ReconModel {
                    open_msgs: st.open_msgs.remove(sid),
                    pending: st.pending.remove(sid),
                    server_ip: info.ip_dst@,
                    client_ip: info.ip_src@,
                    server_port: info.port_dst,
                    summary_details: summary,
                    messages: st.messages.push(
                        MessageModel::Http(
                            HttpMessageModel { request: Some(folded), response: None },
                        ),
                    ),
                }
            } else {
                Http2ReconModel {
                    open_msgs: st.open_msgs.remove(sid),
                    pending: st.pending.insert(sid, folded),
                    server_ip: info.ip_dst@,
                    client_ip: info.ip_src@,
                    server_port: info.port_dst,
                    summary_details: summary,
                    messages: st.messages,
                }
            }
        }
    } else {
        Http2ReconModel {
            open_msgs: st.open_msgs.insert(sid, run),
            pending: st.pending,
            server_ip: st.server_ip,
            client_ip: st.client_ip,
            server_port: st.server_port,
            summary_details: st.summary_details,
            messages: st.messages,
        }
    }
}

/// The state after the first `i` fragments.
pub open spec fn http2_fold(
    frags: Seq<(TSharkPacketBasicInfo, TSharkHttp2Message)>,
    i: int,
    init: Http2ReconModel,
) -> Http2ReconModel
    decreases i,
{
    if i <= 0 {
        init
    } else {
        http2_step(
            http2_fold(frags, i - 1, init),
            frags[i - 1].0,
            frags[i - 1].1,
            is_last_of_stream(frags, i - 1),
        )
    }
}

/// The reconstruction of one HTTP/2 connection from its ordered packets.
pub open spec fn spec_parse_stream_http2(pkts: Seq<TSharkPacket>) -> StreamModel
    recommends
        pkts.len() > 0,
{
    let frags = packet_fragments(pkts, pkts.len() as int);
    let fin = http2_fold(frags, frags.len() as int, http2_init(pkts[0].basic_info));
    StreamModel {
        server_ip: fin.server_ip,
        server_port: fin.server_port,
        client_ip: fin.client_ip,
        messages: fin.messages,
        summary_details: fin.summary_details,
    }
}

/// Classification law: a folded fragment run is a response exactly when
/// its merged headers carry a `:status` pseudo-header (every HTTP/2
/// response does), and a request exactly when they do not — whatever else
/// the run holds.
pub proof fn lemma_status_classifies(msgs: Seq<TSharkHttp2Message>)
    ensures
        (spec_msg_type(msgs) == MsgType::Response) <==> spec_header_value(
            spec_merged_headers(msgs),
            ":status"@,
        ) is Some,
        (spec_msg_type(msgs) == MsgType::Request) <==> spec_header_value(
            spec_merged_headers(msgs),
            ":status"@,
        ) is None,
{
}

/// Merge law, first half: two raw fragments concatenate in arrival order.
pub proof fn lemma_merge_raw_appends(
    m1: TSharkHttp2Message,
    m2: TSharkHttp2Message,
    a: Vec<u8>,
    b: Vec<u8>,
)
    requires
        m1.data == Some(Http2Data::BasicData(a)),
        m2.data == Some(Http2Data::BasicData(b)),
    ensures
        spec_merged_data(seq![m1, m2]) == Some(a@ + b@),
{
    let s = seq![m1, m2];
    assert(spec_fold_data(s, 0) is None);
    assert(spec_fold_data(s, 1) == Some(a@));
    assert(spec_fold_data(s, 2) == Some(a@ + b@));
}

/// Merge law, second half: a payload the capture tool already reassembled
/// replaces whatever was accumulated before it — it never appends.
pub proof fn lemma_reassembled_replaces(m1: TSharkHttp2Message, m2: TSharkHttp2Message, b: Vec<u8>)
    requires
        m2.data == Some(Http2Data::RecomposedData(b)),
    ensures
        spec_merged_data(seq![m1, m2]) == Some(b@),
{
    let s = seq![m1, m2];
    assert(spec_fold_data(s, 2) == Some(b@));
}

/// Pairing law, first half: a logical stream whose fragments are a
/// flag-closed request run followed by a flag-closed response run yields
/// exactly one message, pairing the folded request with the folded
/// response — whichever packets carried them.
pub proof fn lemma_request_response_pair(
    first: TSharkPacketBasicInfo,
    p1: TSharkPacketBasicInfo,
    p2: TSharkPacketBasicInfo,
    m1: TSharkHttp2Message,
    m2: TSharkHttp2Message,
)
    requires
        m1.stream_id == m2.stream_id,
        m1.is_end_stream,
        m2.is_end_stream,
        spec_msg_type(seq![m1]) == MsgType::Request,
        spec_msg_type(seq![m2]) == MsgType::Response,
    ensures
        ({
            let frags = seq![(p1, m1), (p2, m2)];
            let fin = http2_fold(frags, 2, http2_init(first));
            fin.messages =~= seq![
                MessageModel::Http(
                    HttpMessageModel {
                        request: Some(
                            spec_prepared(
                                seq![m1],
                                p1.tcp_stream_id,
                                p1.tcp_seq_number,
                                p1.frame_time,
                            ),
                        ),
                        response: Some(
                            spec_prepared(
                                seq![m2],
                                p2.tcp_stream_id,
                                p2.tcp_seq_number,
                                p2.frame_time,
                            ),
                        ),
                    },
                ),
            ]
        }),
{
    let frags = seq![(p1, m1), (p2, m2)];
    let init = http2_init(first);
    assert(frags[0] == (p1, m1));
    assert(frags[1] == (p2, m2));
    assert(http2_fold(frags, 0, init) == init);
    assert(!is_last_of_stream(frags, 0)) by {
        assert(frags[1].1.stream_id == frags[0].1.stream_id);
    }
    assert(is_last_of_stream(frags, 1));
    let st1 = http2_step(init, p1, m1, false);
    assert(http2_fold(frags, 1, init) == st1);
    assert(Seq::<TSharkHttp2Message>::empty().push(m1) =~= seq![m1]);
    assert(st1.messages =~= Seq::<MessageModel>::empty());
    assert(st1.pending.contains_key(m1.stream_id));
    let st2 = http2_step(st1, p2, m2, true);
    assert(http2_fold(frags, 2, init) == st2);
    assert(Seq::<TSharkHttp2Message>::empty().push(m2) =~= seq![m2]);
}

/// Classification is independent of arrival order: when the response run
/// happens to arrive before the request run on its logical stream, the
/// `:status` side is still a response — emitted response-only, since no
/// request was pending — and the other side is still a request.
pub proof fn lemma_response_then_request(
    first: TSharkPacketBasicInfo,
    p1: TSharkPacketBasicInfo,
    p2: TSharkPacketBasicInfo,
    m1: TSharkHttp2Message,
    m2: TSharkHttp2Message,
)
    requires
        m1.stream_id == m2.stream_id,
        m1.is_end_stream,
        m2.is_end_stream,
        spec_msg_type(seq![m1]) == MsgType::Response,
        spec_msg_type(seq![m2]) == MsgType::Request,
    ensures
        ({
            let frags = seq![(p1, m1), (p2, m2)];
            let fin = http2_fold(frags, 2, http2_init(first));
            fin.messages =~= seq![
                MessageModel::Http(
                    HttpMessageModel {
                        request: None,
                        response: Some(
                            spec_prepared(
                                seq![m1],
                                p1.tcp_stream_id,
                                p1.tcp_seq_number,
                                p1.frame_time,
                            ),
                        ),
                    },
                ),
                MessageModel::Http(
                    HttpMessageModel {
                        request: Some(
                            spec_prepared(
                                seq![m2],
                                p2.tcp_stream_id,
                                p2.tcp_seq_number,
                                p2.frame_time,
                            ),
                        ),
                        response: None,
                    },
                ),
            ]
        }),
{
    let frags = seq![(p1, m1), (p2, m2)];
    let init = http2_init(first);
    assert(frags[0] == (p1, m1));
    assert(frags[1] == (p2, m2));
    assert(http2_fold(frags, 0, init) == init);
    assert(!is_last_of_stream(frags, 0)) by {
        assert(frags[1].1.stream_id == frags[0].1.stream_id);
    }
    assert(is_last_of_stream(frags, 1));
    let st1 = http2_step(init, p1, m1, false);
    assert(http2_fold(frags, 1, init) == st1);
    assert(Seq::<TSharkHttp2Message>::empty().push(m1) =~= seq![m1]);
    assert(!st1.pending.contains_key(m2.stream_id));
    let st2 = http2_step(st1, p2, m2, true);
    assert(http2_fold(frags, 2, init) == st2);
    assert(Seq::<TSharkHttp2Message>::empty().push(m2) =~= seq![m2]);
}

/// Pairing law, second half: a lone flag-closed request run — the capture
/// ended before any response — yields exactly one request-only message.
pub proof fn lemma_lone_request(
    first: TSharkPacketBasicInfo,
    p1: TSharkPacketBasicInfo,
    m1: TSharkHttp2Message,
)
    requires
        m1.is_end_stream,
        spec_msg_type(seq![m1]) == MsgType::Request,
    ensures
        ({
            let frags = seq![(p1, m1)];
            let fin = http2_fold(frags, 1, http2_init(first));
            fin.messages =~= seq![
                MessageModel::Http(
                    HttpMessageModel {
                        request: Some(
                            spec_prepared(
                                seq![m1],
                                p1.tcp_stream_id,
                                p1.tcp_seq_number,
                                p1.frame_time,
                            ),
                        ),
                        response: None,
                    },
                ),
            ]
        }),
{
    let frags = seq![(p1, m1)];
    assert(frags[0] == (p1, m1));
    assert(http2_fold(frags, 0, http2_init(first)) == http2_init(first));
    assert(is_last_of_stream(frags, 0));
    assert(Seq::<TSharkHttp2Message>::empty().push(m1) =~= seq![m1]);
}

/// Encoding law: `content-encoding` resolves by exact, case-sensitive
/// match — `gzip` to Gzip, `br` to Brotli, and everything else, a missing
/// header and `identity` included, to Plain.
pub proof fn lemma_content_encoding(msgs: Seq<TSharkHttp2Message>)
    ensures
        (spec_content_encoding(msgs) == ContentEncoding::Gzip) <==> spec_header_value(
            spec_merged_headers(msgs),
            "content-encoding"@,
        ) == Some("gzip"@),
        (spec_content_encoding(msgs) == ContentEncoding::Brotli) <==> spec_header_value(
            spec_merged_headers(msgs),
            "content-encoding"@,
        ) == Some("br"@),
        spec_header_value(spec_merged_headers(msgs), "content-encoding"@) is None
            ==> spec_content_encoding(msgs) == ContentEncoding::Plain,
{
    reveal_strlit("br");
    reveal_strlit("gzip");
    assert("br"@.len() == 2);
    assert("gzip"@.len() == 4);
}

/// Role-flip law: when a fragment closes a response run, the connection's
/// server address is re-resolved to that packet's source and its server
/// port to that packet's source port, while every message already emitted
/// is kept in place and the new one is appended after them.
pub proof fn lemma_response_updates_roles(
    st: Http2ReconModel,
    info: TSharkPacketBasicInfo,
    m: TSharkHttp2Message,
    last_of_stream: bool,
)
    requires
        m.is_end_stream || last_of_stream,
        spec_msg_type(
            (if st.open_msgs.contains_key(m.stream_id) {
                st.open_msgs[m.stream_id]
            } else {
                Seq::empty()
            }).push(m),
        ) == MsgType::Response,
    ensures
        http2_step(st, info, m, last_of_stream).server_ip == info.ip_src@,
        http2_step(st, info, m, last_of_stream).client_ip == info.ip_dst@,
        http2_step(st, info, m, last_of_stream).server_port == info.port_src,
        http2_step(st, info, m, last_of_stream).messages.len() == st.messages.len() + 1,
        forall|j: int|
            0 <= j < st.messages.len() ==> http2_step(st, info, m, last_of_stream).messages[j]
                == st.messages[j],
{
}

/// Summary law: the connection summary is written at most once — a step
/// never changes a summary that is already set.
pub proof fn lemma_summary_write_once(
    st: Http2ReconModel,
    info: TSharkPacketBasicInfo,
    m: TSharkHttp2Message,
    last_of_stream: bool,
)
    requires
        st.summary_details is Some,
    ensures
        http2_step(st, info, m, last_of_stream).summary_details == st.summary_details,
{
}

/// Determinism law: reconstruction is a function of the ordered packet
/// sequence alone, so reconstructing the same sequence twice yields
/// identical stream data.
pub proof fn lemma_parse_stream_deterministic(
    pkts: Seq<TSharkPacket>,
    r1: StreamModel,
    r2: StreamModel,
)
    requires
        r1 == spec_parse_stream_http2(pkts),
        r2 == spec_parse_stream_http2(pkts),
    ensures
        r1 == r2,
{
}

/// Whether fragment `i` is the last of its logical stream.
fn is_last_of_stream_exec(
    frags: &Vec<(TSharkPacketBasicInfo, TSharkHttp2Message)>,
    i: usize,
) -> (r: bool)
    requires
        i < frags@.len(),
    ensures
        r == is_last_of_stream(frags@, i as int),
{
    let n = frags.len();
    let sid = frags[i].1.stream_id;
    let mut j: usize = i + 1;
    while j < n
        invariant
            n == frags@.len(),
            i < j <= frags@.len(),
            sid == frags@[i as int].1.stream_id,
            forall|t: int| i < t < j ==> frags@[t].1.stream_id != sid,
        decreases frags@.len() - j,
    {
        if frags[j].1.stream_id == sid {
            assert(!is_last_of_stream(frags@, i as int)) by {
                assert(frags@[j as int].1.stream_id == frags@[i as int].1.stream_id);
            }
            return false;
        }
        j = j + 1;
    }
    true
}

/// The exec state's mathematical reading, for relating the reconstruction
/// loop to [`http2_fold`].
pub open spec fn http2_state_model(
    open: Seq<(u32, Vec<TSharkHttp2Message>)>,
    pending: Seq<(u32, HttpRequestResponseData)>,
    server_ip: String,
    client_ip: String,
    server_port: NetworkPort,
    summary_details: Option<String>,
    messages: Seq<MessageData>,
) -> Http2ReconModel {
    Http2ReconModel {
        open_msgs: assoc_map(open),
        pending: assoc_map(pending),
        server_ip: server_ip@,
        client_ip: client_ip@,
        server_port,
        summary_details: match summary_details {
            Some(s) => Some(s@),
            None => None,
        },
        messages: Seq::new(messages.len(), |t: int| messages[t]@),
    }
}

/// The HTTP/2 reconstruction strategy.
pub struct Http2;

impl Http2 {
    /// Whether a packet belongs to this strategy: it carries an HTTP/2
    /// fact.
    pub fn is_my_message(&self, msg: &TSharkPacket) -> (r: bool)
        ensures
            r == (msg.http2 is Some),
    {
        msg.http2.is_some()
    }

    /// Reconstructs one connection's ordered packets into its
    /// [`StreamData`], as [`spec_parse_stream_http2`] describes.
    #[verifier::loop_isolation(false)]
    pub fn parse_stream(&self, stream: Vec<TSharkPacket>) -> (r: StreamData)
        requires
            stream@.len() > 0,
        ensures
            r@ == spec_parse_stream_http2(stream@),
    {
        let ghost pkts0 = stream@;
        let mut server_ip = stream[0].basic_info.ip_dst.clone();
        let mut client_ip = stream[0].basic_info.ip_src.clone();
        let mut server_port = stream[0].basic_info.port_dst;

        // Flatten the packets' HTTP/2 fragments in arrival order.
        let mut frags: Vec<(TSharkPacketBasicInfo, TSharkHttp2Message)> = Vec::new();
        let mut pkts = stream;
        let ghost mut i: int = 0;
        while pkts.len() > 0
            invariant
                0 <= i <= pkts0.len(),
                pkts@ =~= pkts0.subrange(i, pkts0.len() as int),
                frags@ == packet_fragments(pkts0, i),
            decreases pkts@.len(),
        {
            let p = pkts.remove(0);
            assert(p == pkts0[i]);
            let ghost pb = p.basic_info;
            if let Some(mut v) = p.http2 {
                let ghost v0 = v@;
                let ghost mut k: int = 0;
                while v.len() > 0
                    invariant
                        0 <= k <= v0.len(),
                        v@ =~= v0.subrange(k, v0.len() as int),
                        frags@ =~= packet_fragments(pkts0, i) + Seq::new(
                            k as nat,
                            |t: int| (pb, v0[t]),
                        ),
                    decreases v@.len(),
                {
                    let m = v.remove(0);
                    assert(m == v0[k]);
                    frags.push((clone_basic_info(&p.basic_info), m));
                    proof {
                        k = k + 1;
                        assert(frags@ =~= packet_fragments(pkts0, i) + Seq::new(
                            k as nat,
                            |t: int| (pb, v0[t]),
                        ));
                    }
                }
                proof {
                    assert(Seq::new(v0.len(), |t: int| (pb, v0[t])) =~= frag_of_packet(pkts0[i]));
                    assert(frags@ =~= packet_fragments(pkts0, i + 1));
                    i = i + 1;
                }
            } else {
                proof {
                    assert(frag_of_packet(pkts0[i]) =~= Seq::empty());
                    assert(frags@ =~= packet_fragments(pkts0, i + 1));
                    i = i + 1;
                }
            }
        }
        let ghost frags0 = frags@;

        // Mark each fragment that is the last of its logical stream.
        let mut last_flags: Vec<bool> = Vec::new();
        let mut t: usize = 0;
        while t < frags.len()
            invariant
                t <= frags@.len(),
                last_flags@.len() == t,
                forall|j: int| 0 <= j < t ==> last_flags@[j] == is_last_of_stream(frags@, j),
            decreases frags@.len() - t,
        {
            let fl = is_last_of_stream_exec(&frags, t);
            last_flags.push(fl);
            t = t + 1;
        }

        // Walk the fragments, folding runs at message boundaries.
        let mut open: Vec<(u32, Vec<TSharkHttp2Message>)> = Vec::new();
        let mut pending: Vec<(u32, HttpRequestResponseData)> = Vec::new();
        let mut messages: Vec<MessageData> = Vec::new();
        let mut summary_details: Option<String> = None;
        let mut idx: usize = 0;
        while frags.len() > 0
            invariant
                idx as int + frags@.len() == frags0.len(),
                frags@ =~= frags0.subrange(idx as int, frags0.len() as int),
                assoc_unique(open@),
                assoc_unique(pending@),
                http2_state_model(
                    open@,
                    pending@,
                    server_ip,
                    client_ip,
                    server_port,
                    summary_details,
                    messages@,
                ) == http2_fold(frags0, idx as int, http2_init(pkts0[0].basic_info)),
            decreases frags@.len(),
        {
            let ghost st_pre = http2_fold(frags0, idx as int, http2_init(pkts0[0].basic_info));
            let (info, m) = frags.remove(0);
            assert((info, m) == frags0[idx as int]);
            let last = last_flags[idx];
            assert(last == is_last_of_stream(frags0, idx as int));
            let sid = m.stream_id;
            let is_end = m.is_end_stream;
            let mut run: Vec<TSharkHttp2Message> = match assoc_remove(&mut open, sid) {
                Some(r) => r,
                None => Vec::new(),
            };
            run.push(m);
            assert(run@ == (if st_pre.open_msgs.contains_key(sid) {
                st_pre.open_msgs[sid]
            } else {
                Seq::empty()
            }).push(frags0[idx as int].1));
            if is_end || last {
                let (folded, typ) = prepare_http_message(
                    info.tcp_stream_id,
                    info.tcp_seq_number,
                    info.frame_time,
                    run,
                );
                match typ {
                    MsgType::Response => {
                        server_ip = info.ip_src;
                        client_ip = info.ip_dst;
                        server_port = info.port_src;
                        let req = assoc_remove(&mut pending, sid);
                        messages.push(
                            MessageData::Http(
                                HttpMessageData { request: req, response: Some(folded) },
                            ),
                        );
                    },
                    MsgType::Request => {
                        if summary_details.is_none() {
                            summary_details = match get_http_header_value(
                                &folded.headers,
                                ":authority",
                            ) {
                                Some(v) => {
                                    if v.as_str().is_empty() {
                                        None
                                    } else {
                                        Some(v.clone())
                                    }
                                },
                                None => None,
                            };
                        }
                        server_ip = info.ip_dst;
                        client_ip = info.ip_src;
                        server_port = info.port_dst;
                        if last {
                            let _ = assoc_remove(&mut pending, sid);
                            messages.push(
                                MessageData::Http(
                                    HttpMessageData { request: Some(folded), response: None },
                                ),
                            );
                        } else {
                            assoc_insert(&mut pending, sid, folded);
                        }
                    },
                }
            } else {
                assoc_insert(&mut open, sid, run);
                proof {
                    assert(assoc_map(open@) =~= st_pre.open_msgs.insert(sid, run@));
                }
            }
            idx = idx + 1;
            proof {
                let st_post = http2_step(
                    st_pre,
                    frags0[idx - 1].0,
                    frags0[idx - 1].1,
                    is_last_of_stream(frags0, idx - 1),
                );
                assert(Seq::new(messages@.len(), |t: int| messages@[t]@) =~= st_post.messages);
                assert(http2_state_model(
                    open@,
                    pending@,
                    server_ip,
                    client_ip,
                    server_port,
                    summary_details,
                    messages@,
                ) =~= st_post);
            }
        }
        let result = StreamData { server_ip, server_port, client_ip, messages, summary_details };
        proof {
            assert(result@ =~= spec_parse_stream_http2(pkts0));
        }
        result
    }
}

} // verus!
