//! The reconstructed-message data model.
//!
//! One TCP connection is reconstructed into a [`StreamData`]: resolved
//! server/client addresses and an ordered list of application-level
//! messages.  HTTP conversations become request/response pairs of
//! [`HttpRequestResponseData`]; Postgres wire messages pass through
//! one-to-one.

use crate::ids::NetworkPort;
use crate::ids::TcpSeqNumber;
use crate::ids::TcpStreamId;
use crate::time::Timestamp;
use vstd::prelude::*;

verus! {

/// Compression applied to a message body, from its `content-encoding`
/// header by exact, case-sensitive match: `"gzip"` and `"br"` are
/// recognized, anything else (or no header) is `Plain`.
#[derive(Debug, Clone, Copy, PartialEq, Eq, Structural)]
pub enum ContentEncoding {
    Plain,
    Gzip,
    Brotli,
}

/// A message body: UTF-8 text when the merged payload decodes, the raw
/// bytes when it does not, or nothing when the message carried no payload.
#[derive(Debug, PartialEq, Eq)]
pub enum HttpBody {
    Text(String),
    Binary(Vec<u8>),
    Missing,
}

/// The mathematical shape of a body: the decoded text or the raw bytes.
pub enum BodyModel {
    Text(Seq<char>),
    Binary(Seq<u8>),
    Missing,
}

impl View for HttpBody {
    type V = BodyModel;

    open spec fn view(&self) -> BodyModel {
        match self {
            HttpBody::Text(s) => BodyModel::Text(s@),
            HttpBody::Binary(b) => BodyModel::Binary(b@),
            HttpBody::Missing => BodyModel::Missing,
        }
    }
}

/// One reconstructed request or response.
#[derive(Debug, PartialEq, Eq)]
pub struct HttpRequestResponseData {
    /// The TCP connection the message travelled on.
    pub tcp_stream_no: TcpStreamId,
    /// The TCP sequence number of the packet that completed the message,
    /// kept so that the packet's raw body can be re-queried later.
    pub tcp_seq_number: TcpSeqNumber,
    /// The frame time of the packet that completed the message.
    pub timestamp: Timestamp,
    /// `"<method> <path>"` for requests, `"HTTP/2 status <code>"` for
    /// HTTP/2 responses, or the capture tool's summary line for HTTP/1.
    pub first_line: String,
    /// The `content-type` header value, when present.
    pub content_type: Option<String>,
    /// All header name/value pairs in arrival order; duplicates allowed.
    pub headers: Vec<(String, String)>,
    /// The merged body.
    pub body: HttpBody,
    /// The compression announced by `content-encoding`.
    pub content_encoding: ContentEncoding,
}

/// The mathematical shape of one reconstructed request or response.
pub struct HttpDataModel {
    pub tcp_stream_no: TcpStreamId,
    pub tcp_seq_number: TcpSeqNumber,
    pub timestamp: Timestamp,
    pub first_line: Seq<char>,
    pub content_type: Option<Seq<char>>,
    pub headers: Seq<(String, String)>,
    pub body: BodyModel,
    pub content_encoding: ContentEncoding,
}

impl View for HttpRequestResponseData {
    type V = HttpDataModel;

    open spec fn view(&self) -> HttpDataModel {
        HttpDataModel {
            tcp_stream_no: self.tcp_stream_no,
            tcp_seq_number: self.tcp_seq_number,
            timestamp: self.timestamp,
            first_line: self.first_line@,
            content_type: match &self.content_type {
                Some(s) => Some(s@),
                None => None,
            },
            headers: self.headers@,
            body: self.body@,
            content_encoding: self.content_encoding,
        }
    }
}

/// One reconstructed HTTP conversation step.  A response-only message is
/// valid (the request predates the capture); so is a request-only message
/// at end of stream (the response was never captured).
#[derive(Debug, PartialEq, Eq)]
pub struct HttpMessageData {
    pub request: Option<HttpRequestResponseData>,
    pub response: Option<HttpRequestResponseData>,
}

/// The mathematical shape of [`HttpMessageData`].
pub struct HttpMessageModel {
    pub request: Option<HttpDataModel>,
    pub response: Option<HttpDataModel>,
}

impl View for HttpMessageData {
    type V = HttpMessageModel;

    open spec fn view(&self) -> HttpMessageModel {
        HttpMessageModel {
            request: match &self.request {
                Some(r) => Some(r@),
                None => None,
            },
            response: match &self.response {
                Some(r) => Some(r@),
                None => None,
            },
        }
    }
}

/// One Postgres wire message, passed through reconstruction untouched.
/// Decoding individual message kinds is a collaborator's concern; the
/// engine only keeps the capture tool's rendering of the message type.
#[derive(Debug, PartialEq, Eq)]
pub struct PostgresMessageData {
    pub message_type: Option<String>,
}

/// One application-level message of a reconstructed connection.
#[derive(Debug, PartialEq, Eq)]
pub enum MessageData {
    Http(HttpMessageData),
    Postgres(PostgresMessageData),
}

/// The mathematical shape of [`MessageData`].
pub enum MessageModel {
    Http(HttpMessageModel),
    Postgres(PostgresMessageData),
}

impl View for MessageData {
    type V = MessageModel;

    open spec fn view(&self) -> MessageModel {
        match self {
            MessageData::Http(h) => MessageModel::Http(h@),
            MessageData::Postgres(p) => MessageModel::Postgres(
                PostgresMessageData { message_type: p.message_type },
            ),
        }
    }
}

/// One fully reconstructed TCP connection.
#[derive(Debug, PartialEq, Eq)]
pub struct StreamData {
    /// The side most recently observed acting as the server.
    pub server_ip: String,
    pub server_port: NetworkPort,
    /// The side most recently observed acting as the client.
    pub client_ip: String,
    /// The connection's messages, ordered by the arrival position of the
    /// packet that completed each one.
    pub messages: Vec<MessageData>,
    /// The first non-empty `:authority` (HTTP/2) or `Host` (HTTP/1) value
    /// seen on any request; written once, never overwritten.
    pub summary_details: Option<String>,
}

/// The mathematical shape of [`StreamData`].
#[verifier::ext_equal]
pub struct StreamModel {
    pub server_ip: Seq<char>,
    pub server_port: NetworkPort,
    pub client_ip: Seq<char>,
    pub messages: Seq<MessageModel>,
    pub summary_details: Option<Seq<char>>,
}

impl View for StreamData {
    type V = StreamModel;

    open spec fn view(&self) -> StreamModel {
        StreamModel {
            server_ip: self.server_ip@,
            server_port: self.server_port,
            client_ip: self.client_ip@,
            messages: Seq::new(self.messages@.len(), |i: int| self.messages@[i]@),
            summary_details: match &self.summary_details {
                Some(s) => Some(s@),
                None => None,
            },
        }
    }
}

/// The value of the last header named `name` in `hs`, if any.  Lookup is
/// by exact, case-sensitive text comparison, and the last occurrence wins:
/// duplicate headers are allowed in the list and resolved only here, at
/// reconstruction time.
pub open spec fn spec_header_value(hs: Seq<(String, String)>, name: Seq<char>) -> Option<
    Seq<char>,
>
    decreases hs.len(),
{
    if hs.len() == 0 {
        None
    } else if hs.last().0@ == name {
        Some(hs.last().1@)
    } else {
        spec_header_value(hs.drop_last(), name)
    }
}

/// Looks up a header by name; the last occurrence wins.
pub fn get_http_header_value<'a>(headers: &'a Vec<(String, String)>, name: &str) -> (r: Option<
    &'a String,
>)
    ensures
        match r {
            Some(v) => spec_header_value(headers@, name@) == Some(v@),
            None => spec_header_value(headers@, name@) is None,
        },
{
    let name_owned: String = name.to_owned();
    let mut i: usize = headers.len();
    assert(headers@.subrange(0, headers@.len() as int) =~= headers@);
    while i > 0
        invariant
            i <= headers@.len(),
            name_owned@ == name@,
            spec_header_value(headers@, name@) == spec_header_value(
                headers@.subrange(0, i as int),
                name@,
            ),
        decreases i,
    {
        i = i - 1;
        let ghost sub = headers@.subrange(0, i as int + 1);
        assert(sub.len() == i + 1);
        assert(sub.last() == headers@[i as int]);
        assert(sub.drop_last() =~= headers@.subrange(0, i as int));
        assert(spec_header_value(sub, name@) == if sub.last().0@ == name@ {
            Some(sub.last().1@)
        } else {
            spec_header_value(sub.drop_last(), name@)
        });
        if headers[i].0 == name_owned {
            return Some(&headers[i].1);
        }
    }
    assert(headers@.subrange(0, 0) =~= Seq::<(String, String)>::empty());
    None
}

} // verus!
