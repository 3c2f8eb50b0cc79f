//! Tests for the stream reconstructors and the dispatcher: grouping,
//! merging, pairing, classification, role resolution and summaries.

use hotwire::dispatch::ProtocolKind;
use hotwire::dispatch::protocol_of;
use hotwire::dispatch::reconstruct_stream;
use hotwire::http::Http;
use hotwire::http::HttpType;
use hotwire::http::TSharkHttp;
use hotwire::http2::Http2;
use hotwire::http2::Http2Data;
use hotwire::http2::TSharkHttp2Message;
use hotwire::ids::NetworkPort;
use hotwire::ids::TcpSeqNumber;
use hotwire::ids::TcpStreamId;
use hotwire::message::ContentEncoding;
use hotwire::message::HttpBody;
use hotwire::message::MessageData;
use hotwire::packet::TSharkPacket;
use hotwire::packet::TSharkPacketBasicInfo;
use hotwire::pgsql::Postgres;
use hotwire::pgsql::PostgresWireMessage;
use hotwire::time::Timestamp;

fn ts(second: u32) -> Timestamp {
    Timestamp { year: 2021, month: 3, day: 5, hour: 8, minute: 49, second, nanosecond: 0 }
}

fn info(src: &str, dst: &str, sport: u16, dport: u16, seq: u32) -> TSharkPacketBasicInfo {
    TSharkPacketBasicInfo {
        frame_time: ts(1),
        ip_src: src.to_string(),
        ip_dst: dst.to_string(),
        tcp_seq_number: TcpSeqNumber(seq),
        tcp_stream_id: TcpStreamId(4),
        port_src: NetworkPort(sport),
        port_dst: NetworkPort(dport),
    }
}

fn h2_packet(
    basic_info: TSharkPacketBasicInfo,
    msgs: Vec<TSharkHttp2Message>,
) -> TSharkPacket {
    TSharkPacket { basic_info, http: None, http2: Some(msgs), pgsql: None }
}

fn h2_msg(
    stream_id: u32,
    headers: Vec<(&str, &str)>,
    is_end_stream: bool,
    data: Option<Http2Data>,
) -> TSharkHttp2Message {
    TSharkHttp2Message {
        stream_id,
        headers: headers
            .into_iter()
            .map(|(n, v)| (n.to_string(), v.to_string()))
            .collect(),
        is_end_stream,
        data,
    }
}

fn req_msg(stream_id: u32, end: bool) -> TSharkHttp2Message {
    h2_msg(
        stream_id,
        vec![(":method", "GET"), (":path", "/api"), (":authority", "example.com")],
        end,
        None,
    )
}

fn resp_msg(stream_id: u32, end: bool) -> TSharkHttp2Message {
    h2_msg(stream_id, vec![(":status", "200")], end, None)
}

fn first_http(sd: &hotwire::message::StreamData) -> &hotwire::message::HttpMessageData {
    match &sd.messages[0] {
        MessageData::Http(h) => h,
        other => panic!("expected an http message, got {:?}", other),
    }
}

#[test]
fn status_side_is_response_other_side_is_request() {
    // Request first, response second.
    let stream = vec![
        h2_packet(info("10.0.0.1", "10.0.0.2", 40000, 443, 1), vec![req_msg(5, true)]),
        h2_packet(info("10.0.0.2", "10.0.0.1", 443, 40000, 2), vec![resp_msg(5, true)]),
    ];
    let sd = Http2.parse_stream(stream);
    assert_eq!(sd.messages.len(), 1);
    let h = first_http(&sd);
    assert_eq!(h.request.as_ref().unwrap().first_line, "GET /api");
    assert_eq!(h.response.as_ref().unwrap().first_line, "HTTP/2 status 200");

    // Response arrives first on the logical stream: still the `:status`
    // side is the response, the other a request.
    let stream = vec![
        h2_packet(info("10.0.0.2", "10.0.0.1", 443, 40000, 1), vec![resp_msg(5, true)]),
        h2_packet(info("10.0.0.1", "10.0.0.2", 40000, 443, 2), vec![req_msg(5, true)]),
    ];
    let sd = Http2.parse_stream(stream);
    assert_eq!(sd.messages.len(), 2);
    let h = first_http(&sd);
    assert!(h.request.is_none());
    assert_eq!(h.response.as_ref().unwrap().first_line, "HTTP/2 status 200");
    match &sd.messages[1] {
        MessageData::Http(h) => {
            assert_eq!(h.request.as_ref().unwrap().first_line, "GET /api");
            assert!(h.response.is_none());
        }
        other => panic!("expected an http message, got {:?}", other),
    }
}

#[test]
fn reconstructing_twice_is_byte_identical() {
    let build = || {
        vec![
            h2_packet(info("10.0.0.1", "10.0.0.2", 40000, 443, 1), vec![req_msg(5, false)]),
            h2_packet(
                info("10.0.0.1", "10.0.0.2", 40000, 443, 2),
                vec![h2_msg(5, vec![], true, Some(Http2Data::BasicData(b"ab".to_vec())))],
            ),
            h2_packet(info("10.0.0.2", "10.0.0.1", 443, 40000, 3), vec![resp_msg(5, true)]),
        ]
    };
    let sd1 = Http2.parse_stream(build());
    let sd2 = Http2.parse_stream(build());
    assert_eq!(sd1, sd2);
}

#[test]
fn raw_fragments_concatenate() {
    let stream = vec![h2_packet(
        info("10.0.0.1", "10.0.0.2", 40000, 443, 1),
        vec![
            h2_msg(5, vec![], false, Some(Http2Data::BasicData(b"ab".to_vec()))),
            h2_msg(5, vec![], true, Some(Http2Data::BasicData(b"cd".to_vec()))),
        ],
    )];
    let sd = Http2.parse_stream(stream);
    let h = first_http(&sd);
    assert_eq!(h.response.is_none(), true);
    let req = h.request.as_ref().unwrap();
    assert_eq!(req.body, HttpBody::Text("abcd".to_string()));
}

#[test]
fn reassembled_payload_replaces_fragments() {
    let stream = vec![h2_packet(
        info("10.0.0.1", "10.0.0.2", 40000, 443, 1),
        vec![
            h2_msg(5, vec![], false, Some(Http2Data::BasicData(b"ab".to_vec()))),
            h2_msg(5, vec![], true, Some(Http2Data::RecomposedData(b"zz".to_vec()))),
        ],
    )];
    let sd = Http2.parse_stream(stream);
    let req = first_http(&sd).request.as_ref().unwrap();
    assert_eq!(req.body, HttpBody::Text("zz".to_string()));
}

#[test]
fn undecodable_payload_downgrades_to_binary() {
    let stream = vec![h2_packet(
        info("10.0.0.1", "10.0.0.2", 40000, 443, 1),
        vec![h2_msg(5, vec![], true, Some(Http2Data::BasicData(vec![0xff, 0xfe])))],
    )];
    let sd = Http2.parse_stream(stream);
    let req = first_http(&sd).request.as_ref().unwrap();
    assert_eq!(req.body, HttpBody::Binary(vec![0xff, 0xfe]));
}

#[test]
fn multibyte_payload_decodes_to_text() {
    let stream = vec![h2_packet(
        info("10.0.0.1", "10.0.0.2", 40000, 443, 1),
        vec![h2_msg(5, vec![], true, Some(Http2Data::BasicData("héllo".as_bytes().to_vec())))],
    )];
    let sd = Http2.parse_stream(stream);
    let req = first_http(&sd).request.as_ref().unwrap();
    assert_eq!(req.body, HttpBody::Text("héllo".to_string()));
}

#[test]
fn request_and_response_pair_into_one_message() {
    let stream = vec![
        h2_packet(info("10.0.0.1", "10.0.0.2", 40000, 443, 1), vec![req_msg(5, false)]),
        h2_packet(
            info("10.0.0.1", "10.0.0.2", 40000, 443, 2),
            vec![h2_msg(5, vec![], true, None)],
        ),
        h2_packet(info("10.0.0.2", "10.0.0.1", 443, 40000, 3), vec![resp_msg(5, true)]),
    ];
    let sd = Http2.parse_stream(stream);
    assert_eq!(sd.messages.len(), 1);
    let h = first_http(&sd);
    assert!(h.request.is_some());
    assert!(h.response.is_some());
}

#[test]
fn lone_request_yields_request_only_message() {
    let stream = vec![h2_packet(
        info("10.0.0.1", "10.0.0.2", 40000, 443, 1),
        vec![req_msg(5, true)],
    )];
    let sd = Http2.parse_stream(stream);
    assert_eq!(sd.messages.len(), 1);
    let h = first_http(&sd);
    assert_eq!(h.request.as_ref().unwrap().first_line, "GET /api");
    assert!(h.response.is_none());
}

#[test]
fn unflagged_trailing_fragments_still_fold() {
    // The capture ended before an end-of-stream flag: the stream's last
    // fragment closes the message.
    let stream = vec![h2_packet(
        info("10.0.0.1", "10.0.0.2", 40000, 443, 1),
        vec![req_msg(5, false)],
    )];
    let sd = Http2.parse_stream(stream);
    assert_eq!(sd.messages.len(), 1);
    assert!(first_http(&sd).request.is_some());
}

#[test]
fn content_encoding_resolves_by_exact_match() {
    let cases = vec![
        (vec![(":status", "200"), ("content-encoding", "gzip")], ContentEncoding::Gzip),
        (vec![(":status", "200"), ("content-encoding", "br")], ContentEncoding::Brotli),
        (vec![(":status", "200"), ("content-encoding", "identity")], ContentEncoding::Plain),
        (vec![(":status", "200"), ("content-encoding", "GZIP")], ContentEncoding::Plain),
        (vec![(":status", "200")], ContentEncoding::Plain),
    ];
    for (headers, expected) in cases {
        let stream = vec![h2_packet(
            info("10.0.0.2", "10.0.0.1", 443, 40000, 1),
            vec![h2_msg(5, headers, true, None)],
        )];
        let sd = Http2.parse_stream(stream);
        let resp = first_http(&sd).response.as_ref().unwrap();
        assert_eq!(resp.content_encoding, expected);
    }
}

#[test]
fn content_type_and_headers_carry_over() {
    let stream = vec![h2_packet(
        info("10.0.0.2", "10.0.0.1", 443, 40000, 1),
        vec![h2_msg(
            5,
            vec![(":status", "200"), ("content-type", "application/json")],
            true,
            None,
        )],
    )];
    let sd = Http2.parse_stream(stream);
    let resp = first_http(&sd).response.as_ref().unwrap();
    assert_eq!(resp.content_type.as_deref(), Some("application/json"));
    assert_eq!(resp.headers.len(), 2);
    assert_eq!(resp.tcp_stream_no, TcpStreamId(4));
    assert_eq!(resp.tcp_seq_number, TcpSeqNumber(1));
}

#[test]
fn duplicate_header_last_one_wins() {
    let stream = vec![h2_packet(
        info("10.0.0.2", "10.0.0.1", 443, 40000, 1),
        vec![h2_msg(
            5,
            vec![(":status", "200"), ("content-type", "text/plain"), ("content-type", "text/html")],
            true,
            None,
        )],
    )];
    let sd = Http2.parse_stream(stream);
    let resp = first_http(&sd).response.as_ref().unwrap();
    assert_eq!(resp.content_type.as_deref(), Some("text/html"));
}

#[test]
fn missing_method_and_path_render_as_dashes() {
    let stream = vec![h2_packet(
        info("10.0.0.1", "10.0.0.2", 40000, 443, 1),
        vec![h2_msg(5, vec![("x-other", "1")], true, None)],
    )];
    let sd = Http2.parse_stream(stream);
    let req = first_http(&sd).request.as_ref().unwrap();
    assert_eq!(req.first_line, "- -");
}

#[test]
fn response_flips_resolved_server_to_its_source() {
    // The first packet seeds dst=B as the server; the response then
    // arrives from B, and a later response from C re-resolves the server
    // to C — last write wins, earlier messages kept.
    let stream = vec![
        h2_packet(info("10.0.0.1", "10.0.0.2", 40000, 443, 1), vec![req_msg(5, true)]),
        h2_packet(info("10.0.0.2", "10.0.0.1", 443, 40000, 2), vec![resp_msg(5, true)]),
        h2_packet(info("10.0.0.3", "10.0.0.1", 8443, 40000, 3), vec![resp_msg(7, true)]),
    ];
    let sd = Http2.parse_stream(stream);
    assert_eq!(sd.server_ip, "10.0.0.3");
    assert_eq!(sd.client_ip, "10.0.0.1");
    assert_eq!(sd.server_port, NetworkPort(8443));
    assert_eq!(sd.messages.len(), 2);
    assert!(first_http(&sd).response.is_some());
}

#[test]
fn summary_takes_first_authority_and_keeps_it() {
    let stream = vec![
        h2_packet(
            info("10.0.0.1", "10.0.0.2", 40000, 443, 1),
            vec![h2_msg(5, vec![(":method", "GET"), (":authority", "first.example")], true, None)],
        ),
        h2_packet(
            info("10.0.0.1", "10.0.0.2", 40000, 443, 2),
            vec![h2_msg(7, vec![(":method", "GET"), (":authority", "second.example")], true, None)],
        ),
    ];
    let sd = Http2.parse_stream(stream);
    assert_eq!(sd.summary_details.as_deref(), Some("first.example"));
}

#[test]
fn empty_authority_does_not_claim_the_summary() {
    let stream = vec![
        h2_packet(
            info("10.0.0.1", "10.0.0.2", 40000, 443, 1),
            vec![h2_msg(5, vec![(":method", "GET"), (":authority", "")], true, None)],
        ),
        h2_packet(
            info("10.0.0.1", "10.0.0.2", 40000, 443, 2),
            vec![h2_msg(7, vec![(":method", "GET"), (":authority", "real.example")], true, None)],
        ),
    ];
    let sd = Http2.parse_stream(stream);
    assert_eq!(sd.summary_details.as_deref(), Some("real.example"));
}

#[test]
fn interleaved_logical_streams_pair_independently() {
    let stream = vec![
        h2_packet(info("10.0.0.1", "10.0.0.2", 40000, 443, 1), vec![req_msg(5, true)]),
        h2_packet(info("10.0.0.1", "10.0.0.2", 40000, 443, 2), vec![req_msg(7, true)]),
        h2_packet(info("10.0.0.2", "10.0.0.1", 443, 40000, 3), vec![resp_msg(7, true)]),
        h2_packet(info("10.0.0.2", "10.0.0.1", 443, 40000, 4), vec![resp_msg(5, true)]),
    ];
    let sd = Http2.parse_stream(stream);
    // Two paired messages, ordered by the arrival of their closing packet:
    // stream 7's response closed first.
    assert_eq!(sd.messages.len(), 2);
    match (&sd.messages[0], &sd.messages[1]) {
        (MessageData::Http(a), MessageData::Http(b)) => {
            assert!(a.request.is_some() && a.response.is_some());
            assert!(b.request.is_some() && b.response.is_some());
            assert_eq!(a.response.as_ref().unwrap().tcp_seq_number, TcpSeqNumber(3));
            assert_eq!(b.response.as_ref().unwrap().tcp_seq_number, TcpSeqNumber(4));
        }
        other => panic!("expected two http messages, got {:?}", other),
    }
}

fn http1_packet(basic_info: TSharkPacketBasicInfo, fact: TSharkHttp) -> TSharkPacket {
    TSharkPacket { basic_info, http: Some(fact), http2: None, pgsql: None }
}

fn http1_fact(first_line: &str, host: Option<&str>) -> TSharkHttp {
    TSharkHttp {
        http_type: HttpType::Request,
        http_host: host.map(|h| h.to_string()),
        first_line: first_line.to_string(),
        other_lines: String::new(),
        body: None,
        content_type: None,
    }
}

#[test]
fn http1_pairs_request_with_response() {
    let stream = vec![
        http1_packet(
            info("10.0.0.1", "10.0.0.2", 40000, 80, 1),
            http1_fact("GET / HTTP/1.1", Some("example.com")),
        ),
        http1_packet(
            info("10.0.0.2", "10.0.0.1", 80, 40000, 2),
            http1_fact("HTTP/1.1 200 OK", None),
        ),
    ];
    let sd = Http.parse_stream(stream);
    assert_eq!(sd.messages.len(), 1);
    let h = first_http(&sd);
    assert_eq!(h.request.as_ref().unwrap().first_line, "GET / HTTP/1.1");
    assert_eq!(h.response.as_ref().unwrap().first_line, "HTTP/1.1 200 OK");
    assert_eq!(sd.summary_details.as_deref(), Some("example.com"));
    assert_eq!(sd.server_ip, "10.0.0.2");
}

#[test]
fn http1_response_without_open_request_is_response_only() {
    // The request predates the capture window: the first packet seeds the
    // roles, so a packet sent from the seeded server side is a response.
    let stream = vec![
        TSharkPacket {
            basic_info: info("10.0.0.2", "10.0.0.1", 80, 40000, 1),
            http: None,
            http2: None,
            pgsql: None,
        },
        http1_packet(
            info("10.0.0.1", "10.0.0.2", 40000, 80, 2),
            http1_fact("HTTP/1.1 200 OK", None),
        ),
    ];
    // First packet's dst (10.0.0.1:40000) seeds the server; the fact then
    // comes from that side, so it is classified as a response.
    let sd = Http.parse_stream(stream);
    assert_eq!(sd.messages.len(), 1);
    let h = first_http(&sd);
    assert!(h.request.is_none());
    assert!(h.response.is_some());
}

#[test]
fn http1_trailing_request_is_request_only() {
    let stream = vec![http1_packet(
        info("10.0.0.1", "10.0.0.2", 40000, 80, 1),
        http1_fact("GET / HTTP/1.1", None),
    )];
    let sd = Http.parse_stream(stream);
    assert_eq!(sd.messages.len(), 1);
    let h = first_http(&sd);
    assert!(h.request.is_some());
    assert!(h.response.is_none());
}

fn pg_packet(basic_info: TSharkPacketBasicInfo, kinds: Vec<&str>) -> TSharkPacket {
    TSharkPacket {
        basic_info,
        http: None,
        http2: None,
        pgsql: Some(
            kinds
                .into_iter()
                .map(|k| PostgresWireMessage { message_type: Some(k.to_string()) })
                .collect(),
        ),
    }
}

#[test]
fn postgres_passes_messages_through_in_order() {
    let stream = vec![
        pg_packet(info("10.0.0.1", "10.0.0.2", 40000, 5432, 1), vec!["Query"]),
        pg_packet(info("10.0.0.2", "10.0.0.1", 5432, 40000, 2), vec!["Row description", "Data row"]),
    ];
    let sd = Postgres.parse_stream(stream);
    assert_eq!(sd.messages.len(), 3);
    let kinds: Vec<_> = sd
        .messages
        .iter()
        .map(|m| match m {
            MessageData::Postgres(p) => p.message_type.clone().unwrap(),
            other => panic!("expected a postgres message, got {:?}", other),
        })
        .collect();
    assert_eq!(kinds, vec!["Query", "Row description", "Data row"]);
    assert_eq!(sd.server_ip, "10.0.0.2");
    assert_eq!(sd.summary_details, None);
}

#[test]
fn dispatcher_selects_by_fixed_priority() {
    let http1 = http1_packet(
        info("10.0.0.1", "10.0.0.2", 40000, 80, 1),
        http1_fact("GET / HTTP/1.1", None),
    );
    let http2 = h2_packet(info("10.0.0.1", "10.0.0.2", 40000, 443, 1), vec![req_msg(5, true)]);
    let pg = pg_packet(info("10.0.0.1", "10.0.0.2", 40000, 5432, 1), vec!["Query"]);
    let plain = TSharkPacket {
        basic_info: info("10.0.0.1", "10.0.0.2", 40000, 22, 1),
        http: None,
        http2: None,
        pgsql: None,
    };

    assert_eq!(protocol_of(&vec![plain_clone(&plain), http1]), ProtocolKind::Http1);
    assert_eq!(protocol_of(&vec![plain_clone(&plain), http2]), ProtocolKind::Http2);
    assert_eq!(protocol_of(&vec![plain_clone(&plain), pg]), ProtocolKind::Postgres);
    assert_eq!(protocol_of(&vec![plain_clone(&plain)]), ProtocolKind::Opaque);
    assert_eq!(ProtocolKind::Http1.icon(), hotwire::dispatch::Icon::Http);
    assert_eq!(ProtocolKind::Postgres.icon(), hotwire::dispatch::Icon::Database);
    assert_eq!(ProtocolKind::Opaque.icon(), hotwire::dispatch::Icon::Lock);
}

fn plain_clone(p: &TSharkPacket) -> TSharkPacket {
    TSharkPacket {
        basic_info: hotwire::packet::clone_basic_info(&p.basic_info),
        http: None,
        http2: None,
        pgsql: None,
    }
}

#[test]
fn mixed_protocol_connection_goes_to_first_priority_match() {
    // A data anomaly: one connection carrying both an HTTP/1 and an
    // HTTP/2 fact is dispatched to HTTP/1, the first in priority order.
    let mixed = vec![
        h2_packet(info("10.0.0.1", "10.0.0.2", 40000, 443, 1), vec![req_msg(5, true)]),
        http1_packet(
            info("10.0.0.1", "10.0.0.2", 40000, 80, 2),
            http1_fact("GET / HTTP/1.1", None),
        ),
    ];
    let (kind, sd) = reconstruct_stream(mixed);
    assert_eq!(kind, ProtocolKind::Http1);
    assert!(sd.is_some());
}

#[test]
fn opaque_connection_yields_no_stream_data() {
    let plain = TSharkPacket {
        basic_info: info("10.0.0.1", "10.0.0.2", 40000, 22, 1),
        http: None,
        http2: None,
        pgsql: None,
    };
    let (kind, sd) = reconstruct_stream(vec![plain]);
    assert_eq!(kind, ProtocolKind::Opaque);
    assert!(sd.is_none());
}
