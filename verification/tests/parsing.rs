//! Tests for the capture-document parser: the XML cursor, the field
//! extractor, the protocol sub-parsers and the packet assembler.

use hotwire::ids::NetworkPort;
use hotwire::ids::TcpSeqNumber;
use hotwire::ids::TcpStreamId;
use hotwire::packet::TSharkPacket;
use hotwire::packet::parse_pdml;
use hotwire::time::Timestamp;
use hotwire::xml::ParseError;

fn test_fmt_str(extra: &str) -> String {
    format!(
        r#"
   <pdml>
     <packet>
       <proto name="frame">
           <field name="frame.time" show="Mar  5, 2021 08:49:52.736275000 CET"/>
       </proto>
       <proto name="ip">
           <field name="ip.src" show="10.215.215.9" />
           <field name="ip.dst" show="10.215.215.9" />
       </proto>
       <proto name="tcp">
           <field name="tcp.srcport" show="52796" value="ce3c"/>
           <field name="tcp.dstport" show="5432" value="1538"/>
           <field name="tcp.seq_raw" show="1963007432" value="75011dc8"/>
           <field name="tcp.stream" show="4"/>
       </proto>
       {}
     </packet>
   </pdml>
"#,
        extra
    )
}

fn parse_test_xml(xml: &str) -> Vec<TSharkPacket> {
    let (packets, err) = parse_pdml(test_fmt_str(xml).into_bytes());
    assert!(err.is_none(), "unexpected parse error: {:?}", err);
    packets
}

#[test]
fn parses_basic_packet_addressing() {
    let packets = parse_test_xml("");
    assert_eq!(packets.len(), 1);
    let b = &packets[0].basic_info;
    assert_eq!(b.ip_src, "10.215.215.9");
    assert_eq!(b.ip_dst, "10.215.215.9");
    assert_eq!(b.port_src, NetworkPort(52796));
    assert_eq!(b.port_dst, NetworkPort(5432));
    assert_eq!(b.tcp_seq_number, TcpSeqNumber(1963007432));
    assert_eq!(b.tcp_stream_id, TcpStreamId(4));
    assert_eq!(b.port_src.as_u16(), 52796);
    assert_eq!(b.tcp_stream_id.as_u32(), 4);
    assert_eq!(b.tcp_seq_number.as_u32(), 1963007432);
    assert!(packets[0].http.is_none());
    assert!(packets[0].http2.is_none());
    assert!(packets[0].pgsql.is_none());
}

#[test]
fn parses_timestamp_wall_clock_fields_and_discards_timezone() {
    let packets = parse_test_xml("");
    let expected = Timestamp {
        year: 2021,
        month: 3,
        day: 5,
        hour: 8,
        minute: 49,
        second: 52,
        nanosecond: 736275000,
    };
    assert_eq!(packets[0].basic_info.frame_time, expected);
}

#[test]
fn unparseable_timestamp_is_fatal() {
    let doc = r#"<pdml><packet>
       <proto name="frame"><field name="frame.time" show="not a time"/></proto>
    </packet></pdml>"#;
    let (packets, err) = parse_pdml(doc.as_bytes().to_vec());
    assert_eq!(packets.len(), 0);
    assert!(matches!(err, Some(ParseError::BadTimestamp { .. })));
}

#[test]
fn truncated_packet_reports_offset_and_keeps_earlier_packets() {
    let good = test_fmt_str("");
    let good_trimmed = good.trim_end().trim_end_matches("</pdml>").to_string();
    let truncated = format!("{}<packet><proto name=\"frame\">", good_trimmed);
    let len = truncated.len();
    let (packets, err) = parse_pdml(truncated.into_bytes());
    assert_eq!(packets.len(), 1);
    assert_eq!(packets[0].basic_info.tcp_stream_id, TcpStreamId(4));
    assert_eq!(err, Some(ParseError::UnexpectedEof { offset: len }));
}

#[test]
fn second_ip_block_is_fatal() {
    let extra = r#"<proto name="ip">
           <field name="ip.src" show="10.0.0.1" />
           <field name="ip.dst" show="10.0.0.2" />
       </proto>"#;
    let (packets, err) = parse_pdml(test_fmt_str(extra).into_bytes());
    assert_eq!(packets.len(), 0);
    assert!(matches!(err, Some(ParseError::DuplicateIp { .. })));
}

#[test]
fn second_http_block_is_fatal() {
    let extra = r#"<proto name="http"><field name="" show="GET / HTTP/1.1"/></proto>
       <proto name="http"><field name="" show="GET / HTTP/1.1"/></proto>"#;
    let (packets, err) = parse_pdml(test_fmt_str(extra).into_bytes());
    assert_eq!(packets.len(), 0);
    assert!(matches!(err, Some(ParseError::Malformed { .. })));
}

#[test]
fn malformed_tag_is_fatal_with_offset() {
    let doc = "<pdml><packet><proto name=broken></proto></packet></pdml>";
    let (packets, err) = parse_pdml(doc.as_bytes().to_vec());
    assert_eq!(packets.len(), 0);
    match err {
        Some(ParseError::Malformed { offset }) => {
            assert!(offset > 0 && offset < doc.len());
        }
        other => panic!("expected a malformed-input error, got {:?}", other),
    }
}

#[test]
fn packet_without_ip_is_not_terminal() {
    let doc = r#"<pdml><packet>
       <proto name="tcp"><field name="tcp.stream" show="1"/></proto>
    </packet></pdml>"#;
    let (packets, err) = parse_pdml(doc.as_bytes().to_vec());
    assert_eq!(packets.len(), 0);
    assert!(matches!(err, Some(ParseError::UnexpectedEof { .. })));
}

#[test]
fn parses_http1_fact_fields() {
    let extra = r#"<proto name="http">
           <field name="" show="GET /index.html HTTP/1.1\r\n"/>
           <field name="http.host" show="example.com"/>
           <field name="http.request.line" show="Accept: text/html "/>
           <field name="http.request.line" show="User-Agent: test"/>
           <field name="http.content_type" show="text/html"/>
           <field name="http.file_data" show="hello body"/>
       </proto>"#;
    let packets = parse_test_xml(extra);
    let http = packets[0].http.as_ref().expect("http fact");
    assert_eq!(http.first_line, "GET /index.html HTTP/1.1\\r\\n");
    assert_eq!(http.http_host.as_deref(), Some("example.com"));
    assert_eq!(http.other_lines, "Accept: text/html User-Agent: test");
    assert_eq!(http.content_type.as_deref(), Some("text/html"));
    assert_eq!(http.body.as_deref(), Some("hello body"));
}

#[test]
fn attribute_values_are_entity_unescaped() {
    let extra = r#"<proto name="http">
           <field name="http.file_data" show="a &lt;b&gt; &amp; &quot;c&quot; &apos;d&apos;"/>
       </proto>"#;
    let packets = parse_test_xml(extra);
    let http = packets[0].http.as_ref().expect("http fact");
    assert_eq!(http.body.as_deref(), Some("a <b> & \"c\" 'd'"));
}

#[test]
fn parses_http2_frame_facts() {
    let extra = r#"<proto name="http2">
           <field name="http2.stream">
             <field name="http2.streamid" show="5"/>
             <field name="http2.flags.end_stream" show="1"/>
             <field name="http2.header">
               <field name="http2.header.name" show=":method"/>
               <field name="http2.header.value" show="GET"/>
             </field>
             <field name="http2.header">
               <field name="http2.header.name" show=":path"/>
               <field name="http2.header.value" show="/api"/>
             </field>
             <field name="http2.data.data" show="payload"/>
           </field>
       </proto>"#;
    let packets = parse_test_xml(extra);
    let msgs = packets[0].http2.as_ref().expect("http2 facts");
    assert_eq!(msgs.len(), 1);
    assert_eq!(msgs[0].stream_id, 5);
    assert!(msgs[0].is_end_stream);
    assert_eq!(msgs[0].headers.len(), 2);
    assert_eq!(msgs[0].headers[0].0, ":method");
    assert_eq!(msgs[0].headers[0].1, "GET");
    assert_eq!(msgs[0].headers[1], (":path".to_string(), "/api".to_string()));
    match &msgs[0].data {
        Some(hotwire::http2::Http2Data::BasicData(v)) => assert_eq!(v, b"payload"),
        other => panic!("expected a raw data fragment, got {:?}", other),
    }
}

#[test]
fn two_http2_blocks_in_one_packet_concatenate() {
    let extra = r#"<proto name="http2">
           <field name="http2.stream"><field name="http2.streamid" show="1"/></field>
       </proto>
       <proto name="http2">
           <field name="http2.stream"><field name="http2.streamid" show="3"/></field>
       </proto>"#;
    let packets = parse_test_xml(extra);
    let msgs = packets[0].http2.as_ref().expect("http2 facts");
    assert_eq!(msgs.len(), 2);
    assert_eq!(msgs[0].stream_id, 1);
    assert_eq!(msgs[1].stream_id, 3);
}

#[test]
fn parses_pgsql_fact() {
    let extra = r#"<proto name="pgsql">
           <field name="pgsql.type" show="Query"/>
       </proto>"#;
    let packets = parse_test_xml(extra);
    let msgs = packets[0].pgsql.as_ref().expect("pgsql facts");
    assert_eq!(msgs.len(), 1);
    assert_eq!(msgs[0].message_type.as_deref(), Some("Query"));
}

#[test]
fn declarations_and_text_are_passed_over() {
    let doc = format!("<?xml version=\"1.0\"?>\n<!-- capture -->{}", test_fmt_str(""));
    let (packets, err) = parse_pdml(doc.into_bytes());
    assert!(err.is_none());
    assert_eq!(packets.len(), 1);
}

#[test]
fn unknown_protos_are_passed_over() {
    let extra = r#"<proto name="tls">
           <field name="tls.record" show="whatever"/>
       </proto>"#;
    let packets = parse_test_xml(extra);
    assert_eq!(packets.len(), 1);
    assert!(packets[0].http.is_none());
    assert!(packets[0].http2.is_none());
    assert!(packets[0].pgsql.is_none());
}

#[test]
fn unreadable_numeric_field_degrades_to_default() {
    let doc = r#"<pdml><packet>
       <proto name="ip">
           <field name="ip.src" show="10.0.0.1" />
           <field name="ip.dst" show="10.0.0.2" />
       </proto>
       <proto name="tcp">
           <field name="tcp.srcport" show="not-a-number"/>
           <field name="tcp.dstport" show="99999999"/>
           <field name="tcp.stream" show="7"/>
       </proto>
    </packet></pdml>"#;
    let (packets, err) = parse_pdml(doc.as_bytes().to_vec());
    assert!(err.is_none());
    assert_eq!(packets[0].basic_info.port_src, NetworkPort(0));
    assert_eq!(packets[0].basic_info.port_dst, NetworkPort(0));
    assert_eq!(packets[0].basic_info.tcp_stream_id, TcpStreamId(7));
}
