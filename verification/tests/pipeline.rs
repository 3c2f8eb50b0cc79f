//! End-to-end tests: a PDML document through parsing, dispatch and
//! reconstruction.

use hotwire::dispatch::reconstruct_stream;
use hotwire::dispatch::ProtocolKind;
use hotwire::message::HttpBody;
use hotwire::message::MessageData;
use hotwire::packet::parse_pdml;

fn addressed_packet(src: &str, sport: u16, dst: &str, dport: u16, seq: u32, extra: &str) -> String {
    format!(
        r#"<packet>
       <proto name="frame">
           <field name="frame.time" show="Mar  5, 2021 08:49:52.736275000 CET"/>
       </proto>
       <proto name="ip">
           <field name="ip.src" show="{}" />
           <field name="ip.dst" show="{}" />
       </proto>
       <proto name="tcp">
           <field name="tcp.srcport" show="{}"/>
           <field name="tcp.dstport" show="{}"/>
           <field name="tcp.seq_raw" show="{}"/>
           <field name="tcp.stream" show="4"/>
       </proto>
       {}
     </packet>"#,
        src, dst, sport, dport, seq, extra
    )
}

#[test]
fn pdml_to_paired_http2_conversation() {
    let request_block = r#"<proto name="http2">
           <field name="http2.stream">
             <field name="http2.streamid" show="5"/>
             <field name="http2.flags.end_stream" show="1"/>
             <field name="http2.header">
               <field name="http2.header.name" show=":method"/>
               <field name="http2.header.value" show="GET"/>
             </field>
             <field name="http2.header">
               <field name="http2.header.name" show=":path"/>
               <field name="http2.header.value" show="/api"/>
             </field>
             <field name="http2.header">
               <field name="http2.header.name" show=":authority"/>
               <field name="http2.header.value" show="example.com"/>
             </field>
           </field>
       </proto>"#;
    let response_block = r#"<proto name="http2">
           <field name="http2.stream">
             <field name="http2.streamid" show="5"/>
             <field name="http2.flags.end_stream" show="1"/>
             <field name="http2.header">
               <field name="http2.header.name" show=":status"/>
               <field name="http2.header.value" show="200"/>
             </field>
             <field name="http2.header">
               <field name="http2.header.name" show="content-type"/>
               <field name="http2.header.value" show="text/plain"/>
             </field>
             <field name="http2.data.data" show="hello"/>
           </field>
       </proto>"#;
    let doc = format!(
        "<pdml>{}{}</pdml>",
        addressed_packet("10.0.0.1", 40000, "10.0.0.2", 443, 1, request_block),
        addressed_packet("10.0.0.2", 443, "10.0.0.1", 40000, 2, response_block),
    );

    let (packets, err) = parse_pdml(doc.into_bytes());
    assert!(err.is_none(), "unexpected parse error: {:?}", err);
    assert_eq!(packets.len(), 2);

    let (kind, sd) = reconstruct_stream(packets);
    assert_eq!(kind, ProtocolKind::Http2);
    let sd = sd.expect("stream data");
    assert_eq!(sd.server_ip, "10.0.0.2");
    assert_eq!(sd.client_ip, "10.0.0.1");
    assert_eq!(sd.server_port.as_u16(), 443);
    assert_eq!(sd.summary_details.as_deref(), Some("example.com"));
    assert_eq!(sd.messages.len(), 1);
    match &sd.messages[0] {
        MessageData::Http(h) => {
            let req = h.request.as_ref().expect("request half");
            let resp = h.response.as_ref().expect("response half");
            assert_eq!(req.first_line, "GET /api");
            assert_eq!(resp.first_line, "HTTP/2 status 200");
            assert_eq!(resp.content_type.as_deref(), Some("text/plain"));
            assert_eq!(resp.body, HttpBody::Text("hello".to_string()));
        }
        other => panic!("expected an http message, got {:?}", other),
    }
}

#[test]
fn pdml_to_postgres_passthrough() {
    let query = r#"<proto name="pgsql"><field name="pgsql.type" show="Query"/></proto>"#;
    let row = r#"<proto name="pgsql"><field name="pgsql.type" show="Data row"/></proto>"#;
    let doc = format!(
        "<pdml>{}{}</pdml>",
        addressed_packet("10.0.0.1", 40000, "10.0.0.2", 5432, 1, query),
        addressed_packet("10.0.0.2", 5432, "10.0.0.1", 40000, 2, row),
    );
    let (packets, err) = parse_pdml(doc.into_bytes());
    assert!(err.is_none());
    let (kind, sd) = reconstruct_stream(packets);
    assert_eq!(kind, ProtocolKind::Postgres);
    let sd = sd.expect("stream data");
    assert_eq!(sd.messages.len(), 2);
    match &sd.messages[1] {
        MessageData::Postgres(p) => assert_eq!(p.message_type.as_deref(), Some("Data row")),
        other => panic!("expected a postgres message, got {:?}", other),
    }
}
