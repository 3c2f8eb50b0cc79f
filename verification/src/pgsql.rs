//! The Postgres wire-message fact and its reconstruction.
//!
//! Postgres wire messages are already message-granular, so reconstruction
//! is pass-through grouping: one output message per fact, in arrival order,
//! with no pairing and no merging.

use crate::message::MessageData;
use crate::text::opt_str_view;
use crate::xml::EventModel;
use crate::xml::ParseError;
use crate::xml::XmlCursor;
use crate::xml::XmlEvent;
use crate::xml::attr_value;
use crate::xml::element_attr_val_string;
use crate::xml::field_name_is;
use crate::xml::lemma_next_event_progress;
use crate::xml::lit_bytes;
use crate::xml::name_is;
use crate::xml::spec_attr_string;
use crate::xml::spec_next_event;
use crate::message::MessageModel;
use crate::message::PostgresMessageData;
use crate::message::StreamData;
use crate::message::StreamModel;
use crate::packet::TSharkPacket;
use vstd::prelude::*;

verus! {

/// One Postgres wire message as the capture tool rendered it.  Decoding of
/// individual wire-message kinds is a collaborator's concern; the engine
/// keeps only the rendered message type.
#[derive(Debug, PartialEq, Eq)]
pub struct PostgresWireMessage {
    pub message_type: Option<String>,
}

/// Parsing a `pgsql` proto block from `pos` to its closing `</proto>`:
/// the last readable `pgsql.type` field value, or `None`.
pub open spec fn spec_parse_pgsql(data: Seq<u8>, pos: int, acc: Option<Seq<char>>) -> Result<
    (Option<Seq<char>>, int),
    ParseError,
>
    decreases data.len() - pos,
{
    if !(0 <= pos <= data.len()) {
        Err(ParseError::Malformed { offset: 0 })
    } else {
        match spec_next_event(data, pos) {
            Err(e) => Err(e),
            Ok((ev, p2)) => {
                proof {
                    lemma_next_event_progress(data, pos);
                }
                match ev {
                    EventModel::Eof => Err(
                        ParseError::UnexpectedEof { offset: data.len() as usize },
                    ),
                    EventModel::End(n) => if n == lit_bytes("proto") {
                        Ok((acc, p2))
                    } else {
                        spec_parse_pgsql(data, p2, acc)
                    },
                    EventModel::Empty(t) => if attr_value(t, lit_bytes("name")) == Some(
                        lit_bytes("pgsql.type"),
                    ) {
                        spec_parse_pgsql(data, p2, spec_attr_string(t, lit_bytes("show")))
                    } else {
                        spec_parse_pgsql(data, p2, acc)
                    },
                    _ => spec_parse_pgsql(data, p2, acc),
                }
            },
        }
    }
}

/// A `pgsql` block parse makes progress and stays within bounds.
pub proof fn lemma_parse_pgsql_bounds(data: Seq<u8>, pos: int, acc: Option<Seq<char>>)
    requires
        0 <= pos <= data.len(),
    ensures
        match spec_parse_pgsql(data, pos, acc) {
            Ok((_, p2)) => pos < p2 <= data.len(),
            Err(_) => true,
        },
    decreases data.len() - pos,
{
    match spec_next_event(data, pos) {
        Err(_) => {},
        Ok((ev, p2)) => {
            lemma_next_event_progress(data, pos);
            match ev {
                EventModel::Eof => {},
                EventModel::End(n) => {
                    if n != lit_bytes("proto") {
                        lemma_parse_pgsql_bounds(data, p2, acc);
                    }
                },
                EventModel::Empty(t) => {
                    if attr_value(t, lit_bytes("name")) == Some(lit_bytes("pgsql.type")) {
                        lemma_parse_pgsql_bounds(
                            data,
                            p2,
                            spec_attr_string(t, lit_bytes("show")),
                        );
                    } else {
                        lemma_parse_pgsql_bounds(data, p2, acc);
                    }
                },
                _ => {
                    lemma_parse_pgsql_bounds(data, p2, acc);
                },
            }
        },
    }
}

/// Reads a `pgsql` proto block into one wire-message fact, as
/// [`spec_parse_pgsql`] describes.
#[verifier::loop_isolation(false)]
pub fn parse_pgsql_info(cursor: &mut XmlCursor) -> (r: Result<PostgresWireMessage, ParseError>)
    requires
        old(cursor).wf(),
    ensures
        final(cursor).data == old(cursor).data,
        final(cursor).wf(),
        match r {
            Ok(m) => spec_parse_pgsql(old(cursor).data@, old(cursor).pos as int, None) == Ok::<
                (Option<Seq<char>>, int),
                ParseError,
            >((opt_str_view(m.message_type), final(cursor).pos as int)),
            Err(e) => spec_parse_pgsql(old(cursor).data@, old(cursor).pos as int, None) == Err::<
                (Option<Seq<char>>, int),
                ParseError,
            >(e),
        },
{
    let mut message_type: Option<String> = None;
    loop
        invariant
            cursor.data == old(cursor).data,
            cursor.wf(),
            spec_parse_pgsql(old(cursor).data@, old(cursor).pos as int, None) == spec_parse_pgsql(
                cursor.data@,
                cursor.pos as int,
                opt_str_view(message_type),
            ),
        decreases cursor.data@.len() - cursor.pos,
    {
        proof {
            lemma_next_event_progress(cursor.data@, cursor.pos as int);
        }
        match cursor.next_event() {
            Err(e) => {
                return Err(e);
            },
            Ok(ev) => match ev {
                XmlEvent::Eof => {
                    return Err(ParseError::UnexpectedEof { offset: cursor.data.len() });
                },
                XmlEvent::End(n) => {
                    if name_is(&n, "proto") {
                        return Ok(PostgresWireMessage { message_type });
                    }
                },
                XmlEvent::Empty(t) => {
                    if field_name_is(&t, "pgsql.type") {
                        message_type = element_attr_val_string(&t, "show".as_bytes());
                    }
                },
                _ => {},
            },
        }
    }
}

/// The messages one packet contributes: one per wire-message fact, in
/// order.
pub open spec fn pgsql_of_packet(p: TSharkPacket) -> Seq<MessageModel> {
    match p.pgsql {
        Some(v) => Seq::new(
            v@.len(),
            |k: int| MessageModel::Postgres(
                PostgresMessageData { message_type: v@[k].message_type },
            ),
        ),
        None => Seq::empty(),
    }
}

/// The messages of the first `i` packets, in arrival order.
pub open spec fn pgsql_messages(pkts: Seq<TSharkPacket>, i: int) -> Seq<MessageModel>
    decreases i,
{
    if i <= 0 {
        Seq::empty()
    } else {
        pgsql_messages(pkts, i - 1) + pgsql_of_packet(pkts[i - 1])
    }
}

/// The reconstruction of one Postgres connection: pass-through grouping.
/// Wire messages are already message-granular, so there is no pairing and
/// no merging; roles stay as the first packet seeded them.
pub open spec fn spec_parse_stream_pgsql(pkts: Seq<TSharkPacket>) -> StreamModel
    recommends
        pkts.len() > 0,
{
    StreamModel {
        server_ip: pkts[0].basic_info.ip_dst@,
        server_port: pkts[0].basic_info.port_dst,
        client_ip: pkts[0].basic_info.ip_src@,
        messages: pgsql_messages(pkts, pkts.len() as int),
        summary_details: None,
    }
}

/// The Postgres reconstruction strategy.
pub struct Postgres;

impl Postgres {
    /// Whether a packet belongs to this strategy: it carries a Postgres
    /// fact.
    pub fn is_my_message(&self, msg: &TSharkPacket) -> (r: bool)
        ensures
            r == (msg.pgsql is Some),
    {
        msg.pgsql.is_some()
    }

    /// Reconstructs one connection's ordered packets into its
    /// [`StreamData`], as [`spec_parse_stream_pgsql`] describes.
    #[verifier::loop_isolation(false)]
    pub fn parse_stream(&self, stream: Vec<TSharkPacket>) -> (r: StreamData)
        requires
            stream@.len() > 0,
        ensures
            r@ == spec_parse_stream_pgsql(stream@),
    {
        let ghost pkts0 = stream@;
        let server_ip = stream[0].basic_info.ip_dst.clone();
        let client_ip = stream[0].basic_info.ip_src.clone();
        let server_port = stream[0].basic_info.port_dst;
        let mut messages: Vec<MessageData> = Vec::new();
        let mut pkts = stream;
        let ghost mut i: int = 0;
        while pkts.len() > 0
            invariant
                0 <= i <= pkts0.len(),
                pkts@ =~= pkts0.subrange(i, pkts0.len() as int),
                Seq::new(messages@.len(), |t: int| messages@[t]@) =~= pgsql_messages(pkts0, i),
            decreases pkts@.len(),
        {
            let p = pkts.remove(0);
            assert(p == pkts0[i]);
            if let Some(mut v) = p.pgsql {
                let ghost v0 = v@;
                let ghost mut k: int = 0;
                while v.len() > 0
                    invariant
                        0 <= k <= v0.len(),
                        v@ =~= v0.subrange(k, v0.len() as int),
                        Seq::new(messages@.len(), |t: int| messages@[t]@) =~= pgsql_messages(
                            pkts0,
                            i,
                        ) + Seq::new(
                            k as nat,
                            |t: int| MessageModel::Postgres(
                                PostgresMessageData { message_type: v0[t].message_type },
                            ),
                        ),
                    decreases v@.len(),
                {
                    let m = v.remove(0);
                    assert(m == v0[k]);
                    messages.push(
                        MessageData::Postgres(PostgresMessageData { message_type: m.message_type }),
                    );
                    proof {
                        let ghost pre = Seq::new(
                            k as nat,
                            |t: int| MessageModel::Postgres(
                                PostgresMessageData { message_type: v0[t].message_type },
                            ),
                        );
                        k = k + 1;
                        let lhs = Seq::new(messages@.len(), |t: int| messages@[t]@);
                        let rhs = pgsql_messages(pkts0, i) + Seq::new(
                            k as nat,
                            |t: int| MessageModel::Postgres(
                                PostgresMessageData { message_type: v0[t].message_type },
                            ),
                        );
                        assert(lhs.len() == rhs.len());
                        assert forall|t: int| 0 <= t < lhs.len() implies lhs[t] == rhs[t] by {
                            if t < lhs.len() - 1 {
                                assert(lhs[t] == messages@[t]@);
                                assert(rhs[t] == (pgsql_messages(pkts0, i) + pre)[t]);
                            } else {
                                assert(lhs[t] == messages@.last()@);
                                assert(rhs[t] == MessageModel::Postgres(
                                    PostgresMessageData { message_type: v0[k - 1].message_type },
                                ));
                            }
                        }
                        assert(lhs =~= rhs);
                    }
                }
                proof {
                    assert(Seq::new(
                        v0.len(),
                        |t: int| MessageModel::Postgres(
                            PostgresMessageData { message_type: v0[t].message_type },
                        ),
                    ) =~= pgsql_of_packet(pkts0[i]));
                    assert(Seq::new(messages@.len(), |t: int| messages@[t]@) =~= pgsql_messages(
                        pkts0,
                        i + 1,
                    ));
                    i = i + 1;
                }
            } else {
                proof {
                    assert(pgsql_of_packet(pkts0[i]) =~= Seq::empty());
                    assert(Seq::new(messages@.len(), |t: int| messages@[t]@) =~= pgsql_messages(
                        pkts0,
                        i + 1,
                    ));
                    i = i + 1;
                }
            }
        }
        let result = StreamData { server_ip, server_port, client_ip, messages, summary_details: None };
        proof {
            assert(result@ =~= spec_parse_stream_pgsql(pkts0));
        }
        result
    }
}

} // verus!
