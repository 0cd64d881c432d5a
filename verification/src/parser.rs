//! The client packet parser: one varint tag, then the packet's own fields.
//!
//! The parser is restartable: when the buffer holds less than one whole
//! packet it reports `WouldBlock` and the caller keeps the buffer intact.
//! The packet writer in this module produces the same bytes a conforming
//! client sends, and the round-trip law at the bottom ties the two
//! together.
use vstd::prelude::*;

use crate::binary::lemma_read_uvarint_enc;
use crate::binary::lemma_subrange_sub;
use crate::binary::read_string;
use crate::binary::read_uvarint;
use crate::binary::spec_read_str;
use crate::binary::spec_read_uvarint;
use crate::binary::spec_str_enc;
use crate::binary::spec_uvarint;
use crate::binary::Encoder;
use crate::binary::ReadOutcome;
use crate::block::spec_block_enc;
use crate::block::spec_read_block;
use crate::block::Block;
use crate::block::BlockM;
use crate::compress::spec_read_compressed_block;
use crate::errors::DriverError;
use crate::errors::Error;
use crate::protocol_hello::spec_hello_request_enc;
use crate::protocol_hello::spec_read_hello_request;
use crate::protocol_hello::HelloRequest;
use crate::protocol_hello::HelloRequestM;
use crate::protocol_query::spec_query_request_enc;
use crate::protocol_query::spec_read_query_request;
use crate::protocol_query::QueryRequest;
use crate::protocol_query::QueryRequestM;
use crate::protocols::CLIENT_CANCEL;
use crate::protocols::CLIENT_DATA;
use crate::protocols::CLIENT_HELLO;
use crate::protocols::CLIENT_PING;
use crate::protocols::CLIENT_QUERY;
use crate::protocols::CLIENT_SCALAR;
use crate::protocols::DBMS_MIN_REVISION_WITH_CLIENT_INFO;

verus! {

/// One decoded client packet.
#[derive(Debug)]
pub enum Packet {
    Ping,
    Cancel,
    Hello(HelloRequest),
    Query(QueryRequest),
    Data(Block),
}

/// Mathematical image of a [`Packet`].
pub enum PacketM {
    Ping,
    Cancel,
    Hello(HelloRequestM),
    Query(QueryRequestM),
    Data(BlockM),
}

impl View for Packet {
    type V = PacketM;

    open spec fn view(&self) -> PacketM {
        match self {
            Packet::Ping => PacketM::Ping,
            Packet::Cancel => PacketM::Cancel,
            Packet::Hello(h) => PacketM::Hello(h@),
            Packet::Query(q) => PacketM::Query(q@),
            Packet::Data(b) => PacketM::Data(b@),
        }
    }
}

/// View of the remembered handshake, if one was accepted.
pub open spec fn spec_hello_opt(hello: Option<HelloRequest>) -> Option<HelloRequestM> {
    match hello {
        Option::Some(h) => Option::Some(h@),
        Option::None => Option::None,
    }
}

/// Reader for one client packet against the connection's remembered
/// handshake and compression setting.
pub open spec fn spec_read_packet(
    s: Seq<u8>,
    pos: int,
    hello: Option<HelloRequestM>,
    compress: bool,
) -> ReadOutcome<PacketM> {
    match spec_read_uvarint(s, pos) {
        ReadOutcome::Val(tag, n) => if tag == CLIENT_PING {
            ReadOutcome::Val(PacketM::Ping, n)
        } else if tag == CLIENT_CANCEL {
            ReadOutcome::Val(PacketM::Cancel, n)
        } else if tag == CLIENT_HELLO {
            match spec_read_hello_request(s, pos + n) {
                ReadOutcome::Val(h, m) => ReadOutcome::Val(PacketM::Hello(h), n + m),
                o => o.pass(),
            }
        } else if tag == CLIENT_QUERY {
            match hello {
                Option::Some(h) => match spec_read_query_request(s, pos + n, h) {
                    ReadOutcome::Val(q, m) => ReadOutcome::Val(PacketM::Query(q), n + m),
                    o => o.pass(),
                },
                Option::None => ReadOutcome::Bad(DriverError::UnexpectedPacket),
            }
        } else if tag == CLIENT_DATA || tag == CLIENT_SCALAR {
            match spec_read_data_packet(s, pos + n, compress) {
                ReadOutcome::Val(b, m) => ReadOutcome::Val(PacketM::Data(b), n + m),
                o => o.pass(),
            }
        } else {
            ReadOutcome::Bad(DriverError::UnknownPacket { packet: tag })
        },
        o => o.pass(),
    }
}

/// Reader for the body of a Data packet: a temporary-table name (which
/// this server discards) and a block, compressed or not as negotiated.
pub open spec fn spec_read_data_packet(s: Seq<u8>, pos: int, compress: bool) -> ReadOutcome<
    BlockM,
> {
    match spec_read_str(s, pos) {
        ReadOutcome::Val(tbl, m) => match (if compress {
            spec_read_compressed_block(s, pos + m)
        } else {
            spec_read_block(s, pos + m)
        }) {
            ReadOutcome::Val(b, k) => ReadOutcome::Val(b, m + k),
            o => o.pass(),
        },
        o => o.pass(),
    }
}

/// The internal client request parser.
pub struct Parser {}

impl Parser {
    /// Parse one packet starting at `pos`.  On success the returned
    /// position is the first byte after the packet; on `WouldBlock` the
    /// caller must keep the buffer and read more.
    #[verifier::spinoff_prover]
    #[verifier::rlimit(100)]
    pub fn parse_packet(
        buf: &Vec<u8>,
        pos: usize,
        hello: &Option<HelloRequest>,
        compress: bool,
    ) -> (r: Result<(Packet, usize), Error>)
        requires
            pos <= buf@.len(),
        ensures
            ({
                let sr = spec_read_packet(buf@, pos as int, spec_hello_opt(*hello), compress);
                match sr {
                    ReadOutcome::Val(p, n) => r matches Ok(q) && q.0@ == p && pos <= q.1 && q.1
                        == pos + n && q.1 <= buf@.len(),
                    ReadOutcome::Short => r matches Err(e) && e is WouldBlock,
                    ReadOutcome::Bad(d) => r matches Err(e) && e == Error::Driver(d),
                }
            }),
    {
        let (tag, p1) = match read_uvarint(buf, pos) {
            Ok(p) => p,
            Err(e) => {
                return Err(e);
            },
        };
        proof {
            crate::binary::lemma_read_uvarint_progress(buf@, pos as int);
        }
        if tag == CLIENT_PING {
            return Ok((Packet::Ping, p1));
        }
        if tag == CLIENT_CANCEL {
            return Ok((Packet::Cancel, p1));
        }
        if tag == CLIENT_HELLO {
            return match HelloRequest::read_from(buf, p1) {
                Ok((h, np)) => Ok((Packet::Hello(h), np)),
                Err(e) => Err(e),
            };
        }
        if tag == CLIENT_QUERY {
            return match hello {
                Option::Some(h) => match QueryRequest::read_from(buf, p1, h) {
                    Ok((q, np)) => Ok((Packet::Query(q), np)),
                    Err(e) => Err(e),
                },
                Option::None => Err(Error::Driver(DriverError::UnexpectedPacket)),
            };
        }
        if tag == CLIENT_DATA || tag == CLIENT_SCALAR {
            return match Parser::parse_data(buf, p1, compress) {
                Ok((b, np)) => Ok((Packet::Data(b), np)),
                Err(e) => Err(e),
            };
        }
        Err(Error::Driver(DriverError::UnknownPacket { packet: tag }))
    }

    /// Parse the body of a Data packet: discard the temporary-table name,
    /// then decode the block, compressed or not as negotiated.
    fn parse_data(buf: &Vec<u8>, pos: usize, compress: bool) -> (r: Result<(Block, usize), Error>)
        requires
            pos <= buf@.len(),
        ensures
            ({
                let sr = spec_read_data_packet(buf@, pos as int, compress);
                match sr {
                    ReadOutcome::Val(b, n) => r matches Ok(q) && q.0@ == b && pos <= q.1 && q.1
                        == pos + n && q.1 <= buf@.len(),
                    ReadOutcome::Short => r matches Err(e) && e is WouldBlock,
                    ReadOutcome::Bad(d) => r matches Err(e) && e == Error::Driver(d),
                }
            }),
    {
        let (tbl, p2) = match read_string(buf, pos) {
            Ok(p) => p,
            Err(e) => {
                return Err(e);
            },
        };
        proof {
            crate::binary::lemma_read_str_progress(buf@, pos as int);
            assert(spec_read_str(buf@, pos as int) == ReadOutcome::<Seq<u8>>::Val(
                tbl@,
                p2 - pos,
            ));
            let inner = if compress {
                spec_read_compressed_block(buf@, p2 as int)
            } else {
                spec_read_block(buf@, p2 as int)
            };
            assert(spec_read_data_packet(buf@, pos as int, compress) == (match inner {
                ReadOutcome::Val(b, k) => ReadOutcome::<BlockM>::Val(b, (p2 - pos) + k),
                o => o.pass(),
            }));
        }
        if compress {
            match Block::decode_compressed(buf, p2) {
                Ok((b, np)) => Ok((b, np)),
                Err(e) => Err(e),
            }
        } else {
            match Block::decode(buf, p2) {
                Ok((b, np)) => Ok((b, np)),
                Err(e) => Err(e),
            }
        }
    }
}

/// Whether a packet is one a conforming client can produce against the
/// remembered handshake: its fields fit the wire, and a query presupposes
/// a handshake that carries client info.
pub open spec fn spec_packet_wf(p: PacketM, hello: Option<HelloRequestM>) -> bool {
    match p {
        PacketM::Ping => true,
        PacketM::Cancel => true,
        PacketM::Hello(h) => h.wf(),
        PacketM::Query(q) => q.wf() && (match hello {
            Option::Some(h) => h.client_revision >= DBMS_MIN_REVISION_WITH_CLIENT_INFO,
            Option::None => false,
        }),
        PacketM::Data(b) => b.wf(),
    }
}

/// Encoding of one client packet, uncompressed, against the remembered
/// handshake.  A Data packet carries an empty temporary-table name.
pub open spec fn spec_packet_enc(p: PacketM, hello: Option<HelloRequestM>) -> Seq<u8> {
    match p {
        PacketM::Ping => spec_uvarint(CLIENT_PING as nat),
        PacketM::Cancel => spec_uvarint(CLIENT_CANCEL as nat),
        PacketM::Hello(h) => spec_uvarint(CLIENT_HELLO as nat) + spec_hello_request_enc(h),
        PacketM::Query(q) => spec_uvarint(CLIENT_QUERY as nat) + spec_query_request_enc(
            q,
            match hello {
                Option::Some(h) => h.client_revision,
                Option::None => 0,
            },
        ),
        PacketM::Data(b) => spec_uvarint(CLIENT_DATA as nat) + spec_str_enc(Seq::<u8>::empty())
            + spec_block_enc(b),
    }
}

impl Packet {
    /// Append this packet as a conforming client writes it, uncompressed.
    pub fn write_to(&self, enc: &mut Encoder, hello: &Option<HelloRequest>)
        requires
            spec_packet_wf(self@, spec_hello_opt(*hello)),
        ensures
            final (enc)@ == old(enc)@ + spec_packet_enc(self@, spec_hello_opt(*hello)),
    {
        match self {
            Packet::Ping => {
                enc.uvarint(CLIENT_PING);
            },
            Packet::Cancel => {
                enc.uvarint(CLIENT_CANCEL);
            },
            Packet::Hello(h) => {
                enc.uvarint(CLIENT_HELLO);
                h.write_to(enc);
                assert(enc@ =~= old(enc)@ + spec_packet_enc(self@, spec_hello_opt(*hello)));
            },
            Packet::Query(q) => {
                enc.uvarint(CLIENT_QUERY);
                match hello {
                    Option::Some(h) => {
                        q.write_to(enc, h);
                    },
                    Option::None => {
                        proof {
                            assert(false);
                        }
                    },
                }
                assert(enc@ =~= old(enc)@ + spec_packet_enc(self@, spec_hello_opt(*hello)));
            },
            Packet::Data(b) => {
                enc.uvarint(CLIENT_DATA);
                let empty: Vec<u8> = Vec::new();
                enc.string(&empty);
                b.encode(enc);
                assert(enc@ =~= old(enc)@ + spec_packet_enc(self@, spec_hello_opt(*hello)));
            },
        }
    }
}

/// Packet round trip: reading the bytes a conforming client writes for a
/// well-formed packet yields exactly that packet and consumes exactly its
/// bytes.  Re-encoding the result therefore reproduces the input stream,
/// packet by packet.
#[verifier::spinoff_prover]
#[verifier::rlimit(60)]
pub proof fn lemma_read_packet_enc(s: Seq<u8>, pos: int, p: PacketM, hello: Option<HelloRequestM>)
    requires
        0 <= pos,
        spec_packet_wf(p, hello),
        pos + spec_packet_enc(p, hello).len() <= s.len(),
        s.subrange(pos, pos + spec_packet_enc(p, hello).len() as int) == spec_packet_enc(p, hello),
    ensures
        spec_read_packet(s, pos, hello, false) == ReadOutcome::<PacketM>::Val(
            p,
            spec_packet_enc(p, hello).len() as int,
        ),
{
    let whole = spec_packet_enc(p, hello);
    match p {
        PacketM::Ping => {
            assert(whole.subrange(0, whole.len() as int) =~= whole);
            lemma_subrange_sub(s, pos, 0, whole.len() as int, whole);
            lemma_read_uvarint_enc(s, pos, CLIENT_PING);
        },
        PacketM::Cancel => {
            assert(whole.subrange(0, whole.len() as int) =~= whole);
            lemma_subrange_sub(s, pos, 0, whole.len() as int, whole);
            lemma_read_uvarint_enc(s, pos, CLIENT_CANCEL);
        },
        PacketM::Hello(h) => {
            let e1 = spec_uvarint(CLIENT_HELLO as nat);
            let e2 = spec_hello_request_enc(h);
            assert(whole.subrange(0, e1.len() as int) =~= e1);
            lemma_subrange_sub(s, pos, 0, e1.len() as int, whole);
            lemma_read_uvarint_enc(s, pos, CLIENT_HELLO);
            assert(whole.subrange(e1.len() as int, whole.len() as int) =~= e2);
            lemma_subrange_sub(s, pos, e1.len() as int, e2.len() as int, whole);
            crate::protocol_hello::lemma_read_hello_request_enc(s, pos + e1.len(), h);
        },
        PacketM::Query(q) => {
            let h = hello->Some_0;
            let e1 = spec_uvarint(CLIENT_QUERY as nat);
            let e2 = spec_query_request_enc(q, h.client_revision);
            assert(whole.subrange(0, e1.len() as int) =~= e1);
            lemma_subrange_sub(s, pos, 0, e1.len() as int, whole);
            lemma_read_uvarint_enc(s, pos, CLIENT_QUERY);
            assert(whole.subrange(e1.len() as int, whole.len() as int) =~= e2);
            lemma_subrange_sub(s, pos, e1.len() as int, e2.len() as int, whole);
            crate::protocol_query::lemma_read_query_request_enc(s, pos + e1.len(), q, h);
        },
        PacketM::Data(b) => {
            let e1 = spec_uvarint(CLIENT_DATA as nat);
            let e2 = spec_str_enc(Seq::<u8>::empty());
            let e3 = spec_block_enc(b);
            let o1 = e1.len() as int;
            let o2 = o1 + e2.len();
            let o3 = o2 + e3.len();
            assert(whole.subrange(0, o1) =~= e1);
            lemma_subrange_sub(s, pos, 0, o1, whole);
            lemma_read_uvarint_enc(s, pos, CLIENT_DATA);
            assert(whole.subrange(o1, o2) =~= e2);
            lemma_subrange_sub(s, pos, o1, e2.len() as int, whole);
            crate::binary::lemma_read_str_enc(s, pos + o1, Seq::<u8>::empty());
            assert(whole.subrange(o2, o3) =~= e3);
            lemma_subrange_sub(s, pos, o2, e3.len() as int, whole);
            crate::block::lemma_read_block_enc(s, pos + o2, b);
            assert(spec_read_data_packet(s, pos + o1, false) == ReadOutcome::<BlockM>::Val(
                b,
                e2.len() as int + e3.len() as int,
            ));
        },
    }
}

} // verus!
