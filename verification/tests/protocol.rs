//! End-to-end protocol scenarios: handshake, ping, misrouted HTTP, SELECT
//! with and without compression, executor errors, and the INSERT lifecycle.
use clickhouse_srv::binary::Encoder;
use clickhouse_srv::block::Block;
use clickhouse_srv::cmd::response_error_packet;
use clickhouse_srv::cmd::send_error;
use clickhouse_srv::cmd::Cmd;
use clickhouse_srv::cmd::QueryOutcome;
use clickhouse_srv::cmd::QueryStream;
use clickhouse_srv::column::ColumnData;
use clickhouse_srv::errors::DriverError;
use clickhouse_srv::errors::Error;
use clickhouse_srv::errors::ServerError;
use clickhouse_srv::negotiate_revision;
use clickhouse_srv::parser::Packet;
use clickhouse_srv::parser::Parser;
use clickhouse_srv::progress::Progress;
use clickhouse_srv::result_writer::ResultWriter;
use clickhouse_srv::protocol_hello::HelloRequest;
use clickhouse_srv::protocol_query::QueryClientInfo;
use clickhouse_srv::protocol_query::QueryRequest;
use clickhouse_srv::protocols::Stage;
use clickhouse_srv::CHContext;
use clickhouse_srv::QueryState;
use clickhouse_srv::ServerInfo;

fn server_info() -> ServerInfo {
    ServerInfo {
        dbms_name: b"clickhouse-server".to_vec(),
        dbms_version_major: 19,
        dbms_version_minor: 17,
        dbms_version_patch: 1,
        dbms_tcp_protocol_version: 54428,
        timezone: b"UTC".to_vec(),
        server_display_name: b"clickhouse-server".to_vec(),
        with_stack_trace: false,
    }
}

fn hello_request(revision: u64) -> HelloRequest {
    HelloRequest {
        client_name: b"ClickHouse client".to_vec(),
        client_version_major: 20,
        client_version_minor: 1,
        client_version_patch: revision,
        client_revision: revision,
        default_database: b"default".to_vec(),
        username: b"default".to_vec(),
        password: Vec::new(),
    }
}

fn client_info(revision: u64) -> QueryClientInfo {
    let mut ci = QueryClientInfo::empty();
    ci.query_kind = 1;
    ci.interface = 1;
    ci.os_user = b"user".to_vec();
    ci.client_hostname = b"host".to_vec();
    ci.client_name = b"ClickHouse client".to_vec();
    ci.client_version_major = 20;
    ci.client_version_minor = 1;
    ci.client_version_patch = revision;
    ci.client_revision = revision;
    ci
}

fn query_request(text: &[u8], compression: u64, revision: u64) -> QueryRequest {
    QueryRequest {
        query_id: b"test-query".to_vec(),
        client_info: client_info(revision),
        stage: 2,
        compression,
        query: text.to_vec(),
    }
}

/// Run the handshake and the query dispatch; returns the context ready for
/// result streaming.
fn handshake_and_query(info: &ServerInfo, compression: u64) -> CHContext {
    let mut ctx = CHContext::new(QueryState::fresh());

    let mut enc = Encoder::new();
    Packet::Hello(hello_request(54428)).write_to(&mut enc, &None);
    let bytes = enc.get_buffer();
    let (packet, consumed) = Parser::parse_packet(&bytes, 0, &None, false).unwrap();
    assert_eq!(consumed, bytes.len());
    let out = Cmd::create(packet).apply(&mut ctx, info);
    assert!(!out.bytes.is_empty());
    assert!(!out.close);
    assert_eq!(ctx.client_revision, 54428);

    let stored = hello_request(54428);
    let mut enc = Encoder::new();
    Packet::Query(query_request(b"SELECT abc", compression, 54428)).write_to(
        &mut enc,
        &Some(stored),
    );
    let bytes = enc.get_buffer();
    let (packet, consumed) = Parser::parse_packet(&bytes, 0, &ctx.hello, false).unwrap();
    assert_eq!(consumed, bytes.len());
    let out = Cmd::create(packet).apply(&mut ctx, info);
    assert!(out.run_query);
    assert_eq!(ctx.state.query, b"SELECT abc".to_vec());
    assert_eq!(ctx.state.compression, compression);
    ctx
}

#[test]
fn ping_pong() {
    let info = server_info();
    let mut ctx = CHContext::new(QueryState::fresh());
    let bytes = vec![4u8];
    let (packet, consumed) = Parser::parse_packet(&bytes, 0, &None, false).unwrap();
    assert!(matches!(packet, Packet::Ping));
    assert_eq!(consumed, 1);
    let out = Cmd::create(packet).apply(&mut ctx, &info);
    assert_eq!(out.bytes, vec![4u8]);
    assert!(!out.close);
}

#[test]
fn http_misrouting() {
    let bytes = b"GET / HTTP/1.0\r\n\r\n".to_vec();
    let err = match Parser::parse_packet(&bytes, 0, &None, false) {
        Err(e) => e,
        Ok(_) => panic!("HTTP bytes must not parse as a packet"),
    };
    match &err {
        Error::Driver(DriverError::UnknownPacket { packet }) => assert_eq!(*packet, b'G' as u64),
        other => panic!("expected UnknownPacket, got {:?}", other),
    }
    let out = response_error_packet(&err);
    assert_eq!(out.bytes, b"HTTP/1.0 400 Bad Request\r\n\r\n".to_vec());
    assert!(out.close);
}

fn abc_block() -> Block {
    Block::new().column(b"abc".to_vec(), ColumnData::UInt32(vec![10, 11, 12, 13]))
}

#[test]
fn select_happy_path() {
    let info = server_info();
    let ctx = handshake_and_query(&info, 0);
    assert_eq!(ctx.state.compression, 0);

    let mut stream = QueryStream::start(false, ctx.client_revision, false, 0);
    let progress = Progress { rows: 4, bytes: 16, total_rows: 4 };
    let block = abc_block();

    // The block arrives within the interactive delay: exactly one Data
    // frame, no progress before it.
    let bytes = stream.on_block(&block, &progress, 5).unwrap();
    let mut expected = Encoder::new();
    block.send_server_data(&mut expected, false).unwrap();
    assert_eq!(bytes, expected.get_buffer());

    // On the happy-path end: one final Progress frame, then exactly one
    // end-of-stream.
    let tail = stream.on_end(&progress);
    let mut expected = Encoder::new();
    progress.write(&mut expected, ctx.client_revision);
    expected.uvarint(5);
    assert_eq!(tail, expected.get_buffer());
    assert_eq!(tail.last(), Some(&5u8));
}

#[test]
fn select_with_compression() {
    let info = server_info();
    let ctx = handshake_and_query(&info, 1);
    assert_eq!(ctx.state.compression, 1);

    let mut stream = QueryStream::start(true, ctx.client_revision, false, 0);
    let progress = Progress { rows: 4, bytes: 16, total_rows: 4 };
    let block = abc_block();
    let bytes = stream.on_block(&block, &progress, 100).unwrap();

    // Strip the progress frame, the Data tag, and the empty table name;
    // the rest must be a compressed frame whose checksum validates and
    // which carries the block.
    let mut head = Encoder::new();
    progress.write(&mut head, ctx.client_revision);
    head.uvarint(1);
    head.string(&Vec::new());
    let head = head.get_buffer();
    assert_eq!(&bytes[..head.len()], &head[..]);
    let frame: Vec<u8> = bytes[head.len()..].to_vec();
    let (decoded, consumed) = Block::decode_compressed(&frame, 0).unwrap();
    assert_eq!(consumed, frame.len());
    assert_eq!(decoded.columns.len(), 1);
    assert_eq!(decoded.columns[0].name, b"abc".to_vec());
    match &decoded.columns[0].data {
        ColumnData::UInt32(v) => assert_eq!(v, &vec![10, 11, 12, 13]),
        other => panic!("wrong column data {:?}", other.data_type().wire_name()),
    }
}

#[test]
fn executor_error() {
    let info = server_info();
    let mut ctx = handshake_and_query(&info, 0);
    let outcome = QueryOutcome::Failed(ServerError {
        code: 42,
        name: Vec::new(),
        message: b"bad".to_vec(),
        stack_trace: Vec::new(),
    });
    let bytes = Cmd::on_query_outcome(&mut ctx, &info, &outcome);
    let expected = vec![
        2u8, // exception tag
        42, 0, 0, 0, // code, little endian
        0,  // empty name
        3, b'b', b'a', b'd', // message
        0, // empty stack trace
        0, // nested = false
        5, // end of stream
    ];
    assert_eq!(bytes, expected);
}

#[test]
fn send_error_appends_end_of_stream() {
    let err = Error::Server(ServerError {
        code: 7,
        name: Vec::new(),
        message: b"boom".to_vec(),
        stack_trace: b"trace".to_vec(),
    });
    let with_trace = send_error(&err, true);
    assert_eq!(*with_trace.last().unwrap(), 5u8);
    assert!(with_trace.windows(5).any(|w| w == b"trace"));
    let without = send_error(&err, false);
    assert!(!without.windows(5).any(|w| w == b"trace"));
}

#[test]
fn insert_lifecycle() {
    let info = server_info();
    let mut ctx = handshake_and_query(&info, 0);
    assert_eq!(ctx.state.lifecycle, Stage::Normal);

    // The executor installs an INSERT sink: no end-of-stream yet.
    let bytes = Cmd::on_query_outcome(&mut ctx, &info, &QueryOutcome::InsertSink);
    assert!(bytes.is_empty());
    assert_eq!(ctx.state.lifecycle, Stage::InsertPrepare);
    assert!(ctx.state.has_insert_sink);

    // Client sends the empty "ready" block.
    let out = Cmd::create(Packet::Data(Block::new())).apply(&mut ctx, &info);
    assert!(out.bytes.is_empty());
    assert!(!out.insert_end);
    assert_eq!(ctx.state.lifecycle, Stage::InsertStart);

    // A two-row data block goes to the sink.
    let two_rows = Block::new().column(b"t".to_vec(), ColumnData::UInt8(vec![1, 2]));
    let out = Cmd::create(Packet::Data(two_rows)).apply(&mut ctx, &info);
    assert!(out.bytes.is_empty());
    let pushed = out.insert_block.expect("the sink must receive the block");
    assert_eq!(pushed.columns.len(), 1);
    match &pushed.columns[0].data {
        ColumnData::UInt8(v) => assert_eq!(v, &vec![1, 2]),
        _ => panic!("wrong column data"),
    }
    assert_eq!(ctx.state.lifecycle, Stage::InsertStart);

    // The final empty block ends the INSERT: exactly one end-of-stream.
    let out = Cmd::create(Packet::Data(Block::new())).apply(&mut ctx, &info);
    assert_eq!(out.bytes, vec![5u8]);
    assert!(out.insert_end);
    assert_eq!(ctx.state.lifecycle, Stage::Normal);
    assert!(!ctx.state.has_insert_sink);
}

#[test]
fn result_writer_writes_data_frames() {
    let block = abc_block();
    let mut writer = ResultWriter::new(false);
    writer.write_block(&block).unwrap();
    writer.write_block(&block).unwrap();
    let bytes = writer.get_buffer();

    let mut expected = Encoder::new();
    block.send_server_data(&mut expected, false).unwrap();
    block.send_server_data(&mut expected, false).unwrap();
    assert_eq!(bytes, expected.get_buffer());
}

#[test]
fn negotiation_takes_the_minimum() {
    assert_eq!(negotiate_revision(54428, 54428), 54428);
    assert_eq!(negotiate_revision(54428, 54058), 54058);
    assert_eq!(negotiate_revision(54405, 54428), 54405);
}

#[test]
fn hello_response_fields_are_revision_gated() {
    let info = server_info();
    let below_tz = {
        let mut ctx = CHContext::new(QueryState::fresh());
        let out = Cmd::create(Packet::Hello(hello_request(54057))).apply(&mut ctx, &info);
        out.bytes
    };
    let with_tz = {
        let mut ctx = CHContext::new(QueryState::fresh());
        let out = Cmd::create(Packet::Hello(hello_request(54058))).apply(&mut ctx, &info);
        out.bytes
    };
    // The timezone string appears exactly from its threshold on.
    assert_eq!(with_tz.len(), below_tz.len() + 1 + 3);
    assert!(!below_tz.windows(3).any(|w| w == b"UTC"));
    assert!(with_tz.windows(3).any(|w| w == b"UTC"));
}

#[test]
fn progress_is_paced() {
    let mut stream = QueryStream::start(false, 54428, false, 0);
    let progress = Progress { rows: 1, bytes: 1, total_rows: 1 };
    let block = abc_block();

    // Five milliseconds in: below the interactive delay, no progress frame.
    let early = stream.on_block(&block, &progress, 5).unwrap();
    let mut data_only = Encoder::new();
    block.send_server_data(&mut data_only, false).unwrap();
    assert_eq!(early, data_only.get_buffer());

    // Fifteen milliseconds in: the delay has passed, progress is emitted.
    let late = stream.on_block(&block, &progress, 15).unwrap();
    let mut with_progress = Encoder::new();
    progress.write(&mut with_progress, 54428);
    block.send_server_data(&mut with_progress, false).unwrap();
    assert_eq!(late, with_progress.get_buffer());

    // Another block right away: the clock was reset at the emission.
    let again = stream.on_block(&block, &progress, 20).unwrap();
    let mut data_only = Encoder::new();
    block.send_server_data(&mut data_only, false).unwrap();
    assert_eq!(again, data_only.get_buffer());
}

#[test]
fn query_before_hello_is_rejected() {
    let stored = hello_request(54428);
    let mut enc = Encoder::new();
    Packet::Query(query_request(b"SELECT 1", 0, 54428)).write_to(&mut enc, &Some(stored));
    let bytes = enc.get_buffer();
    match Parser::parse_packet(&bytes, 0, &None, false) {
        Err(Error::Driver(DriverError::UnexpectedPacket)) => {}
        other => panic!("expected UnexpectedPacket, got {:?}", other),
    }
}

#[test]
fn packet_round_trip_reproduces_bytes() {
    let packets: Vec<Packet> = vec![
        Packet::Ping,
        Packet::Cancel,
        Packet::Hello(hello_request(54428)),
        Packet::Query(query_request(b"SELECT abc", 0, 54428)),
        Packet::Data(abc_block()),
    ];
    let mut wire = Encoder::new();
    for p in packets.iter() {
        p.write_to(&mut wire, &Some(hello_request(54428)));
    }
    let bytes = wire.get_buffer();

    // Read the packets back one at a time and re-encode them: the result
    // must be the identical byte stream.
    let mut replay = Encoder::new();
    let mut pos = 0usize;
    let mut count = 0usize;
    while pos < bytes.len() {
        let (packet, np) = Parser::parse_packet(&bytes, pos, &Some(hello_request(54428)), false)
            .unwrap();
        packet.write_to(&mut replay, &Some(hello_request(54428)));
        pos = np;
        count += 1;
    }
    assert_eq!(count, 5);
    assert_eq!(replay.get_buffer(), bytes);
}

#[test]
fn incomplete_packet_is_would_block() {
    let mut enc = Encoder::new();
    Packet::Hello(hello_request(54428)).write_to(&mut enc, &None);
    let mut bytes = enc.get_buffer();
    bytes.truncate(bytes.len() / 2);
    match Parser::parse_packet(&bytes, 0, &None, false) {
        Err(Error::WouldBlock) => {}
        other => panic!("expected WouldBlock, got {:?}", other),
    }
}
