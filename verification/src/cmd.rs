//! The per-connection dispatcher and the query response stream machine.
//!
//! Each decoded packet becomes a `Cmd`, and `Cmd::apply` computes the bytes
//! to send, the state transition, and the actions the host must carry out
//! (run the executor, feed the INSERT sink, close the socket).  The
//! `QueryStream` machine paces progress frames and guarantees the frame
//! discipline of a response: data and progress frames, then exactly one
//! end-of-stream marker, with an exception frame only on the error path.
use vstd::prelude::*;

use crate::binary::spec_uvarint;
use crate::binary::Encoder;
use crate::block::spec_block_enc;
use crate::block::Block;
use crate::compress::lz4_of;
use crate::errors::DriverError;
use crate::errors::Error;
use crate::errors::ServerError;
use crate::parser::Packet;
use crate::parser::PacketM;
use crate::progress::spec_progress_enc;
use crate::progress::Progress;
use crate::protocol_exception::spec_error_exception_enc;
use crate::protocol_exception::ExceptionResponse;
use crate::protocol_hello::HelloResponse;
use crate::protocol_hello::HelloResponseM;
use crate::protocol_hello::spec_hello_response_enc;
use crate::protocol_query::clone_bytes;
use crate::protocols::Stage;
use crate::protocols::SERVER_END_OF_STREAM;
use crate::protocols::SERVER_PONG;
use crate::result_writer::spec_server_data_frame;
use crate::CHContext;
use crate::ServerInfo;

verus! {

/// Milliseconds that must pass between two periodic progress emissions.
pub const INTERACTIVE_DELAY_MS: u64 = 10;

/// The bytes of a Pong frame.
pub open spec fn spec_pong_bytes() -> Seq<u8> {
    spec_uvarint(SERVER_PONG as nat)
}

/// The bytes of an end-of-stream frame.
pub open spec fn spec_eos_bytes() -> Seq<u8> {
    spec_uvarint(SERVER_END_OF_STREAM as nat)
}

/// The courtesy response for misrouted HTTP requests.
pub open spec fn spec_http_400_bytes() -> Seq<u8> {
    seq![
        72u8, 84, 84, 80, 47, 49, 46, 48, 32, 52, 48, 48, 32, 66, 97, 100, 32, 82, 101, 113, 117,
        101, 115, 116, 13, 10, 13, 10,
    ]
}

/// The Hello response a server with this identity sends.
pub open spec fn spec_info_response(info: ServerInfo) -> HelloResponseM {
    HelloResponseM {
        dbms_name: info.dbms_name@,
        dbms_version_major: info.dbms_version_major,
        dbms_version_minor: info.dbms_version_minor,
        dbms_tcp_protocol_version: info.dbms_tcp_protocol_version,
        timezone: info.timezone@,
        server_display_name: info.server_display_name@,
        dbms_version_patch: info.dbms_version_patch,
    }
}

/// What the dispatcher asks the host to do after a packet.
pub struct DispatchOutput {
    /// Bytes to put on the socket, in order.
    pub bytes: Vec<u8>,
    /// The packet was a query: invoke the executor, then report its outcome
    /// through [`Cmd::on_query_outcome`].
    pub run_query: bool,
    /// The connection must be closed after writing `bytes`.
    pub close: bool,
    /// A non-empty INSERT block to hand to the executor's sink.
    pub insert_block: Option<Block>,
    /// The INSERT stream ended: drop the sink so the executor sees
    /// end-of-input.
    pub insert_end: bool,
}

/// One decoded packet on its way through the dispatcher.
pub struct Cmd {
    packet: Packet,
}

impl Cmd {
    /// The packet this command carries.
    pub closed spec fn packet_view(&self) -> PacketM {
        self.packet@
    }

    /// Wrap a decoded packet.
    pub fn create(packet: Packet) -> (r: Cmd)
        ensures
            r.packet_view() == packet@,
    {
        Cmd { packet }
    }

    /// Dispatch one packet against the connection state: Ping is answered
    /// with Pong; Cancel sets the cancellation flag; Hello negotiates the
    /// revision and answers with the server identity; Query loads the query
    /// state and asks the host to run the executor; Data drives the INSERT
    /// lifecycle.
    pub fn apply(self, ctx: &mut CHContext, info: &ServerInfo) -> (r: DispatchOutput)
        ensures
            !r.close,
            ({
                match self.packet_view() {
                    PacketM::Ping => r.bytes@ == spec_pong_bytes() && !r.run_query
                        && r.insert_block is None && !r.insert_end && *final (ctx) == *old(ctx),
                    PacketM::Cancel => r.bytes@.len() == 0 && !r.run_query
                        && r.insert_block is None && !r.insert_end && final (ctx).state.is_cancelled
                        && *final (ctx) == (CHContext {
                        state: crate::QueryState { is_cancelled: true, ..old(ctx).state },
                        ..*old(ctx)
                    }),
                    PacketM::Hello(h) => {
                        let negotiated = if info.dbms_tcp_protocol_version <= h.client_revision {
                            info.dbms_tcp_protocol_version
                        } else {
                            h.client_revision
                        };
                        &&& r.bytes@ == spec_hello_response_enc(spec_info_response(*info), negotiated)
                        &&& !r.run_query
                        &&& r.insert_block is None
                        &&& !r.insert_end
                        &&& final (ctx).client_revision == negotiated
                        &&& final (ctx).hello matches Option::Some(sh) && sh@.client_revision
                            == negotiated && sh@.client_name == h.client_name && sh@.username
                            == h.username && sh@.password == h.password && sh@.default_database
                            == h.default_database && sh@.client_version_major
                            == h.client_version_major && sh@.client_version_minor
                            == h.client_version_minor && sh@.client_version_patch
                            == h.client_version_patch
                        &&& final (ctx).state == old(ctx).state
                    },
                    PacketM::Query(q) => {
                        &&& r.bytes@.len() == 0
                        &&& r.run_query
                        &&& r.insert_block is None
                        &&& r.insert_end == old(ctx).state.has_insert_sink
                        &&& final (ctx).state.query_id@ == q.query_id
                        &&& final (ctx).state.query@ == q.query
                        &&& final (ctx).state.stage == q.stage
                        &&& final (ctx).state.compression == q.compression
                        &&& !final (ctx).state.is_cancelled
                        &&& !final (ctx).state.is_connection_closed
                        &&& !final (ctx).state.is_empty
                        &&& !final (ctx).state.sent_all_data
                        &&& final (ctx).state.lifecycle == Stage::Normal
                        &&& !final (ctx).state.has_insert_sink
                        &&& final (ctx).hello == old(ctx).hello
                        &&& final (ctx).client_revision == old(ctx).client_revision
                    },
                    PacketM::Data(b) => {
                        let empty = b.rows() == 0;
                        &&& !r.run_query
                        &&& (match old(ctx).state.lifecycle {
                            Stage::Normal => r.bytes@.len() == 0 && *final (ctx) == *old(ctx)
                                && r.insert_block is None && !r.insert_end,
                            Stage::InsertPrepare => if empty {
                                r.bytes@.len() == 0 && r.insert_block is None && !r.insert_end
                                    && *final (ctx) == (CHContext {
                                    state: crate::QueryState {
                                        lifecycle: Stage::InsertStart,
                                        ..old(ctx).state
                                    },
                                    ..*old(ctx)
                                })
                            } else {
                                r.bytes@.len() == 0 && !r.insert_end && *final (ctx) == *old(ctx)
                                    && (old(ctx).state.has_insert_sink ==> (r.insert_block matches
                                    Option::Some(ib) && ib@ == b)) && (!old(ctx).state.has_insert_sink ==> r.insert_block is None)
                            },
                            Stage::InsertStart => if empty {
                                r.bytes@ == spec_eos_bytes() && r.insert_block is None
                                    && r.insert_end && final (ctx).state.lifecycle == Stage::Normal
                                    && !final (ctx).state.has_insert_sink && final (ctx).state.stage == 0 && !final (ctx).state.is_cancelled
                                    && !final (ctx).state.is_connection_closed
                                    && !final (ctx).state.is_empty
                                    && !final (ctx).state.sent_all_data
                                    && final (ctx).state.query_id == old(ctx).state.query_id
                                    && final (ctx).state.query == old(ctx).state.query
                                    && final (ctx).state.compression == old(ctx).state.compression
                                    && final (ctx).hello == old(ctx).hello && final (ctx).client_revision == old(ctx).client_revision
                            } else {
                                r.bytes@.len() == 0 && !r.insert_end && *final (ctx) == *old(ctx)
                                    && (old(ctx).state.has_insert_sink ==> (r.insert_block matches
                                    Option::Some(ib) && ib@ == b)) && (!old(ctx).state.has_insert_sink ==> r.insert_block is None)
                            },
                        })
                    },
                }
            }),
    {
        let mut enc = Encoder::new();
        let mut run_query = false;
        let mut insert_block: Option<Block> = Option::None;
        let mut insert_end = false;
        match self.packet {
            Packet::Ping => {
                enc.uvarint(SERVER_PONG);
            },
            Packet::Cancel => {
                ctx.state.is_cancelled = true;
            },
            Packet::Hello(mut hello) => {
                let response = HelloResponse {
                    dbms_name: clone_bytes(&info.dbms_name),
                    dbms_version_major: info.dbms_version_major,
                    dbms_version_minor: info.dbms_version_minor,
                    dbms_tcp_protocol_version: info.dbms_tcp_protocol_version,
                    timezone: clone_bytes(&info.timezone),
                    server_display_name: clone_bytes(&info.server_display_name),
                    dbms_version_patch: info.dbms_version_patch,
                };
                let negotiated = crate::negotiate_revision(
                    info.dbms_tcp_protocol_version,
                    hello.client_revision,
                );
                hello.client_revision = negotiated;
                ctx.client_revision = negotiated;
                response.encode(&mut enc, negotiated);
                ctx.hello = Option::Some(hello);
            },
            Packet::Query(query) => {
                // A new query clears every stage-scoped flag; an INSERT left
                // open by a protocol-violating client is abandoned and its
                // sink dropped.
                if ctx.state.has_insert_sink {
                    insert_end = true;
                }
                ctx.state.lifecycle = Stage::Normal;
                ctx.state.has_insert_sink = false;
                ctx.state.reset();
                ctx.state.query_id = query.query_id;
                ctx.state.query = query.query;
                ctx.state.stage = query.stage;
                ctx.state.compression = query.compression;
                run_query = true;
            },
            Packet::Data(block) => {
                match ctx.state.lifecycle {
                    Stage::Normal => {},
                    Stage::InsertPrepare => {
                        if block.is_empty() {
                            ctx.state.lifecycle = Stage::InsertStart;
                        } else if ctx.state.has_insert_sink {
                            insert_block = Option::Some(block);
                        }
                    },
                    Stage::InsertStart => {
                        if block.is_empty() {
                            ctx.state.lifecycle = Stage::Normal;
                            ctx.state.has_insert_sink = false;
                            ctx.state.reset();
                            enc.uvarint(SERVER_END_OF_STREAM);
                            insert_end = true;
                        } else if ctx.state.has_insert_sink {
                            insert_block = Option::Some(block);
                        }
                    },
                }
            },
        }
        DispatchOutput { bytes: enc.get_buffer(), run_query, close: false, insert_block, insert_end }
    }

    /// Record the executor's verdict on a query: an error is reported as an
    /// exception frame followed by end-of-stream; an INSERT sink moves the
    /// lifecycle to `InsertPrepare` and holds the response open; a result
    /// stream is then driven through [`QueryStream`].
    pub fn on_query_outcome(ctx: &mut CHContext, info: &ServerInfo, outcome: &QueryOutcome) -> (r:
        Vec<u8>)
        ensures
            ({
                match outcome {
                    QueryOutcome::Failed(e) => r@ == spec_error_exception_enc(
                        Error::Server(*e),
                        info.with_stack_trace,
                    ) + spec_eos_bytes() && *final (ctx) == *old(ctx),
                    QueryOutcome::InsertSink => r@.len() == 0 && *final (ctx) == (CHContext {
                        state: crate::QueryState {
                            lifecycle: Stage::InsertPrepare,
                            has_insert_sink: true,
                            ..old(ctx).state
                        },
                        ..*old(ctx)
                    }),
                    QueryOutcome::Stream => r@.len() == 0 && *final (ctx) == *old(ctx),
                }
            }),
    {
        let mut enc = Encoder::new();
        match outcome {
            QueryOutcome::Failed(e) => {
                let err = Error::Server(clone_server_error(e));
                ExceptionResponse::write(&mut enc, &err, info.with_stack_trace);
                enc.uvarint(SERVER_END_OF_STREAM);
            },
            QueryOutcome::InsertSink => {
                ctx.state.lifecycle = Stage::InsertPrepare;
                ctx.state.has_insert_sink = true;
            },
            QueryOutcome::Stream => {},
        }
        enc.get_buffer()
    }
}

/// The executor's verdict on one query.
pub enum QueryOutcome {
    /// Execution failed; the error is reported to the client.
    Failed(ServerError),
    /// The query installs an INSERT sink and awaits the client's data.
    InsertSink,
    /// The query produces a result stream that the host will drain.
    Stream,
}

/// Copy a server error.
fn clone_server_error(e: &ServerError) -> (r: ServerError)
    ensures
        r.code == e.code,
        r.name@ == e.name@,
        r.message@ == e.message@,
        r.stack_trace@ == e.stack_trace@,
{
    ServerError {
        code: e.code,
        name: clone_bytes(&e.name),
        message: clone_bytes(&e.message),
        stack_trace: clone_bytes(&e.stack_trace),
    }
}

/// The response to a malformed packet: a misrouted HTTP request gets the
/// courtesy HTTP answer and the connection closes; everything else leaves
/// the response to [`send_error`].
pub fn response_error_packet(err: &Error) -> (r: DispatchOutput)
    ensures
        !r.run_query,
        r.insert_block is None,
        !r.insert_end,
        ({
            let misrouted = err matches Error::Driver(DriverError::UnknownPacket { packet })
                && (packet == 71 || packet == 80);
            if misrouted {
                r.bytes@ == spec_http_400_bytes() && r.close
            } else {
                r.bytes@.len() == 0 && !r.close
            }
        }),
{
    match err {
        Error::Driver(DriverError::UnknownPacket { packet }) => {
            if *packet == 71 || *packet == 80 {
                let bytes = vec![
                    72u8, 84, 84, 80, 47, 49, 46, 48, 32, 52, 48, 48, 32, 66, 97, 100, 32, 82, 101,
                    113, 117, 101, 115, 116, 13, 10, 13, 10,
                ];
                proof {
                    assert(bytes@ =~= spec_http_400_bytes());
                }
                return DispatchOutput {
                    bytes,
                    run_query: false,
                    close: true,
                    insert_block: Option::None,
                    insert_end: false,
                };
            }
            DispatchOutput {
                bytes: Vec::new(),
                run_query: false,
                close: false,
                insert_block: Option::None,
                insert_end: false,
            }
        },
        _ => DispatchOutput {
            bytes: Vec::new(),
            run_query: false,
            close: false,
            insert_block: Option::None,
            insert_end: false,
        },
    }
}

/// The bytes that report a fatal error on an open query: the exception
/// frame followed by end-of-stream.
pub fn send_error(err: &Error, with_stack_trace: bool) -> (r: Vec<u8>)
    ensures
        r@ == spec_error_exception_enc(*err, with_stack_trace) + spec_eos_bytes(),
{
    let mut enc = Encoder::new();
    ExceptionResponse::write(&mut enc, err, with_stack_trace);
    enc.uvarint(SERVER_END_OF_STREAM);
    enc.get_buffer()
}

// ---------------------------------------------------------------------------
// The response stream machine
// ---------------------------------------------------------------------------
/// The kind of one server frame inside a query response.
#[derive(Clone, Copy, Debug, PartialEq, Eq, Structural)]
pub enum FrameKind {
    ProgressFrame,
    DataFrame,
    ExceptionFrame,
    EndFrame,
}

/// How many frames of a kind a history holds.
pub open spec fn count_kind(fs: Seq<FrameKind>, k: FrameKind) -> nat
    decreases fs.len(),
{
    if fs.len() == 0 {
        0
    } else {
        (if fs.last() == k {
            1nat
        } else {
            0nat
        }) + count_kind(fs.drop_last(), k)
    }
}

/// Appending one frame raises exactly its own kind's count.
pub proof fn lemma_count_push(fs: Seq<FrameKind>, x: FrameKind, k: FrameKind)
    ensures
        count_kind(fs.push(x), k) == count_kind(fs, k) + (if x == k {
            1nat
        } else {
            0nat
        }),
{
    assert(fs.push(x).drop_last() =~= fs);
    assert(fs.push(x).last() == x);
}

/// The state of one query's outbound response: pacing for progress frames
/// and a ghost history of the frame kinds emitted so far.
pub struct QueryStream {
    /// Whether data frames are wrapped in compressed frames.
    pub compress: bool,
    /// The negotiated revision, which gates progress fields.
    pub client_revision: u64,
    /// Whether exception frames carry stack traces.
    pub with_stack_trace: bool,
    /// When the last periodic progress frame was emitted (or the query
    /// started), in host milliseconds.
    pub last_progress_ms: u64,
    /// Whether the terminating end-of-stream frame has been written.
    pub done: bool,
    /// Ghost history of emitted frame kinds.
    pub frames: Ghost<Seq<FrameKind>>,
    /// Ghost history of the emission times of periodic progress frames.
    pub progress_times: Ghost<Seq<u64>>,
}

impl QueryStream {
    /// The frame discipline of a response stream: before the end no
    /// end-of-stream and no exception was emitted; after it, exactly one
    /// end-of-stream stands last with at most one exception before it; and
    /// periodic progress emissions are at least the interactive delay
    /// apart, the latest one no later than the pacing clock.
    pub open spec fn inv(self) -> bool {
        &&& (!self.done ==> count_kind(self.frames@, FrameKind::EndFrame) == 0 && count_kind(
            self.frames@,
            FrameKind::ExceptionFrame,
        ) == 0)
        &&& (self.done ==> count_kind(self.frames@, FrameKind::EndFrame) == 1
            && self.frames@.len() > 0 && self.frames@.last() == FrameKind::EndFrame && count_kind(
            self.frames@,
            FrameKind::ExceptionFrame,
        ) <= 1)
        &&& (forall|i: int|
            0 < i < self.progress_times@.len() ==> #[trigger] self.progress_times@[i - 1]
                + INTERACTIVE_DELAY_MS <= self.progress_times@[i])
        &&& (self.progress_times@.len() > 0 ==> self.progress_times@.last()
            <= self.last_progress_ms)
    }

    /// Open a response stream at the query's start time.
    pub fn start(compress: bool, client_revision: u64, with_stack_trace: bool, start_ms: u64) -> (s:
        QueryStream)
        ensures
            s.inv(),
            !s.done,
            s.compress == compress,
            s.client_revision == client_revision,
            s.with_stack_trace == with_stack_trace,
            s.last_progress_ms == start_ms,
            s.frames@ == Seq::<FrameKind>::empty(),
            s.progress_times@ == Seq::<u64>::empty(),
    {
        QueryStream {
            compress,
            client_revision,
            with_stack_trace,
            last_progress_ms: start_ms,
            done: false,
            frames: Ghost(Seq::empty()),
            progress_times: Ghost(Seq::empty()),
        }
    }

    /// Emit one result block, preceded by a progress frame exactly when the
    /// interactive delay has passed since the previous emission.
    pub fn on_block(&mut self, block: &Block, progress: &Progress, now_ms: u64) -> (r: Result<
        Vec<u8>,
        Error,
    >)
        requires
            old(self).inv(),
            !old(self).done,
            block@.wf(),
            old(self).last_progress_ms <= now_ms,
        ensures
            final (self).compress == old(self).compress,
            final (self).client_revision == old(self).client_revision,
            final (self).with_stack_trace == old(self).with_stack_trace,
            ({
                let emit = now_ms - old(self).last_progress_ms >= INTERACTIVE_DELAY_MS;
                match r {
                    Ok(bytes) => {
                        &&& final (self).inv()
                        &&& !final (self).done
                        &&& bytes@ == (if emit {
                            spec_progress_enc(*progress, old(self).client_revision)
                        } else {
                            Seq::<u8>::empty()
                        }) + spec_server_data_frame(block@, old(self).compress)
                        &&& final (self).frames@ == old(self).frames@ + (if emit {
                            seq![FrameKind::ProgressFrame]
                        } else {
                            Seq::<FrameKind>::empty()
                        }) + seq![FrameKind::DataFrame]
                        &&& final (self).progress_times@ == old(self).progress_times@ + (if emit {
                            seq![now_ms]
                        } else {
                            Seq::<u64>::empty()
                        })
                        &&& final (self).last_progress_ms == (if emit {
                            now_ms
                        } else {
                            old(self).last_progress_ms
                        })
                        &&& (emit ==> now_ms >= old(self).last_progress_ms + INTERACTIVE_DELAY_MS)
                    },
                    Err(e) => *final (self) == *old(self),
                }
            }),
            (!old(self).compress || (spec_block_enc(block@).len() <= u32::MAX && lz4_of(
                spec_block_enc(block@),
            ).len() + 9 <= u32::MAX)) ==> r is Ok,
    {
        let mut enc = Encoder::new();
        let emit = now_ms - self.last_progress_ms >= INTERACTIVE_DELAY_MS;
        if emit {
            progress.write(&mut enc, self.client_revision);
        }
        match block.send_server_data(&mut enc, self.compress) {
            Ok(u) => {},
            Err(e) => {
                return Err(e);
            },
        }
        proof {
            let ghost fs0 = self.frames@;
            let ghost ts0 = self.progress_times@;
            if emit {
                lemma_count_push(fs0, FrameKind::ProgressFrame, FrameKind::EndFrame);
                lemma_count_push(fs0, FrameKind::ProgressFrame, FrameKind::ExceptionFrame);
                lemma_count_push(
                    fs0.push(FrameKind::ProgressFrame),
                    FrameKind::DataFrame,
                    FrameKind::EndFrame,
                );
                lemma_count_push(
                    fs0.push(FrameKind::ProgressFrame),
                    FrameKind::DataFrame,
                    FrameKind::ExceptionFrame,
                );
            } else {
                lemma_count_push(fs0, FrameKind::DataFrame, FrameKind::EndFrame);
                lemma_count_push(fs0, FrameKind::DataFrame, FrameKind::ExceptionFrame);
            }
        }
        if emit {
            proof {
                assert(self.frames@.push(FrameKind::ProgressFrame).push(FrameKind::DataFrame)
                    =~= self.frames@ + seq![FrameKind::ProgressFrame] + seq![FrameKind::DataFrame]);
                assert(self.progress_times@.push(now_ms) =~= self.progress_times@ + seq![now_ms]);
            }
            self.frames = Ghost(
                self.frames@.push(FrameKind::ProgressFrame).push(FrameKind::DataFrame),
            );
            self.progress_times = Ghost(self.progress_times@.push(now_ms));
            self.last_progress_ms = now_ms;
        } else {
            proof {
                assert(self.frames@.push(FrameKind::DataFrame) =~= self.frames@
                    + Seq::<FrameKind>::empty() + seq![FrameKind::DataFrame]);
                assert(self.progress_times@ + Seq::<u64>::empty() =~= self.progress_times@);
            }
            self.frames = Ghost(self.frames@.push(FrameKind::DataFrame));
        }
        Ok(enc.get_buffer())
    }

    /// Report an executor error: one exception frame, then the final
    /// end-of-stream.
    pub fn on_error(&mut self, err: &ServerError) -> (r: Vec<u8>)
        requires
            old(self).inv(),
            !old(self).done,
        ensures
            final (self).inv(),
            final (self).done,
            r@ == spec_error_exception_enc(
                Error::Server(*err),
                old(self).with_stack_trace,
            ) + spec_eos_bytes(),
            final (self).frames@ == old(self).frames@ + seq![
                FrameKind::ExceptionFrame,
                FrameKind::EndFrame,
            ],
            final (self).progress_times@ == old(self).progress_times@,
            final (self).last_progress_ms == old(self).last_progress_ms,
    {
        let mut enc = Encoder::new();
        let e = Error::Server(clone_server_error(err));
        ExceptionResponse::write(&mut enc, &e, self.with_stack_trace);
        enc.uvarint(SERVER_END_OF_STREAM);
        proof {
            let ghost fs0 = self.frames@;
            lemma_count_push(fs0, FrameKind::ExceptionFrame, FrameKind::EndFrame);
            lemma_count_push(fs0, FrameKind::ExceptionFrame, FrameKind::ExceptionFrame);
            lemma_count_push(
                fs0.push(FrameKind::ExceptionFrame),
                FrameKind::EndFrame,
                FrameKind::EndFrame,
            );
            lemma_count_push(
                fs0.push(FrameKind::ExceptionFrame),
                FrameKind::EndFrame,
                FrameKind::ExceptionFrame,
            );
            assert(fs0.push(FrameKind::ExceptionFrame).push(FrameKind::EndFrame) =~= fs0 + seq![
                FrameKind::ExceptionFrame,
                FrameKind::EndFrame,
            ]);
        }
        self.frames = Ghost(
            self.frames@.push(FrameKind::ExceptionFrame).push(FrameKind::EndFrame),
        );
        self.done = true;
        assert(spec_error_exception_enc(Error::Server(*err), old(self).with_stack_trace)
            == spec_error_exception_enc(e, old(self).with_stack_trace));
        enc.get_buffer()
    }

    /// Close the stream on its happy path: a final progress snapshot, then
    /// the single end-of-stream.  The snapshot is unconditional and is not
    /// paced.
    pub fn on_end(&mut self, progress: &Progress) -> (r: Vec<u8>)
        requires
            old(self).inv(),
            !old(self).done,
        ensures
            final (self).inv(),
            final (self).done,
            r@ == spec_progress_enc(*progress, old(self).client_revision) + spec_eos_bytes(),
            final (self).frames@ == old(self).frames@ + seq![
                FrameKind::ProgressFrame,
                FrameKind::EndFrame,
            ],
            final (self).progress_times@ == old(self).progress_times@,
            count_kind(final (self).frames@, FrameKind::ExceptionFrame) == 0,
    {
        let mut enc = Encoder::new();
        progress.write(&mut enc, self.client_revision);
        enc.uvarint(SERVER_END_OF_STREAM);
        proof {
            let ghost fs0 = self.frames@;
            lemma_count_push(fs0, FrameKind::ProgressFrame, FrameKind::EndFrame);
            lemma_count_push(fs0, FrameKind::ProgressFrame, FrameKind::ExceptionFrame);
            lemma_count_push(
                fs0.push(FrameKind::ProgressFrame),
                FrameKind::EndFrame,
                FrameKind::EndFrame,
            );
            lemma_count_push(
                fs0.push(FrameKind::ProgressFrame),
                FrameKind::EndFrame,
                FrameKind::ExceptionFrame,
            );
            assert(fs0.push(FrameKind::ProgressFrame).push(FrameKind::EndFrame) =~= fs0 + seq![
                FrameKind::ProgressFrame,
                FrameKind::EndFrame,
            ]);
        }
        self.frames = Ghost(self.frames@.push(FrameKind::ProgressFrame).push(FrameKind::EndFrame));
        self.done = true;
        enc.get_buffer()
    }
}

/// On the happy path and on the error path alike, a finished response
/// carries exactly one end-of-stream frame and it stands last; an
/// exception frame was emitted at most once, and never on the happy path
/// after data-only traffic.
pub proof fn lemma_single_end_of_stream(s: QueryStream)
    requires
        s.inv(),
        s.done,
    ensures
        count_kind(s.frames@, FrameKind::EndFrame) == 1,
        s.frames@.last() == FrameKind::EndFrame,
        count_kind(s.frames@, FrameKind::ExceptionFrame) <= 1,
{
}

/// Periodic progress frames are spaced at least the interactive delay
/// apart: each recorded emission time exceeds its predecessor by at least
/// `INTERACTIVE_DELAY_MS`.
pub proof fn lemma_progress_paced(s: QueryStream, i: int)
    requires
        s.inv(),
        0 < i < s.progress_times@.len(),
    ensures
        s.progress_times@[i - 1] + INTERACTIVE_DELAY_MS <= s.progress_times@[i],
{
}

} // verus!
