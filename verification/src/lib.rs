//! Server side of the ClickHouse native TCP wire protocol.
//!
//! The crate provides the framing and codec layer (varints, little-endian
//! scalars, length-prefixed strings, typed column and block codecs, optional
//! block compression with a CityHash checksum), the client packet parser, the
//! handshake and query-request decoding with revision-gated fields, and the
//! per-connection query lifecycle state machine.  A host application owns the
//! sockets and the executor and drives these pieces from its own event loop.
use vstd::prelude::*;

pub mod binary;
pub mod block;
pub mod cmd;
pub mod column;
pub mod compress;
pub mod errors;
pub mod parser;
pub mod progress;
pub mod protocol_exception;
pub mod protocol_hello;
pub mod protocol_query;
pub mod protocols;
pub mod result_writer;

use crate::protocol_hello::HelloRequest;
use crate::protocols::Stage;

verus! {

/// Negotiated protocol revision: the minimum of what the server supports and
/// what the client offered in its Hello packet.
pub fn negotiate_revision(server_supported: u64, client_offered: u64) -> (r: u64)
    ensures
        r == if server_supported <= client_offered {
            server_supported
        } else {
            client_offered
        },
        r <= server_supported,
        r <= client_offered,
{
    if server_supported <= client_offered {
        server_supported
    } else {
        client_offered
    }
}

/// The identity and switches a session advertises: what the host's
/// executor reports about itself.
pub struct ServerInfo {
    pub dbms_name: Vec<u8>,
    pub dbms_version_major: u64,
    pub dbms_version_minor: u64,
    pub dbms_version_patch: u64,
    pub dbms_tcp_protocol_version: u64,
    pub timezone: Vec<u8>,
    pub server_display_name: Vec<u8>,
    pub with_stack_trace: bool,
}

/// Per-connection mutable query context.
pub struct QueryState {
    pub query_id: Vec<u8>,
    /// The execution stage the client requested, as a wire value.
    pub stage: u64,
    pub compression: u64,
    pub query: Vec<u8>,
    pub is_cancelled: bool,
    pub is_connection_closed: bool,
    /// Whether the current result is empty.
    pub is_empty: bool,
    /// Whether all result data was sent.
    pub sent_all_data: bool,
    /// Where the INSERT lifecycle stands.
    pub lifecycle: Stage,
    /// Whether the executor holds an INSERT sink for this query.
    pub has_insert_sink: bool,
}

impl QueryState {
    /// A fresh state: no query, the `Normal` lifecycle, every flag down.
    pub fn fresh() -> (r: QueryState)
        ensures
            r.query_id@.len() == 0,
            r.stage == 0,
            r.compression == 0,
            r.query@.len() == 0,
            !r.is_cancelled,
            !r.is_connection_closed,
            !r.is_empty,
            !r.sent_all_data,
            r.lifecycle == Stage::Normal,
            !r.has_insert_sink,
    {
        QueryState {
            query_id: Vec::new(),
            stage: 0,
            compression: 0,
            query: Vec::new(),
            is_cancelled: false,
            is_connection_closed: false,
            is_empty: false,
            sent_all_data: false,
            lifecycle: Stage::Normal,
            has_insert_sink: false,
        }
    }

    /// Clear the stage-scoped flags between queries.
    pub fn reset(&mut self)
        ensures
            final (self).stage == 0,
            !final (self).is_cancelled,
            !final (self).is_connection_closed,
            !final (self).is_empty,
            !final (self).sent_all_data,
            final (self).query_id == old(self).query_id,
            final (self).compression == old(self).compression,
            final (self).query == old(self).query,
            final (self).lifecycle == old(self).lifecycle,
            final (self).has_insert_sink == old(self).has_insert_sink,
    {
        self.stage = 0;
        self.is_cancelled = false;
        self.is_connection_closed = false;
        self.is_empty = false;
        self.sent_all_data = false;
    }
}

/// Everything the dispatcher tracks for one connection: the query state,
/// the remembered handshake, and the negotiated revision.
pub struct CHContext {
    pub state: QueryState,
    pub hello: Option<HelloRequest>,
    pub client_revision: u64,
}

impl CHContext {
    /// A fresh context: no handshake yet.
    pub fn new(state: QueryState) -> (r: CHContext)
        ensures
            r.state == state,
            r.hello is None,
            r.client_revision == 0,
    {
        CHContext { state, hello: Option::None, client_revision: 0 }
    }
}

} // verus!
