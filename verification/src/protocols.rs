//! Packet tags, revision thresholds, and the query lifecycle stage.
//!
//! A revision-gated field is present on the wire exactly when the negotiated
//! revision is at least its threshold.
use vstd::prelude::*;

verus! {

// Client to server packet tags.
pub const CLIENT_HELLO: u64 = 0;

pub const CLIENT_QUERY: u64 = 1;

pub const CLIENT_DATA: u64 = 2;

pub const CLIENT_CANCEL: u64 = 3;

pub const CLIENT_PING: u64 = 4;

pub const CLIENT_SCALAR: u64 = 7;

// Server to client packet tags.
pub const SERVER_HELLO: u64 = 0;

pub const SERVER_DATA: u64 = 1;

pub const SERVER_EXCEPTION: u64 = 2;

pub const SERVER_PROGRESS: u64 = 3;

pub const SERVER_PONG: u64 = 4;

pub const SERVER_END_OF_STREAM: u64 = 5;

// Query kinds inside client info.
pub const INITIAL_QUERY: u8 = 1;

// Revision thresholds for optional wire fields.
pub const DBMS_MIN_REVISION_WITH_CLIENT_INFO: u64 = 54032;

pub const DBMS_MIN_REVISION_WITH_SERVER_TIMEZONE: u64 = 54058;

pub const DBMS_MIN_REVISION_WITH_QUOTA_KEY_IN_CLIENT_INFO: u64 = 54060;

pub const DBMS_MIN_REVISION_WITH_TABLES_STATUS: u64 = 54226;

pub const DBMS_MIN_REVISION_WITH_TIME_ZONE_PARAMETER_IN_DATETIME_DATA_TYPE: u64 = 54337;

pub const DBMS_MIN_REVISION_WITH_SERVER_DISPLAY_NAME: u64 = 54372;

pub const DBMS_MIN_REVISION_WITH_VERSION_PATCH: u64 = 54401;

pub const DBMS_MIN_REVISION_WITH_LOW_CARDINALITY_TYPE: u64 = 54405;

pub const DBMS_MIN_REVISION_WITH_SERVER_LOGS: u64 = 54406;

pub const DBMS_MIN_REVISION_WITH_COLUMN_DEFAULTS_METADATA: u64 = 54410;

pub const DBMS_MIN_REVISION_WITH_CLIENT_SUPPORT_EMBEDDED_DATA: u64 = 54415;

pub const DBMS_MIN_REVISION_WITH_CLIENT_WRITE_INFO: u64 = 54420;

pub const DBMS_MIN_REVISION_WITH_SETTINGS_SERIALIZED_AS_STRINGS: u64 = 54429;

pub const DBMS_MIN_REVISION_WITH_CURRENT_AGGREGATION_VARIANT_SELECTION_METHOD: u64 = 54431;

pub const DBMS_MIN_REVISION_WITH_INTERSERVER_SECRET: u64 = 54441;

pub const DBMS_MIN_REVISION_WITH_OPENTELEMETRY: u64 = 54442;

pub const DBMS_MIN_REVISION_WITH_X_FORWARDED_FOR_IN_CLIENT_INFO: u64 = 54443;

pub const DBMS_MIN_REVISION_WITH_REFERER_IN_CLIENT_INFO: u64 = 54447;

/// Lifecycle stage of the per-connection query state machine.  An incoming
/// Data packet means different things in each stage.
#[derive(Clone, Copy, Debug, PartialEq, Eq, Structural)]
pub enum Stage {
    /// No INSERT in flight; stray Data packets are ignored.
    Normal,
    /// An INSERT was accepted; waiting for the client's empty "ready" block.
    InsertPrepare,
    /// INSERT data is flowing; an empty block ends the stream.
    InsertStart,
}

} // verus!
