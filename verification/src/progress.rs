//! Progress frames: periodic (rows, bytes, total rows) reports sent while
//! a query streams its results.
use vstd::prelude::*;

use crate::binary::spec_uvarint;
use crate::binary::Encoder;
use crate::protocols::DBMS_MIN_REVISION_WITH_CLIENT_WRITE_INFO;
use crate::protocols::SERVER_PROGRESS;

verus! {

/// A progress snapshot.
#[derive(Clone, Copy, Debug, PartialEq, Eq, Structural)]
pub struct Progress {
    pub rows: u64,
    pub bytes: u64,
    pub total_rows: u64,
}

impl Progress {
    /// The zero snapshot.
    pub fn zero() -> (r: Progress)
        ensures
            r == (Progress { rows: 0u64, bytes: 0u64, total_rows: 0u64 }),
    {
        Progress { rows: 0, bytes: 0, total_rows: 0 }
    }
}

/// Write-info counters, present from their revision threshold on.  The
/// server reports them as zero.
pub open spec fn spec_progress_write_info_part(revision: u64) -> Seq<u8> {
    if revision >= DBMS_MIN_REVISION_WITH_CLIENT_WRITE_INFO {
        spec_uvarint(0) + spec_uvarint(0)
    } else {
        Seq::<u8>::empty()
    }
}

/// Encoding of a progress frame at a negotiated revision.
pub open spec fn spec_progress_enc(p: Progress, revision: u64) -> Seq<u8> {
    spec_uvarint(SERVER_PROGRESS as nat) + spec_uvarint(p.rows as nat) + spec_uvarint(
        p.bytes as nat,
    ) + spec_uvarint(p.total_rows as nat) + spec_progress_write_info_part(revision)
}

/// Revision gating of the progress frame: the write-info counters
/// contribute bytes if and only if the revision reaches their threshold.
pub proof fn lemma_progress_gating(revision: u64)
    ensures
        spec_progress_write_info_part(revision).len() > 0 <==> revision
            >= DBMS_MIN_REVISION_WITH_CLIENT_WRITE_INFO,
{
    if revision >= DBMS_MIN_REVISION_WITH_CLIENT_WRITE_INFO {
        assert(spec_uvarint(0).len() >= 1);
    }
}

impl Progress {
    /// Append this snapshot as a progress frame.
    pub fn write(&self, enc: &mut Encoder, client_revision: u64)
        ensures
            final (enc)@ == old(enc)@ + spec_progress_enc(*self, client_revision),
    {
        enc.uvarint(SERVER_PROGRESS);
        enc.uvarint(self.rows);
        enc.uvarint(self.bytes);
        enc.uvarint(self.total_rows);
        if client_revision >= DBMS_MIN_REVISION_WITH_CLIENT_WRITE_INFO {
            enc.uvarint(0);
            enc.uvarint(0);
        }
        assert(enc@ =~= old(enc)@ + spec_progress_enc(*self, client_revision));
    }
}

} // verus!
