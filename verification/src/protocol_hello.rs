//! Handshake packets: the client's `HelloRequest` and the server's
//! `HelloResponse` whose trailing fields are gated by the negotiated
//! revision.
use vstd::prelude::*;

use crate::binary::lemma_read_str_enc;
use crate::binary::lemma_read_uvarint_enc;
use crate::binary::lemma_subrange_sub;
use crate::binary::read_string;
use crate::binary::read_uvarint;
use crate::binary::spec_read_str;
use crate::binary::spec_read_uvarint;
use crate::binary::spec_str_enc;
use crate::binary::spec_uvarint;
use crate::binary::Encoder;
use crate::binary::ReadOutcome;
use crate::errors::Error;
use crate::protocols::DBMS_MIN_REVISION_WITH_SERVER_DISPLAY_NAME;
use crate::protocols::DBMS_MIN_REVISION_WITH_SERVER_TIMEZONE;
use crate::protocols::DBMS_MIN_REVISION_WITH_VERSION_PATCH;
use crate::protocols::SERVER_HELLO;

verus! {

/// Client identity and capability tuple, as decoded from a Hello packet.
/// Wire strings are raw bytes.  `client_version_patch` is not on the wire in
/// the Hello packet; it defaults to the offered revision.
#[derive(Debug)]
pub struct HelloRequest {
    pub client_name: Vec<u8>,
    pub client_version_major: u64,
    pub client_version_minor: u64,
    pub client_version_patch: u64,
    pub client_revision: u64,
    pub default_database: Vec<u8>,
    pub username: Vec<u8>,
    pub password: Vec<u8>,
}

/// Mathematical image of a [`HelloRequest`].
pub struct HelloRequestM {
    pub client_name: Seq<u8>,
    pub client_version_major: u64,
    pub client_version_minor: u64,
    pub client_version_patch: u64,
    pub client_revision: u64,
    pub default_database: Seq<u8>,
    pub username: Seq<u8>,
    pub password: Seq<u8>,
}

impl View for HelloRequest {
    type V = HelloRequestM;

    open spec fn view(&self) -> HelloRequestM {
        HelloRequestM {
            client_name: self.client_name@,
            client_version_major: self.client_version_major,
            client_version_minor: self.client_version_minor,
            client_version_patch: self.client_version_patch,
            client_revision: self.client_revision,
            default_database: self.default_database@,
            username: self.username@,
            password: self.password@,
        }
    }
}

impl HelloRequestM {
    /// A request a conforming client can put on the wire: string lengths fit
    /// the length prefix, and the patch version carries its wire default.
    pub open spec fn wf(self) -> bool {
        &&& self.client_name.len() <= u64::MAX
        &&& self.default_database.len() <= u64::MAX
        &&& self.username.len() <= u64::MAX
        &&& self.password.len() <= u64::MAX
        &&& self.client_version_patch == self.client_revision
    }
}

/// Field-sequence encoding of a Hello request (the packet tag stands in
/// front of it on the wire).
pub open spec fn spec_hello_request_enc(m: HelloRequestM) -> Seq<u8> {
    spec_str_enc(m.client_name) + spec_uvarint(m.client_version_major as nat) + spec_uvarint(
        m.client_version_minor as nat,
    ) + spec_uvarint(m.client_revision as nat) + spec_str_enc(m.default_database) + spec_str_enc(
        m.username,
    ) + spec_str_enc(m.password)
}

/// Reader for the Hello request fields.
#[verifier::opaque]
pub open spec fn spec_read_hello_request(s: Seq<u8>, pos: int) -> ReadOutcome<HelloRequestM> {
    match spec_read_str(s, pos) {
        ReadOutcome::Val(client_name, n1) => match spec_read_uvarint(s, pos + n1) {
            ReadOutcome::Val(major, n2) => match spec_read_uvarint(s, pos + n1 + n2) {
                ReadOutcome::Val(minor, n3) => match spec_read_uvarint(s, pos + n1 + n2 + n3) {
                    ReadOutcome::Val(revision, n4) => match spec_read_str(
                        s,
                        pos + n1 + n2 + n3 + n4,
                    ) {
                        ReadOutcome::Val(db, n5) => match spec_read_str(
                            s,
                            pos + n1 + n2 + n3 + n4 + n5,
                        ) {
                            ReadOutcome::Val(user, n6) => match spec_read_str(
                                s,
                                pos + n1 + n2 + n3 + n4 + n5 + n6,
                            ) {
                                ReadOutcome::Val(pass, n7) => ReadOutcome::Val(
                                    HelloRequestM {
                                        client_name: client_name,
                                        client_version_major: major,
                                        client_version_minor: minor,
                                        client_version_patch: revision,
                                        client_revision: revision,
                                        default_database: db,
                                        username: user,
                                        password: pass,
                                    },
                                    n1 + n2 + n3 + n4 + n5 + n6 + n7,
                                ),
                                o => o.pass(),
                            },
                            o => o.pass(),
                        },
                        o => o.pass(),
                    },
                    o => o.pass(),
                },
                o => o.pass(),
            },
            o => o.pass(),
        },
        o => o.pass(),
    }
}

impl HelloRequest {
    /// Decode the Hello request fields starting at `pos`.
    pub fn read_from(buf: &Vec<u8>, pos: usize) -> (r: Result<(HelloRequest, usize), Error>)
        requires
            pos <= buf@.len(),
        ensures
            ({
                let sr = spec_read_hello_request(buf@, pos as int);
                match sr {
                    ReadOutcome::Val(m, n) => r matches Ok(p) && p.0@ == m && pos <= p.1 && p.1
                        == pos + n && p.1 <= buf@.len(),
                    ReadOutcome::Short => r matches Err(e) && e is WouldBlock,
                    ReadOutcome::Bad(d) => r matches Err(e) && e == Error::Driver(d),
                }
            }),
    {
        proof {
            reveal(spec_read_hello_request);
        }
        let (client_name, p1) = match read_string(buf, pos) {
            Ok(p) => p,
            Err(e) => {
                return Err(e);
            },
        };
        let (major, p2) = match read_uvarint(buf, p1) {
            Ok(p) => p,
            Err(e) => {
                return Err(e);
            },
        };
        let (minor, p3) = match read_uvarint(buf, p2) {
            Ok(p) => p,
            Err(e) => {
                return Err(e);
            },
        };
        let (revision, p4) = match read_uvarint(buf, p3) {
            Ok(p) => p,
            Err(e) => {
                return Err(e);
            },
        };
        let (db, p5) = match read_string(buf, p4) {
            Ok(p) => p,
            Err(e) => {
                return Err(e);
            },
        };
        let (user, p6) = match read_string(buf, p5) {
            Ok(p) => p,
            Err(e) => {
                return Err(e);
            },
        };
        let (pass, p7) = match read_string(buf, p6) {
            Ok(p) => p,
            Err(e) => {
                return Err(e);
            },
        };
        Ok(
            (
                HelloRequest {
                    client_name,
                    client_version_major: major,
                    client_version_minor: minor,
                    client_version_patch: revision,
                    client_revision: revision,
                    default_database: db,
                    username: user,
                    password: pass,
                },
                p7,
            ),
        )
    }

    /// Append the Hello request fields, as a conforming client writes them.
    pub fn write_to(&self, enc: &mut Encoder)
        ensures
            final (enc)@ == old(enc)@ + spec_hello_request_enc(self@),
    {
        enc.string(&self.client_name);
        enc.uvarint(self.client_version_major);
        enc.uvarint(self.client_version_minor);
        enc.uvarint(self.client_revision);
        enc.string(&self.default_database);
        enc.string(&self.username);
        enc.string(&self.password);
        assert(enc@ =~= old(enc)@ + spec_hello_request_enc(self@));
    }
}

/// Round trip: reading bytes that hold an encoded well-formed Hello request
/// yields exactly that request.
pub proof fn lemma_read_hello_request_enc(s: Seq<u8>, pos: int, m: HelloRequestM)
    requires
        0 <= pos,
        m.wf(),
        pos + spec_hello_request_enc(m).len() <= s.len(),
        s.subrange(pos, pos + spec_hello_request_enc(m).len() as int) == spec_hello_request_enc(m),
    ensures
        spec_read_hello_request(s, pos) == ReadOutcome::<HelloRequestM>::Val(
            m,
            spec_hello_request_enc(m).len() as int,
        ),
{
    reveal(spec_read_hello_request);
    let whole = spec_hello_request_enc(m);
    let e1 = spec_str_enc(m.client_name);
    let e2 = spec_uvarint(m.client_version_major as nat);
    let e3 = spec_uvarint(m.client_version_minor as nat);
    let e4 = spec_uvarint(m.client_revision as nat);
    let e5 = spec_str_enc(m.default_database);
    let e6 = spec_str_enc(m.username);
    let e7 = spec_str_enc(m.password);
    let o1 = e1.len() as int;
    let o2 = o1 + e2.len();
    let o3 = o2 + e3.len();
    let o4 = o3 + e4.len();
    let o5 = o4 + e5.len();
    let o6 = o5 + e6.len();
    let o7 = o6 + e7.len();
    assert(whole =~= e1 + e2 + e3 + e4 + e5 + e6 + e7);
    assert(whole.subrange(0, o1) =~= e1);
    lemma_subrange_sub(s, pos, 0, o1, whole);
    lemma_read_str_enc(s, pos, m.client_name);
    assert(whole.subrange(o1, o2) =~= e2);
    lemma_subrange_sub(s, pos, o1, e2.len() as int, whole);
    lemma_read_uvarint_enc(s, pos + o1, m.client_version_major);
    assert(whole.subrange(o2, o3) =~= e3);
    lemma_subrange_sub(s, pos, o2, e3.len() as int, whole);
    lemma_read_uvarint_enc(s, pos + o2, m.client_version_minor);
    assert(whole.subrange(o3, o4) =~= e4);
    lemma_subrange_sub(s, pos, o3, e4.len() as int, whole);
    lemma_read_uvarint_enc(s, pos + o3, m.client_revision);
    assert(whole.subrange(o4, o5) =~= e5);
    lemma_subrange_sub(s, pos, o4, e5.len() as int, whole);
    lemma_read_str_enc(s, pos + o4, m.default_database);
    assert(whole.subrange(o5, o6) =~= e6);
    lemma_subrange_sub(s, pos, o5, e6.len() as int, whole);
    lemma_read_str_enc(s, pos + o5, m.username);
    assert(whole.subrange(o6, o7) =~= e7);
    lemma_subrange_sub(s, pos, o6, e7.len() as int, whole);
    lemma_read_str_enc(s, pos + o6, m.password);
}

/// Server identity sent back after a Hello, fields after the protocol
/// version gated by the negotiated revision.
#[derive(Debug)]
pub struct HelloResponse {
    pub dbms_name: Vec<u8>,
    pub dbms_version_major: u64,
    pub dbms_version_minor: u64,
    pub dbms_tcp_protocol_version: u64,
    pub timezone: Vec<u8>,
    pub server_display_name: Vec<u8>,
    pub dbms_version_patch: u64,
}

/// Mathematical image of a [`HelloResponse`].
pub struct HelloResponseM {
    pub dbms_name: Seq<u8>,
    pub dbms_version_major: u64,
    pub dbms_version_minor: u64,
    pub dbms_tcp_protocol_version: u64,
    pub timezone: Seq<u8>,
    pub server_display_name: Seq<u8>,
    pub dbms_version_patch: u64,
}

impl View for HelloResponse {
    type V = HelloResponseM;

    open spec fn view(&self) -> HelloResponseM {
        HelloResponseM {
            dbms_name: self.dbms_name@,
            dbms_version_major: self.dbms_version_major,
            dbms_version_minor: self.dbms_version_minor,
            dbms_tcp_protocol_version: self.dbms_tcp_protocol_version,
            timezone: self.timezone@,
            server_display_name: self.server_display_name@,
            dbms_version_patch: self.dbms_version_patch,
        }
    }
}

/// The unconditional head of a Hello response: tag, server name and version.
pub open spec fn spec_hello_response_base(m: HelloResponseM) -> Seq<u8> {
    spec_uvarint(SERVER_HELLO as nat) + spec_str_enc(m.dbms_name) + spec_uvarint(
        m.dbms_version_major as nat,
    ) + spec_uvarint(m.dbms_version_minor as nat) + spec_uvarint(
        m.dbms_tcp_protocol_version as nat,
    )
}

/// Timezone field, present from its revision threshold on.
pub open spec fn spec_hello_timezone_part(m: HelloResponseM, revision: u64) -> Seq<u8> {
    if revision >= DBMS_MIN_REVISION_WITH_SERVER_TIMEZONE {
        spec_str_enc(m.timezone)
    } else {
        Seq::<u8>::empty()
    }
}

/// Display-name field, present from its revision threshold on.
pub open spec fn spec_hello_display_name_part(m: HelloResponseM, revision: u64) -> Seq<u8> {
    if revision >= DBMS_MIN_REVISION_WITH_SERVER_DISPLAY_NAME {
        spec_str_enc(m.server_display_name)
    } else {
        Seq::<u8>::empty()
    }
}

/// Patch-version field, present from its revision threshold on.
pub open spec fn spec_hello_version_patch_part(m: HelloResponseM, revision: u64) -> Seq<u8> {
    if revision >= DBMS_MIN_REVISION_WITH_VERSION_PATCH {
        spec_uvarint(m.dbms_version_patch as nat)
    } else {
        Seq::<u8>::empty()
    }
}

/// Full encoding of a Hello response at a negotiated revision.
pub open spec fn spec_hello_response_enc(m: HelloResponseM, revision: u64) -> Seq<u8> {
    spec_hello_response_base(m) + spec_hello_timezone_part(m, revision)
        + spec_hello_display_name_part(m, revision) + spec_hello_version_patch_part(m, revision)
}

impl HelloResponse {
    /// Append the Hello response, with each optional field present exactly
    /// when the negotiated revision reaches its threshold.
    pub fn encode(&self, enc: &mut Encoder, client_revision: u64)
        ensures
            final (enc)@ == old(enc)@ + spec_hello_response_enc(self@, client_revision),
    {
        enc.uvarint(SERVER_HELLO);
        enc.string(&self.dbms_name);
        enc.uvarint(self.dbms_version_major);
        enc.uvarint(self.dbms_version_minor);
        enc.uvarint(self.dbms_tcp_protocol_version);
        if client_revision >= DBMS_MIN_REVISION_WITH_SERVER_TIMEZONE {
            enc.string(&self.timezone);
        }
        if client_revision >= DBMS_MIN_REVISION_WITH_SERVER_DISPLAY_NAME {
            enc.string(&self.server_display_name);
        }
        if client_revision >= DBMS_MIN_REVISION_WITH_VERSION_PATCH {
            enc.uvarint(self.dbms_version_patch);
        }
        assert(enc@ =~= old(enc)@ + spec_hello_response_enc(self@, client_revision));
    }
}

/// Revision gating of the Hello response: each optional field contributes
/// bytes if and only if the negotiated revision reaches its threshold.
pub proof fn lemma_hello_response_gating(m: HelloResponseM, revision: u64)
    ensures
        spec_hello_response_enc(m, revision) == spec_hello_response_base(m)
            + spec_hello_timezone_part(m, revision) + spec_hello_display_name_part(m, revision)
            + spec_hello_version_patch_part(m, revision),
        spec_hello_timezone_part(m, revision).len() > 0 <==> revision
            >= DBMS_MIN_REVISION_WITH_SERVER_TIMEZONE,
        spec_hello_display_name_part(m, revision).len() > 0 <==> revision
            >= DBMS_MIN_REVISION_WITH_SERVER_DISPLAY_NAME,
        spec_hello_version_patch_part(m, revision).len() > 0 <==> revision
            >= DBMS_MIN_REVISION_WITH_VERSION_PATCH,
{
    if revision >= DBMS_MIN_REVISION_WITH_SERVER_TIMEZONE {
        assert(spec_uvarint(m.timezone.len()).len() >= 1);
    }
    if revision >= DBMS_MIN_REVISION_WITH_SERVER_DISPLAY_NAME {
        assert(spec_uvarint(m.server_display_name.len()).len() >= 1);
    }
    if revision >= DBMS_MIN_REVISION_WITH_VERSION_PATCH {
        assert(spec_uvarint(m.dbms_version_patch as nat).len() >= 1);
    }
}

} // verus!
