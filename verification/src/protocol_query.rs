//! Query packets: the revision-gated `QueryClientInfo` block and the
//! `QueryRequest` that carries it, the discarded settings list, and the
//! query text.
use vstd::prelude::*;

use crate::binary::lemma_read_str_enc;
use crate::binary::lemma_read_uvarint_enc;
use crate::binary::lemma_subrange_sub;
use crate::binary::read_string;
use crate::binary::read_u8;
use crate::binary::read_uvarint;
use crate::binary::spec_read_str;
use crate::binary::spec_read_u8;
use crate::binary::spec_read_uvarint;
use crate::binary::spec_str_enc;
use crate::binary::spec_uvarint;
use crate::binary::Encoder;
use crate::binary::ReadOutcome;
use crate::errors::DriverError;
use crate::errors::Error;
use crate::protocol_hello::HelloRequest;
use crate::protocol_hello::HelloRequestM;
use crate::protocols::DBMS_MIN_REVISION_WITH_CLIENT_INFO;
use crate::protocols::DBMS_MIN_REVISION_WITH_QUOTA_KEY_IN_CLIENT_INFO;
use crate::protocols::DBMS_MIN_REVISION_WITH_VERSION_PATCH;
use crate::protocols::INITIAL_QUERY;

verus! {

/// Wire value of the TCP interface kind inside client info.
pub const INTERFACE_TCP: u8 = 1;

/// Wire value of the HTTP interface kind inside client info.
pub const INTERFACE_HTTP: u8 = 2;

/// Client-side context attached to a query, with fields gated by the
/// client's own revision.  Wire strings are raw bytes.
#[derive(Debug)]
pub struct QueryClientInfo {
    pub query_kind: u8,
    pub initial_user: Vec<u8>,
    pub initial_query_id: Vec<u8>,
    pub initial_address: Vec<u8>,
    pub interface: u8,
    pub os_user: Vec<u8>,
    pub client_hostname: Vec<u8>,
    pub client_name: Vec<u8>,
    pub client_version_major: u64,
    pub client_version_minor: u64,
    pub client_version_patch: u64,
    pub client_revision: u64,
    pub http_method: u8,
    pub http_user_agent: Vec<u8>,
    pub quota_key: Vec<u8>,
}

/// Mathematical image of a [`QueryClientInfo`].
pub struct QueryClientInfoM {
    pub query_kind: u8,
    pub initial_user: Seq<u8>,
    pub initial_query_id: Seq<u8>,
    pub initial_address: Seq<u8>,
    pub interface: u8,
    pub os_user: Seq<u8>,
    pub client_hostname: Seq<u8>,
    pub client_name: Seq<u8>,
    pub client_version_major: u64,
    pub client_version_minor: u64,
    pub client_version_patch: u64,
    pub client_revision: u64,
    pub http_method: u8,
    pub http_user_agent: Seq<u8>,
    pub quota_key: Seq<u8>,
}

impl View for QueryClientInfo {
    type V = QueryClientInfoM;

    open spec fn view(&self) -> QueryClientInfoM {
        QueryClientInfoM {
            query_kind: self.query_kind,
            initial_user: self.initial_user@,
            initial_query_id: self.initial_query_id@,
            initial_address: self.initial_address@,
            interface: self.interface,
            os_user: self.os_user@,
            client_hostname: self.client_hostname@,
            client_name: self.client_name@,
            client_version_major: self.client_version_major,
            client_version_minor: self.client_version_minor,
            client_version_patch: self.client_version_patch,
            client_revision: self.client_revision,
            http_method: self.http_method,
            http_user_agent: self.http_user_agent@,
            quota_key: self.quota_key@,
        }
    }
}

/// The all-defaults client info: every counter zero, every string empty.
pub open spec fn spec_client_info_zero() -> QueryClientInfoM {
    QueryClientInfoM {
        query_kind: 0,
        initial_user: Seq::<u8>::empty(),
        initial_query_id: Seq::<u8>::empty(),
        initial_address: Seq::<u8>::empty(),
        interface: 0,
        os_user: Seq::<u8>::empty(),
        client_hostname: Seq::<u8>::empty(),
        client_name: Seq::<u8>::empty(),
        client_version_major: 0,
        client_version_minor: 0,
        client_version_patch: 0,
        client_revision: 0,
        http_method: 0,
        http_user_agent: Seq::<u8>::empty(),
        quota_key: Seq::<u8>::empty(),
    }
}

impl QueryClientInfo {
    /// The all-defaults client info value.
    pub fn empty() -> (r: QueryClientInfo)
        ensures
            r@ == spec_client_info_zero(),
    {
        QueryClientInfo {
            query_kind: 0,
            initial_user: Vec::new(),
            initial_query_id: Vec::new(),
            initial_address: Vec::new(),
            interface: 0,
            os_user: Vec::new(),
            client_hostname: Vec::new(),
            client_name: Vec::new(),
            client_version_major: 0,
            client_version_minor: 0,
            client_version_patch: 0,
            client_revision: 0,
            http_method: 0,
            http_user_agent: Vec::new(),
            quota_key: Vec::new(),
        }
    }
}

impl QueryClientInfoM {
    /// Client info as a conforming TCP client sends it: a real query kind,
    /// the TCP interface, HTTP fields at their defaults, and the gated
    /// fields consistent with the client's own revision.
    pub open spec fn wf(self) -> bool {
        &&& self.query_kind != 0
        &&& self.interface == INTERFACE_TCP
        &&& self.http_method == 0
        &&& self.http_user_agent.len() == 0
        &&& self.initial_user.len() <= u64::MAX
        &&& self.initial_query_id.len() <= u64::MAX
        &&& self.initial_address.len() <= u64::MAX
        &&& self.os_user.len() <= u64::MAX
        &&& self.client_hostname.len() <= u64::MAX
        &&& self.client_name.len() <= u64::MAX
        &&& self.quota_key.len() <= u64::MAX
        &&& (self.client_revision < DBMS_MIN_REVISION_WITH_QUOTA_KEY_IN_CLIENT_INFO
            ==> self.quota_key.len() == 0)
        &&& (self.client_revision < DBMS_MIN_REVISION_WITH_VERSION_PATCH
            ==> self.client_version_patch == self.client_revision)
    }
}

/// Encoding of the TCP-interface section of client info.
pub open spec fn spec_ci_tcp_sec_enc(m: QueryClientInfoM) -> Seq<u8> {
    spec_str_enc(m.os_user) + spec_str_enc(m.client_hostname) + spec_str_enc(m.client_name)
        + spec_uvarint(m.client_version_major as nat) + spec_uvarint(m.client_version_minor as nat)
        + spec_uvarint(m.client_revision as nat)
}

/// Quota-key field of client info, present from its threshold on.
pub open spec fn spec_ci_quota_part(m: QueryClientInfoM) -> Seq<u8> {
    if m.client_revision >= DBMS_MIN_REVISION_WITH_QUOTA_KEY_IN_CLIENT_INFO {
        spec_str_enc(m.quota_key)
    } else {
        Seq::<u8>::empty()
    }
}

/// Explicit patch-version field of client info, present from its threshold
/// on.
pub open spec fn spec_ci_patch_part(m: QueryClientInfoM) -> Seq<u8> {
    if m.client_revision >= DBMS_MIN_REVISION_WITH_VERSION_PATCH {
        spec_uvarint(m.client_version_patch as nat)
    } else {
        Seq::<u8>::empty()
    }
}

/// Encoding of the revision-gated trailer of client info.
pub open spec fn spec_ci_trailer_enc(m: QueryClientInfoM) -> Seq<u8> {
    spec_ci_quota_part(m) + spec_ci_patch_part(m)
}

/// Revision gating of the query request: the client info block is on the
/// wire exactly when the handshake revision reaches its threshold, and
/// inside it the quota key and the explicit patch version appear exactly
/// from their own thresholds on.
pub proof fn lemma_query_gating(m: QueryClientInfoM, hello_revision: u64)
    ensures
        ((if hello_revision >= DBMS_MIN_REVISION_WITH_CLIENT_INFO {
            spec_client_info_enc(m)
        } else {
            Seq::<u8>::empty()
        }).len() > 0) <==> hello_revision >= DBMS_MIN_REVISION_WITH_CLIENT_INFO,
        spec_ci_quota_part(m).len() > 0 <==> m.client_revision
            >= DBMS_MIN_REVISION_WITH_QUOTA_KEY_IN_CLIENT_INFO,
        spec_ci_patch_part(m).len() > 0 <==> m.client_revision
            >= DBMS_MIN_REVISION_WITH_VERSION_PATCH,
{
    if m.client_revision >= DBMS_MIN_REVISION_WITH_QUOTA_KEY_IN_CLIENT_INFO {
        assert(spec_uvarint(m.quota_key.len()).len() >= 1);
    }
    if m.client_revision >= DBMS_MIN_REVISION_WITH_VERSION_PATCH {
        assert(spec_uvarint(m.client_version_patch as nat).len() >= 1);
    }
}

/// Encoding of client info as a conforming TCP client writes it.
pub open spec fn spec_client_info_enc(m: QueryClientInfoM) -> Seq<u8> {
    seq![m.query_kind] + spec_str_enc(m.initial_user) + spec_str_enc(m.initial_query_id)
        + spec_str_enc(m.initial_address) + seq![m.interface] + spec_ci_tcp_sec_enc(m)
        + spec_ci_trailer_enc(m)
}

/// Reader for the TCP-interface fields of client info: os user, hostname,
/// client name, and the version triple ending in the client revision.
pub open spec fn spec_read_ci_tcp(s: Seq<u8>, pos: int) -> ReadOutcome<
    (Seq<u8>, Seq<u8>, Seq<u8>, u64, u64, u64),
> {
    match spec_read_str(s, pos) {
        ReadOutcome::Val(os_user, n1) => match spec_read_str(s, pos + n1) {
            ReadOutcome::Val(hostname, n2) => match spec_read_str(s, pos + n1 + n2) {
                ReadOutcome::Val(name, n3) => match spec_read_uvarint(s, pos + n1 + n2 + n3) {
                    ReadOutcome::Val(major, n4) => match spec_read_uvarint(
                        s,
                        pos + n1 + n2 + n3 + n4,
                    ) {
                        ReadOutcome::Val(minor, n5) => match spec_read_uvarint(
                            s,
                            pos + n1 + n2 + n3 + n4 + n5,
                        ) {
                            ReadOutcome::Val(revision, n6) => ReadOutcome::Val(
                                (os_user, hostname, name, major, minor, revision),
                                n1 + n2 + n3 + n4 + n5 + n6,
                            ),
                            o => o.pass(),
                        },
                        o => o.pass(),
                    },
                    o => o.pass(),
                },
                o => o.pass(),
            },
            o => o.pass(),
        },
        o => o.pass(),
    }
}

/// Reader for the trailing gated fields of client info: the quota key from
/// its threshold on, and the explicit patch version for TCP clients from its
/// threshold on.
pub open spec fn spec_read_ci_trailer(s: Seq<u8>, pos: int, m: QueryClientInfoM) -> ReadOutcome<
    QueryClientInfoM,
> {
    match (if m.client_revision >= DBMS_MIN_REVISION_WITH_QUOTA_KEY_IN_CLIENT_INFO {
        spec_read_str(s, pos)
    } else {
        ReadOutcome::Val(Seq::<u8>::empty(), 0)
    }) {
        ReadOutcome::Val(quota, n1) => {
            let m1 = QueryClientInfoM { quota_key: quota, ..m };
            match (if m.interface == INTERFACE_TCP && m.client_revision
                >= DBMS_MIN_REVISION_WITH_VERSION_PATCH {
                spec_read_uvarint(s, pos + n1)
            } else {
                ReadOutcome::Val(m.client_version_patch, 0)
            }) {
                ReadOutcome::Val(patch, n2) => ReadOutcome::Val(
                    QueryClientInfoM { client_version_patch: patch, ..m1 },
                    n1 + n2,
                ),
                o => o.pass(),
            }
        },
        o => o.pass(),
    }
}

/// Reader for a full client info block.
#[verifier::opaque]
pub open spec fn spec_read_client_info(s: Seq<u8>, pos: int) -> ReadOutcome<QueryClientInfoM> {
    match spec_read_u8(s, pos) {
        ReadOutcome::Val(kind, n0) => {
            if kind == 0 {
                ReadOutcome::Val(spec_client_info_zero(), n0)
            } else {
                match spec_read_str(s, pos + n0) {
                    ReadOutcome::Val(initial_user, n1) => match spec_read_str(s, pos + n0 + n1) {
                        ReadOutcome::Val(initial_query_id, n2) => match spec_read_str(
                            s,
                            pos + n0 + n1 + n2,
                        ) {
                            ReadOutcome::Val(initial_address, n3) => match spec_read_u8(
                                s,
                                pos + n0 + n1 + n2 + n3,
                            ) {
                                ReadOutcome::Val(interface, n4) => {
                                    let base = pos + n0 + n1 + n2 + n3 + n4;
                                    let head = QueryClientInfoM {
                                        query_kind: kind,
                                        initial_user: initial_user,
                                        initial_query_id: initial_query_id,
                                        initial_address: initial_address,
                                        interface: interface,
                                        ..spec_client_info_zero()
                                    };
                                    if interface == INTERFACE_TCP {
                                        match spec_read_ci_tcp(s, base) {
                                            ReadOutcome::Val(t, n5) => {
                                                let m = QueryClientInfoM {
                                                    os_user: t.0,
                                                    client_hostname: t.1,
                                                    client_name: t.2,
                                                    client_version_major: t.3,
                                                    client_version_minor: t.4,
                                                    client_version_patch: t.5,
                                                    client_revision: t.5,
                                                    ..head
                                                };
                                                match spec_read_ci_trailer(s, base + n5, m) {
                                                    ReadOutcome::Val(mm, n6) => ReadOutcome::Val(
                                                        mm,
                                                        n0 + n1 + n2 + n3 + n4 + n5 + n6,
                                                    ),
                                                    o => o.pass(),
                                                }
                                            },
                                            o => o.pass(),
                                        }
                                    } else if interface == INTERFACE_HTTP {
                                        match spec_read_u8(s, base) {
                                            ReadOutcome::Val(method, n5) => match spec_read_str(
                                                s,
                                                base + n5,
                                            ) {
                                                ReadOutcome::Val(agent, n6) => {
                                                    let m = QueryClientInfoM {
                                                        http_method: method,
                                                        http_user_agent: agent,
                                                        ..head
                                                    };
                                                    match spec_read_ci_trailer(
                                                        s,
                                                        base + n5 + n6,
                                                        m,
                                                    ) {
                                                        ReadOutcome::Val(mm, n7) => ReadOutcome::Val(
                                                            mm,
                                                            n0 + n1 + n2 + n3 + n4 + n5 + n6 + n7,
                                                        ),
                                                        o => o.pass(),
                                                    }
                                                },
                                                o => o.pass(),
                                            },
                                            o => o.pass(),
                                        }
                                    } else {
                                        match spec_read_ci_trailer(s, base, head) {
                                            ReadOutcome::Val(mm, n5) => ReadOutcome::Val(
                                                mm,
                                                n0 + n1 + n2 + n3 + n4 + n5,
                                            ),
                                            o => o.pass(),
                                        }
                                    }
                                },
                                o => o.pass(),
                            },
                            o => o.pass(),
                        },
                        o => o.pass(),
                    },
                    o => o.pass(),
                }
            }
        },
        o => o.pass(),
    }
}

impl QueryClientInfo {
    /// Decode a client info block starting at `pos`.
    pub fn read_from(buf: &Vec<u8>, pos: usize) -> (r: Result<(QueryClientInfo, usize), Error>)
        requires
            pos <= buf@.len(),
        ensures
            ({
                let sr = spec_read_client_info(buf@, pos as int);
                match sr {
                    ReadOutcome::Val(m, n) => r matches Ok(p) && p.0@ == m && pos <= p.1 && p.1
                        == pos + n && p.1 <= buf@.len(),
                    ReadOutcome::Short => r matches Err(e) && e is WouldBlock,
                    ReadOutcome::Bad(d) => r matches Err(e) && e == Error::Driver(d),
                }
            }),
    {
        proof {
            reveal(spec_read_client_info);
        }
        let mut ci = QueryClientInfo::empty();
        let (kind, p0) = match read_u8(buf, pos) {
            Ok(p) => p,
            Err(e) => {
                return Err(e);
            },
        };
        if kind == 0 {
            return Ok((ci, p0));
        }
        ci.query_kind = kind;
        let (initial_user, p1) = match read_string(buf, p0) {
            Ok(p) => p,
            Err(e) => {
                return Err(e);
            },
        };
        ci.initial_user = initial_user;
        let (initial_query_id, p2) = match read_string(buf, p1) {
            Ok(p) => p,
            Err(e) => {
                return Err(e);
            },
        };
        ci.initial_query_id = initial_query_id;
        let (initial_address, p3) = match read_string(buf, p2) {
            Ok(p) => p,
            Err(e) => {
                return Err(e);
            },
        };
        ci.initial_address = initial_address;
        let (interface, p4) = match read_u8(buf, p3) {
            Ok(p) => p,
            Err(e) => {
                return Err(e);
            },
        };
        ci.interface = interface;
        let mut cur = p4;
        if interface == INTERFACE_TCP {
            let (os_user, q1) = match read_string(buf, cur) {
                Ok(p) => p,
                Err(e) => {
                    return Err(e);
                },
            };
            ci.os_user = os_user;
            let (hostname, q2) = match read_string(buf, q1) {
                Ok(p) => p,
                Err(e) => {
                    return Err(e);
                },
            };
            ci.client_hostname = hostname;
            let (name, q3) = match read_string(buf, q2) {
                Ok(p) => p,
                Err(e) => {
                    return Err(e);
                },
            };
            ci.client_name = name;
            let (major, q4) = match read_uvarint(buf, q3) {
                Ok(p) => p,
                Err(e) => {
                    return Err(e);
                },
            };
            ci.client_version_major = major;
            let (minor, q5) = match read_uvarint(buf, q4) {
                Ok(p) => p,
                Err(e) => {
                    return Err(e);
                },
            };
            ci.client_version_minor = minor;
            let (revision, q6) = match read_uvarint(buf, q5) {
                Ok(p) => p,
                Err(e) => {
                    return Err(e);
                },
            };
            ci.client_revision = revision;
            ci.client_version_patch = revision;
            cur = q6;
        } else if interface == INTERFACE_HTTP {
            let (method, q1) = match read_u8(buf, cur) {
                Ok(p) => p,
                Err(e) => {
                    return Err(e);
                },
            };
            ci.http_method = method;
            let (agent, q2) = match read_string(buf, q1) {
                Ok(p) => p,
                Err(e) => {
                    return Err(e);
                },
            };
            ci.http_user_agent = agent;
            cur = q2;
        }
        if ci.client_revision >= DBMS_MIN_REVISION_WITH_QUOTA_KEY_IN_CLIENT_INFO {
            let (quota, q) = match read_string(buf, cur) {
                Ok(p) => p,
                Err(e) => {
                    return Err(e);
                },
            };
            ci.quota_key = quota;
            cur = q;
        }
        if ci.interface == INTERFACE_TCP && ci.client_revision
            >= DBMS_MIN_REVISION_WITH_VERSION_PATCH {
            let (patch, q) = match read_uvarint(buf, cur) {
                Ok(p) => p,
                Err(e) => {
                    return Err(e);
                },
            };
            ci.client_version_patch = patch;
            cur = q;
        }
        Ok((ci, cur))
    }

    /// Append a client info block as a conforming TCP client writes one.
    #[verifier::spinoff_prover]
    #[verifier::rlimit(60)]
    pub fn write_to(&self, enc: &mut Encoder)
        requires
            self@.wf(),
        ensures
            final (enc)@ == old(enc)@ + spec_client_info_enc(self@),
    {
        enc.write_u8(self.query_kind);
        enc.string(&self.initial_user);
        enc.string(&self.initial_query_id);
        enc.string(&self.initial_address);
        enc.write_u8(self.interface);
        enc.string(&self.os_user);
        enc.string(&self.client_hostname);
        enc.string(&self.client_name);
        enc.uvarint(self.client_version_major);
        enc.uvarint(self.client_version_minor);
        enc.uvarint(self.client_revision);
        if self.client_revision >= DBMS_MIN_REVISION_WITH_QUOTA_KEY_IN_CLIENT_INFO {
            enc.string(&self.quota_key);
        }
        if self.client_revision >= DBMS_MIN_REVISION_WITH_VERSION_PATCH {
            enc.uvarint(self.client_version_patch);
        }
        assert(enc@ =~= old(enc)@ + spec_client_info_enc(self@));
    }
}

/// Round trip for the TCP-interface section of client info.
pub proof fn lemma_read_ci_tcp_enc(s: Seq<u8>, pos: int, m: QueryClientInfoM)
    requires
        0 <= pos,
        m.wf(),
        pos + spec_ci_tcp_sec_enc(m).len() <= s.len(),
        s.subrange(pos, pos + spec_ci_tcp_sec_enc(m).len() as int) == spec_ci_tcp_sec_enc(m),
    ensures
        spec_read_ci_tcp(s, pos) == ReadOutcome::Val(
            (
                m.os_user,
                m.client_hostname,
                m.client_name,
                m.client_version_major,
                m.client_version_minor,
                m.client_revision,
            ),
            spec_ci_tcp_sec_enc(m).len() as int,
        ),
{
    let whole = spec_ci_tcp_sec_enc(m);
    let e1 = spec_str_enc(m.os_user);
    let e2 = spec_str_enc(m.client_hostname);
    let e3 = spec_str_enc(m.client_name);
    let e4 = spec_uvarint(m.client_version_major as nat);
    let e5 = spec_uvarint(m.client_version_minor as nat);
    let e6 = spec_uvarint(m.client_revision as nat);
    let o1 = e1.len() as int;
    let o2 = o1 + e2.len();
    let o3 = o2 + e3.len();
    let o4 = o3 + e4.len();
    let o5 = o4 + e5.len();
    let o6 = o5 + e6.len();
    assert(whole =~= e1 + e2 + e3 + e4 + e5 + e6);
    assert(whole.subrange(0, o1) =~= e1);
    lemma_subrange_sub(s, pos, 0, o1, whole);
    lemma_read_str_enc(s, pos, m.os_user);
    assert(whole.subrange(o1, o2) =~= e2);
    lemma_subrange_sub(s, pos, o1, e2.len() as int, whole);
    lemma_read_str_enc(s, pos + o1, m.client_hostname);
    assert(whole.subrange(o2, o3) =~= e3);
    lemma_subrange_sub(s, pos, o2, e3.len() as int, whole);
    lemma_read_str_enc(s, pos + o2, m.client_name);
    assert(whole.subrange(o3, o4) =~= e4);
    lemma_subrange_sub(s, pos, o3, e4.len() as int, whole);
    lemma_read_uvarint_enc(s, pos + o3, m.client_version_major);
    assert(whole.subrange(o4, o5) =~= e5);
    lemma_subrange_sub(s, pos, o4, e5.len() as int, whole);
    lemma_read_uvarint_enc(s, pos + o4, m.client_version_minor);
    assert(whole.subrange(o5, o6) =~= e6);
    lemma_subrange_sub(s, pos, o5, e6.len() as int, whole);
    lemma_read_uvarint_enc(s, pos + o5, m.client_revision);
}

/// Round trip for the revision-gated trailer of client info.  `min` is the
/// value assembled before the trailer: it agrees with `m` everywhere but in
/// the quota key and the patch version, which the trailer supplies.
pub proof fn lemma_read_ci_trailer_enc(s: Seq<u8>, pos: int, m: QueryClientInfoM, min: QueryClientInfoM)
    requires
        0 <= pos,
        m.wf(),
        min.interface == m.interface,
        min.client_revision == m.client_revision,
        min.client_version_patch == m.client_revision,
        (QueryClientInfoM {
            quota_key: m.quota_key,
            client_version_patch: m.client_version_patch,
            ..min
        }) == m,
        pos + spec_ci_trailer_enc(m).len() <= s.len(),
        s.subrange(pos, pos + spec_ci_trailer_enc(m).len() as int) == spec_ci_trailer_enc(m),
    ensures
        spec_read_ci_trailer(s, pos, min) == ReadOutcome::Val(
            m,
            spec_ci_trailer_enc(m).len() as int,
        ),
{
    let whole = spec_ci_trailer_enc(m);
    let e1 = if m.client_revision >= DBMS_MIN_REVISION_WITH_QUOTA_KEY_IN_CLIENT_INFO {
        spec_str_enc(m.quota_key)
    } else {
        Seq::<u8>::empty()
    };
    let e2 = if m.client_revision >= DBMS_MIN_REVISION_WITH_VERSION_PATCH {
        spec_uvarint(m.client_version_patch as nat)
    } else {
        Seq::<u8>::empty()
    };
    let o1 = e1.len() as int;
    let o2 = o1 + e2.len();
    if m.client_revision >= DBMS_MIN_REVISION_WITH_QUOTA_KEY_IN_CLIENT_INFO {
        assert(whole.subrange(0, o1) =~= e1);
        lemma_subrange_sub(s, pos, 0, o1, whole);
        lemma_read_str_enc(s, pos, m.quota_key);
    } else {
        assert(m.quota_key == Seq::<u8>::empty()) by {
            assert(m.quota_key =~= Seq::<u8>::empty());
        }
    }
    if m.client_revision >= DBMS_MIN_REVISION_WITH_VERSION_PATCH {
        assert(whole.subrange(o1, o2) =~= e2);
        lemma_subrange_sub(s, pos, o1, e2.len() as int, whole);
        lemma_read_uvarint_enc(s, pos + o1, m.client_version_patch);
    }
}

/// Round trip: reading bytes that hold a well-formed encoded client info
/// block yields exactly that block.
#[verifier::spinoff_prover]
#[verifier::rlimit(60)]
pub proof fn lemma_read_client_info_enc(s: Seq<u8>, pos: int, m: QueryClientInfoM)
    requires
        0 <= pos,
        m.wf(),
        pos + spec_client_info_enc(m).len() <= s.len(),
        s.subrange(pos, pos + spec_client_info_enc(m).len() as int) == spec_client_info_enc(m),
    ensures
        spec_read_client_info(s, pos) == ReadOutcome::<QueryClientInfoM>::Val(
            m,
            spec_client_info_enc(m).len() as int,
        ),
{
    reveal(spec_read_client_info);
    let whole = spec_client_info_enc(m);
    let e0 = seq![m.query_kind];
    let e1 = spec_str_enc(m.initial_user);
    let e2 = spec_str_enc(m.initial_query_id);
    let e3 = spec_str_enc(m.initial_address);
    let e4 = seq![m.interface];
    let et = spec_ci_tcp_sec_enc(m);
    let er = spec_ci_trailer_enc(m);
    let o0 = e0.len() as int;
    let o1 = o0 + e1.len();
    let o2 = o1 + e2.len();
    let o3 = o2 + e3.len();
    let o4 = o3 + e4.len();
    let o5 = o4 + et.len();
    let o6 = o5 + er.len();
    assert(whole =~= e0 + e1 + e2 + e3 + e4 + et + er);
    assert(whole[0] == m.query_kind);
    assert(s.subrange(pos, pos + whole.len() as int)[0] == s[pos]);
    assert(s[pos] == m.query_kind);
    assert(whole.subrange(o0, o1) =~= e1);
    lemma_subrange_sub(s, pos, o0, e1.len() as int, whole);
    lemma_read_str_enc(s, pos + o0, m.initial_user);
    assert(whole.subrange(o1, o2) =~= e2);
    lemma_subrange_sub(s, pos, o1, e2.len() as int, whole);
    lemma_read_str_enc(s, pos + o1, m.initial_query_id);
    assert(whole.subrange(o2, o3) =~= e3);
    lemma_subrange_sub(s, pos, o2, e3.len() as int, whole);
    lemma_read_str_enc(s, pos + o2, m.initial_address);
    assert(whole[o3] == m.interface);
    assert(s.subrange(pos, pos + whole.len() as int)[o3] == s[pos + o3]);
    assert(s[pos + o3] == m.interface);
    assert(whole.subrange(o4, o5) =~= et);
    lemma_subrange_sub(s, pos, o4, et.len() as int, whole);
    lemma_read_ci_tcp_enc(s, pos + o4, m);
    let t = (
        m.os_user,
        m.client_hostname,
        m.client_name,
        m.client_version_major,
        m.client_version_minor,
        m.client_revision,
    );
    assert(spec_read_ci_tcp(s, pos + o4) == ReadOutcome::Val(t, o5 - o4));
    let head = QueryClientInfoM {
        query_kind: m.query_kind,
        initial_user: m.initial_user,
        initial_query_id: m.initial_query_id,
        initial_address: m.initial_address,
        interface: m.interface,
        ..spec_client_info_zero()
    };
    let mtcp = QueryClientInfoM {
        os_user: t.0,
        client_hostname: t.1,
        client_name: t.2,
        client_version_major: t.3,
        client_version_minor: t.4,
        client_version_patch: t.5,
        client_revision: t.5,
        ..head
    };
    assert(m.http_user_agent == Seq::<u8>::empty()) by {
        assert(m.http_user_agent =~= Seq::<u8>::empty());
    }
    assert(whole.subrange(o5, o6) =~= er);
    lemma_subrange_sub(s, pos, o5, er.len() as int, whole);
    lemma_read_ci_trailer_enc(s, pos + o5, m, mtcp);
    assert(spec_read_ci_trailer(s, pos + o5, mtcp) == ReadOutcome::Val(m, o6 - o5));
}

/// A decoded query request: the query text together with its id, client
/// info, requested stage, and compression flag.
#[derive(Debug)]
pub struct QueryRequest {
    pub query_id: Vec<u8>,
    pub client_info: QueryClientInfo,
    pub stage: u64,
    pub compression: u64,
    pub query: Vec<u8>,
}

/// Mathematical image of a [`QueryRequest`].
pub struct QueryRequestM {
    pub query_id: Seq<u8>,
    pub client_info: QueryClientInfoM,
    pub stage: u64,
    pub compression: u64,
    pub query: Seq<u8>,
}

impl View for QueryRequest {
    type V = QueryRequestM;

    open spec fn view(&self) -> QueryRequestM {
        QueryRequestM {
            query_id: self.query_id@,
            client_info: self.client_info@,
            stage: self.stage,
            compression: self.compression,
            query: self.query@,
        }
    }
}

impl QueryRequestM {
    /// A request a conforming client can put on the wire.
    pub open spec fn wf(self) -> bool {
        &&& self.query_id.len() <= u64::MAX
        &&& self.query.len() <= u64::MAX
        &&& self.client_info.wf()
    }
}

/// Reader for the settings list: strings until an empty key, every entry
/// discarded.
pub open spec fn spec_read_settings(s: Seq<u8>, pos: int) -> ReadOutcome<()>
    decreases s.len() - pos,
{
    match spec_read_str(s, pos) {
        ReadOutcome::Val(b, n) => if b.len() == 0 {
            ReadOutcome::Val((), n)
        } else if pos < 0 || n < 1 || pos + n > s.len() {
            ReadOutcome::Bad(DriverError::BadFrame)
        } else {
            match spec_read_settings(s, pos + n) {
                ReadOutcome::Val(u, m) => ReadOutcome::Val(u, n + m),
                o => o,
            }
        },
        o => o.pass(),
    }
}

/// Fallback applied after reading client info: a zero query kind is filled
/// in from the Hello handshake, and the interface is forced to TCP.
pub open spec fn spec_ci_fallback(ci: QueryClientInfoM, hello: HelloRequestM) -> QueryClientInfoM {
    let c = if ci.query_kind == 0 {
        QueryClientInfoM {
            query_kind: INITIAL_QUERY,
            client_name: hello.client_name,
            client_version_major: hello.client_version_major,
            client_version_minor: hello.client_version_minor,
            client_version_patch: hello.client_version_patch,
            client_revision: hello.client_revision,
            ..ci
        }
    } else {
        ci
    };
    QueryClientInfoM { interface: INTERFACE_TCP, ..c }
}

/// Encoding of a query request as a conforming client writes it at the
/// handshake revision `hello_revision`: the client info block is present
/// exactly when that revision reaches its threshold, and the settings list
/// is empty.
pub open spec fn spec_query_request_enc(m: QueryRequestM, hello_revision: u64) -> Seq<u8> {
    spec_str_enc(m.query_id) + (if hello_revision >= DBMS_MIN_REVISION_WITH_CLIENT_INFO {
        spec_client_info_enc(m.client_info)
    } else {
        Seq::<u8>::empty()
    }) + spec_str_enc(Seq::<u8>::empty()) + spec_uvarint(m.stage as nat) + spec_uvarint(
        m.compression as nat,
    ) + spec_str_enc(m.query)
}

/// Reader for a query request, given the Hello handshake that preceded it.
#[verifier::opaque]
pub open spec fn spec_read_query_request(s: Seq<u8>, pos: int, hello: HelloRequestM) -> ReadOutcome<
    QueryRequestM,
> {
    match spec_read_str(s, pos) {
        ReadOutcome::Val(query_id, n1) => match (if hello.client_revision
            >= DBMS_MIN_REVISION_WITH_CLIENT_INFO {
            spec_read_client_info(s, pos + n1)
        } else {
            ReadOutcome::Val(spec_client_info_zero(), 0)
        }) {
            ReadOutcome::Val(ci0, n2) => {
                let ci = spec_ci_fallback(ci0, hello);
                match spec_read_settings(s, pos + n1 + n2) {
                    ReadOutcome::Val(u, n3) => match spec_read_uvarint(s, pos + n1 + n2 + n3) {
                        ReadOutcome::Val(stage, n4) => match spec_read_uvarint(
                            s,
                            pos + n1 + n2 + n3 + n4,
                        ) {
                            ReadOutcome::Val(compression, n5) => match spec_read_str(
                                s,
                                pos + n1 + n2 + n3 + n4 + n5,
                            ) {
                                ReadOutcome::Val(query, n6) => ReadOutcome::Val(
                                    QueryRequestM {
                                        query_id: query_id,
                                        client_info: ci,
                                        stage: stage,
                                        compression: compression,
                                        query: query,
                                    },
                                    n1 + n2 + n3 + n4 + n5 + n6,
                                ),
                                o => o.pass(),
                            },
                            o => o.pass(),
                        },
                        o => o.pass(),
                    },
                    o => o.pass(),
                }
            },
            o => o.pass(),
        },
        o => o.pass(),
    }
}

impl QueryRequest {
    /// Decode a query request starting at `pos`, against the remembered
    /// Hello handshake.
    pub fn read_from(buf: &Vec<u8>, pos: usize, hello_request: &HelloRequest) -> (r: Result<
        (QueryRequest, usize),
        Error,
    >)
        requires
            pos <= buf@.len(),
        ensures
            ({
                let sr = spec_read_query_request(buf@, pos as int, hello_request@);
                match sr {
                    ReadOutcome::Val(m, n) => r matches Ok(p) && p.0@ == m && pos <= p.1 && p.1
                        == pos + n && p.1 <= buf@.len(),
                    ReadOutcome::Short => r matches Err(e) && e is WouldBlock,
                    ReadOutcome::Bad(d) => r matches Err(e) && e == Error::Driver(d),
                }
            }),
    {
        proof {
            reveal(spec_read_query_request);
        }
        let (query_id, p1) = match read_string(buf, pos) {
            Ok(p) => p,
            Err(e) => {
                return Err(e);
            },
        };
        let mut cur = p1;
        let mut client_info = QueryClientInfo::empty();
        if hello_request.client_revision >= DBMS_MIN_REVISION_WITH_CLIENT_INFO {
            let (ci, q) = match QueryClientInfo::read_from(buf, cur) {
                Ok(p) => p,
                Err(e) => {
                    return Err(e);
                },
            };
            client_info = ci;
            cur = q;
        }
        if client_info.query_kind == 0 {
            client_info.query_kind = INITIAL_QUERY;
            client_info.client_name = clone_bytes(&hello_request.client_name);
            client_info.client_version_major = hello_request.client_version_major;
            client_info.client_version_minor = hello_request.client_version_minor;
            client_info.client_version_patch = hello_request.client_version_patch;
            client_info.client_revision = hello_request.client_revision;
        }
        client_info.interface = INTERFACE_TCP;
        let q2 = match skip_settings(buf, cur) {
            Ok(q) => q,
            Err(e) => {
                return Err(e);
            },
        };
        let (stage, q3) = match read_uvarint(buf, q2) {
            Ok(p) => p,
            Err(e) => {
                return Err(e);
            },
        };
        let (compression, q4) = match read_uvarint(buf, q3) {
            Ok(p) => p,
            Err(e) => {
                return Err(e);
            },
        };
        let (query, q5) = match read_string(buf, q4) {
            Ok(p) => p,
            Err(e) => {
                return Err(e);
            },
        };
        Ok((QueryRequest { query_id, client_info, stage, compression, query }, q5))
    }

    /// Append a query request as a conforming client writes one, against the
    /// handshake revision of `hello_request`.
    pub fn write_to(&self, enc: &mut Encoder, hello_request: &HelloRequest)
        requires
            self@.client_info.wf(),
        ensures
            final (enc)@ == old(enc)@ + spec_query_request_enc(
                self@,
                hello_request@.client_revision,
            ),
    {
        enc.string(&self.query_id);
        if hello_request.client_revision >= DBMS_MIN_REVISION_WITH_CLIENT_INFO {
            self.client_info.write_to(enc);
        }
        let empty: Vec<u8> = Vec::new();
        enc.string(&empty);
        enc.uvarint(self.stage);
        enc.uvarint(self.compression);
        enc.string(&self.query);
        assert(enc@ =~= old(enc)@ + spec_query_request_enc(self@, hello_request@.client_revision));
    }
}

/// Copy a byte vector.
pub fn clone_bytes(v: &Vec<u8>) -> (r: Vec<u8>)
    ensures
        r@ == v@,
{
    let mut out: Vec<u8> = Vec::new();
    let n = v.len();
    let mut i: usize = 0;
    while i < n
        invariant
            i <= n,
            n == v@.len(),
            out@ == v@.subrange(0, i as int),
        decreases n - i,
    {
        out.push(v[i]);
        i = i + 1;
        assert(out@ =~= v@.subrange(0, i as int));
    }
    assert(v@.subrange(0, n as int) =~= v@);
    out
}

/// Skip the settings list: read strings until an empty key.
fn skip_settings(buf: &Vec<u8>, pos: usize) -> (r: Result<usize, Error>)
    requires
        pos <= buf@.len(),
    ensures
        ({
            let sr = spec_read_settings(buf@, pos as int);
            match sr {
                ReadOutcome::Val(u, n) => r matches Ok(p) && pos <= p && p == pos + n && p
                    <= buf@.len(),
                ReadOutcome::Short => r matches Err(e) && e is WouldBlock,
                ReadOutcome::Bad(d) => r matches Err(e) && e == Error::Driver(d),
            }
        }),
{
    let mut cur = pos;
    loop
        invariant
            pos <= cur <= buf@.len(),
            spec_read_settings(buf@, pos as int) == match spec_read_settings(buf@, cur as int) {
                ReadOutcome::Val(u, m) => ReadOutcome::<()>::Val(u, (cur - pos) + m),
                o => o,
            },
        decreases buf@.len() - cur,
    {
        proof {
            crate::binary::lemma_read_str_progress(buf@, cur as int);
        }
        let (entry, np) = match read_string(buf, cur) {
            Ok(p) => p,
            Err(e) => {
                return Err(e);
            },
        };
        if entry.len() == 0 {
            return Ok(np);
        }
        cur = np;
    }
}

/// Round trip: reading the encoding of a well-formed query request after a
/// handshake that carries client info yields exactly that request.
#[verifier::spinoff_prover]
#[verifier::rlimit(60)]
pub proof fn lemma_read_query_request_enc(
    s: Seq<u8>,
    pos: int,
    m: QueryRequestM,
    hello: HelloRequestM,
)
    requires
        0 <= pos,
        m.wf(),
        hello.client_revision >= DBMS_MIN_REVISION_WITH_CLIENT_INFO,
        pos + spec_query_request_enc(m, hello.client_revision).len() <= s.len(),
        s.subrange(pos, pos + spec_query_request_enc(m, hello.client_revision).len() as int)
            == spec_query_request_enc(m, hello.client_revision),
    ensures
        spec_read_query_request(s, pos, hello) == ReadOutcome::<QueryRequestM>::Val(
            m,
            spec_query_request_enc(m, hello.client_revision).len() as int,
        ),
{
    reveal(spec_read_query_request);
    let whole = spec_query_request_enc(m, hello.client_revision);
    let e1 = spec_str_enc(m.query_id);
    let e2 = spec_client_info_enc(m.client_info);
    let e3 = spec_str_enc(Seq::<u8>::empty());
    let e4 = spec_uvarint(m.stage as nat);
    let e5 = spec_uvarint(m.compression as nat);
    let e6 = spec_str_enc(m.query);
    let o1 = e1.len() as int;
    let o2 = o1 + e2.len();
    let o3 = o2 + e3.len();
    let o4 = o3 + e4.len();
    let o5 = o4 + e5.len();
    let o6 = o5 + e6.len();
    assert(whole =~= e1 + e2 + e3 + e4 + e5 + e6);
    assert(whole.subrange(0, o1) =~= e1);
    lemma_subrange_sub(s, pos, 0, o1, whole);
    lemma_read_str_enc(s, pos, m.query_id);
    assert(whole.subrange(o1, o2) =~= e2);
    lemma_subrange_sub(s, pos, o1, e2.len() as int, whole);
    lemma_read_client_info_enc(s, pos + o1, m.client_info);
    assert(spec_ci_fallback(m.client_info, hello) == m.client_info);
    assert(whole.subrange(o2, o3) =~= e3);
    lemma_subrange_sub(s, pos, o2, e3.len() as int, whole);
    lemma_read_str_enc(s, pos + o2, Seq::<u8>::empty());
    assert(spec_read_settings(s, pos + o2) == ReadOutcome::<()>::Val((), e3.len() as int));
    assert(whole.subrange(o3, o4) =~= e4);
    lemma_subrange_sub(s, pos, o3, e4.len() as int, whole);
    lemma_read_uvarint_enc(s, pos + o3, m.stage);
    assert(whole.subrange(o4, o5) =~= e5);
    lemma_subrange_sub(s, pos, o4, e5.len() as int, whole);
    lemma_read_uvarint_enc(s, pos + o4, m.compression);
    assert(whole.subrange(o5, o6) =~= e6);
    lemma_subrange_sub(s, pos, o5, e6.len() as int, whole);
    lemma_read_str_enc(s, pos + o5, m.query);
}

} // verus!
