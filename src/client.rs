use vstd::prelude::*;

use crate::ber::{
    copy_range, int_content, lemma_half_range_values, lemma_int_content_len, push_int_content,
    push_tlv, read_tlv, read_tlv_at, tlv, SNMPMessageError, MAX_CONTENT_LEN,
};
use crate::obj_ident::ObjectIdentifier;
use crate::params::ParamsError;
use crate::pdu::{
    binds_bytes, binds_view, decode_pdu, pdu_bytes, pdu_tag, read_i32, read_i32_at, status_code, PDUError,
    BulkPDU, PDUType, PduFields, PduView, PDU,
};
use crate::auth::{
    auth_params, localized_key, password_key, sign_message, user_key, verify_message, KeyError,
    AUTH_PARAMS_LEN,
};
use crate::envelope::{
    auth_field, decode_decrypted_scoped, decode_decrypted_scoped_bytes, decode_v3,
    decode_v3_message, decode_v3_private, decode_v3_private_message, encode_scoped_pdu,
    encode_v3_message,
    encode_v3_private_message, scoped_pdu, str_tlv, v3_auth_offset_with, v3_message,
    v3_message_with,
    lemma_same_header, v3_fits, v3_fits_with, V3Header, FLAG_AUTH, FLAG_PRIV, FLAG_REPORTABLE,
};
use crate::privacy::{decrypt_scoped_pdu, decrypted, encrypt_scoped_pdu, encrypted, PrivacyError};
use crate::snmp::{AuthProtocol, SNMPClientV2, SNMPClientV3, SNMPVersion};
use crate::envelope::{global_header, usm_body, usm_lead, USM_SECURITY_MODEL, VERSION_V3};
use crate::usm::{expected_time, timely, EngineState, EngineView, SecurityError};
use crate::walk::{is_strict_descendant, oid_lt, walk_wf, Walk, WalkStep};
use crate::var_bind::{BindValue, BindView, VarBind, TAG_INTEGER, TAG_OCTET_STRING, TAG_SEQUENCE};
use vstd::utf8::encode_utf8;

verus! {

/// The largest message this client accepts, announced in v3 headers.
pub const MAX_MESSAGE_SIZE: i32 = 65507;

/// The version number that a v2c message carries.
pub const VERSION_V2C: i32 = 1;

/// Why an exchange with an agent failed.
#[derive(Debug, PartialEq, Eq)]
pub enum ClientError {
    /// A message could not be built or read.
    Message(SNMPMessageError),
    /// The configuration does not fit the client.
    Config(ParamsError),
    /// The answer is not a Response PDU.
    NotAResponse,
    /// The answer carries another request id than the request.
    RequestIdMismatch { expected: i32, received: i32 },
    /// The agent reported an error for the binding at `index` (1-based; 0
    /// when the error concerns no single binding).
    ProtocolError { status: PDUError, index: u32 },
    /// The agent reported an error at a position past the bindings.
    BadErrorIndex(u32),
    /// The agent reported an error status that has no meaning.
    UnknownErrorStatus(i32),
    /// The answer is not a v2c message.
    WrongVersion(i32),
    /// A walk that has ended was asked for another request.
    WalkFinished,
    /// A get-next answer for a walk holds this many bindings, not one.
    NotOneBinding(usize),
    /// A get-bulk answer holds more bindings than the request allows.
    TooManyBindings(usize),
    /// No key could be derived from the configured password.
    Key(KeyError),
    /// The security model refused the answer.
    Security(SecurityError),
    /// The scoped PDU could not be encrypted.
    Privacy(PrivacyError),
}

/// The bindings that a get-style request carries: each name with an
/// unspecified value, in order.
pub open spec fn request_binds_view(oids: Seq<ObjectIdentifier>) -> Seq<(Seq<u32>, BindView)> {
    oids.map_values(|o: ObjectIdentifier| (o@, BindView::Unspecified))
}

pub fn request_binds(oids: &Vec<ObjectIdentifier>) -> (r: Vec<VarBind>)
    ensures
        binds_view(r@) == request_binds_view(oids@),
{
    let mut r: Vec<VarBind> = Vec::new();
    let mut i: usize = 0;
    while i < oids.len()
        invariant
            i <= oids@.len(),
            binds_view(r@) == request_binds_view(oids@.take(i as int)),
        decreases oids@.len() - i,
    {
        let ghost before = r@;
        r.push(VarBind::new(oids[i].clone(), BindValue::Unspecified));
        assert(binds_view(r@) =~= binds_view(before).push((oids@[i as int]@, BindView::Unspecified)));
        assert(request_binds_view(oids@.take(i + 1)) =~= request_binds_view(oids@.take(i as int)).push(
            (oids@[i as int]@, BindView::Unspecified),
        ));
        i = i + 1;
    }
    assert(oids@.take(oids@.len() as int) =~= oids@);
    r
}

/// The outcome that a response PDU stands for, given the request id.
pub open spec fn response_outcome(expected: int, kind: PDUType, p: PduView) -> Result<
    Seq<(Seq<u32>, BindView)>,
    ClientError,
> {
    if kind != PDUType::Response {
        Err(ClientError::NotAResponse)
    } else if p.request_id != expected {
        Err(
            ClientError::RequestIdMismatch {
                expected: expected as i32,
                received: p.request_id as i32,
            },
        )
    } else if p.error_status == 0 {
        Ok(p.binds)
    } else if !(0 < p.error_status <= 18) {
        Err(ClientError::UnknownErrorStatus(p.error_status as i32))
    } else if p.error_index > p.binds.len() {
        Err(ClientError::BadErrorIndex(p.error_index as u32))
    } else {
        Err(
            ClientError::ProtocolError {
                status: choose|s: PDUError| status_code(s) == p.error_status,
                index: p.error_index as u32,
            },
        )
    }
}

/// Checks a decoded answer against the request: a Response with the same
/// id and no error yields its bindings; anything else is an error.
pub fn check_response(expected: i32, kind: PDUType, p: PDU) -> (r: Result<Vec<VarBind>, ClientError>)
    ensures
        match response_outcome(expected as int, kind, p@) {
            Ok(bs) => r matches Ok(v) && binds_view(v@) == bs,
            Err(ClientError::ProtocolError { status, index }) => r matches Err(
                ClientError::ProtocolError { status: s, index: i },
            ) && status_code(s) == p@.error_status && i == index,
            Err(ClientError::NotAResponse) => r matches Err(ClientError::NotAResponse),
            Err(ClientError::RequestIdMismatch { expected: e, received: g }) => r matches Err(
                ClientError::RequestIdMismatch { expected: e2, received: g2 },
            ) && e2 == e && g2 == g,
            Err(ClientError::UnknownErrorStatus(c)) => r matches Err(
                ClientError::UnknownErrorStatus(c2),
            ) && c2 == c,
            Err(ClientError::BadErrorIndex(c)) => r matches Err(ClientError::BadErrorIndex(c2))
                && c2 == c,
            Err(_) => false,
        },
{
    if kind != PDUType::Response {
        return Err(ClientError::NotAResponse);
    }
    let id = p.request_id();
    if id != expected {
        return Err(ClientError::RequestIdMismatch { expected, received: id });
    }
    let status = p.error_status();
    if status == 0 {
        return Ok(p.into_var_bindings());
    }
    let index = p.error_index();
    match PDUError::from_code(status) {
        None => Err(ClientError::UnknownErrorStatus(status)),
        Some(s) => {
            if index as usize > p.var_bindings().len() {
                Err(ClientError::BadErrorIndex(index))
            } else {
                Err(ClientError::ProtocolError { status: s, index })
            }
        },
    }
}

/// A v2c message: SEQUENCE of version 1, the community, and the PDU.
pub open spec fn v2c_message(community: Seq<u8>, pdu: Seq<u8>) -> Option<Seq<u8>> {
    let body = tlv(TAG_INTEGER, int_content(VERSION_V2C as int)) + tlv(TAG_OCTET_STRING, community)
        + pdu;
    if community.len() <= MAX_CONTENT_LEN && body.len() <= MAX_CONTENT_LEN {
        Some(tlv(TAG_SEQUENCE, body))
    } else {
        None
    }
}

/// The version, community and PDU of a message that fills `b`.
pub open spec fn decode_message(b: Seq<u8>) -> Option<(int, Seq<u8>, PduFields)> {
    match read_tlv(b) {
        Some((tag, body, n)) => if tag != TAG_SEQUENCE || n != b.len() {
            None
        } else {
            match read_i32(body) {
                Some((v, n1)) => match read_tlv(body.skip(n1 as int)) {
                    Some((t, c, n2)) => if t != TAG_OCTET_STRING {
                        None
                    } else {
                        match decode_pdu(body.skip((n1 + n2) as int)) {
                            Some(f) => Some((v, c, f)),
                            None => None,
                        }
                    },
                    None => None,
                },
                None => None,
            }
        },
        None => None,
    }
}

/// Wraps an encoded PDU in a v2c message.
pub fn encode_v2c_message(community: &[u8], pdu: &[u8]) -> (r: Result<Vec<u8>, SNMPMessageError>)
    ensures
        match v2c_message(community@, pdu@) {
            Some(m) => r matches Ok(b) && b@ == m,
            None => r is Err,
        },
{
    if community.len() > MAX_CONTENT_LEN {
        return Err(SNMPMessageError::EncodeError("community too long".to_string()));
    }
    let mut body: Vec<u8> = Vec::new();
    let mut v: Vec<u8> = Vec::new();
    push_int_content(&mut v, VERSION_V2C as i128);
    proof {
        lemma_half_range_values();
        lemma_int_content_len(VERSION_V2C as int, 9);
        assert(v@ =~= int_content(VERSION_V2C as int));
    }
    push_tlv(&mut body, TAG_INTEGER, v.as_slice());
    push_tlv(&mut body, TAG_OCTET_STRING, community);
    let ghost before = body@;
    let mut i: usize = 0;
    while i < pdu.len()
        invariant
            i <= pdu@.len(),
            body@ == before + pdu@.take(i as int),
        decreases pdu@.len() - i,
    {
        body.push(pdu[i]);
        assert(pdu@.take(i + 1) =~= pdu@.take(i as int).push(pdu@[i as int]));
        i = i + 1;
    }
    assert(pdu@.take(pdu@.len() as int) =~= pdu@);
    if body.len() > MAX_CONTENT_LEN {
        return Err(SNMPMessageError::EncodeError("message too long".to_string()));
    }
    let mut out: Vec<u8> = Vec::new();
    push_tlv(&mut out, TAG_SEQUENCE, body.as_slice());
    assert(out@ =~= v2c_message(community@, pdu@)->Some_0);
    Ok(out)
}

/// Reads a message that fills `b`: its version, community, PDU kind and PDU.
#[verifier::spinoff_prover]
#[verifier::rlimit(100)]
pub fn decode_message_bytes(b: &[u8]) -> (r: Result<(i32, Vec<u8>, PDUType, PDU), SNMPMessageError>)
    ensures
        match decode_message(b@) {
            Some((v, c, f)) => if f.b >= 0 && exists|k: PDUType| pdu_tag(k) == f.tag {
                r matches Ok((v2, c2, k, p)) && v2 == v && c2@ == c && pdu_tag(k) == f.tag && p@
                    == (PduView { request_id: f.id, error_status: f.a, error_index: f.b, binds: f.binds })
            } else {
                r is Err
            },
            None => r is Err,
        },
{
    let bad = "malformed message";
    assert(b@.skip(0) =~= b@);
    let (tag, start, len) = match read_tlv_at(b, 0) {
        Some(x) => x,
        None => {
            return Err(SNMPMessageError::DecodeError(bad.to_string()));
        },
    };
    if tag != TAG_SEQUENCE || start + len != b.len() {
        return Err(SNMPMessageError::DecodeError(bad.to_string()));
    }
    let body = copy_range(b, start, len);
    let bs = body.as_slice();
    assert(bs@.skip(0) =~= bs@);
    let (version, n1) = match read_i32_at(bs, 0) {
        Some(x) => x,
        None => {
            return Err(SNMPMessageError::DecodeError(bad.to_string()));
        },
    };
    let (t, cs, cl) = match read_tlv_at(bs, n1) {
        Some(x) => x,
        None => {
            return Err(SNMPMessageError::DecodeError(bad.to_string()));
        },
    };
    if t != TAG_OCTET_STRING {
        return Err(SNMPMessageError::DecodeError(bad.to_string()));
    }
    let total = bs.len();
    assert(cs + cl <= total);
    let community = copy_range(bs, cs, cl);
    let rest_start = cs + cl;
    let rest = copy_range(bs, rest_start, total - rest_start);
    assert(rest@ =~= bs@.skip(rest_start as int));
    let (kind, p) = PDU::decode(rest.as_slice())?;
    Ok((version, community, kind, p))
}

/// The v2c message for a request of kind `kind` with the given id.
pub open spec fn v2c_request(community: Seq<u8>, kind: PDUType, id: int, binds: Seq<(Seq<u32>, BindView)>) -> Option<Seq<u8>> {
    match pdu_bytes(pdu_tag(kind), id, 0, 0, binds) {
        Some(p) => v2c_message(community, p),
        None => None,
    }
}

/// The bindings that a good answer to request `expected` holds: a
/// well-formed v2c message with a Response PDU of that id and no error.
pub open spec fn v2c_response_binds(expected: int, b: Seq<u8>) -> Option<Seq<(Seq<u32>, BindView)>> {
    match decode_message(b) {
        Some((v, c, f)) => if v == VERSION_V2C && f.tag == pdu_tag(PDUType::Response) && f.id
            == expected && f.a == 0 && f.b >= 0 {
            Some(f.binds)
        } else {
            None
        },
        None => None,
    }
}

/// The most bindings a get-bulk answer may hold for `n` names: each
/// non-repeater once, every other name up to `max_repetitions` times. Both
/// parameters count as 0 when negative; non-repeaters count as `n` at most.
pub open spec fn bulk_limit(n: int, non_repeaters: int, max_repetitions: int) -> int {
    let nr = if non_repeaters < 0 {
        0
    } else if non_repeaters > n {
        n
    } else {
        non_repeaters
    };
    let m = if max_repetitions < 0 {
        0
    } else {
        max_repetitions
    };
    nr + m * (n - nr)
}

/// Checks that a get-bulk answer for `n` names holds no more bindings than
/// the request allows.
pub fn check_bulk_answer(n: usize, non_repeaters: i32, max_repetitions: i32, answer: Vec<VarBind>) -> (r:
    Result<Vec<VarBind>, ClientError>)
    ensures
        answer@.len() <= bulk_limit(n as int, non_repeaters as int, max_repetitions as int)
            ==> (r matches Ok(v) && v@ == answer@),
        answer@.len() > bulk_limit(n as int, non_repeaters as int, max_repetitions as int)
            ==> (r matches Err(ClientError::TooManyBindings(k)) && k == answer@.len()),
{
    let nr: u128 = if non_repeaters < 0 {
        0
    } else if non_repeaters as u128 > n as u128 {
        n as u128
    } else {
        non_repeaters as u128
    };
    let m: u128 = if max_repetitions < 0 {
        0
    } else {
        max_repetitions as u128
    };
    let rest: u128 = n as u128 - nr;
    assert(m * rest <= 0x8000_0000 * 0x1_0000_0000_0000_0000) by (nonlinear_arith)
        requires
            m <= 0x8000_0000,
            rest <= 0x1_0000_0000_0000_0000,
    ;
    let limit: u128 = nr + m * rest;
    if answer.len() as u128 > limit {
        return Err(ClientError::TooManyBindings(answer.len()));
    }
    Ok(answer)
}

impl<'a> SNMPClientV2<'a> {
    /// The message for a request of kind `kind` carrying `binds`; the
    /// caller sends it and keeps the id to check the answer.
    pub fn request(&self, kind: PDUType, request_id: i32, binds: Vec<VarBind>) -> (r: Result<Vec<u8>, ClientError>)
        ensures
            self.params@.version == SNMPVersion::V2c ==> match v2c_request(encode_utf8(self.params@.community->Some_0), kind, request_id as int, binds_view(binds@)) {
                Some(m) => r matches Ok(b) && b@ == m,
                None => r is Err,
            },
            self.params@.version == SNMPVersion::V3 ==> r matches Err(ClientError::Config(_)),
    {
        let community = match self.params.get_community() {
            Ok(c) => c,
            Err(e) => {
                return Err(ClientError::Config(e));
            },
        };
        let cb = community.as_str().as_bytes();
        let pdu = PDU::with_request_id(request_id, binds);
        let pb = match pdu.encode(kind) {
            Ok(b) => b,
            Err(e) => {
                return Err(ClientError::Message(e));
            },
        };
        match encode_v2c_message(cb, pb.as_slice()) {
            Ok(m) => Ok(m),
            Err(e) => Err(ClientError::Message(e)),
        }
    }

    /// A get request for `oids`, each with an unspecified value.
    pub fn get_request(&self, request_id: i32, oids: &Vec<ObjectIdentifier>) -> (r: Result<Vec<u8>, ClientError>)
        ensures
            self.params@.version == SNMPVersion::V2c ==> match v2c_request(encode_utf8(self.params@.community->Some_0), PDUType::GetRequest, request_id as int, request_binds_view(oids@)) {
                Some(m) => r matches Ok(b) && b@ == m,
                None => r is Err,
            },
    {
        self.request(PDUType::GetRequest, request_id, request_binds(oids))
    }

    /// A get-next request for `oids`, each with an unspecified value.
    pub fn get_next_request(&self, request_id: i32, oids: &Vec<ObjectIdentifier>) -> (r: Result<Vec<u8>, ClientError>)
        ensures
            self.params@.version == SNMPVersion::V2c ==> match v2c_request(encode_utf8(self.params@.community->Some_0), PDUType::GetNextRequest, request_id as int, request_binds_view(oids@)) {
                Some(m) => r matches Ok(b) && b@ == m,
                None => r is Err,
            },
    {
        self.request(PDUType::GetNextRequest, request_id, request_binds(oids))
    }

    /// A get-bulk request for `oids`: the first `non_repeaters` are asked
    /// once, the others up to `max_repetitions` times.
    pub fn get_bulk_request(
        &self,
        request_id: i32,
        non_repeaters: i32,
        max_repetitions: i32,
        oids: &Vec<ObjectIdentifier>,
    ) -> (r: Result<Vec<u8>, ClientError>)
        ensures
            self.params@.version == SNMPVersion::V2c ==> match pdu_bytes(
                pdu_tag(PDUType::GetBulkRequest),
                request_id as int,
                non_repeaters as int,
                max_repetitions as int,
                request_binds_view(oids@),
            ) {
                Some(p) => match v2c_message(encode_utf8(self.params@.community->Some_0), p) {
                    Some(m) => r matches Ok(b) && b@ == m,
                    None => r is Err,
                },
                None => r is Err,
            },
            self.params@.version == SNMPVersion::V3 ==> r matches Err(ClientError::Config(_)),
    {
        let community = match self.params.get_community() {
            Ok(c) => c,
            Err(e) => {
                return Err(ClientError::Config(e));
            },
        };
        let pdu = BulkPDU::with_params(request_id, non_repeaters, max_repetitions, request_binds(oids));
        let pb = match pdu.encode() {
            Ok(b) => b,
            Err(e) => {
                return Err(ClientError::Message(e));
            },
        };
        match encode_v2c_message(community.as_str().as_bytes(), pb.as_slice()) {
            Ok(m) => Ok(m),
            Err(e) => Err(ClientError::Message(e)),
        }
    }

    /// Reads the answer to a get-bulk request for `n` names: the bindings
    /// of a good answer that holds no more than the request allows.
    pub fn handle_bulk_response(
        &self,
        request_id: i32,
        n: usize,
        non_repeaters: i32,
        max_repetitions: i32,
        b: &[u8],
    ) -> (r: Result<Vec<VarBind>, ClientError>)
        ensures
            match v2c_response_binds(request_id as int, b@) {
                Some(bs) => if bs.len() <= bulk_limit(
                    n as int,
                    non_repeaters as int,
                    max_repetitions as int,
                ) {
                    r matches Ok(x) && binds_view(x@) == bs
                } else {
                    r matches Err(ClientError::TooManyBindings(_))
                },
                None => r is Err,
            },
    {
        let binds = self.handle_response(request_id, b)?;
        check_bulk_answer(n, non_repeaters, max_repetitions, binds)
    }

    /// The get-next request for the next step of a walk: one binding, the
    /// walk's cursor. A finished walk sends nothing more.
    pub fn walk_request(&self, request_id: i32, walk: &Walk) -> (r: Result<Vec<u8>, ClientError>)
        ensures
            walk@.finished ==> r matches Err(ClientError::WalkFinished),
            !walk@.finished && self.params@.version == SNMPVersion::V2c ==> match v2c_request(
                encode_utf8(self.params@.community->Some_0),
                PDUType::GetNextRequest,
                request_id as int,
                seq![(walk@.cursor, BindView::Unspecified)],
            ) {
                Some(m) => r matches Ok(b) && b@ == m,
                None => r is Err,
            },
    {
        if walk.is_finished() {
            return Err(ClientError::WalkFinished);
        }
        let oids = vec![walk.cursor().clone()];
        assert(request_binds_view(oids@) =~= seq![(walk@.cursor, BindView::Unspecified)]);
        self.get_next_request(request_id, &oids)
    }

    /// Reads the answer to a walk's get-next request and takes its single
    /// binding into the walk.
    pub fn handle_walk_response(&self, walk: &mut Walk, request_id: i32, b: &[u8]) -> (r: Result<
        WalkStep,
        ClientError,
    >)
        requires
            walk_wf(old(walk)@),
            !old(walk)@.finished,
        ensures
            walk_wf(final(walk)@),
            final(walk)@.root == old(walk)@.root,
            match v2c_response_binds(request_id as int, b@) {
                Some(bs) => if bs.len() == 1 {
                    let reply = bs[0];
                    &&& r is Ok
                    &&& (r->Ok_0 == WalkStep::Continue <==> (reply.1 != BindView::EndOfMibView
                        && oid_lt(old(walk)@.cursor, reply.0) && is_strict_descendant(
                        old(walk)@.root,
                        reply.0,
                    )))
                    &&& (r->Ok_0 == WalkStep::NonIncreasing <==> (reply.1
                        != BindView::EndOfMibView && !oid_lt(old(walk)@.cursor, reply.0)))
                    &&& (r->Ok_0 == WalkStep::Continue ==> final(walk)@.results == old(
                        walk,
                    )@.results.push(reply) && !final(walk)@.finished)
                    &&& (r->Ok_0 != WalkStep::Continue ==> final(walk)@.results == old(
                        walk,
                    )@.results && final(walk)@.finished)
                } else {
                    r matches Err(ClientError::NotOneBinding(_)) && final(walk)@ == old(walk)@
                },
                None => r is Err && final(walk)@ == old(walk)@,
            },
    {
        let mut binds = match self.handle_response(request_id, b) {
            Ok(v) => v,
            Err(e) => {
                return Err(e);
            },
        };
        if binds.len() != 1 {
            return Err(ClientError::NotOneBinding(binds.len()));
        }
        let reply = binds.pop().unwrap();
        assert(reply@ == v2c_response_binds(request_id as int, b@)->Some_0[0]);
        Ok(walk.on_reply(reply))
    }

    /// A set request carrying the given bindings.
    pub fn set_request(&self, request_id: i32, binds: Vec<VarBind>) -> (r: Result<Vec<u8>, ClientError>)
        ensures
            self.params@.version == SNMPVersion::V2c ==> match v2c_request(encode_utf8(self.params@.community->Some_0), PDUType::SetRequest, request_id as int, binds_view(binds@)) {
                Some(m) => r matches Ok(b) && b@ == m,
                None => r is Err,
            },
    {
        self.request(PDUType::SetRequest, request_id, binds)
    }

    /// Reads the agent's answer to the request with id `request_id`: the
    /// bindings of a well-formed v2c Response with that id and no error;
    /// otherwise an error, as `check_response` gives it for a well-formed
    /// message.
    pub fn handle_response(&self, request_id: i32, b: &[u8]) -> (r: Result<Vec<VarBind>, ClientError>)
        ensures
            match v2c_response_binds(request_id as int, b@) {
                Some(bs) => r matches Ok(x) && binds_view(x@) == bs,
                None => r is Err,
            },
    {
        let (version, _community, kind, p) = match decode_message_bytes(b) {
            Ok(x) => x,
            Err(e) => {
                return Err(ClientError::Message(e));
            },
        };
        if version != VERSION_V2C {
            return Err(ClientError::WrongVersion(version));
        }
        check_response(request_id, kind, p)
    }
}


/// A v3 message after signing: the message built with zeroed
/// authentication parameters, with those parameters filled in.
pub open spec fn signed_v3_message(p: AuthProtocol, key: Seq<u8>, h: V3Header, pdu: Seq<u8>) -> Seq<
    u8,
> {
    signed_v3_message_with(p, key, h, scoped_pdu(h, pdu))
}

/// A signed v3 message whose last element is `scoped`.
pub open spec fn signed_v3_message_with(
    p: AuthProtocol,
    key: Seq<u8>,
    h: V3Header,
    scoped: Seq<u8>,
) -> Seq<u8> {
    let z = v3_message_with(h, auth_field(h), scoped);
    let pos = v3_auth_offset_with(h, auth_field(h), scoped);
    z.take(pos) + auth_params(p, key, z, pos) + z.skip(pos + AUTH_PARAMS_LEN)
}

/// The header of a request from a v3 client: its message id, the
/// engine's cached fields, the user, an empty context name.
pub open spec fn v3_request_header(
    h: V3Header,
    msg_id: i32,
    flags: u8,
    engine_id: Seq<u8>,
    boots: u32,
    time: u32,
    user: Seq<u8>,
    privacy: Seq<u8>,
) -> bool {
    &&& h.msg_id == msg_id
    &&& h.max_size == MAX_MESSAGE_SIZE
    &&& h.flags == flags
    &&& h.engine_id@ == engine_id
    &&& h.engine_boots == boots
    &&& h.engine_time == time
    &&& h.user_name@ == user
    &&& h.privacy_params@ == privacy
    &&& h.context_engine_id@ == engine_id
    &&& h.context_name@ == Seq::<u8>::empty()
}

fn copy_bytes(s: &[u8]) -> (r: Vec<u8>)
    ensures
        r@ == s@,
{
    let total = s.len();
    copy_range(s, 0, total)
}

impl<'a> SNMPClientV3<'a> {
    /// The unauthenticated get that asks an agent for its engine id and
    /// clock: no engine, no user, no bindings, reportable.
    pub fn discovery_request(&self, msg_id: i32, request_id: i32) -> (r: Result<Vec<u8>, ClientError>)
        ensures
            r is Ok,
            r matches Ok(m) ==> exists|h: V3Header, pdu: Seq<u8>|
                pdu_bytes(pdu_tag(PDUType::GetRequest), request_id as int, 0, 0, seq![]) == Some(pdu)
                    && v3_request_header(h, msg_id, FLAG_REPORTABLE, seq![], 0, 0, seq![], seq![])
                    && m@ == v3_message(h, auth_field(h), pdu),
    {
        let none: Vec<VarBind> = Vec::new();
        assert(binds_view(none@) =~= seq![]);
        proof {
            lemma_half_range_values();
            lemma_int_content_len(request_id as int, 9);
            lemma_int_content_len(0, 9);
            assert(binds_bytes(seq![]) == Some(Seq::<u8>::empty()));
        }
        let pdu = PDU::with_request_id(request_id, none);
        let pb = match pdu.encode(PDUType::GetRequest) {
            Ok(b) => b,
            Err(e) => {
                return Err(ClientError::Message(e));
            },
        };
        let h = V3Header {
            msg_id,
            max_size: MAX_MESSAGE_SIZE,
            flags: FLAG_REPORTABLE,
            engine_id: Vec::new(),
            engine_boots: 0,
            engine_time: 0,
            user_name: Vec::new(),
            privacy_params: Vec::new(),
            context_engine_id: Vec::new(),
            context_name: Vec::new(),
        };
        proof {
            assert(0x04u8 & 0x01u8 == 0u8) by (bit_vector);
            lemma_int_content_len(msg_id as int, 9);
            lemma_int_content_len(MAX_MESSAGE_SIZE as int, 9);
            lemma_int_content_len(USM_SECURITY_MODEL as int, 9);
            lemma_int_content_len(VERSION_V3 as int, 9);
            assert(usm_lead(h).len() <= 30);
            assert(usm_body(h, auth_field(h)).len() <= 40);
            assert(global_header(h).len() <= 60);
        }
        match encode_v3_message(&h, pb.as_slice()) {
            Ok((m, _)) => Ok(m),
            Err(e) => Err(ClientError::Message(e)),
        }
    }

    /// An authenticated request of kind `kind` to the engine that was
    /// discovered: the message is built with zeroed authentication
    /// parameters and then signed with the user's key for that engine.
    pub fn request(
        &self,
        engine: &EngineState,
        msg_id: i32,
        kind: PDUType,
        request_id: i32,
        binds: Vec<VarBind>,
    ) -> (r: Result<Vec<u8>, ClientError>)
        ensures
            self.params@.version == SNMPVersion::V2c ==> r matches Err(ClientError::Config(_)),
            self.params@.version == SNMPVersion::V3 && encode_utf8(
                self.params@.auth_password->Some_0,
            ).len() == 0 ==> r matches Err(ClientError::Key(_)),
            r is Ok <==> (self.params@.version == SNMPVersion::V3 && encode_utf8(
                self.params@.auth_password->Some_0,
            ).len() > 0 && pdu_bytes(pdu_tag(kind), request_id as int, 0, 0, binds_view(binds@))
                is Some && v3_request_fits(
                msg_id,
                FLAG_AUTH | FLAG_REPORTABLE,
                engine@.engine_id,
                engine@.boots,
                engine@.time,
                encode_utf8(self.params@.username),
                seq![],
                pdu_bytes(pdu_tag(kind), request_id as int, 0, 0, binds_view(binds@))->Some_0,
            )),
            r matches Ok(m) ==> exists|h: V3Header, pdu: Seq<u8>|
                pdu_bytes(pdu_tag(kind), request_id as int, 0, 0, binds_view(binds@)) == Some(pdu)
                    && v3_request_header(
                    h,
                    msg_id,
                    FLAG_AUTH | FLAG_REPORTABLE,
                    engine@.engine_id,
                    engine@.boots,
                    engine@.time,
                    encode_utf8(self.params@.username),
                    seq![],
                ) && m@ == signed_v3_message(
                    self.params@.auth_protocol->Some_0,
                    localized_key(
                        self.params@.auth_protocol->Some_0,
                        password_key(
                            self.params@.auth_protocol->Some_0,
                            encode_utf8(self.params@.auth_password->Some_0),
                        ),
                        engine@.engine_id,
                    ),
                    h,
                    pdu,
                ),
    {
        let proto = match self.params.get_auth_protocol() {
            Ok(p) => p,
            Err(e) => {
                return Err(ClientError::Config(e));
            },
        };
        let password = match self.params.get_auth_password() {
            Ok(p) => p,
            Err(e) => {
                return Err(ClientError::Config(e));
            },
        };
        let key = match user_key(proto, password.as_str().as_bytes(), engine.engine_id().as_slice()) {
            Ok(k) => k,
            Err(e) => {
                return Err(ClientError::Key(e));
            },
        };
        let pdu = PDU::with_request_id(request_id, binds);
        let pb = match pdu.encode(kind) {
            Ok(b) => b,
            Err(e) => {
                return Err(ClientError::Message(e));
            },
        };
        let engine_id = copy_bytes(engine.engine_id().as_slice());
        let context_engine_id = copy_bytes(engine.engine_id().as_slice());
        let user = copy_bytes(self.params.get_username().as_bytes());
        let flags = FLAG_AUTH | FLAG_REPORTABLE;
        let h = V3Header {
            msg_id,
            max_size: MAX_MESSAGE_SIZE,
            flags,
            engine_id,
            engine_boots: engine.boots(),
            engine_time: engine.time(),
            user_name: user,
            privacy_params: Vec::new(),
            context_engine_id,
            context_name: Vec::new(),
        };
        assert(flags & 0x01u8 != 0) by (bit_vector)
            requires
                flags == 0x01u8 | 0x04u8,
        ;
        proof {
            assert(h.context_name@ =~= Seq::<u8>::empty());
            assert(h.privacy_params@ =~= seq![]);
            lemma_request_fits(
                h,
                msg_id,
                FLAG_AUTH | FLAG_REPORTABLE,
                engine@.engine_id,
                engine@.boots,
                engine@.time,
                encode_utf8(self.params@.username),
                seq![],
                pb@,
            );
        }
        let (mut m, pos) = match encode_v3_message(&h, pb.as_slice()) {
            Ok(x) => x,
            Err(e) => {
                return Err(ClientError::Message(e));
            },
        };
        sign_message(proto, key.as_slice(), &mut m, pos);
        proof {
            assert(v3_request_header(
                h,
                msg_id,
                FLAG_AUTH | FLAG_REPORTABLE,
                engine@.engine_id,
                engine@.boots,
                engine@.time,
                encode_utf8(self.params@.username),
                seq![],
            ));
            assert(h.privacy_params@ =~= seq![]);
            assert(m@ == signed_v3_message(proto, key@, h, pb@));
            assert(pdu_bytes(pdu_tag(kind), request_id as int, 0, 0, binds_view(binds@)) == Some(pb@));
            assert(proto == self.params@.auth_protocol->Some_0);
            assert(password@ == self.params@.auth_password->Some_0);
            assert(key@ == localized_key(
                self.params@.auth_protocol->Some_0,
                password_key(
                    self.params@.auth_protocol->Some_0,
                    encode_utf8(self.params@.auth_password->Some_0),
                ),
                engine@.engine_id,
            ));
        }
        Ok(m)
    }
}


/// A clear v3 message that fills `b` and whose PDU has a known kind.
pub open spec fn v3_readable(b: Seq<u8>) -> bool {
    match decode_v3(b) {
        Some(f) => f.pdu.b >= 0 && exists|k: PDUType| pdu_tag(k) == f.pdu.tag,
        None => false,
    }
}

/// A message for a request from a v3 client fits the length fields, with
/// any header that has those fields.
pub open spec fn v3_request_fits(
    msg_id: i32,
    flags: u8,
    engine_id: Seq<u8>,
    boots: u32,
    time: u32,
    user: Seq<u8>,
    privacy: Seq<u8>,
    pdu: Seq<u8>,
) -> bool {
    forall|h: V3Header|
        #[trigger] v3_request_header(h, msg_id, flags, engine_id, boots, time, user, privacy)
            ==> v3_fits(h, auth_field(h), pdu)
}

proof fn lemma_request_fits(
    h: V3Header,
    msg_id: i32,
    flags: u8,
    engine_id: Seq<u8>,
    boots: u32,
    time: u32,
    user: Seq<u8>,
    privacy: Seq<u8>,
    pdu: Seq<u8>,
)
    requires
        v3_request_header(h, msg_id, flags, engine_id, boots, time, user, privacy),
    ensures
        v3_request_fits(msg_id, flags, engine_id, boots, time, user, privacy, pdu) == v3_fits(
            h,
            auth_field(h),
            pdu,
        ),
{
    assert forall|h2: V3Header|
        #[trigger] v3_request_header(
            h2,
            msg_id,
            flags,
            engine_id,
            boots,
            time,
            user,
            privacy,
        ) implies v3_fits(h2, auth_field(h2), pdu) == v3_fits(h, auth_field(h), pdu) by {
        lemma_same_header(h, h2, pdu, seq![]);
    }
}

/// A clear answer that a v3 client accepts: it decodes, is authenticated
/// by the cached engine with the user's key, is timely, and is a Response
/// to `request_id` with no error.
pub open spec fn v3_answer_ok(
    p: crate::params::ParamsView,
    engine: EngineView,
    elapsed: u32,
    request_id: i32,
    b: Seq<u8>,
) -> bool {
    match decode_v3(b) {
        Some(f) => {
            &&& f.pdu.b >= 0
            &&& f.flags & FLAG_AUTH != 0
            &&& f.usm.engine_id == engine.engine_id
            &&& f.usm.auth.len() == AUTH_PARAMS_LEN
            &&& p.version == SNMPVersion::V3
            &&& encode_utf8(p.auth_password->Some_0).len() > 0
            &&& f.auth_pos + AUTH_PARAMS_LEN <= b.len()
            &&& b.subrange(f.auth_pos, f.auth_pos + AUTH_PARAMS_LEN) == auth_params(
                p.auth_protocol->Some_0,
                configured_key(p, f.usm.engine_id),
                b,
                f.auth_pos,
            )
            &&& timely(
                engine.boots,
                expected_time(engine.time, elapsed),
                f.usm.boots as u32,
                f.usm.time as u32,
            )
            &&& f.pdu.tag == pdu_tag(PDUType::Response)
            &&& f.pdu.id == request_id
            &&& f.pdu.a == 0
        },
        None => false,
    }
}

/// An encrypted answer that a v3 client accepts: as a clear one, and its
/// scoped PDU decrypts, with the user's privacy key, to a Response to
/// `request_id` with no error.
pub open spec fn v3_private_answer_ok(
    p: crate::params::ParamsView,
    engine: EngineView,
    elapsed: u32,
    request_id: i32,
    b: Seq<u8>,
) -> bool {
    match decode_v3_private(b) {
        Some(f) => {
            &&& f.flags & FLAG_AUTH != 0
            &&& f.flags & FLAG_PRIV != 0
            &&& f.usm.engine_id == engine.engine_id
            &&& f.usm.auth.len() == AUTH_PARAMS_LEN
            &&& p.version == SNMPVersion::V3
            &&& encode_utf8(p.auth_password->Some_0).len() > 0
            &&& f.auth_pos + AUTH_PARAMS_LEN <= b.len()
            &&& b.subrange(f.auth_pos, f.auth_pos + AUTH_PARAMS_LEN) == auth_params(
                p.auth_protocol->Some_0,
                configured_key(p, f.usm.engine_id),
                b,
                f.auth_pos,
            )
            &&& timely(
                engine.boots,
                expected_time(engine.time, elapsed),
                f.usm.boots as u32,
                f.usm.time as u32,
            )
            &&& encode_utf8(p.privacy_password->Some_0).len() > 0
            &&& f.usm.privacy.len() == crate::privacy::SALT_LEN
            &&& (p.privacy_protocol->Some_0 == crate::snmp::PrivacyProtocol::AES
                || f.encrypted.len() % 8 == 0)
            &&& match decode_decrypted_scoped(
                decrypted(
                    p.privacy_protocol->Some_0,
                    configured_privacy_key(p, f.usm.engine_id),
                    f.usm.boots as u32,
                    f.usm.time as u32,
                    f.usm.privacy,
                    f.encrypted,
                ),
            ) {
                Some(q) => q.b >= 0 && q.tag == pdu_tag(PDUType::Response) && q.id == request_id
                    && q.a == 0,
                None => false,
            }
        },
        None => false,
    }
}

/// The salt that a private request carries.
pub open spec fn privacy_salt(p: crate::snmp::PrivacyProtocol, boots: u32, counter: u64) -> Seq<u8> {
    match p {
        crate::snmp::PrivacyProtocol::DES => crate::privacy::des_salt(boots, counter),
        crate::snmp::PrivacyProtocol::AES => crate::privacy::be64(counter),
    }
}

/// A private request fits the length fields: its scoped PDU, and the
/// message around the encrypted scoped PDU, with any header that has the
/// request's fields.
pub open spec fn v3_private_request_fits(
    msg_id: i32,
    engine_id: Seq<u8>,
    boots: u32,
    time: u32,
    user: Seq<u8>,
    pdu: Seq<u8>,
    pp: crate::snmp::PrivacyProtocol,
    pk: Seq<u8>,
    counter: u64,
) -> bool {
    &&& engine_id.len() <= MAX_CONTENT_LEN
    &&& str_tlv(engine_id).len() + str_tlv(Seq::<u8>::empty()).len() + pdu.len()
        <= MAX_CONTENT_LEN
    &&& forall|h: V3Header|
        #[trigger] v3_request_header(
            h,
            msg_id,
            FLAG_AUTH | FLAG_PRIV | FLAG_REPORTABLE,
            engine_id,
            boots,
            time,
            user,
            privacy_salt(pp, boots, counter),
        ) ==> {
            let c = encrypted(pp, pk, boots, time, counter, scoped_pdu(h, pdu)).0;
            c.len() <= MAX_CONTENT_LEN && v3_fits_with(h, auth_field(h), str_tlv(c))
        }
}

/// The user's privacy key for an engine: the privacy password localized
/// with the authentication protocol's digest.
pub open spec fn configured_privacy_key(p: crate::params::ParamsView, engine_id: Seq<u8>) -> Seq<u8> {
    localized_key(
        p.auth_protocol->Some_0,
        password_key(p.auth_protocol->Some_0, encode_utf8(p.privacy_password->Some_0)),
        engine_id,
    )
}

/// The user's key for an engine, as the configuration gives it.
pub open spec fn configured_key(p: crate::params::ParamsView, engine_id: Seq<u8>) -> Seq<u8> {
    localized_key(
        p.auth_protocol->Some_0,
        password_key(p.auth_protocol->Some_0, encode_utf8(p.auth_password->Some_0)),
        engine_id,
    )
}

impl<'a> SNMPClientV3<'a> {
    /// The engine that answered a discovery request.
    pub fn handle_discovery(&self, b: &[u8]) -> (r: Result<EngineState, ClientError>)
        ensures
            decode_v3(b@) is None ==> r is Err,
            r is Ok <==> v3_readable(b@),
            r matches Ok(e) ==> decode_v3(b@) matches Some(f) && e@.engine_id == f.usm.engine_id
                && e@.boots == f.usm.boots && e@.time == f.usm.time,
    {
        match decode_v3_message(b) {
            Ok(m) => Ok(EngineState::new(m.engine_id, m.engine_boots, m.engine_time)),
            Err(e) => Err(ClientError::Message(e)),
        }
    }

    /// Reads the answer to the request with id `request_id`, when
    /// `elapsed` seconds have passed since the engine's clock was cached.
    /// The answer must come from the cached engine, carry the right digest
    /// and be timely; the cache then takes its boots and time.
    pub fn handle_response(
        &self,
        engine: &mut EngineState,
        elapsed: u32,
        request_id: i32,
        b: &[u8],
    ) -> (r: Result<Vec<VarBind>, ClientError>)
        ensures
            final(engine)@.engine_id == old(engine)@.engine_id,
            decode_v3(b@) is None ==> r is Err,
            r is Ok <==> v3_answer_ok(self.params@, old(engine)@, elapsed, request_id, b@),
            r matches Ok(v) ==> decode_v3(b@) matches Some(f) && f.flags & FLAG_AUTH != 0
                && f.usm.engine_id == old(engine)@.engine_id && f.usm.auth.len() == AUTH_PARAMS_LEN
                && b@.subrange(f.auth_pos, f.auth_pos + AUTH_PARAMS_LEN) == auth_params(
                self.params@.auth_protocol->Some_0,
                configured_key(self.params@, f.usm.engine_id),
                b@,
                f.auth_pos,
            ) && final(engine)@.boots == f.usm.boots && final(engine)@.time == f.usm.time
                && f.pdu.tag == pdu_tag(PDUType::Response) && f.pdu.id == request_id && f.pdu.a
                == 0 && binds_view(v@) == f.pdu.binds,
    {
        let m = match decode_v3_message(b) {
            Ok(m) => m,
            Err(e) => {
                return Err(ClientError::Message(e));
            },
        };
        if m.flags & FLAG_AUTH == 0 {
            return Err(ClientError::Security(SecurityError::Unauthenticated));
        }
        if !same_bytes(m.engine_id.as_slice(), engine.engine_id().as_slice()) {
            return Err(ClientError::Security(SecurityError::UnknownEngine));
        }
        if m.auth_params.len() != AUTH_PARAMS_LEN {
            return Err(ClientError::Security(SecurityError::WrongDigest));
        }
        let proto = match self.params.get_auth_protocol() {
            Ok(p) => p,
            Err(e) => {
                return Err(ClientError::Config(e));
            },
        };
        let password = match self.params.get_auth_password() {
            Ok(p) => p,
            Err(e) => {
                return Err(ClientError::Config(e));
            },
        };
        let key = match user_key(proto, password.as_str().as_bytes(), m.engine_id.as_slice()) {
            Ok(k) => k,
            Err(e) => {
                return Err(ClientError::Key(e));
            },
        };
        if m.auth_pos > b.len() || AUTH_PARAMS_LEN > b.len() - m.auth_pos {
            return Err(ClientError::Security(SecurityError::WrongDigest));
        }
        if !verify_message(proto, key.as_slice(), b, m.auth_pos) {
            return Err(ClientError::Security(SecurityError::WrongDigest));
        }
        match engine.refresh(elapsed, m.engine_boots, m.engine_time) {
            Ok(()) => {},
            Err(e) => {
                return Err(ClientError::Security(e));
            },
        }
        check_response(request_id, m.kind, m.pdu)
    }
}

/// Whether two byte strings are equal.
fn same_bytes(a: &[u8], b: &[u8]) -> (r: bool)
    ensures
        r == (a@ == b@),
{
    if a.len() != b.len() {
        return false;
    }
    let mut i: usize = 0;
    while i < a.len()
        invariant
            i <= a@.len() == b@.len(),
            a@.take(i as int) == b@.take(i as int),
        decreases a@.len() - i,
    {
        if a[i] != b[i] {
            assert(a@.take(a@.len() as int) =~= a@);
            assert(!(a@ =~= b@) || a@[i as int] == b@[i as int]);
            return false;
        }
        assert(a@.take(i + 1) =~= a@.take(i as int).push(a@[i as int]));
        assert(b@.take(i + 1) =~= b@.take(i as int).push(b@[i as int]));
        i = i + 1;
    }
    assert(a@ =~= a@.take(a@.len() as int));
    assert(b@ =~= b@.take(b@.len() as int));
    true
}


/// How one exchange ended, as the caller that drives the transport saw it.
#[derive(Clone, Copy, Debug, PartialEq, Eq, Structural)]
pub enum ExchangeEvent {
    /// No answer came before the deadline, or the agent was unreachable.
    TransportFailed,
    /// The agent does not know the engine the request was built for.
    UnknownEngine,
    /// An answer was read; it is final, whether it held bindings or an error.
    Answered,
}

/// What the caller does next.
#[derive(Clone, Copy, Debug, PartialEq, Eq, Structural)]
pub enum NextStep {
    /// Send the same message again.
    Resend,
    /// Discover the engine again, then send the request once more.
    Rediscover,
    /// Stop: hand the answer, or the last error, to the user.
    Finish,
}

/// The retry policy: a transport failure is retried until `retries`
/// retries have been spent; an unknown engine is rediscovered once; an
/// answer ends the exchange. `attempt` counts the sends so far, the first
/// being 1; `rediscovered` tells whether a rediscovery was done already.
pub fn next_step(attempt: u32, retries: u32, rediscovered: bool, event: ExchangeEvent) -> (r: NextStep)
    ensures
        event == ExchangeEvent::Answered ==> r == NextStep::Finish,
        event == ExchangeEvent::TransportFailed ==> (r == NextStep::Resend <==> attempt <= retries),
        event == ExchangeEvent::TransportFailed ==> r != NextStep::Rediscover,
        event == ExchangeEvent::UnknownEngine ==> (r == NextStep::Rediscover <==> !rediscovered),
        event == ExchangeEvent::UnknownEngine ==> r != NextStep::Resend,
{
    match event {
        ExchangeEvent::Answered => NextStep::Finish,
        ExchangeEvent::TransportFailed => if attempt <= retries {
            NextStep::Resend
        } else {
            NextStep::Finish
        },
        ExchangeEvent::UnknownEngine => if rediscovered {
            NextStep::Finish
        } else {
            NextStep::Rediscover
        },
    }
}


impl<'a> SNMPClientV3<'a> {
    /// An authenticated and encrypted request: the scoped PDU is encrypted
    /// with the user's privacy key and the salt that `counter` gives, then
    /// the message is signed.
    pub fn private_request(
        &self,
        engine: &EngineState,
        msg_id: i32,
        kind: PDUType,
        request_id: i32,
        binds: Vec<VarBind>,
        counter: u64,
    ) -> (r: Result<Vec<u8>, ClientError>)
        ensures
            self.params@.version == SNMPVersion::V2c ==> r matches Err(ClientError::Config(_)),
            r is Ok <==> (self.params@.version == SNMPVersion::V3 && encode_utf8(
                self.params@.auth_password->Some_0,
            ).len() > 0 && encode_utf8(self.params@.privacy_password->Some_0).len() > 0 && pdu_bytes(
                pdu_tag(kind),
                request_id as int,
                0,
                0,
                binds_view(binds@),
            ) is Some && v3_private_request_fits(
                msg_id,
                engine@.engine_id,
                engine@.boots,
                engine@.time,
                encode_utf8(self.params@.username),
                pdu_bytes(pdu_tag(kind), request_id as int, 0, 0, binds_view(binds@))->Some_0,
                self.params@.privacy_protocol->Some_0,
                configured_privacy_key(self.params@, engine@.engine_id),
                counter,
            )),
            r matches Ok(m) ==> exists|h: V3Header, pdu: Seq<u8>|
                #![trigger scoped_pdu(h, pdu)]
                {
                    let pk = configured_privacy_key(self.params@, engine@.engine_id);
                    let (c, salt) = encrypted(
                        self.params@.privacy_protocol->Some_0,
                        pk,
                        engine@.boots,
                        engine@.time,
                        counter,
                        scoped_pdu(h, pdu),
                    );
                    &&& pdu_bytes(pdu_tag(kind), request_id as int, 0, 0, binds_view(binds@))
                        == Some(pdu)
                    &&& v3_request_header(
                        h,
                        msg_id,
                        FLAG_AUTH | FLAG_PRIV | FLAG_REPORTABLE,
                        engine@.engine_id,
                        engine@.boots,
                        engine@.time,
                        encode_utf8(self.params@.username),
                        salt,
                    )
                    &&& m@ == signed_v3_message_with(
                        self.params@.auth_protocol->Some_0,
                        configured_key(self.params@, engine@.engine_id),
                        h,
                        str_tlv(c),
                    )
                },
    {
        let proto = match self.params.get_auth_protocol() {
            Ok(p) => p,
            Err(e) => {
                return Err(ClientError::Config(e));
            },
        };
        let password = match self.params.get_auth_password() {
            Ok(p) => p,
            Err(e) => {
                return Err(ClientError::Config(e));
            },
        };
        let privacy = match self.params.get_privacy_protocol() {
            Ok(p) => p,
            Err(e) => {
                return Err(ClientError::Config(e));
            },
        };
        let privacy_password = match self.params.get_privacy_password() {
            Ok(p) => p,
            Err(e) => {
                return Err(ClientError::Config(e));
            },
        };
        let key = match user_key(proto, password.as_str().as_bytes(), engine.engine_id().as_slice()) {
            Ok(k) => k,
            Err(e) => {
                return Err(ClientError::Key(e));
            },
        };
        let pkey = match user_key(
            proto,
            privacy_password.as_str().as_bytes(),
            engine.engine_id().as_slice(),
        ) {
            Ok(k) => k,
            Err(e) => {
                return Err(ClientError::Key(e));
            },
        };
        let pdu = PDU::with_request_id(request_id, binds);
        let pb = match pdu.encode(kind) {
            Ok(b) => b,
            Err(e) => {
                return Err(ClientError::Message(e));
            },
        };
        let context = V3Header {
            msg_id,
            max_size: MAX_MESSAGE_SIZE,
            flags: 0,
            engine_id: Vec::new(),
            engine_boots: 0,
            engine_time: 0,
            user_name: Vec::new(),
            privacy_params: Vec::new(),
            context_engine_id: copy_bytes(engine.engine_id().as_slice()),
            context_name: Vec::new(),
        };
        assert(context.context_name@ =~= Seq::<u8>::empty());
        let scoped = match encode_scoped_pdu(&context, pb.as_slice()) {
            Ok(s) => s,
            Err(e) => {
                return Err(ClientError::Message(e));
            },
        };
        let (c, salt) = match encrypt_scoped_pdu(
            privacy,
            pkey.as_slice(),
            engine.boots(),
            engine.time(),
            counter,
            scoped.as_slice(),
        ) {
            Ok(x) => x,
            Err(e) => {
                return Err(ClientError::Privacy(e));
            },
        };
        let flags = FLAG_AUTH | FLAG_PRIV | FLAG_REPORTABLE;
        assert(flags & 0x01u8 != 0) by (bit_vector)
            requires
                flags == 0x01u8 | 0x02u8 | 0x04u8,
        ;
        let h = V3Header {
            msg_id,
            max_size: MAX_MESSAGE_SIZE,
            flags,
            engine_id: copy_bytes(engine.engine_id().as_slice()),
            engine_boots: engine.boots(),
            engine_time: engine.time(),
            user_name: copy_bytes(self.params.get_username().as_bytes()),
            privacy_params: salt,
            context_engine_id: copy_bytes(engine.engine_id().as_slice()),
            context_name: Vec::new(),
        };
        proof {
            assert(h.context_name@ =~= Seq::<u8>::empty());
            assert(scoped_pdu(h, pb@) == scoped_pdu(context, pb@));
            assert(salt@ == privacy_salt(privacy, engine@.boots, counter));
            assert(privacy == self.params@.privacy_protocol->Some_0);
            assert(pkey@ == configured_privacy_key(self.params@, engine@.engine_id));
            assert(c@ == encrypted(privacy, pkey@, engine@.boots, engine@.time, counter, scoped_pdu(h, pb@)).0);
            assert(v3_request_header(
                h,
                msg_id,
                FLAG_AUTH | FLAG_PRIV | FLAG_REPORTABLE,
                engine@.engine_id,
                engine@.boots,
                engine@.time,
                encode_utf8(self.params@.username),
                privacy_salt(privacy, engine@.boots, counter),
            ));
            assert forall|h2: V3Header|
                #[trigger] v3_request_header(
                    h2,
                    msg_id,
                    FLAG_AUTH | FLAG_PRIV | FLAG_REPORTABLE,
                    engine@.engine_id,
                    engine@.boots,
                    engine@.time,
                    encode_utf8(self.params@.username),
                    privacy_salt(privacy, engine@.boots, counter),
                ) implies scoped_pdu(h2, pb@) == scoped_pdu(h, pb@) && v3_fits_with(
                h2,
                auth_field(h2),
                str_tlv(c@),
            ) == v3_fits_with(h, auth_field(h), str_tlv(c@)) by {
                lemma_same_header(h, h2, pb@, str_tlv(c@));
            }
        }
        let (mut m, pos) = match encode_v3_private_message(&h, c.as_slice()) {
            Ok(x) => x,
            Err(e) => {
                return Err(ClientError::Message(e));
            },
        };
        sign_message(proto, key.as_slice(), &mut m, pos);
        proof {
            assert(context.context_name@ =~= h.context_name@);
            assert(scoped_pdu(h, pb@) == scoped_pdu(context, pb@));
            assert(pdu_bytes(pdu_tag(kind), request_id as int, 0, 0, binds_view(binds@)) == Some(pb@));
            assert(v3_request_header(
                h,
                msg_id,
                FLAG_AUTH | FLAG_PRIV | FLAG_REPORTABLE,
                engine@.engine_id,
                engine@.boots,
                engine@.time,
                encode_utf8(self.params@.username),
                salt@,
            ));
            assert(m@ == signed_v3_message_with(proto, key@, h, str_tlv(c@)));
        }
        Ok(m)
    }
}


impl<'a> SNMPClientV3<'a> {
    /// Reads an authenticated and encrypted answer to the request with id
    /// `request_id`: the digest, engine and clock are checked as for a
    /// clear answer; the scoped PDU is then decrypted with the user's
    /// privacy key.
    pub fn handle_private_response(
        &self,
        engine: &mut EngineState,
        elapsed: u32,
        request_id: i32,
        b: &[u8],
    ) -> (r: Result<Vec<VarBind>, ClientError>)
        ensures
            final(engine)@.engine_id == old(engine)@.engine_id,
            decode_v3_private(b@) is None ==> r is Err,
            r is Ok <==> v3_private_answer_ok(self.params@, old(engine)@, elapsed, request_id, b@),
            r matches Ok(v) ==> decode_v3_private(b@) matches Some(f) && f.flags & FLAG_AUTH != 0
                && f.flags & FLAG_PRIV != 0 && f.usm.engine_id == old(engine)@.engine_id
                && f.usm.auth.len() == AUTH_PARAMS_LEN && b@.subrange(
                f.auth_pos,
                f.auth_pos + AUTH_PARAMS_LEN,
            ) == auth_params(
                self.params@.auth_protocol->Some_0,
                configured_key(self.params@, f.usm.engine_id),
                b@,
                f.auth_pos,
            ) && final(engine)@.boots == f.usm.boots && final(engine)@.time == f.usm.time
                && (decode_decrypted_scoped(
                decrypted(
                    self.params@.privacy_protocol->Some_0,
                    configured_privacy_key(self.params@, f.usm.engine_id),
                    f.usm.boots as u32,
                    f.usm.time as u32,
                    f.usm.privacy,
                    f.encrypted,
                ),
            ) matches Some(p) && p.tag == pdu_tag(PDUType::Response) && p.id == request_id && p.a
                == 0 && binds_view(v@) == p.binds),
    {
        let m = match decode_v3_private_message(b) {
            Ok(m) => m,
            Err(e) => {
                return Err(ClientError::Message(e));
            },
        };
        if m.flags & FLAG_AUTH == 0 || m.flags & FLAG_PRIV == 0 {
            return Err(ClientError::Security(SecurityError::Unauthenticated));
        }
        if !same_bytes(m.engine_id.as_slice(), engine.engine_id().as_slice()) {
            return Err(ClientError::Security(SecurityError::UnknownEngine));
        }
        if m.auth_params.len() != AUTH_PARAMS_LEN {
            return Err(ClientError::Security(SecurityError::WrongDigest));
        }
        let proto = match self.params.get_auth_protocol() {
            Ok(p) => p,
            Err(e) => {
                return Err(ClientError::Config(e));
            },
        };
        let password = match self.params.get_auth_password() {
            Ok(p) => p,
            Err(e) => {
                return Err(ClientError::Config(e));
            },
        };
        let privacy = match self.params.get_privacy_protocol() {
            Ok(p) => p,
            Err(e) => {
                return Err(ClientError::Config(e));
            },
        };
        let privacy_password = match self.params.get_privacy_password() {
            Ok(p) => p,
            Err(e) => {
                return Err(ClientError::Config(e));
            },
        };
        let key = match user_key(proto, password.as_str().as_bytes(), m.engine_id.as_slice()) {
            Ok(k) => k,
            Err(e) => {
                return Err(ClientError::Key(e));
            },
        };
        if m.auth_pos > b.len() || AUTH_PARAMS_LEN > b.len() - m.auth_pos {
            return Err(ClientError::Security(SecurityError::WrongDigest));
        }
        if !verify_message(proto, key.as_slice(), b, m.auth_pos) {
            return Err(ClientError::Security(SecurityError::WrongDigest));
        }
        match engine.refresh(elapsed, m.engine_boots, m.engine_time) {
            Ok(()) => {},
            Err(e) => {
                return Err(ClientError::Security(e));
            },
        }
        let pkey = match user_key(
            proto,
            privacy_password.as_str().as_bytes(),
            m.engine_id.as_slice(),
        ) {
            Ok(k) => k,
            Err(e) => {
                return Err(ClientError::Key(e));
            },
        };
        let plain = match decrypt_scoped_pdu(
            privacy,
            pkey.as_slice(),
            m.engine_boots,
            m.engine_time,
            m.privacy_params.as_slice(),
            m.encrypted.as_slice(),
        ) {
            Ok(d) => d,
            Err(e) => {
                return Err(ClientError::Privacy(e));
            },
        };
        let (kind, pdu) = match decode_decrypted_scoped_bytes(plain.as_slice()) {
            Ok(x) => x,
            Err(e) => {
                return Err(ClientError::Message(e));
            },
        };
        check_response(request_id, kind, pdu)
    }
}

} // verus!
