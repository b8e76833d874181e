use vstd::prelude::*;

use crate::ber::{
    copy_range, int_content, int_value, lemma_half_range_values, lemma_int_content_len,
    push_int_content, push_tlv, read_int, read_tlv, read_tlv_at, tlv, SNMPMessageError,
    MAX_CONTENT_LEN,
};
use crate::ber::{lemma_int_round_trip, lemma_read_tlv};
use crate::var_bind::{
    decode_var_bind, lemma_var_bind_round_trip, var_bind_tlv, BindView, VarBind, TAG_INTEGER,
    TAG_SEQUENCE,
};

verus! {

/// The error status an agent reports in a response.
#[derive(Clone, Copy, Debug, PartialEq, Eq, Structural)]
pub enum PDUError {
    NoError,
    TooBig,
    NoSuchName,
    BadValue,
    ReadOnly,
    GenErr,
    NoAccess,
    WrongType,
    WrongLength,
    WrongEncoding,
    WrongValue,
    NoCreation,
    InconsistentValue,
    ResourceUnavailable,
    CommitFailed,
    UndoFailed,
    AuthorizationError,
    NotWritable,
    InconsistentName,
}

/// The number of each error status on the wire.
pub open spec fn status_code(s: PDUError) -> int {
    match s {
        PDUError::NoError => 0,
        PDUError::TooBig => 1,
        PDUError::NoSuchName => 2,
        PDUError::BadValue => 3,
        PDUError::ReadOnly => 4,
        PDUError::GenErr => 5,
        PDUError::NoAccess => 6,
        PDUError::WrongType => 7,
        PDUError::WrongLength => 8,
        PDUError::WrongEncoding => 9,
        PDUError::WrongValue => 10,
        PDUError::NoCreation => 11,
        PDUError::InconsistentValue => 12,
        PDUError::ResourceUnavailable => 13,
        PDUError::CommitFailed => 14,
        PDUError::UndoFailed => 15,
        PDUError::AuthorizationError => 16,
        PDUError::NotWritable => 17,
        PDUError::InconsistentName => 18,
    }
}

impl PDUError {
    pub fn code(&self) -> (r: i32)
        ensures
            r == status_code(*self),
    {
        match self {
            PDUError::NoError => 0,
            PDUError::TooBig => 1,
            PDUError::NoSuchName => 2,
            PDUError::BadValue => 3,
            PDUError::ReadOnly => 4,
            PDUError::GenErr => 5,
            PDUError::NoAccess => 6,
            PDUError::WrongType => 7,
            PDUError::WrongLength => 8,
            PDUError::WrongEncoding => 9,
            PDUError::WrongValue => 10,
            PDUError::NoCreation => 11,
            PDUError::InconsistentValue => 12,
            PDUError::ResourceUnavailable => 13,
            PDUError::CommitFailed => 14,
            PDUError::UndoFailed => 15,
            PDUError::AuthorizationError => 16,
            PDUError::NotWritable => 17,
            PDUError::InconsistentName => 18,
        }
    }

    /// The status with this number, if there is one.
    pub fn from_code(c: i32) -> (r: Option<PDUError>)
        ensures
            0 <= c <= 18 <==> r is Some,
            r matches Some(s) ==> status_code(s) == c,
    {
        match c {
            0 => Some(PDUError::NoError),
            1 => Some(PDUError::TooBig),
            2 => Some(PDUError::NoSuchName),
            3 => Some(PDUError::BadValue),
            4 => Some(PDUError::ReadOnly),
            5 => Some(PDUError::GenErr),
            6 => Some(PDUError::NoAccess),
            7 => Some(PDUError::WrongType),
            8 => Some(PDUError::WrongLength),
            9 => Some(PDUError::WrongEncoding),
            10 => Some(PDUError::WrongValue),
            11 => Some(PDUError::NoCreation),
            12 => Some(PDUError::InconsistentValue),
            13 => Some(PDUError::ResourceUnavailable),
            14 => Some(PDUError::CommitFailed),
            15 => Some(PDUError::UndoFailed),
            16 => Some(PDUError::AuthorizationError),
            17 => Some(PDUError::NotWritable),
            18 => Some(PDUError::InconsistentName),
            _ => None,
        }
    }
}

/// The kind of a PDU; its number is the context tag it is wrapped in.
#[derive(Clone, Copy, Debug, PartialEq, Eq, Structural)]
pub enum PDUType {
    GetRequest,
    GetNextRequest,
    Response,
    SetRequest,
    GetBulkRequest,
    InformRequest,
    Trap,
    Report,
}

/// The tag octet of each PDU kind: constructed, context class, its number.
pub open spec fn pdu_tag(t: PDUType) -> u8 {
    match t {
        PDUType::GetRequest => 0xA0,
        PDUType::GetNextRequest => 0xA1,
        PDUType::Response => 0xA2,
        PDUType::SetRequest => 0xA3,
        PDUType::GetBulkRequest => 0xA5,
        PDUType::InformRequest => 0xA6,
        PDUType::Trap => 0xA7,
        PDUType::Report => 0xA8,
    }
}

impl PDUType {
    pub fn tag(&self) -> (r: u8)
        ensures
            r == pdu_tag(*self),
    {
        match self {
            PDUType::GetRequest => 0xA0,
            PDUType::GetNextRequest => 0xA1,
            PDUType::Response => 0xA2,
            PDUType::SetRequest => 0xA3,
            PDUType::GetBulkRequest => 0xA5,
            PDUType::InformRequest => 0xA6,
            PDUType::Trap => 0xA7,
            PDUType::Report => 0xA8,
        }
    }

    /// The kind with this tag octet, if there is one.
    pub fn from_tag(t: u8) -> (r: Option<PDUType>)
        ensures
            r matches Some(k) ==> pdu_tag(k) == t,
            r is None ==> forall|k: PDUType| pdu_tag(k) != t,
    {
        match t {
            0xA0 => Some(PDUType::GetRequest),
            0xA1 => Some(PDUType::GetNextRequest),
            0xA2 => Some(PDUType::Response),
            0xA3 => Some(PDUType::SetRequest),
            0xA5 => Some(PDUType::GetBulkRequest),
            0xA6 => Some(PDUType::InformRequest),
            0xA7 => Some(PDUType::Trap),
            0xA8 => Some(PDUType::Report),
            _ => None,
        }
    }
}

pub open spec fn binds_view(v: Seq<VarBind>) -> Seq<(Seq<u32>, BindView)> {
    v.map_values(|b: VarBind| b@)
}

/// The concatenated encodings of a list of bindings.
pub open spec fn binds_bytes(bs: Seq<(Seq<u32>, BindView)>) -> Option<Seq<u8>>
    decreases bs.len(),
{
    if bs.len() == 0 {
        Some(seq![])
    } else {
        match (binds_bytes(bs.drop_last()), var_bind_tlv(bs.last().0, bs.last().1)) {
            (Some(p), Some(e)) => Some(p + e),
            _ => None,
        }
    }
}

/// The bindings that fill `c`, read one after another.
pub open spec fn decode_binds(c: Seq<u8>) -> Option<Seq<(Seq<u32>, BindView)>>
    decreases c.len(),
{
    if c.len() == 0 {
        Some(seq![])
    } else {
        match decode_var_bind(c) {
            Some((v, n)) => if 0 < n <= c.len() {
                match decode_binds(c.skip(n as int)) {
                    Some(r) => Some(seq![v] + r),
                    None => None,
                }
            } else {
                None
            },
            None => None,
        }
    }
}

/// The encoding of a PDU: under its tag, the request id, two integer
/// fields (error status and index, or the bulk parameters), and the
/// SEQUENCE of bindings.
pub open spec fn pdu_bytes(
    tag: u8,
    id: int,
    a: int,
    b: int,
    bs: Seq<(Seq<u32>, BindView)>,
) -> Option<Seq<u8>> {
    match binds_bytes(bs) {
        Some(l) => {
            let body = tlv(TAG_INTEGER, int_content(id)) + tlv(TAG_INTEGER, int_content(a)) + tlv(
                TAG_INTEGER,
                int_content(b),
            ) + tlv(TAG_SEQUENCE, l);
            if l.len() <= MAX_CONTENT_LEN && body.len() <= MAX_CONTENT_LEN {
                Some(tlv(tag, body))
            } else {
                None
            }
        },
        None => None,
    }
}

/// The fields of a PDU as read from the wire.
pub struct PduFields {
    pub tag: u8,
    pub id: int,
    pub a: int,
    pub b: int,
    pub binds: Seq<(Seq<u32>, BindView)>,
}

/// A 32-bit INTEGER element at the start of `b`, and its length.
pub open spec fn read_i32(b: Seq<u8>) -> Option<(int, nat)> {
    match read_tlv(b) {
        Some((t, c, n)) => if t == TAG_INTEGER && 1 <= c.len() <= 9 && i32::MIN <= int_value(c)
            <= i32::MAX {
            Some((int_value(c), n))
        } else {
            None
        },
        None => None,
    }
}

/// The PDU that fills `b`.
pub open spec fn decode_pdu(b: Seq<u8>) -> Option<PduFields> {
    match read_tlv(b) {
        Some((tag, body, n)) => if n != b.len() {
            None
        } else {
            match read_i32(body) {
                Some((id, n1)) => match read_i32(body.skip(n1 as int)) {
                    Some((a, n2)) => match read_i32(body.skip((n1 + n2) as int)) {
                        Some((bb, n3)) => match read_tlv(body.skip((n1 + n2 + n3) as int)) {
                            Some((t, l, n4)) => if t == TAG_SEQUENCE && n1 + n2 + n3 + n4
                                == body.len() {
                                match decode_binds(l) {
                                    Some(bs) => Some(
                                        PduFields { tag, id, a, b: bb, binds: bs },
                                    ),
                                    None => None,
                                }
                            } else {
                                None
                            },
                            None => None,
                        },
                        None => None,
                    },
                    None => None,
                },
                None => None,
            }
        },
        None => None,
    }
}


#[verifier::spinoff_prover]
#[verifier::rlimit(100)]
proof fn lemma_binds_bytes_cons(v: (Seq<u32>, BindView), bs: Seq<(Seq<u32>, BindView)>)
    requires
        binds_bytes(seq![v] + bs) is Some,
    ensures
        var_bind_tlv(v.0, v.1) is Some,
        binds_bytes(bs) is Some,
        binds_bytes(seq![v] + bs)->Some_0 == var_bind_tlv(v.0, v.1)->Some_0 + binds_bytes(
            bs,
        )->Some_0,
    decreases bs.len(),
{
    let all = seq![v] + bs;
    let e = var_bind_tlv(v.0, v.1);
    if bs.len() == 0 {
        assert(all.drop_last() =~= seq![]);
        assert(all.last() == v);
        assert(binds_bytes(bs) == Some(Seq::<u8>::empty()));
        assert(binds_bytes(all.drop_last()) == Some(Seq::<u8>::empty()));
        assert(binds_bytes(all)->Some_0 =~= e->Some_0 + Seq::<u8>::empty());
    } else {
        assert(all.drop_last() =~= seq![v] + bs.drop_last());
        lemma_binds_bytes_cons(v, bs.drop_last());
        assert(all.last() == bs.last());
        let p = binds_bytes(bs.drop_last())->Some_0;
        let l = var_bind_tlv(bs.last().0, bs.last().1)->Some_0;
        assert(binds_bytes(all)->Some_0 == (e->Some_0 + p) + l);
        assert((e->Some_0 + p) + l =~= e->Some_0 + (p + l));
    }
}

proof fn lemma_decode_binds(bs: Seq<(Seq<u32>, BindView)>)
    requires
        binds_bytes(bs) is Some,
    ensures
        decode_binds(binds_bytes(bs)->Some_0) == Some(bs),
    decreases bs.len(),
{
    if bs.len() > 0 {
        let v = bs[0];
        let rest = bs.skip(1);
        assert(bs =~= seq![v] + rest);
        lemma_binds_bytes_cons(v, rest);
        let e = var_bind_tlv(v.0, v.1)->Some_0;
        let tail = binds_bytes(rest)->Some_0;
        lemma_var_bind_round_trip(v.0, v.1, tail);
        lemma_decode_binds(rest);
        assert((e + tail).skip(e.len() as int) =~= tail);
        assert(seq![v] + rest =~= bs);
    } else {
        assert(binds_bytes(bs)->Some_0 =~= seq![]);
    }
}

proof fn lemma_read_i32(v: i32, rest: Seq<u8>)
    ensures
        read_i32(tlv(TAG_INTEGER, int_content(v as int)) + rest) == Some(
            (v as int, tlv(TAG_INTEGER, int_content(v as int)).len()),
        ),
{
    lemma_half_range_values();
    lemma_int_round_trip(v as int);
    lemma_int_content_len(v as int, 4);
    lemma_read_tlv(TAG_INTEGER, int_content(v as int), rest);
}

/// A PDU whose bindings can be encoded decodes to the fields it was
/// encoded from.
#[verifier::spinoff_prover]
#[verifier::rlimit(100)]
pub proof fn lemma_pdu_round_trip(tag: u8, id: i32, a: i32, b: i32, bs: Seq<(Seq<u32>, BindView)>)
    requires
        pdu_bytes(tag, id as int, a as int, b as int, bs) is Some,
    ensures
        decode_pdu(pdu_bytes(tag, id as int, a as int, b as int, bs)->Some_0) == Some(
            PduFields { tag, id: id as int, a: a as int, b: b as int, binds: bs },
        ),
{
    let l = binds_bytes(bs)->Some_0;
    let t1 = tlv(TAG_INTEGER, int_content(id as int));
    let t2 = tlv(TAG_INTEGER, int_content(a as int));
    let t3 = tlv(TAG_INTEGER, int_content(b as int));
    let t4 = tlv(TAG_SEQUENCE, l);
    let body = t1 + t2 + t3 + t4;
    lemma_read_tlv(tag, body, seq![]);
    assert(tlv(tag, body) + seq![] =~= tlv(tag, body));
    assert(body =~= t1 + (t2 + t3 + t4));
    lemma_read_i32(id, t2 + t3 + t4);
    assert(body.skip(t1.len() as int) =~= t2 + (t3 + t4));
    lemma_read_i32(a, t3 + t4);
    assert(body.skip((t1.len() + t2.len()) as int) =~= t3 + t4);
    lemma_read_i32(b, t4);
    assert(body.skip((t1.len() + t2.len() + t3.len()) as int) =~= t4 + seq![]);
    lemma_read_tlv(TAG_SEQUENCE, l, seq![]);
    lemma_decode_binds(bs);
}

proof fn lemma_binds_bytes_fails_on(bs: Seq<(Seq<u32>, BindView)>, i: int)
    requires
        0 <= i <= bs.len(),
        binds_bytes(bs.take(i)) is None,
    ensures
        binds_bytes(bs) is None,
    decreases bs.len() - i,
{
    if i < bs.len() {
        assert(bs.take(i + 1).drop_last() =~= bs.take(i));
        lemma_binds_bytes_fails_on(bs, i + 1);
    } else {
        assert(bs.take(i) =~= bs);
    }
}

/// The request id is drawn at random; nothing is known of its value.
#[verifier::external_body]
fn random_request_id() -> i32 {
    rand::random::<i32>()
}

/// The abstract content of a PDU.
pub struct PduView {
    pub request_id: int,
    pub error_status: int,
    pub error_index: int,
    pub binds: Seq<(Seq<u32>, BindView)>,
}

/// An ordinary PDU: request id, error status and index, bindings in order.
pub struct PDU {
    request_id: i32,
    error_status: i32,
    error_index: u32,
    var_bindings: Vec<VarBind>,
}

impl View for PDU {
    type V = PduView;

    closed spec fn view(&self) -> PduView {
        PduView {
            request_id: self.request_id as int,
            error_status: self.error_status as int,
            error_index: self.error_index as int,
            binds: binds_view(self.var_bindings@),
        }
    }
}

/// Appends the encoding of a PDU under `tag`.
fn push_pdu(out: &mut Vec<u8>, tag: u8, id: i32, a: i32, b: i64, binds: &Vec<VarBind>) -> (r: Result<
    (),
    SNMPMessageError,
>)
    ensures
        match pdu_bytes(tag, id as int, a as int, b as int, binds_view(binds@)) {
            Some(e) => r is Ok && final(out)@ == old(out)@ + e,
            None => r is Err,
        },
{
    let ghost bs = binds_view(binds@);
    let mut l: Vec<u8> = Vec::new();
    let mut i: usize = 0;
    assert(bs.take(0) =~= seq![]);
    while i < binds.len()
        invariant
            i <= binds@.len(),
            bs == binds_view(binds@),
            binds_bytes(bs.take(i as int)) == Some(l@),
        decreases binds@.len() - i,
    {
        assert(bs.take(i + 1).drop_last() =~= bs.take(i as int));
        assert(bs.take(i + 1).last() == binds@[i as int]@);
        let ghost before = l@;
        match binds[i].encode_into(&mut l) {
            Ok(()) => {},
            Err(e) => {
                proof {
                    lemma_binds_bytes_fails_on(bs, i + 1);
                }
                return Err(e);
            },
        }
        i = i + 1;
    }
    assert(bs.take(binds@.len() as int) =~= bs);
    if l.len() > MAX_CONTENT_LEN {
        return Err(SNMPMessageError::EncodeError("binding list too long".to_string()));
    }
    let mut body: Vec<u8> = Vec::new();
    let ghost b0 = body@;
    proof {
        lemma_half_range_values();
        lemma_int_content_len(id as int, 9);
        lemma_int_content_len(a as int, 9);
        lemma_int_content_len(b as int, 9);
    }
    push_int_tlv_small(&mut body, id as i128);
    push_int_tlv_small(&mut body, a as i128);
    push_int_tlv_small(&mut body, b as i128);
    push_tlv(&mut body, TAG_SEQUENCE, l.as_slice());
    assert(body@ =~= tlv(TAG_INTEGER, int_content(id as int)) + tlv(TAG_INTEGER, int_content(a as int))
        + tlv(TAG_INTEGER, int_content(b as int)) + tlv(TAG_SEQUENCE, l@));
    if body.len() > MAX_CONTENT_LEN {
        return Err(SNMPMessageError::EncodeError("PDU too long".to_string()));
    }
    push_tlv(out, tag, body.as_slice());
    Ok(())
}

fn push_int_tlv_small(out: &mut Vec<u8>, v: i128)
    requires
        i64::MIN <= v <= i64::MAX,
    ensures
        final(out)@ == old(out)@ + tlv(TAG_INTEGER, int_content(v as int)),
{
    let mut c: Vec<u8> = Vec::new();
    push_int_content(&mut c, v);
    proof {
        lemma_half_range_values();
        lemma_int_content_len(v as int, 9);
        assert(c@ =~= int_content(v as int));
    }
    push_tlv(out, TAG_INTEGER, c.as_slice());
}

/// A 32-bit INTEGER element at `pos`, and its length.
pub fn read_i32_at(b: &[u8], pos: usize) -> (r: Option<(i32, usize)>)
    requires
        pos <= b@.len(),
    ensures
        match read_i32(b@.skip(pos as int)) {
            Some((v, n)) => r matches Some((x, m)) && x == v && m == n,
            None => r is None,
        },
        r matches Some((x, m)) ==> pos + m <= b@.len(),
{
    let (t, start, len) = match read_tlv_at(b, pos) {
        Some(x) => x,
        None => {
            return None;
        },
    };
    if t != TAG_INTEGER || len < 1 || len > 9 {
        return None;
    }
    let total = b.len();
    assert(start + len <= total);
    let c = copy_range(b, start, len);
    let v = read_int(c.as_slice());
    if v < i32::MIN as i128 || v > i32::MAX as i128 {
        return None;
    }
    Some((v as i32, start + len - pos))
}

/// The bindings that fill `c`.
fn decode_bind_list(c: &[u8]) -> (r: Result<Vec<VarBind>, SNMPMessageError>)
    ensures
        match decode_binds(c@) {
            Some(bs) => r matches Ok(v) && binds_view(v@) == bs,
            None => r matches Err(SNMPMessageError::DecodeError(_)),
        },
{
    let mut out: Vec<VarBind> = Vec::new();
    let mut pos: usize = 0;
    let n = c.len();
    assert(c@.skip(0) =~= c@);
    while pos < n
        invariant
            n == c@.len(),
            pos <= n,
            decode_binds(c@) == (match decode_binds(c@.skip(pos as int)) {
                Some(r) => Some(binds_view(out@) + r),
                None => None,
            }),
        decreases n - pos,
    {
        let ghost rest = c@.skip(pos as int);
        let (v, m) = VarBind::decode_at(c, pos)?;
        if m == 0 || m > n - pos {
            return Err(SNMPMessageError::DecodeError("malformed binding list".to_string()));
        }
        assert(rest.skip(m as int) =~= c@.skip(pos + m));
        let ghost before = out@;
        out.push(v);
        assert(binds_view(out@) =~= binds_view(before) + seq![v@]);
        assert(forall|x: Seq<(Seq<u32>, BindView)>| binds_view(out@) + x =~= binds_view(before) + (seq![v@] + x));
        pos = pos + m;
    }
    assert(c@.skip(n as int) =~= seq![]);
    assert(binds_view(out@) + seq![] =~= binds_view(out@));
    Ok(out)
}

impl PDU {
    /// A request PDU with a fresh random id and no error.
    pub fn new(v: Vec<VarBind>) -> (r: Self)
        ensures
            r@.error_status == 0,
            r@.error_index == 0,
            r@.binds == binds_view(v@),
    {
        PDU::with_request_id(random_request_id(), v)
    }

    /// A request PDU with the given id and no error.
    pub fn with_request_id(request_id: i32, v: Vec<VarBind>) -> (r: Self)
        ensures
            r@ == (PduView {
                request_id: request_id as int,
                error_status: 0,
                error_index: 0,
                binds: binds_view(v@),
            }),
    {
        Self { request_id, error_status: 0, error_index: 0, var_bindings: v }
    }

    /// A PDU with every field given, as an agent sends it.
    pub fn from_parts(request_id: i32, error_status: i32, error_index: u32, v: Vec<VarBind>) -> (r: Self)
        ensures
            r@ == (PduView {
                request_id: request_id as int,
                error_status: error_status as int,
                error_index: error_index as int,
                binds: binds_view(v@),
            }),
    {
        Self { request_id, error_status, error_index, var_bindings: v }
    }

    pub fn request_id(&self) -> (r: i32)
        ensures
            r == self@.request_id,
    {
        self.request_id
    }

    pub fn error_status(&self) -> (r: i32)
        ensures
            r == self@.error_status,
    {
        self.error_status
    }

    pub fn error_index(&self) -> (r: u32)
        ensures
            r == self@.error_index,
    {
        self.error_index
    }

    pub fn var_bindings(&self) -> (r: &Vec<VarBind>)
        ensures
            binds_view(r@) == self@.binds,
    {
        &self.var_bindings
    }

    /// Takes the bindings out of the PDU.
    pub fn into_var_bindings(self) -> (r: Vec<VarBind>)
        ensures
            binds_view(r@) == self@.binds,
    {
        self.var_bindings
    }

    /// The encoding of the PDU as a PDU of kind `t`.
    pub fn encode(&self, t: PDUType) -> (r: Result<Vec<u8>, SNMPMessageError>)
        ensures
            match pdu_bytes(
                pdu_tag(t),
                self@.request_id,
                self@.error_status,
                self@.error_index,
                self@.binds,
            ) {
                Some(e) => r matches Ok(b) && b@ == e,
                None => r is Err,
            },
    {
        let mut out: Vec<u8> = Vec::new();
        match push_pdu(
            &mut out,
            t.tag(),
            self.request_id,
            self.error_status,
            self.error_index as i64,
            &self.var_bindings,
        ) {
            Ok(()) => {
                assert(out@ =~= pdu_bytes(
                    pdu_tag(t),
                    self@.request_id,
                    self@.error_status,
                    self@.error_index,
                    self@.binds,
                )->Some_0);
                Ok(out)
            },
            Err(e) => Err(e),
        }
    }

    /// Reads a PDU that fills `b`, with its kind.
    pub fn decode(b: &[u8]) -> (r: Result<(PDUType, PDU), SNMPMessageError>)
        ensures
            match decode_pdu(b@) {
                Some(f) => if f.b >= 0 && exists|k: PDUType| pdu_tag(k) == f.tag {
                    r matches Ok((k, p)) && pdu_tag(k) == f.tag && p@ == (PduView {
                        request_id: f.id,
                        error_status: f.a,
                        error_index: f.b,
                        binds: f.binds,
                    })
                } else {
                    r matches Err(SNMPMessageError::DecodeError(_))
                },
                None => r matches Err(SNMPMessageError::DecodeError(_)),
            },
    {
        let bad = "malformed PDU";
        assert(b@.skip(0) =~= b@);
        let (tag, start, len) = match read_tlv_at(b, 0) {
            Some(x) => x,
            None => {
                return Err(SNMPMessageError::DecodeError(bad.to_string()));
            },
        };
        if start + len != b.len() {
            return Err(SNMPMessageError::DecodeError(bad.to_string()));
        }
        let body = copy_range(b, start, len);
        let bs = body.as_slice();
        assert(bs@.skip(0) =~= bs@);
        let (id, n1) = match read_i32_at(bs, 0) {
            Some(x) => x,
            None => {
                return Err(SNMPMessageError::DecodeError(bad.to_string()));
            },
        };
        let (a, n2) = match read_i32_at(bs, n1) {
            Some(x) => x,
            None => {
                return Err(SNMPMessageError::DecodeError(bad.to_string()));
            },
        };
        let (ix, n3) = match read_i32_at(bs, n1 + n2) {
            Some(x) => x,
            None => {
                return Err(SNMPMessageError::DecodeError(bad.to_string()));
            },
        };
        let p4 = n1 + n2 + n3;
        let (t, ls, ll) = match read_tlv_at(bs, p4) {
            Some(x) => x,
            None => {
                return Err(SNMPMessageError::DecodeError(bad.to_string()));
            },
        };
        if t != TAG_SEQUENCE || ls + ll != bs.len() {
            return Err(SNMPMessageError::DecodeError(bad.to_string()));
        }
        let total = bs.len();
        assert(ls + ll <= total);
        let l = copy_range(bs, ls, ll);
        let binds = match decode_bind_list(l.as_slice()) {
            Ok(v) => v,
            Err(_) => {
                return Err(SNMPMessageError::DecodeError(bad.to_string()));
            },
        };
        let kind = match PDUType::from_tag(tag) {
            Some(k) => k,
            None => {
                return Err(SNMPMessageError::DecodeError("unknown PDU tag".to_string()));
            },
        };
        if ix < 0 {
            return Err(SNMPMessageError::DecodeError("negative error index".to_string()));
        }
        Ok((kind, PDU::from_parts(id, a, ix as u32, binds)))
    }
}

/// A GetBulk PDU: the two integer fields carry the number of
/// non-repeating bindings and the repetitions asked for the rest.
pub struct BulkPDU {
    request_id: i32,
    non_repeaters: i32,
    max_repetitions: i32,
    var_bindings: Vec<VarBind>,
}

impl View for BulkPDU {
    type V = PduView;

    /// The bulk parameters stand in the error status and index slots.
    closed spec fn view(&self) -> PduView {
        PduView {
            request_id: self.request_id as int,
            error_status: self.non_repeaters as int,
            error_index: self.max_repetitions as int,
            binds: binds_view(self.var_bindings@),
        }
    }
}

impl BulkPDU {
    /// A bulk request with a fresh random id and both parameters zero.
    pub fn new(v: Vec<VarBind>) -> (r: Self)
        ensures
            r@.error_status == 0,
            r@.error_index == 0,
            r@.binds == binds_view(v@),
    {
        BulkPDU::with_params(random_request_id(), 0, 0, v)
    }

    /// A bulk request with the given id and parameters.
    pub fn with_params(request_id: i32, non_repeaters: i32, max_repetitions: i32, v: Vec<VarBind>) -> (r: Self)
        ensures
            r@ == (PduView {
                request_id: request_id as int,
                error_status: non_repeaters as int,
                error_index: max_repetitions as int,
                binds: binds_view(v@),
            }),
    {
        Self { request_id, non_repeaters, max_repetitions, var_bindings: v }
    }

    pub fn request_id(&self) -> (r: i32)
        ensures
            r == self@.request_id,
    {
        self.request_id
    }

    /// The encoding of the PDU under the GetBulk tag.
    pub fn encode(&self) -> (r: Result<Vec<u8>, SNMPMessageError>)
        ensures
            match pdu_bytes(
                pdu_tag(PDUType::GetBulkRequest),
                self@.request_id,
                self@.error_status,
                self@.error_index,
                self@.binds,
            ) {
                Some(e) => r matches Ok(b) && b@ == e,
                None => r is Err,
            },
    {
        let mut out: Vec<u8> = Vec::new();
        match push_pdu(
            &mut out,
            PDUType::GetBulkRequest.tag(),
            self.request_id,
            self.non_repeaters,
            self.max_repetitions as i64,
            &self.var_bindings,
        ) {
            Ok(()) => {
                assert(out@ =~= pdu_bytes(
                    pdu_tag(PDUType::GetBulkRequest),
                    self@.request_id,
                    self@.error_status,
                    self@.error_index,
                    self@.binds,
                )->Some_0);
                Ok(out)
            },
            Err(e) => Err(e),
        }
    }
}

} // verus!
