use vstd::prelude::*;

use crate::auth::AUTH_PARAMS_LEN;
use crate::ber::{
    copy_range, int_content, lemma_half_range_values, lemma_int_content_len, length_bytes,
    push_int_content, push_tlv, read_tlv, read_tlv_at, tlv, SNMPMessageError, MAX_CONTENT_LEN,
};
use crate::ber::{int_value, read_int};
use crate::pdu::{decode_pdu, pdu_tag, PDUType, PduFields, PduView, PDU};
use crate::var_bind::{TAG_INTEGER, TAG_OCTET_STRING, TAG_SEQUENCE};

verus! {

/// The version number that a v3 message carries.
pub const VERSION_V3: i32 = 3;

/// The number of the user-based security model.
pub const USM_SECURITY_MODEL: i32 = 3;

/// The flag bits of a v3 header.
pub const FLAG_AUTH: u8 = 0x01;
pub const FLAG_PRIV: u8 = 0x02;
pub const FLAG_REPORTABLE: u8 = 0x04;

/// The header and security fields of an outgoing v3 message.
pub struct V3Header {
    pub msg_id: i32,
    pub max_size: i32,
    pub flags: u8,
    pub engine_id: Vec<u8>,
    pub engine_boots: u32,
    pub engine_time: u32,
    pub user_name: Vec<u8>,
    pub privacy_params: Vec<u8>,
    pub context_engine_id: Vec<u8>,
    pub context_name: Vec<u8>,
}

pub open spec fn int_tlv(v: int) -> Seq<u8> {
    tlv(TAG_INTEGER, int_content(v))
}

pub open spec fn str_tlv(s: Seq<u8>) -> Seq<u8> {
    tlv(TAG_OCTET_STRING, s)
}

/// The fields of the USM block that come before the authentication
/// parameters.
pub open spec fn usm_lead(h: V3Header) -> Seq<u8> {
    str_tlv(h.engine_id@) + int_tlv(h.engine_boots as int) + int_tlv(h.engine_time as int)
        + str_tlv(h.user_name@)
}

/// The content of the USM block with the given authentication parameters.
pub open spec fn usm_body(h: V3Header, auth: Seq<u8>) -> Seq<u8> {
    usm_lead(h) + str_tlv(auth) + str_tlv(h.privacy_params@)
}

/// The global header: message id, maximum size, flags, security model.
pub open spec fn global_header(h: V3Header) -> Seq<u8> {
    tlv(
        TAG_SEQUENCE,
        int_tlv(h.msg_id as int) + int_tlv(h.max_size as int) + str_tlv(seq![h.flags]) + int_tlv(
            USM_SECURITY_MODEL as int,
        ),
    )
}

/// The plaintext scoped PDU: context engine id, context name, PDU.
pub open spec fn scoped_pdu(h: V3Header, pdu: Seq<u8>) -> Seq<u8> {
    tlv(TAG_SEQUENCE, str_tlv(h.context_engine_id@) + str_tlv(h.context_name@) + pdu)
}

/// The content of the message.
pub open spec fn v3_body(h: V3Header, auth: Seq<u8>, pdu: Seq<u8>) -> Seq<u8> {
    v3_body_with(h, auth, scoped_pdu(h, pdu))
}

/// The content of a message whose last element, the scoped PDU in clear
/// or encrypted, is `scoped`.
pub open spec fn v3_body_with(h: V3Header, auth: Seq<u8>, scoped: Seq<u8>) -> Seq<u8> {
    int_tlv(VERSION_V3 as int) + global_header(h) + str_tlv(tlv(TAG_SEQUENCE, usm_body(h, auth)))
        + scoped
}

/// A message whose last element is `scoped`.
pub open spec fn v3_message_with(h: V3Header, auth: Seq<u8>, scoped: Seq<u8>) -> Seq<u8> {
    tlv(TAG_SEQUENCE, v3_body_with(h, auth, scoped))
}

/// The whole v3 message with the given authentication parameters.
pub open spec fn v3_message(h: V3Header, auth: Seq<u8>, pdu: Seq<u8>) -> Seq<u8> {
    tlv(TAG_SEQUENCE, v3_body(h, auth, pdu))
}

/// Where the authentication parameters start in the message.
pub open spec fn v3_auth_offset(h: V3Header, auth: Seq<u8>, pdu: Seq<u8>) -> int {
    v3_auth_offset_with(h, auth, scoped_pdu(h, pdu))
}

/// Where the authentication parameters start in a message whose last
/// element is `scoped`.
pub open spec fn v3_auth_offset_with(h: V3Header, auth: Seq<u8>, scoped: Seq<u8>) -> int {
    let usm = usm_body(h, auth);
    let usm_seq = tlv(TAG_SEQUENCE, usm);
    let body = v3_body_with(h, auth, scoped);
    (1 + length_bytes(body.len()).len() + int_tlv(VERSION_V3 as int).len() + global_header(h).len()
        + 1 + length_bytes(usm_seq.len()).len() + 1 + length_bytes(usm.len()).len() + usm_lead(
        h,
    ).len() + 2) as int
}

/// The USM fields fit the length fields used here.
pub open spec fn v3_fits_fields(h: V3Header) -> bool {
    &&& h.engine_id@.len() <= MAX_CONTENT_LEN
    &&& h.user_name@.len() <= MAX_CONTENT_LEN
    &&& h.privacy_params@.len() <= MAX_CONTENT_LEN
}

/// Every part of the message fits the length fields used here.
pub open spec fn v3_fits(h: V3Header, auth: Seq<u8>, pdu: Seq<u8>) -> bool {
    &&& v3_fits_fields(h)
    &&& h.context_engine_id@.len() <= MAX_CONTENT_LEN
    &&& h.context_name@.len() <= MAX_CONTENT_LEN
    &&& usm_body(h, auth).len() <= MAX_CONTENT_LEN
    &&& tlv(TAG_SEQUENCE, usm_body(h, auth)).len() <= MAX_CONTENT_LEN
    &&& str_tlv(h.context_engine_id@).len() + str_tlv(h.context_name@).len() + pdu.len()
        <= MAX_CONTENT_LEN
    &&& v3_fits_with(h, auth, scoped_pdu(h, pdu))
}

/// The header and the USM block fit, and so does a message whose last
/// element is `scoped`.
pub open spec fn v3_fits_with(h: V3Header, auth: Seq<u8>, scoped: Seq<u8>) -> bool {
    &&& v3_fits_fields(h)
    &&& usm_body(h, auth).len() <= MAX_CONTENT_LEN
    &&& tlv(TAG_SEQUENCE, usm_body(h, auth)).len() <= MAX_CONTENT_LEN
    &&& v3_body_with(h, auth, scoped).len() <= MAX_CONTENT_LEN
}

/// Two headers with the same fields give the same messages.
pub proof fn lemma_same_header(h1: V3Header, h2: V3Header, pdu: Seq<u8>, scoped: Seq<u8>)
    requires
        h1.msg_id == h2.msg_id,
        h1.max_size == h2.max_size,
        h1.flags == h2.flags,
        h1.engine_id@ == h2.engine_id@,
        h1.engine_boots == h2.engine_boots,
        h1.engine_time == h2.engine_time,
        h1.user_name@ == h2.user_name@,
        h1.privacy_params@ == h2.privacy_params@,
        h1.context_engine_id@ == h2.context_engine_id@,
        h1.context_name@ == h2.context_name@,
    ensures
        auth_field(h1) == auth_field(h2),
        scoped_pdu(h1, pdu) == scoped_pdu(h2, pdu),
        v3_fits(h1, auth_field(h1), pdu) == v3_fits(h2, auth_field(h2), pdu),
        v3_fits_with(h1, auth_field(h1), scoped) == v3_fits_with(h2, auth_field(h2), scoped),
        v3_message_with(h1, auth_field(h1), scoped) == v3_message_with(h2, auth_field(h2), scoped),
        v3_auth_offset_with(h1, auth_field(h1), scoped) == v3_auth_offset_with(
            h2,
            auth_field(h2),
            scoped,
        ),
{
    assert(usm_lead(h1) =~= usm_lead(h2));
    assert(usm_body(h1, auth_field(h1)) =~= usm_body(h2, auth_field(h2)));
    assert(global_header(h1) =~= global_header(h2));
    assert(scoped_pdu(h1, pdu) =~= scoped_pdu(h2, pdu));
    assert(v3_body_with(h1, auth_field(h1), scoped) =~= v3_body_with(h2, auth_field(h2), scoped));
    assert(v3_body_with(h1, auth_field(h1), scoped_pdu(h1, pdu)) =~= v3_body_with(
        h2,
        auth_field(h2),
        scoped_pdu(h2, pdu),
    ));
}

pub open spec fn zero_auth() -> Seq<u8> {
    Seq::new(AUTH_PARAMS_LEN as nat, |i: int| 0u8)
}

/// The authentication parameters a message is built with: twelve zero
/// octets, to be signed, when the header asks for authentication; else
/// none.
pub open spec fn auth_field(h: V3Header) -> Seq<u8> {
    if h.flags & FLAG_AUTH != 0 {
        zero_auth()
    } else {
        seq![]
    }
}

fn push_int(out: &mut Vec<u8>, v: i64)
    ensures
        final(out)@ == old(out)@ + int_tlv(v as int),
{
    let mut c: Vec<u8> = Vec::new();
    push_int_content(&mut c, v as i128);
    proof {
        lemma_half_range_values();
        lemma_int_content_len(v as int, 9);
        assert(c@ =~= int_content(v as int));
    }
    push_tlv(out, TAG_INTEGER, c.as_slice());
}

fn push_str(out: &mut Vec<u8>, s: &[u8]) -> (r: Result<(), SNMPMessageError>)
    ensures
        s@.len() <= MAX_CONTENT_LEN ==> r is Ok && final(out)@ == old(out)@ + str_tlv(s@),
        s@.len() > MAX_CONTENT_LEN ==> r is Err,
{
    if s.len() > MAX_CONTENT_LEN {
        return Err(SNMPMessageError::EncodeError("field too long".to_string()));
    }
    push_tlv(out, TAG_OCTET_STRING, s);
    Ok(())
}

fn too_long() -> (r: SNMPMessageError) {
    SNMPMessageError::EncodeError("message too long".to_string())
}

/// The USM block's content with zeroed authentication parameters, and
/// where those parameters' element starts in it.
fn encode_usm(h: &V3Header) -> (r: Result<(Vec<u8>, usize), SNMPMessageError>)
    ensures
        r matches Ok((u, lead)) ==> u@ == usm_body(*h, auth_field(*h)) && lead == usm_lead(*h).len(),
        r is Err ==> !v3_fits_fields(*h),
        v3_fits_fields(*h) ==> r is Ok,
{
    let zeros: Vec<u8> = if h.flags & FLAG_AUTH != 0 {
        vec![0u8; AUTH_PARAMS_LEN]
    } else {
        Vec::new()
    };
    assert(zeros@ =~= auth_field(*h));
    let mut usm: Vec<u8> = Vec::new();
    push_str(&mut usm, h.engine_id.as_slice())?;
    push_int(&mut usm, h.engine_boots as i64);
    push_int(&mut usm, h.engine_time as i64);
    push_str(&mut usm, h.user_name.as_slice())?;
    assert(usm@ =~= usm_lead(*h));
    let lead_len = usm.len();
    push_str(&mut usm, zeros.as_slice())?;
    push_str(&mut usm, h.privacy_params.as_slice())?;
    assert(usm@ =~= usm_body(*h, auth_field(*h)));
    Ok((usm, lead_len))
}

fn encode_global_header(h: &V3Header) -> (r: Vec<u8>)
    ensures
        r@ == global_header(*h),
{
    let mut hdr_body: Vec<u8> = Vec::new();
    push_int(&mut hdr_body, h.msg_id as i64);
    push_int(&mut hdr_body, h.max_size as i64);
    let flags: [u8; 1] = [h.flags];
    assert(flags@ =~= seq![h.flags]);
    push_tlv(&mut hdr_body, TAG_OCTET_STRING, flags.as_slice());
    push_int(&mut hdr_body, USM_SECURITY_MODEL as i64);
    proof {
        lemma_half_range_values();
        lemma_int_content_len(h.msg_id as int, 9);
        lemma_int_content_len(h.max_size as int, 9);
        lemma_int_content_len(USM_SECURITY_MODEL as int, 9);
    }
    let mut hdr: Vec<u8> = Vec::new();
    push_tlv(&mut hdr, TAG_SEQUENCE, hdr_body.as_slice());
    assert(hdr@ =~= global_header(*h));
    hdr
}

/// The plaintext scoped PDU: the bytes that privacy encrypts.
pub fn encode_scoped_pdu(h: &V3Header, pdu: &[u8]) -> (r: Result<Vec<u8>, SNMPMessageError>)
    ensures
        r matches Ok(sp) ==> sp@ == scoped_pdu(*h, pdu@),
        (r is Ok) <==> (h.context_engine_id@.len() <= MAX_CONTENT_LEN && h.context_name@.len()
            <= MAX_CONTENT_LEN && str_tlv(h.context_engine_id@).len() + str_tlv(h.context_name@).len()
            + pdu@.len() <= MAX_CONTENT_LEN),
{
    let mut sp_body: Vec<u8> = Vec::new();
    push_str(&mut sp_body, h.context_engine_id.as_slice())?;
    push_str(&mut sp_body, h.context_name.as_slice())?;
    if sp_body.len() > MAX_CONTENT_LEN || pdu.len() > MAX_CONTENT_LEN - sp_body.len() {
        return Err(too_long());
    }
    append_all(&mut sp_body, pdu);
    let mut sp: Vec<u8> = Vec::new();
    push_tlv(&mut sp, TAG_SEQUENCE, sp_body.as_slice());
    assert(sp@ =~= scoped_pdu(*h, pdu@));
    Ok(sp)
}

/// Builds a v3 message whose last element is `scoped`. When the header
/// asks for authentication the parameters are zeroed, and the position
/// returned is where they start, for signing.
#[verifier::rlimit(40)]
fn assemble_v3(h: &V3Header, scoped: &[u8]) -> (r: Result<(Vec<u8>, usize), SNMPMessageError>)
    ensures
        v3_fits_with(*h, auth_field(*h), scoped@) <==> r is Ok,
        r matches Ok((m, pos)) ==> m@ == v3_message_with(*h, auth_field(*h), scoped@) && pos
            == v3_auth_offset_with(*h, auth_field(*h), scoped@),
        r matches Ok((m, pos)) ==> (h.flags & FLAG_AUTH != 0 ==> m@.subrange(
            pos as int,
            pos + AUTH_PARAMS_LEN,
        ) == zero_auth()),
{
    let ghost z = auth_field(*h);
    let (usm, lead_len) = encode_usm(h)?;
    if usm.len() > MAX_CONTENT_LEN {
        return Err(too_long());
    }
    let mut usm_seq: Vec<u8> = Vec::new();
    push_tlv(&mut usm_seq, TAG_SEQUENCE, usm.as_slice());
    if usm_seq.len() > MAX_CONTENT_LEN {
        return Err(too_long());
    }
    let hdr = encode_global_header(h);
    let mut body: Vec<u8> = Vec::new();
    push_int(&mut body, VERSION_V3 as i64);
    append_all(&mut body, hdr.as_slice());
    let hdr_end = body.len();
    push_tlv(&mut body, TAG_OCTET_STRING, usm_seq.as_slice());
    let usm_end = body.len();
    append_all(&mut body, scoped);
    assert(body@ =~= v3_body_with(*h, z, scoped@));
    if body.len() > MAX_CONTENT_LEN {
        return Err(too_long());
    }
    let mut m: Vec<u8> = Vec::new();
    push_tlv(&mut m, TAG_SEQUENCE, body.as_slice());
    let str_hdr = usm_end - hdr_end - usm_seq.len();
    let seq_hdr = usm_seq.len() - usm.len();
    let m_hdr = m.len() - body.len();
    let pos = m_hdr + hdr_end + str_hdr + seq_hdr + lead_len + 2;
    proof {
        lemma_half_range_values();
        lemma_int_content_len(VERSION_V3 as int, 9);
    }
    proof {
        if h.flags & FLAG_AUTH != 0 {
            assert(length_bytes(AUTH_PARAMS_LEN as nat) =~= seq![12u8]);
            let a = lead_len + 2;
            assert(usm@.subrange(a as int, a + 12) =~= z);
            let b = seq_hdr + a;
            assert(usm_seq@.subrange(b as int, b + 12) =~= z);
            let c = hdr_end + str_hdr + b;
            assert(body@.subrange(c as int, c + 12) =~= z);
            assert(m@.subrange(pos as int, pos + 12) =~= z);
        }
    }
    Ok((m, pos))
}

/// Builds a v3 message around an encoded PDU, in clear. When the header
/// asks for authentication the parameters are zeroed, and the position
/// returned is where they start, for signing.
pub fn encode_v3_message(h: &V3Header, pdu: &[u8]) -> (r: Result<(Vec<u8>, usize), SNMPMessageError>)
    ensures
        v3_fits(*h, auth_field(*h), pdu@) <==> r is Ok,
        r matches Ok((m, pos)) ==> m@ == v3_message(*h, auth_field(*h), pdu@) && pos
            == v3_auth_offset(*h, auth_field(*h), pdu@),
        r matches Ok((m, pos)) ==> (h.flags & FLAG_AUTH != 0 ==> m@.subrange(
            pos as int,
            pos + AUTH_PARAMS_LEN,
        ) == zero_auth()),
{
    let sp = encode_scoped_pdu(h, pdu)?;
    assemble_v3(h, sp.as_slice())
}

/// Builds a v3 message whose scoped PDU was encrypted: the ciphertext is
/// carried as an OCTET STRING.
pub fn encode_v3_private_message(h: &V3Header, encrypted: &[u8]) -> (r: Result<
    (Vec<u8>, usize),
    SNMPMessageError,
>)
    ensures
        encrypted@.len() <= MAX_CONTENT_LEN && v3_fits_with(*h, auth_field(*h), str_tlv(encrypted@))
            <==> r is Ok,
        r matches Ok((m, pos)) ==> m@ == v3_message_with(*h, auth_field(*h), str_tlv(encrypted@))
            && pos == v3_auth_offset_with(*h, auth_field(*h), str_tlv(encrypted@)),
        r matches Ok((m, pos)) ==> (h.flags & FLAG_AUTH != 0 ==> m@.subrange(
            pos as int,
            pos + AUTH_PARAMS_LEN,
        ) == zero_auth()),
{
    let mut e: Vec<u8> = Vec::new();
    push_str(&mut e, encrypted)?;
    assemble_v3(h, e.as_slice())
}

fn append_all(out: &mut Vec<u8>, s: &[u8])
    ensures
        final(out)@ == old(out)@ + s@,
{
    let mut i: usize = 0;
    let ghost start = out@;
    while i < s.len()
        invariant
            i <= s@.len(),
            out@ == start + s@.take(i as int),
        decreases s@.len() - i,
    {
        out.push(s[i]);
        assert(s@.take(i + 1) =~= s@.take(i as int).push(s@[i as int]));
        i = i + 1;
    }
    assert(s@.take(s@.len() as int) =~= s@);
}


/// The first `k` elements of `u`, one after another: tag, content, and
/// where the element ends.
pub open spec fn read_elems(u: Seq<u8>, k: nat) -> Option<Seq<(u8, Seq<u8>, nat)>>
    decreases k,
{
    if k == 0 {
        Some(seq![])
    } else {
        match read_elems(u, (k - 1) as nat) {
            Some(es) => {
                let at = if es.len() == 0 {
                    0
                } else {
                    es.last().2
                };
                match read_tlv(u.skip(at as int)) {
                    Some((t, c, n)) => Some(es.push((t, c, at + n))),
                    None => None,
                }
            },
            None => None,
        }
    }
}


/// Reads `k` elements one after another from the start of `u`; each is
/// given by its tag, where its content starts, and its content length.
fn read_elems_at(u: &[u8], k: usize) -> (r: Option<Vec<(u8, usize, usize)>>)
    ensures
        match read_elems(u@, k as nat) {
            Some(es) => r matches Some(v) && v@.len() == k && forall|i: int|
                0 <= i < k ==> {
                    let (t, s, l) = #[trigger] v@[i];
                    &&& t == es[i].0
                    &&& s + l == es[i].2
                    &&& s + l <= u@.len()
                    &&& es[i].1 == u@.subrange(s as int, s + l)
                },
            None => r is None,
        },
{
    let mut v: Vec<(u8, usize, usize)> = Vec::new();
    let mut at: usize = 0;
    let mut i: usize = 0;
    let total = u.len();
    while i < k
        invariant
            i <= k,
            total == u@.len(),
            at <= u@.len(),
            read_elems(u@, i as nat) matches Some(es) && es.len() == i && v@.len() == i && at == (if i == 0 {
                0
            } else {
                es.last().2
            }) && forall|j: int|
                0 <= j < i ==> {
                    let (t, s, l) = #[trigger] v@[j];
                    &&& t == es[j].0
                    &&& s + l == es[j].2
                    &&& s + l <= u@.len()
                    &&& es[j].1 == u@.subrange(s as int, s + l)
                },
        decreases k - i,
    {
        let ghost es = read_elems(u@, i as nat)->Some_0;
        match read_tlv_at(u, at) {
            Some((t, s, l)) => {
                let ghost before = v@;
                assert(s + l <= total);
                v.push((t, s, l));
                at = s + l;
                let ghost es2 = es.push((t, u@.subrange(s as int, s + l), (s + l) as nat));
                assert(read_elems(u@, (i + 1) as nat) == Some(es2));
                assert forall|j: int| 0 <= j < i + 1 implies {
                    let (t, s, l) = #[trigger] v@[j];
                    &&& t == es2[j].0
                    &&& s + l == es2[j].2
                    &&& s + l <= u@.len()
                    &&& es2[j].1 == u@.subrange(s as int, s + l)
                } by {
                    if j < i {
                        assert(v@[j] == before[j]);
                        assert(es2[j] == es[j]);
                    } else {
                        assert(v@[j] == (t, s, l));
                        assert(es2[j] == (t, u@.subrange(s as int, s + l), (s + l) as nat));
                    }
                }
                i = i + 1;
            },
            None => {
                proof {
                    reveal_with_fuel(read_elems, 2);
                    assert(read_elems(u@, (i + 1) as nat) is None);
                    lemma_read_elems_fails_on(u@, (i + 1) as nat, k as nat);
                }
                return None;
            },
        }
    }
    Some(v)
}

proof fn lemma_read_elems_fails_on(u: Seq<u8>, i: nat, k: nat)
    requires
        i <= k,
        read_elems(u, i) is None,
    ensures
        read_elems(u, k) is None,
    decreases k - i,
{
    if i < k {
        lemma_read_elems_fails_on(u, i + 1, k);
    }
}

/// The number that an INTEGER element stands for, when it is one of 1 to 9
/// octets and lies in `0..=i32::MAX`.
pub open spec fn nonneg_i32(e: (u8, Seq<u8>, nat)) -> bool {
    e.0 == TAG_INTEGER && 1 <= e.1.len() <= 9 && 0 <= int_value(e.1) <= i32::MAX
}

/// The security parameters of a received v3 message.
pub struct UsmFields {
    pub engine_id: Seq<u8>,
    pub boots: int,
    pub time: int,
    pub user: Seq<u8>,
    pub auth: Seq<u8>,
    pub privacy: Seq<u8>,
    /// Where the authentication parameters start in the USM block's
    /// content.
    pub auth_at: int,
}

/// The USM block's content: engine id, boots, time, user, authentication
/// and privacy parameters, nothing after.
pub open spec fn decode_usm(u: Seq<u8>) -> Option<UsmFields> {
    match read_elems(u, 6) {
        Some(es) => if es[0].0 == TAG_OCTET_STRING && nonneg_i32(es[1]) && nonneg_i32(es[2])
            && es[3].0 == TAG_OCTET_STRING && es[4].0 == TAG_OCTET_STRING && es[5].0
            == TAG_OCTET_STRING && es[5].2 == u.len() {
            Some(
                UsmFields {
                    engine_id: es[0].1,
                    boots: int_value(es[1].1),
                    time: int_value(es[2].1),
                    user: es[3].1,
                    auth: es[4].1,
                    privacy: es[5].1,
                    auth_at: es[4].2 - es[4].1.len(),
                },
            )
        } else {
            None
        },
        None => None,
    }
}

fn read_nonneg_i32(u: &[u8], t: u8, s: usize, l: usize) -> (r: Option<u32>)
    requires
        s + l <= u@.len(),
    ensures
        nonneg_i32((t, u@.subrange(s as int, s + l), 0)) <==> r is Some,
        r matches Some(x) ==> x == int_value(u@.subrange(s as int, s + l)),
{
    if t != TAG_INTEGER || l < 1 || l > 9 {
        return None;
    }
    let c = copy_range(u, s, l);
    let x = read_int(c.as_slice());
    if x < 0 || x > i32::MAX as i128 {
        None
    } else {
        Some(x as u32)
    }
}

/// Reads the USM block's content: engine id, boots, time, authentication
/// parameters and where they start.
fn decode_usm_bytes(u: &[u8]) -> (r: Result<(Vec<u8>, u32, u32, Vec<u8>, usize), SNMPMessageError>)
    ensures
        match decode_usm(u@) {
            Some(f) => r matches Ok((eid, boots, time, auth, at)) && eid@ == f.engine_id && boots
                == f.boots && time == f.time && auth@ == f.auth && at == f.auth_at,
            None => r is Err,
        },
        r matches Ok((eid, boots, time, auth, at)) ==> at <= u@.len(),
{
    let bad = "malformed security parameters";
    let total = u.len();
    let es = match read_elems_at(u, 6) {
        Some(v) => v,
        None => {
            return Err(SNMPMessageError::DecodeError(bad.to_string()));
        },
    };
    let (t0, s0, l0) = es[0];
    let (t1, s1, l1) = es[1];
    let (t2, s2, l2) = es[2];
    let (t3, _s3, _l3) = es[3];
    let (t4, s4, l4) = es[4];
    let (t5, s5, l5) = es[5];
    let boots = match read_nonneg_i32(u, t1, s1, l1) {
        Some(x) => x,
        None => {
            return Err(SNMPMessageError::DecodeError(bad.to_string()));
        },
    };
    let time = match read_nonneg_i32(u, t2, s2, l2) {
        Some(x) => x,
        None => {
            return Err(SNMPMessageError::DecodeError(bad.to_string()));
        },
    };
    if t0 != TAG_OCTET_STRING || t3 != TAG_OCTET_STRING || t4 != TAG_OCTET_STRING || t5
        != TAG_OCTET_STRING || s5 + l5 != total {
        return Err(SNMPMessageError::DecodeError(bad.to_string()));
    }
    let eid = copy_range(u, s0, l0);
    let auth = copy_range(u, s4, l4);
    Ok((eid, boots, time, auth, s4))
}


/// The fields of a received v3 message with a plaintext scoped PDU.
pub struct V3Fields {
    pub msg_id: int,
    pub flags: u8,
    pub usm: UsmFields,
    /// Where the authentication parameters start in the whole message.
    pub auth_pos: int,
    pub pdu: PduFields,
}

/// The global header of a received message: its message id and flags,
/// under the user-based security model.
pub open spec fn decode_header(h: Seq<u8>) -> Option<(int, u8)> {
    match read_elems(h, 4) {
        Some(hs) => if nonneg_i32(hs[0]) && nonneg_i32(hs[1]) && hs[2].0 == TAG_OCTET_STRING
            && hs[2].1.len() == 1 && nonneg_i32(hs[3]) && int_value(hs[3].1) == USM_SECURITY_MODEL
            && hs[3].2 == h.len() {
            Some((int_value(hs[0].1), hs[2].1[0]))
        } else {
            None
        },
        None => None,
    }
}

/// The USM block inside the security parameters string, and where its
/// content starts in that string.
pub open spec fn decode_sec_params(sp: Seq<u8>) -> Option<(UsmFields, int)> {
    match read_tlv(sp) {
        Some((t, u, m)) => if t == TAG_SEQUENCE && m == sp.len() {
            match decode_usm(u) {
                Some(f) => Some((f, sp.len() - u.len())),
                None => None,
            }
        } else {
            None
        },
        None => None,
    }
}

/// The PDU of a plaintext scoped PDU's content.
pub open spec fn decode_scoped(sc: Seq<u8>) -> Option<PduFields> {
    match read_elems(sc, 2) {
        Some(ss) => if ss[0].0 == TAG_OCTET_STRING && ss[1].0 == TAG_OCTET_STRING {
            decode_pdu(sc.skip(ss[1].2 as int))
        } else {
            None
        },
        None => None,
    }
}

/// A v3 message that fills `b`: version 3, a header with the user-based
/// security model, the USM block, and a plaintext scoped PDU.
pub open spec fn decode_v3(b: Seq<u8>) -> Option<V3Fields> {
    match read_tlv(b) {
        Some((tag, body, n)) => match read_elems(body, 4) {
            Some(es) => match (
                decode_header(es[1].1),
                decode_sec_params(es[2].1),
                decode_scoped(es[3].1),
            ) {
                (Some((msg_id, flags)), Some((usm, u_at)), Some(pdu)) => if tag == TAG_SEQUENCE
                    && n == b.len() && nonneg_i32(es[0]) && int_value(es[0].1) == VERSION_V3
                    && es[1].0 == TAG_SEQUENCE && es[2].0 == TAG_OCTET_STRING && es[3].0
                    == TAG_SEQUENCE && es[3].2 == body.len() {
                    Some(
                        V3Fields {
                            msg_id,
                            flags,
                            usm,
                            auth_pos: (b.len() - body.len()) + (es[2].2 - es[2].1.len()) + u_at
                                + usm.auth_at,
                            pdu,
                        },
                    )
                } else {
                    None
                },
                _ => None,
            },
            None => None,
        },
        None => None,
    }
}

fn decode_header_bytes(hb: &[u8]) -> (r: Result<(u32, u8), SNMPMessageError>)
    ensures
        match decode_header(hb@) {
            Some((id, flags)) => r matches Ok((i, f)) && i == id && f == flags,
            None => r is Err,
        },
{
    let bad = "malformed v3 header";
    let hs = match read_elems_at(hb, 4) {
        Some(v) => v,
        None => {
            return Err(SNMPMessageError::DecodeError(bad.to_string()));
        },
    };
    let (h0, hs0, hl0) = hs[0];
    let (h1, hs1, hl1) = hs[1];
    let (h2, hs2, hl2) = hs[2];
    let (h3, hs3, hl3) = hs[3];
    let msg_id = match read_nonneg_i32(hb, h0, hs0, hl0) {
        Some(x) => x,
        None => {
            return Err(SNMPMessageError::DecodeError(bad.to_string()));
        },
    };
    if read_nonneg_i32(hb, h1, hs1, hl1).is_none() {
        return Err(SNMPMessageError::DecodeError(bad.to_string()));
    }
    let model = match read_nonneg_i32(hb, h3, hs3, hl3) {
        Some(x) => x,
        None => {
            return Err(SNMPMessageError::DecodeError(bad.to_string()));
        },
    };
    let total = hb.len();
    if h2 != TAG_OCTET_STRING || hl2 != 1 || model != USM_SECURITY_MODEL as u32 || hs3 + hl3
        != total {
        return Err(SNMPMessageError::DecodeError(bad.to_string()));
    }
    Ok((msg_id, hb[hs2]))
}

fn decode_sec_params_bytes(spb: &[u8]) -> (r: Result<(Vec<u8>, u32, u32, Vec<u8>, usize), SNMPMessageError>)
    ensures
        match decode_sec_params(spb@) {
            Some((f, u_at)) => r matches Ok((eid, boots, time, auth, at)) && eid@ == f.engine_id
                && boots == f.boots && time == f.time && auth@ == f.auth && at == u_at + f.auth_at,
            None => r is Err,
        },
        r matches Ok((eid, boots, time, auth, at)) ==> at <= spb@.len(),
{
    let bad = "malformed security parameters";
    assert(spb@.skip(0) =~= spb@);
    let (ut, us, ul) = match read_tlv_at(spb, 0) {
        Some(x) => x,
        None => {
            return Err(SNMPMessageError::DecodeError(bad.to_string()));
        },
    };
    let total = spb.len();
    if ut != TAG_SEQUENCE || us + ul != total {
        return Err(SNMPMessageError::DecodeError(bad.to_string()));
    }
    let u = copy_range(spb, us, ul);
    let (eid, boots, time, auth, at) = decode_usm_bytes(u.as_slice())?;
    Ok((eid, boots, time, auth, us + at))
}

fn decode_scoped_bytes(scb: &[u8]) -> (r: Result<(PDUType, PDU), SNMPMessageError>)
    ensures
        match decode_scoped(scb@) {
            Some(f) => if f.b >= 0 && exists|k: PDUType| pdu_tag(k) == f.tag {
                r matches Ok((k, p)) && pdu_tag(k) == f.tag && p@ == (PduView {
                    request_id: f.id,
                    error_status: f.a,
                    error_index: f.b,
                    binds: f.binds,
                })
            } else {
                r is Err
            },
            None => r is Err,
        },
{
    let bad = "malformed scoped PDU";
    let ss = match read_elems_at(scb, 2) {
        Some(v) => v,
        None => {
            return Err(SNMPMessageError::DecodeError(bad.to_string()));
        },
    };
    let (c0, _cs0, _cl0) = ss[0];
    let (c1, cs1, cl1) = ss[1];
    if c0 != TAG_OCTET_STRING || c1 != TAG_OCTET_STRING {
        return Err(SNMPMessageError::DecodeError(bad.to_string()));
    }
    let total = scb.len();
    let pstart = cs1 + cl1;
    let rest = copy_range(scb, pstart, total - pstart);
    assert(rest@ =~= scb@.skip(pstart as int));
    PDU::decode(rest.as_slice())
}

/// A received v3 message.
pub struct V3Incoming {
    pub msg_id: u32,
    pub flags: u8,
    pub engine_id: Vec<u8>,
    pub engine_boots: u32,
    pub engine_time: u32,
    pub auth_params: Vec<u8>,
    pub auth_pos: usize,
    pub kind: PDUType,
    pub pdu: PDU,
}

/// Reads a v3 message with a plaintext scoped PDU.
#[verifier::rlimit(100)]
pub fn decode_v3_message(b: &[u8]) -> (r: Result<V3Incoming, SNMPMessageError>)
    ensures
        match decode_v3(b@) {
            Some(f) => if f.pdu.b >= 0 && exists|k: PDUType| pdu_tag(k) == f.pdu.tag {
                r matches Ok(m) && m.msg_id == f.msg_id && m.flags == f.flags && m.engine_id@
                    == f.usm.engine_id && m.engine_boots == f.usm.boots && m.engine_time
                    == f.usm.time && m.auth_params@ == f.usm.auth && m.auth_pos == f.auth_pos
                    && pdu_tag(m.kind) == f.pdu.tag && m.pdu@ == (PduView {
                    request_id: f.pdu.id,
                    error_status: f.pdu.a,
                    error_index: f.pdu.b,
                    binds: f.pdu.binds,
                })
            } else {
                r is Err
            },
            None => r is Err,
        },
{
    let bad = "malformed v3 message";
    assert(b@.skip(0) =~= b@);
    let (tag, start, len) = match read_tlv_at(b, 0) {
        Some(x) => x,
        None => {
            return Err(SNMPMessageError::DecodeError(bad.to_string()));
        },
    };
    let total = b.len();
    if tag != TAG_SEQUENCE || start + len != total {
        return Err(SNMPMessageError::DecodeError(bad.to_string()));
    }
    let body = copy_range(b, start, len);
    let bs = body.as_slice();
    let es = match read_elems_at(bs, 4) {
        Some(v) => v,
        None => {
            return Err(SNMPMessageError::DecodeError(bad.to_string()));
        },
    };
    let (t0, s0, l0) = es[0];
    let (t1, s1, l1) = es[1];
    let (t2, s2, l2) = es[2];
    let (t3, s3, l3) = es[3];
    let version = match read_nonneg_i32(bs, t0, s0, l0) {
        Some(x) => x,
        None => {
            return Err(SNMPMessageError::DecodeError(bad.to_string()));
        },
    };
    let body_len = bs.len();
    if version != VERSION_V3 as u32 || t1 != TAG_SEQUENCE || t2 != TAG_OCTET_STRING || t3
        != TAG_SEQUENCE || s3 + l3 != body_len {
        return Err(SNMPMessageError::DecodeError(bad.to_string()));
    }
    let hdr = copy_range(bs, s1, l1);
    let (msg_id, flags) = decode_header_bytes(hdr.as_slice())?;
    let sp = copy_range(bs, s2, l2);
    let (engine_id, boots, time, auth, at) = decode_sec_params_bytes(sp.as_slice())?;
    let scoped = copy_range(bs, s3, l3);
    let (kind, pdu) = decode_scoped_bytes(scoped.as_slice())?;
    let auth_pos = start + s2 + at;
    Ok(
        V3Incoming {
            msg_id,
            flags,
            engine_id,
            engine_boots: boots,
            engine_time: time,
            auth_params: auth,
            auth_pos,
            kind,
            pdu,
        },
    )
}


/// The fields of a received v3 message whose scoped PDU is encrypted.
pub struct V3PrivateFields {
    pub msg_id: int,
    pub flags: u8,
    pub usm: UsmFields,
    pub auth_pos: int,
    pub encrypted: Seq<u8>,
}

/// A v3 message that fills `b` and carries its scoped PDU encrypted, as an
/// OCTET STRING.
pub open spec fn decode_v3_private(b: Seq<u8>) -> Option<V3PrivateFields> {
    match read_tlv(b) {
        Some((tag, body, n)) => match read_elems(body, 4) {
            Some(es) => match (decode_header(es[1].1), decode_sec_params(es[2].1)) {
                (Some((msg_id, flags)), Some((usm, u_at))) => if tag == TAG_SEQUENCE && n
                    == b.len() && nonneg_i32(es[0]) && int_value(es[0].1) == VERSION_V3 && es[1].0
                    == TAG_SEQUENCE && es[2].0 == TAG_OCTET_STRING && es[3].0 == TAG_OCTET_STRING
                    && es[3].2 == body.len() {
                    Some(
                        V3PrivateFields {
                            msg_id,
                            flags,
                            usm,
                            auth_pos: (b.len() - body.len()) + (es[2].2 - es[2].1.len()) + u_at
                                + usm.auth_at,
                            encrypted: es[3].1,
                        },
                    )
                } else {
                    None
                },
                _ => None,
            },
            None => None,
        },
        None => None,
    }
}

/// A received v3 message whose scoped PDU is still encrypted.
pub struct V3PrivateIncoming {
    pub msg_id: u32,
    pub flags: u8,
    pub engine_id: Vec<u8>,
    pub engine_boots: u32,
    pub engine_time: u32,
    pub auth_params: Vec<u8>,
    pub privacy_params: Vec<u8>,
    pub auth_pos: usize,
    pub encrypted: Vec<u8>,
}

/// Reads a v3 message whose scoped PDU is encrypted.
#[verifier::rlimit(100)]
pub fn decode_v3_private_message(b: &[u8]) -> (r: Result<V3PrivateIncoming, SNMPMessageError>)
    ensures
        match decode_v3_private(b@) {
            Some(f) => r matches Ok(m) && m.msg_id == f.msg_id && m.flags == f.flags
                && m.engine_id@ == f.usm.engine_id && m.engine_boots == f.usm.boots
                && m.engine_time == f.usm.time && m.auth_params@ == f.usm.auth
                && m.privacy_params@ == f.usm.privacy && m.auth_pos == f.auth_pos && m.encrypted@
                == f.encrypted,
            None => r is Err,
        },
{
    let bad = "malformed v3 message";
    assert(b@.skip(0) =~= b@);
    let (tag, start, len) = match read_tlv_at(b, 0) {
        Some(x) => x,
        None => {
            return Err(SNMPMessageError::DecodeError(bad.to_string()));
        },
    };
    let total = b.len();
    if tag != TAG_SEQUENCE || start + len != total {
        return Err(SNMPMessageError::DecodeError(bad.to_string()));
    }
    let body = copy_range(b, start, len);
    let bs = body.as_slice();
    let es = match read_elems_at(bs, 4) {
        Some(v) => v,
        None => {
            return Err(SNMPMessageError::DecodeError(bad.to_string()));
        },
    };
    let (t0, s0, l0) = es[0];
    let (t1, s1, l1) = es[1];
    let (t2, s2, l2) = es[2];
    let (t3, s3, l3) = es[3];
    let version = match read_nonneg_i32(bs, t0, s0, l0) {
        Some(x) => x,
        None => {
            return Err(SNMPMessageError::DecodeError(bad.to_string()));
        },
    };
    let body_len = bs.len();
    if version != VERSION_V3 as u32 || t1 != TAG_SEQUENCE || t2 != TAG_OCTET_STRING || t3
        != TAG_OCTET_STRING || s3 + l3 != body_len {
        return Err(SNMPMessageError::DecodeError(bad.to_string()));
    }
    let hdr = copy_range(bs, s1, l1);
    let (msg_id, flags) = decode_header_bytes(hdr.as_slice())?;
    let sp = copy_range(bs, s2, l2);
    let (engine_id, boots, time, auth, privacy, at) = decode_sec_params_full(sp.as_slice())?;
    let encrypted = copy_range(bs, s3, l3);
    let auth_pos = start + s2 + at;
    Ok(
        V3PrivateIncoming {
            msg_id,
            flags,
            engine_id,
            engine_boots: boots,
            engine_time: time,
            auth_params: auth,
            privacy_params: privacy,
            auth_pos,
            encrypted,
        },
    )
}

/// Reads the security parameters string, with the privacy parameters.
fn decode_sec_params_full(spb: &[u8]) -> (r: Result<
    (Vec<u8>, u32, u32, Vec<u8>, Vec<u8>, usize),
    SNMPMessageError,
>)
    ensures
        match decode_sec_params(spb@) {
            Some((f, u_at)) => r matches Ok((eid, boots, time, auth, privacy, at)) && eid@
                == f.engine_id && boots == f.boots && time == f.time && auth@ == f.auth && privacy@
                == f.privacy && at == u_at + f.auth_at,
            None => r is Err,
        },
        r matches Ok((eid, boots, time, auth, privacy, at)) ==> at <= spb@.len(),
{
    let bad = "malformed security parameters";
    assert(spb@.skip(0) =~= spb@);
    let (ut, us, ul) = match read_tlv_at(spb, 0) {
        Some(x) => x,
        None => {
            return Err(SNMPMessageError::DecodeError(bad.to_string()));
        },
    };
    let total = spb.len();
    if ut != TAG_SEQUENCE || us + ul != total {
        return Err(SNMPMessageError::DecodeError(bad.to_string()));
    }
    let u = copy_range(spb, us, ul);
    let ub = u.as_slice();
    let (eid, boots, time, auth, at) = decode_usm_bytes(ub)?;
    let es = match read_elems_at(ub, 6) {
        Some(v) => v,
        None => {
            return Err(SNMPMessageError::DecodeError(bad.to_string()));
        },
    };
    let (_t5, s5, l5) = es[5];
    let privacy = copy_range(ub, s5, l5);
    Ok((eid, boots, time, auth, privacy, us + at))
}

/// The scoped PDU at the start of decrypted octets; DES leaves padding
/// after it.
pub open spec fn decode_decrypted_scoped(d: Seq<u8>) -> Option<PduFields> {
    match read_tlv(d) {
        Some((t, c, n)) => if t == TAG_SEQUENCE {
            decode_scoped(c)
        } else {
            None
        },
        None => None,
    }
}

/// Reads the scoped PDU at the start of decrypted octets.
pub fn decode_decrypted_scoped_bytes(d: &[u8]) -> (r: Result<(PDUType, PDU), SNMPMessageError>)
    ensures
        match decode_decrypted_scoped(d@) {
            Some(f) => if f.b >= 0 && exists|k: PDUType| pdu_tag(k) == f.tag {
                r matches Ok((k, p)) && pdu_tag(k) == f.tag && p@ == (PduView {
                    request_id: f.id,
                    error_status: f.a,
                    error_index: f.b,
                    binds: f.binds,
                })
            } else {
                r is Err
            },
            None => r is Err,
        },
{
    assert(d@.skip(0) =~= d@);
    let (t, s, l) = match read_tlv_at(d, 0) {
        Some(x) => x,
        None => {
            return Err(SNMPMessageError::DecodeError("malformed scoped PDU".to_string()));
        },
    };
    if t != TAG_SEQUENCE {
        return Err(SNMPMessageError::DecodeError("malformed scoped PDU".to_string()));
    }
    let c = copy_range(d, s, l);
    decode_scoped_bytes(c.as_slice())
}

} // verus!
