use vstd::prelude::*;

use crate::ber::{
    copy_range, half_range, int_content, int_value, lemma_half_range_values,
    lemma_int_content_len, lemma_int_round_trip, lemma_read_tlv, push_int_content, push_tlv,
    read_int, read_tlv, read_tlv_at, tlv, SNMPMessageError, MAX_CONTENT_LEN,
};
use crate::obj_ident::{
    decode_arcs, encode_arcs, first_pair_valid, lemma_decode_encode, ObjectIdentifier,
    ObjectIdentifierError,
    MAX_OBJECT_IDENTIFIER_LEN,
};

verus! {

pub const TAG_INTEGER: u8 = 0x02;
pub const TAG_OCTET_STRING: u8 = 0x04;
pub const TAG_NULL: u8 = 0x05;
pub const TAG_OBJECT_IDENTIFIER: u8 = 0x06;
pub const TAG_SEQUENCE: u8 = 0x30;
pub const TAG_IP_ADDRESS: u8 = 0x40;
pub const TAG_COUNTER32: u8 = 0x41;
pub const TAG_UNSIGNED32: u8 = 0x42;
pub const TAG_TIMETICKS: u8 = 0x43;
pub const TAG_OPAQUE: u8 = 0x44;
pub const TAG_COUNTER64: u8 = 0x46;
pub const TAG_NO_SUCH_OBJECT: u8 = 0x80;
pub const TAG_NO_SUCH_INSTANCE: u8 = 0x81;
pub const TAG_END_OF_MIB_VIEW: u8 = 0x82;

/// A typed value of a managed object.
#[derive(Debug, PartialEq, Eq)]
pub enum ObjectValue {
    Integer(i32),
    OctetString(Vec<u8>),
    ObjectIdentifier(ObjectIdentifier),
    IpAddress([u8; 4]),
    /// Wraps around at `u32::MAX`.
    Counter32(u32),
    /// Hundredths of a second since an epoch that the agent chose.
    TimeTicks(u32),
    Opaque(Vec<u8>),
    /// Wraps around at `u64::MAX`.
    Counter64(u64),
    Unsigned32(u32),
}

/// What a variable binding holds: a placeholder in requests, a value, or
/// one of the exceptions an agent answers with.
#[derive(Debug, PartialEq, Eq)]
pub enum BindValue {
    Unspecified,
    Value(ObjectValue),
    NoSuchObject,
    NoSuchInstance,
    EndOfMibView,
}

pub enum ValueView {
    Integer(i32),
    OctetString(Seq<u8>),
    ObjectIdentifier(Seq<u32>),
    IpAddress(Seq<u8>),
    Counter32(u32),
    TimeTicks(u32),
    Opaque(Seq<u8>),
    Counter64(u64),
    Unsigned32(u32),
}

pub enum BindView {
    Unspecified,
    Value(ValueView),
    NoSuchObject,
    NoSuchInstance,
    EndOfMibView,
}

impl View for ObjectValue {
    type V = ValueView;

    open spec fn view(&self) -> ValueView {
        match self {
            ObjectValue::Integer(i) => ValueView::Integer(*i),
            ObjectValue::OctetString(s) => ValueView::OctetString(s@),
            ObjectValue::ObjectIdentifier(o) => ValueView::ObjectIdentifier(o@),
            ObjectValue::IpAddress(a) => ValueView::IpAddress(a@),
            ObjectValue::Counter32(n) => ValueView::Counter32(*n),
            ObjectValue::TimeTicks(n) => ValueView::TimeTicks(*n),
            ObjectValue::Opaque(s) => ValueView::Opaque(s@),
            ObjectValue::Counter64(n) => ValueView::Counter64(*n),
            ObjectValue::Unsigned32(n) => ValueView::Unsigned32(*n),
        }
    }
}

impl View for BindValue {
    type V = BindView;

    open spec fn view(&self) -> BindView {
        match self {
            BindValue::Unspecified => BindView::Unspecified,
            BindValue::Value(v) => BindView::Value(v@),
            BindValue::NoSuchObject => BindView::NoSuchObject,
            BindValue::NoSuchInstance => BindView::NoSuchInstance,
            BindValue::EndOfMibView => BindView::EndOfMibView,
        }
    }
}

/// The content octets of an identifier, when it can be encoded.
pub open spec fn oid_content(a: Seq<u32>) -> Option<Seq<u8>> {
    if a.len() <= MAX_OBJECT_IDENTIFIER_LEN && first_pair_valid(a) && encode_arcs(a).len()
        <= MAX_CONTENT_LEN {
        Some(encode_arcs(a))
    } else {
        None
    }
}

pub open spec fn bytes_tlv(tag: u8, s: Seq<u8>) -> Option<Seq<u8>> {
    if s.len() <= MAX_CONTENT_LEN {
        Some(tlv(tag, s))
    } else {
        None
    }
}

/// The encoding of a value, under the tag of its type.
pub open spec fn value_tlv(v: ValueView) -> Option<Seq<u8>> {
    match v {
        ValueView::Integer(i) => Some(tlv(TAG_INTEGER, int_content(i as int))),
        ValueView::OctetString(s) => bytes_tlv(TAG_OCTET_STRING, s),
        ValueView::ObjectIdentifier(a) => match oid_content(a) {
            Some(c) => Some(tlv(TAG_OBJECT_IDENTIFIER, c)),
            None => None,
        },
        ValueView::IpAddress(a) => if a.len() == 4 {
            Some(tlv(TAG_IP_ADDRESS, a))
        } else {
            None
        },
        ValueView::Counter32(n) => Some(tlv(TAG_COUNTER32, int_content(n as int))),
        ValueView::TimeTicks(n) => Some(tlv(TAG_TIMETICKS, int_content(n as int))),
        ValueView::Opaque(s) => bytes_tlv(TAG_OPAQUE, s),
        ValueView::Counter64(n) => Some(tlv(TAG_COUNTER64, int_content(n as int))),
        ValueView::Unsigned32(n) => Some(tlv(TAG_UNSIGNED32, int_content(n as int))),
    }
}

/// The encoding of a binding's value: NULL for a placeholder, an empty
/// context-specific element for an exception.
pub open spec fn bind_tlv(v: BindView) -> Option<Seq<u8>> {
    match v {
        BindView::Unspecified => Some(tlv(TAG_NULL, seq![])),
        BindView::Value(x) => value_tlv(x),
        BindView::NoSuchObject => Some(tlv(TAG_NO_SUCH_OBJECT, seq![])),
        BindView::NoSuchInstance => Some(tlv(TAG_NO_SUCH_INSTANCE, seq![])),
        BindView::EndOfMibView => Some(tlv(TAG_END_OF_MIB_VIEW, seq![])),
    }
}

/// An INTEGER-shaped content of 1 to 9 octets whose value lies in `lo..=hi`.
pub open spec fn int_in(c: Seq<u8>, lo: int, hi: int) -> bool {
    1 <= c.len() <= 9 && lo <= int_value(c) <= hi
}

/// The value that an element with this tag and content stands for.
pub open spec fn bind_of_tlv(tag: u8, c: Seq<u8>) -> Option<BindView> {
    if tag == TAG_INTEGER {
        if int_in(c, i32::MIN as int, i32::MAX as int) {
            Some(BindView::Value(ValueView::Integer(int_value(c) as i32)))
        } else {
            None
        }
    } else if tag == TAG_OCTET_STRING {
        Some(BindView::Value(ValueView::OctetString(c)))
    } else if tag == TAG_NULL {
        if c.len() == 0 {
            Some(BindView::Unspecified)
        } else {
            None
        }
    } else if tag == TAG_OBJECT_IDENTIFIER {
        match decode_arcs(c) {
            Some(a) => Some(BindView::Value(ValueView::ObjectIdentifier(a))),
            None => None,
        }
    } else if tag == TAG_IP_ADDRESS {
        if c.len() == 4 {
            Some(BindView::Value(ValueView::IpAddress(c)))
        } else {
            None
        }
    } else if tag == TAG_COUNTER32 || tag == TAG_UNSIGNED32 || tag == TAG_TIMETICKS {
        if int_in(c, 0, u32::MAX as int) {
            let n = int_value(c) as u32;
            Some(
                BindView::Value(
                    if tag == TAG_COUNTER32 {
                        ValueView::Counter32(n)
                    } else if tag == TAG_UNSIGNED32 {
                        ValueView::Unsigned32(n)
                    } else {
                        ValueView::TimeTicks(n)
                    },
                ),
            )
        } else {
            None
        }
    } else if tag == TAG_OPAQUE {
        Some(BindView::Value(ValueView::Opaque(c)))
    } else if tag == TAG_COUNTER64 {
        if int_in(c, 0, u64::MAX as int) {
            Some(BindView::Value(ValueView::Counter64(int_value(c) as u64)))
        } else {
            None
        }
    } else if c.len() == 0 && tag == TAG_NO_SUCH_OBJECT {
        Some(BindView::NoSuchObject)
    } else if c.len() == 0 && tag == TAG_NO_SUCH_INSTANCE {
        Some(BindView::NoSuchInstance)
    } else if c.len() == 0 && tag == TAG_END_OF_MIB_VIEW {
        Some(BindView::EndOfMibView)
    } else {
        None
    }
}

/// The binding value at the start of `b`, and how many octets it takes.
pub open spec fn decode_bind(b: Seq<u8>) -> Option<(BindView, nat)> {
    match read_tlv(b) {
        Some((tag, c, n)) => match bind_of_tlv(tag, c) {
            Some(v) => Some((v, n)),
            None => None,
        },
        None => None,
    }
}

proof fn lemma_int_fits(v: int, k: nat)
    requires
        k == 4 || k == 5 || k == 9,
        -half_range(k) <= v < half_range(k),
    ensures
        1 <= int_content(v).len() <= k,
        int_value(int_content(v)) == v,
{
    lemma_int_round_trip(v);
    lemma_int_content_len(v, k);
}

/// Every value that can be encoded decodes to itself, whatever follows it.
pub proof fn lemma_bind_round_trip(v: BindView, rest: Seq<u8>)
    requires
        bind_tlv(v) is Some,
    ensures
        decode_bind(bind_tlv(v)->Some_0 + rest) == Some((v, bind_tlv(v)->Some_0.len())),
{
    lemma_half_range_values();
    match v {
        BindView::Unspecified => lemma_read_tlv(TAG_NULL, seq![], rest),
        BindView::NoSuchObject => lemma_read_tlv(TAG_NO_SUCH_OBJECT, seq![], rest),
        BindView::NoSuchInstance => lemma_read_tlv(TAG_NO_SUCH_INSTANCE, seq![], rest),
        BindView::EndOfMibView => lemma_read_tlv(TAG_END_OF_MIB_VIEW, seq![], rest),
        BindView::Value(x) => match x {
            ValueView::Integer(i) => {
                lemma_int_fits(i as int, 4);
                lemma_read_tlv(TAG_INTEGER, int_content(i as int), rest);
            },
            ValueView::OctetString(s) => lemma_read_tlv(TAG_OCTET_STRING, s, rest),
            ValueView::ObjectIdentifier(a) => {
                lemma_decode_encode(a);
                lemma_read_tlv(TAG_OBJECT_IDENTIFIER, encode_arcs(a), rest);
            },
            ValueView::IpAddress(a) => lemma_read_tlv(TAG_IP_ADDRESS, a, rest),
            ValueView::Counter32(n) => {
                lemma_int_fits(n as int, 5);
                lemma_read_tlv(TAG_COUNTER32, int_content(n as int), rest);
            },
            ValueView::TimeTicks(n) => {
                lemma_int_fits(n as int, 5);
                lemma_read_tlv(TAG_TIMETICKS, int_content(n as int), rest);
            },
            ValueView::Opaque(s) => lemma_read_tlv(TAG_OPAQUE, s, rest),
            ValueView::Counter64(n) => {
                lemma_int_fits(n as int, 9);
                lemma_read_tlv(TAG_COUNTER64, int_content(n as int), rest);
            },
            ValueView::Unsigned32(n) => {
                lemma_int_fits(n as int, 5);
                lemma_read_tlv(TAG_UNSIGNED32, int_content(n as int), rest);
            },
        },
    }
}


/// A variable binding: the name of a managed object and its value.
#[derive(Debug, PartialEq, Eq)]
pub struct VarBind {
    name: ObjectIdentifier,
    value: BindValue,
}

impl View for VarBind {
    type V = (Seq<u32>, BindView);

    closed spec fn view(&self) -> (Seq<u32>, BindView) {
        (self.name@, self.value@)
    }
}

/// The encoding of a binding: a SEQUENCE of the name and the value.
pub open spec fn var_bind_tlv(name: Seq<u32>, v: BindView) -> Option<Seq<u8>> {
    match (oid_content(name), bind_tlv(v)) {
        (Some(o), Some(e)) => bytes_tlv(TAG_SEQUENCE, tlv(TAG_OBJECT_IDENTIFIER, o) + e),
        _ => None,
    }
}

/// The binding at the start of `b`, and how many octets it takes.
pub open spec fn decode_var_bind(b: Seq<u8>) -> Option<((Seq<u32>, BindView), nat)> {
    match read_tlv(b) {
        Some((tag, c, n)) => if tag != TAG_SEQUENCE {
            None
        } else {
            match read_tlv(c) {
                Some((t, oc, k)) => if t != TAG_OBJECT_IDENTIFIER {
                    None
                } else {
                    match (decode_arcs(oc), decode_bind(c.skip(k as int))) {
                        (Some(a), Some((v, m))) => if k + m == c.len() {
                            Some(((a, v), n))
                        } else {
                            None
                        },
                        _ => None,
                    }
                },
                None => None,
            }
        },
        None => None,
    }
}

/// Every binding that can be encoded decodes to itself, whatever follows.
pub proof fn lemma_var_bind_round_trip(name: Seq<u32>, v: BindView, rest: Seq<u8>)
    requires
        var_bind_tlv(name, v) is Some,
    ensures
        decode_var_bind(var_bind_tlv(name, v)->Some_0 + rest) == Some(
            ((name, v), var_bind_tlv(name, v)->Some_0.len()),
        ),
{
    let o = oid_content(name)->Some_0;
    let e = bind_tlv(v)->Some_0;
    let inner = tlv(TAG_OBJECT_IDENTIFIER, o) + e;
    lemma_read_tlv(TAG_SEQUENCE, inner, rest);
    lemma_read_tlv(TAG_OBJECT_IDENTIFIER, o, e);
    lemma_decode_encode(name);
    lemma_bind_round_trip(v, seq![]);
    assert(inner.skip(tlv(TAG_OBJECT_IDENTIFIER, o).len() as int) =~= e + seq![]);
}

fn push_int_tlv(out: &mut Vec<u8>, tag: u8, v: i128)
    requires
        -0x80_0000_0000_0000_0000 <= v < 0x80_0000_0000_0000_0000,
    ensures
        final(out)@ == old(out)@ + tlv(tag, int_content(v as int)),
{
    let mut c: Vec<u8> = Vec::new();
    push_int_content(&mut c, v);
    proof {
        lemma_half_range_values();
        lemma_int_content_len(v as int, 9);
        assert(c@ =~= int_content(v as int));
    }
    push_tlv(out, tag, c.as_slice());
}

fn push_bytes_tlv(out: &mut Vec<u8>, tag: u8, s: &Vec<u8>) -> (r: Result<(), SNMPMessageError>)
    ensures
        match bytes_tlv(tag, s@) {
            Some(e) => r is Ok && final(out)@ == old(out)@ + e,
            None => r matches Err(SNMPMessageError::EncodeError(_)) && final(out)@ == old(out)@,
        },
{
    if s.len() > MAX_CONTENT_LEN {
        return Err(SNMPMessageError::EncodeError("content too long".to_string()));
    }
    push_tlv(out, tag, s.as_slice());
    Ok(())
}

/// Appends the encoding of an identifier as an OBJECT IDENTIFIER element.
fn push_oid_tlv(out: &mut Vec<u8>, o: &ObjectIdentifier) -> (r: Result<(), SNMPMessageError>)
    ensures
        match oid_content(o@) {
            Some(c) => r is Ok && final(out)@ == old(out)@ + tlv(TAG_OBJECT_IDENTIFIER, c),
            None => r is Err && final(out)@ == old(out)@,
        },
        o@.len() > MAX_OBJECT_IDENTIFIER_LEN ==> (r matches Err(SNMPMessageError::TooLong(n))
            && n == o@.len()),
{
    match o.encode() {
        Ok(c) => {
            if c.len() > MAX_CONTENT_LEN {
                return Err(SNMPMessageError::EncodeError("identifier too long".to_string()));
            }
            push_tlv(out, TAG_OBJECT_IDENTIFIER, c.as_slice());
            Ok(())
        },
        Err(ObjectIdentifierError::TooLong(n)) => Err(SNMPMessageError::TooLong(n)),
        Err(_) => Err(
            SNMPMessageError::EncodeError("the first two arcs cannot be combined".to_string()),
        ),
    }
}

impl ObjectValue {
    /// Appends the encoding of the value under the tag of its type.
    pub fn encode_into(&self, out: &mut Vec<u8>) -> (r: Result<(), SNMPMessageError>)
        ensures
            match value_tlv(self@) {
                Some(e) => r is Ok && final(out)@ == old(out)@ + e,
                None => r is Err && final(out)@ == old(out)@,
            },
    {
        match self {
            ObjectValue::Integer(i) => {
                push_int_tlv(out, TAG_INTEGER, *i as i128);
                Ok(())
            },
            ObjectValue::OctetString(s) => push_bytes_tlv(out, TAG_OCTET_STRING, s),
            ObjectValue::ObjectIdentifier(o) => push_oid_tlv(out, o),
            ObjectValue::IpAddress(a) => {
                push_tlv(out, TAG_IP_ADDRESS, a.as_slice());
                Ok(())
            },
            ObjectValue::Counter32(n) => {
                push_int_tlv(out, TAG_COUNTER32, *n as i128);
                Ok(())
            },
            ObjectValue::TimeTicks(n) => {
                push_int_tlv(out, TAG_TIMETICKS, *n as i128);
                Ok(())
            },
            ObjectValue::Opaque(s) => push_bytes_tlv(out, TAG_OPAQUE, s),
            ObjectValue::Counter64(n) => {
                push_int_tlv(out, TAG_COUNTER64, *n as i128);
                Ok(())
            },
            ObjectValue::Unsigned32(n) => {
                push_int_tlv(out, TAG_UNSIGNED32, *n as i128);
                Ok(())
            },
        }
    }
}

fn decode_error(what: &str) -> (r: SNMPMessageError)
    ensures
        r matches SNMPMessageError::DecodeError(_),
{
    SNMPMessageError::DecodeError(what.to_string())
}

/// The value of an INTEGER-shaped content, if it has 1 to 9 octets and lies
/// in `lo..=hi`.
fn read_int_in(c: &Vec<u8>, lo: i128, hi: i128) -> (r: Option<i128>)
    ensures
        int_in(c@, lo as int, hi as int) <==> r is Some,
        r matches Some(x) ==> x == int_value(c@),
{
    if c.len() < 1 || c.len() > 9 {
        return None;
    }
    let x = read_int(c.as_slice());
    if x < lo || x > hi {
        None
    } else {
        Some(x)
    }
}

impl BindValue {
    /// Appends the encoding of the binding's value.
    pub fn encode_into(&self, out: &mut Vec<u8>) -> (r: Result<(), SNMPMessageError>)
        ensures
            match bind_tlv(self@) {
                Some(e) => r is Ok && final(out)@ == old(out)@ + e,
                None => r is Err && final(out)@ == old(out)@,
            },
    {
        let empty: [u8; 0] = [];
        assert(empty@ =~= seq![]);
        match self {
            BindValue::Unspecified => {
                push_tlv(out, TAG_NULL, empty.as_slice());
                Ok(())
            },
            BindValue::Value(v) => v.encode_into(out),
            BindValue::NoSuchObject => {
                push_tlv(out, TAG_NO_SUCH_OBJECT, empty.as_slice());
                Ok(())
            },
            BindValue::NoSuchInstance => {
                push_tlv(out, TAG_NO_SUCH_INSTANCE, empty.as_slice());
                Ok(())
            },
            BindValue::EndOfMibView => {
                push_tlv(out, TAG_END_OF_MIB_VIEW, empty.as_slice());
                Ok(())
            },
        }
    }

    /// The encoding of the binding's value.
    pub fn encode(&self) -> (r: Result<Vec<u8>, SNMPMessageError>)
        ensures
            match bind_tlv(self@) {
                Some(e) => r matches Ok(b) && b@ == e,
                None => r is Err,
            },
    {
        let mut out: Vec<u8> = Vec::new();
        match self.encode_into(&mut out) {
            Ok(()) => {
                assert(out@ =~= bind_tlv(self@)->Some_0);
                Ok(out)
            },
            Err(e) => Err(e),
        }
    }

    /// Reads the binding value that starts at `pos`; also returns how many
    /// octets it takes.
    pub fn decode_at(b: &[u8], pos: usize) -> (r: Result<(BindValue, usize), SNMPMessageError>)
        requires
            pos <= b@.len(),
        ensures
            match decode_bind(b@.skip(pos as int)) {
                Some((v, n)) => r matches Ok((x, m)) && x@ == v && m == n,
                None => r matches Err(SNMPMessageError::DecodeError(_)),
            },
    {
        let (tag, start, len) = match read_tlv_at(b, pos) {
            Some(t) => t,
            None => {
                return Err(decode_error("malformed element"));
            },
        };
        let total = b.len();
        assert(start + len <= total);
        let c = copy_range(b, start, len);
        let used = start + len - pos;
        let v = if tag == TAG_INTEGER {
            match read_int_in(&c, i32::MIN as i128, i32::MAX as i128) {
                Some(x) => BindValue::Value(ObjectValue::Integer(x as i32)),
                None => {
                    return Err(decode_error("INTEGER out of range"));
                },
            }
        } else if tag == TAG_OCTET_STRING {
            BindValue::Value(ObjectValue::OctetString(c))
        } else if tag == TAG_NULL {
            if c.len() != 0 {
                return Err(decode_error("NULL with content"));
            }
            BindValue::Unspecified
        } else if tag == TAG_OBJECT_IDENTIFIER {
            match ObjectIdentifier::decode(c.as_slice()) {
                Ok(o) => BindValue::Value(ObjectValue::ObjectIdentifier(o)),
                Err(_) => {
                    return Err(decode_error("malformed OBJECT IDENTIFIER"));
                },
            }
        } else if tag == TAG_IP_ADDRESS {
            if c.len() != 4 {
                return Err(decode_error("IpAddress is not four octets"));
            }
            let a: [u8; 4] = [c[0], c[1], c[2], c[3]];
            assert(a@ =~= c@);
            BindValue::Value(ObjectValue::IpAddress(a))
        } else if tag == TAG_COUNTER32 || tag == TAG_UNSIGNED32 || tag == TAG_TIMETICKS {
            match read_int_in(&c, 0, u32::MAX as i128) {
                Some(x) => {
                    let n = x as u32;
                    BindValue::Value(
                        if tag == TAG_COUNTER32 {
                            ObjectValue::Counter32(n)
                        } else if tag == TAG_UNSIGNED32 {
                            ObjectValue::Unsigned32(n)
                        } else {
                            ObjectValue::TimeTicks(n)
                        },
                    )
                },
                None => {
                    return Err(decode_error("unsigned value out of range"));
                },
            }
        } else if tag == TAG_OPAQUE {
            BindValue::Value(ObjectValue::Opaque(c))
        } else if tag == TAG_COUNTER64 {
            match read_int_in(&c, 0, u64::MAX as i128) {
                Some(x) => BindValue::Value(ObjectValue::Counter64(x as u64)),
                None => {
                    return Err(decode_error("Counter64 out of range"));
                },
            }
        } else if c.len() == 0 && tag == TAG_NO_SUCH_OBJECT {
            BindValue::NoSuchObject
        } else if c.len() == 0 && tag == TAG_NO_SUCH_INSTANCE {
            BindValue::NoSuchInstance
        } else if c.len() == 0 && tag == TAG_END_OF_MIB_VIEW {
            BindValue::EndOfMibView
        } else {
            return Err(decode_error("unknown tag"));
        };
        Ok((v, used))
    }

    /// Reads a binding value that fills `b` from its start.
    pub fn decode(b: &[u8]) -> (r: Result<BindValue, SNMPMessageError>)
        ensures
            match decode_bind(b@) {
                Some((v, n)) => if n == b@.len() {
                    r matches Ok(x) && x@ == v
                } else {
                    r matches Err(SNMPMessageError::DecodeError(_))
                },
                None => r matches Err(SNMPMessageError::DecodeError(_)),
            },
    {
        assert(b@.skip(0) =~= b@);
        let (v, used) = BindValue::decode_at(b, 0)?;
        if used != b.len() {
            return Err(decode_error("trailing octets"));
        }
        Ok(v)
    }
}

impl VarBind {
    pub fn new(name: ObjectIdentifier, value: BindValue) -> (r: Self)
        ensures
            r@ == (name@, value@),
    {
        Self { name, value }
    }

    pub fn name(&self) -> (r: &ObjectIdentifier)
        ensures
            r@ == self@.0,
    {
        &self.name
    }

    pub fn value(&self) -> (r: &BindValue)
        ensures
            r@ == self@.1,
    {
        &self.value
    }

    /// Appends the encoding of the binding.
    pub fn encode_into(&self, out: &mut Vec<u8>) -> (r: Result<(), SNMPMessageError>)
        ensures
            match var_bind_tlv(self@.0, self@.1) {
                Some(e) => r is Ok && final(out)@ == old(out)@ + e,
                None => r is Err && final(out)@ == old(out)@,
            },
            self@.0.len() > MAX_OBJECT_IDENTIFIER_LEN ==> (r matches Err(
                SNMPMessageError::TooLong(n),
            ) && n == self@.0.len()),
    {
        let mut inner: Vec<u8> = Vec::new();
        push_oid_tlv(&mut inner, &self.name)?;
        self.value.encode_into(&mut inner)?;
        if inner.len() > MAX_CONTENT_LEN {
            return Err(SNMPMessageError::EncodeError("binding too long".to_string()));
        }
        push_tlv(out, TAG_SEQUENCE, inner.as_slice());
        Ok(())
    }

    /// Reads the binding that starts at `pos`; also returns how many octets
    /// it takes.
    pub fn decode_at(b: &[u8], pos: usize) -> (r: Result<(VarBind, usize), SNMPMessageError>)
        requires
            pos <= b@.len(),
        ensures
            match decode_var_bind(b@.skip(pos as int)) {
                Some((v, n)) => r matches Ok((x, m)) && x@ == v && m == n,
                None => r matches Err(SNMPMessageError::DecodeError(_)),
            },
    {
        let (tag, start, len) = match read_tlv_at(b, pos) {
            Some(t) => t,
            None => {
                return Err(decode_error("malformed binding"));
            },
        };
        if tag != TAG_SEQUENCE {
            return Err(decode_error("binding is not a SEQUENCE"));
        }
        let total = b.len();
        assert(start + len <= total);
        let c = copy_range(b, start, len);
        let cs = c.as_slice();
        assert(cs@.skip(0) =~= cs@);
        let (t, s1, l1) = match read_tlv_at(cs, 0) {
            Some(x) => x,
            None => {
                return Err(decode_error("malformed binding name"));
            },
        };
        if t != TAG_OBJECT_IDENTIFIER {
            return Err(decode_error("binding name is not an OBJECT IDENTIFIER"));
        }
        let oc = copy_range(cs, s1, l1);
        let name = match ObjectIdentifier::decode(oc.as_slice()) {
            Ok(o) => o,
            Err(_) => {
                return Err(decode_error("malformed binding name"));
            },
        };
        let (value, m) = BindValue::decode_at(cs, s1 + l1)?;
        if s1 + l1 + m != cs.len() {
            return Err(decode_error("trailing octets in binding"));
        }
        Ok((VarBind { name, value }, start + len - pos))
    }
}

} // verus!
