use vstd::prelude::*;

use simple_asn1::{BigUint, OID};

verus! {

/// The most arcs an identifier may have on the wire.
pub const MAX_OBJECT_IDENTIFIER_LEN: usize = 128;

/// The largest first sub-identifier: `40 * 2 + u32::MAX`.
pub const MAX_FIRST_SUBID: u64 = 0x1_0000_004F;

/// Why an identifier could not be read, written or decoded.
#[derive(Debug, PartialEq, Eq)]
pub enum ObjectIdentifierError {
    /// The text, carried whole, is not a dotted list of 32-bit numbers.
    ParseError(String),
    DecodeError(String),
    /// The first two arcs cannot be combined into one sub-identifier.
    EncodeError(String),
    /// The identifier has this many arcs, more than the wire allows.
    TooLong(usize),
}

// ---------------------------------------------------------------------------
// Text form
// ---------------------------------------------------------------------------

pub open spec fn is_digit(c: char) -> bool {
    '0' <= c && c <= '9'
}

/// What has been read of a dotted identifier: the finished arcs, the value
/// of the segment in progress, how many digits it has, and whether it
/// opened with a plus sign.
pub struct TextState {
    pub arcs: Seq<u32>,
    pub cur: nat,
    pub cur_len: nat,
    pub plus: bool,
}

/// Reads one more character of a dotted identifier. A segment is an
/// optional `+` and then decimal digits, as `u32`'s `from_str` reads it. A
/// dot closes a segment that has digits; a digit extends it while it fits
/// in 32 bits; anything else is an error, which is final.
pub open spec fn text_step(st: Option<TextState>, c: char) -> Option<TextState> {
    match st {
        None => None,
        Some(st) => if c == '.' {
            if st.cur_len == 0 {
                None
            } else {
                Some(
                    TextState { arcs: st.arcs.push(st.cur as u32), cur: 0, cur_len: 0, plus: false },
                )
            }
        } else if c == '+' {
            if st.cur_len == 0 && !st.plus {
                Some(TextState { arcs: st.arcs, cur: 0, cur_len: 0, plus: true })
            } else {
                None
            }
        } else if is_digit(c) {
            let v = st.cur * 10 + (c as int - '0' as int);
            if v > u32::MAX {
                None
            } else {
                Some(TextState { arcs: st.arcs, cur: v as nat, cur_len: st.cur_len + 1, plus: st.plus })
            }
        } else {
            None
        },
    }
}

pub open spec fn text_scan(s: Seq<char>) -> Option<TextState>
    decreases s.len(),
{
    if s.len() == 0 {
        Some(TextState { arcs: seq![], cur: 0, cur_len: 0, plus: false })
    } else {
        text_step(text_scan(s.drop_last()), s.last())
    }
}

/// The arcs that a dotted-decimal text denotes: non-empty segments of
/// decimal digits, each at most `u32::MAX`, separated by single dots.
pub open spec fn parse_arcs(s: Seq<char>) -> Option<Seq<u32>> {
    match text_scan(s) {
        Some(st) => if st.cur_len == 0 {
            None
        } else {
            Some(st.arcs.push(st.cur as u32))
        },
        None => None,
    }
}

proof fn lemma_text_scan_fails_on(s: Seq<char>, i: int)
    requires
        0 <= i <= s.len(),
        text_scan(s.take(i)) is None,
    ensures
        text_scan(s) is None,
    decreases s.len() - i,
{
    if i < s.len() {
        assert(s.take(i + 1).drop_last() =~= s.take(i));
        lemma_text_scan_fails_on(s, i + 1);
    } else {
        assert(s.take(i) =~= s);
    }
}

// ---------------------------------------------------------------------------
// BER content octets
// ---------------------------------------------------------------------------

/// The leading groups of a base-128 number, each with its continuation bit.
pub open spec fn base128_prefix(w: nat) -> Seq<u8>
    decreases w,
{
    if w == 0 {
        seq![]
    } else {
        base128_prefix(w / 128).push((w % 128 + 128) as u8)
    }
}

/// One sub-identifier: big-endian base 128, the continuation bit set on all
/// groups but the last.
pub open spec fn subid_bytes(v: nat) -> Seq<u8> {
    base128_prefix(v / 128).push((v % 128) as u8)
}

pub open spec fn subids_bytes(s: Seq<nat>) -> Seq<u8>
    decreases s.len(),
{
    if s.len() == 0 {
        seq![]
    } else {
        subids_bytes(s.drop_last()) + subid_bytes(s.last())
    }
}

/// The sub-identifiers of an identifier: `40 * arc0 + arc1`, then the rest.
pub open spec fn subids(arcs: Seq<u32>) -> Seq<nat> {
    seq![(40 * arcs[0] + arcs[1]) as nat] + arcs.skip(2).map_values(|a: u32| a as nat)
}

/// The first two arcs can be combined: arc0 is 0, 1 or 2, and arc1 is
/// below 40 unless arc0 is 2.
pub open spec fn first_pair_valid(arcs: Seq<u32>) -> bool {
    &&& arcs.len() >= 2
    &&& arcs[0] <= 2
    &&& arcs[0] < 2 ==> arcs[1] < 40
}

/// The content octets of an identifier with a valid first pair.
pub open spec fn encode_arcs(arcs: Seq<u32>) -> Seq<u8> {
    subids_bytes(subids(arcs))
}

/// What has been read of content octets: the finished sub-identifiers, the
/// value in progress and whether a group is open.
pub struct WireState {
    pub ids: Seq<nat>,
    pub cur: nat,
    pub open: bool,
}

/// Reads one more octet. A value past `MAX_FIRST_SUBID` is an error, which
/// is final; an octet without the continuation bit closes the value.
pub open spec fn wire_step(st: Option<WireState>, b: u8) -> Option<WireState> {
    match st {
        None => None,
        Some(st) => {
            let v = (st.cur * 128 + b % 128) as nat;
            if v > MAX_FIRST_SUBID {
                None
            } else if b < 128 {
                Some(WireState { ids: st.ids.push(v), cur: 0, open: false })
            } else {
                Some(WireState { ids: st.ids, cur: v, open: true })
            }
        },
    }
}

pub open spec fn wire_scan(b: Seq<u8>) -> Option<WireState>
    decreases b.len(),
{
    if b.len() == 0 {
        Some(WireState { ids: seq![], cur: 0, open: false })
    } else {
        wire_step(wire_scan(b.drop_last()), b.last())
    }
}

/// The arcs that a list of sub-identifiers stands for: the first splits
/// into arc0 and arc1, every arc fits in 32 bits.
pub open spec fn arcs_of_subids(ids: Seq<nat>) -> Option<Seq<u32>> {
    if ids.len() == 0 {
        None
    } else if exists|k: int| 1 <= k < ids.len() && #[trigger] ids[k] > u32::MAX {
        None
    } else {
        let v = ids[0];
        let pair: Seq<u32> = if v < 40 {
            seq![0, v as u32]
        } else if v < 80 {
            seq![1, (v - 40) as u32]
        } else {
            seq![2, (v - 80) as u32]
        };
        if v >= 80 && v - 80 > u32::MAX {
            None
        } else {
            Some(pair + ids.skip(1).map_values(|x: nat| x as u32))
        }
    }
}

/// The arcs that content octets denote, if they are well formed.
pub open spec fn decode_arcs(b: Seq<u8>) -> Option<Seq<u32>> {
    match wire_scan(b) {
        Some(st) => if st.open {
            None
        } else {
            arcs_of_subids(st.ids)
        },
        None => None,
    }
}

proof fn lemma_wire_scan_fails_on(b: Seq<u8>, i: int)
    requires
        0 <= i <= b.len(),
        wire_scan(b.take(i)) is None,
    ensures
        wire_scan(b) is None,
    decreases b.len() - i,
{
    if i < b.len() {
        assert(b.take(i + 1).drop_last() =~= b.take(i));
        lemma_wire_scan_fails_on(b, i + 1);
    } else {
        assert(b.take(i) =~= b);
    }
}

proof fn lemma_scan_prefix(p: Seq<u8>, ids: Seq<nat>, w: nat)
    requires
        wire_scan(p) == Some(WireState { ids, cur: 0, open: false }),
        w <= MAX_FIRST_SUBID,
    ensures
        wire_scan(p + base128_prefix(w)) == Some(WireState { ids, cur: w, open: w > 0 }),
    decreases w,
{
    if w == 0 {
        assert(p + base128_prefix(w) =~= p);
    } else {
        let q = p + base128_prefix(w);
        lemma_scan_prefix(p, ids, w / 128);
        assert(q.drop_last() =~= p + base128_prefix(w / 128));
        assert((w / 128) * 128 + w % 128 == w);
    }
}

proof fn lemma_scan_subid(p: Seq<u8>, ids: Seq<nat>, v: nat)
    requires
        wire_scan(p) == Some(WireState { ids, cur: 0, open: false }),
        v <= MAX_FIRST_SUBID,
    ensures
        wire_scan(p + subid_bytes(v)) == Some(WireState { ids: ids.push(v), cur: 0, open: false }),
{
    lemma_scan_prefix(p, ids, v / 128);
    assert((p + subid_bytes(v)).drop_last() =~= p + base128_prefix(v / 128));
    assert((v / 128) * 128 + v % 128 == v);
}

proof fn lemma_scan_subids(s: Seq<nat>)
    requires
        forall|k: int| 0 <= k < s.len() ==> #[trigger] s[k] <= MAX_FIRST_SUBID,
    ensures
        wire_scan(subids_bytes(s)) == Some(WireState { ids: s, cur: 0, open: false }),
    decreases s.len(),
{
    if s.len() == 0 {
        assert(s =~= seq![]);
    } else {
        lemma_scan_subids(s.drop_last());
        lemma_scan_subid(subids_bytes(s.drop_last()), s.drop_last(), s.last());
        assert(s.drop_last().push(s.last()) =~= s);
    }
}

/// Decoding the content octets of an identifier with a valid first pair
/// gives the identifier back.
pub proof fn lemma_decode_encode(arcs: Seq<u32>)
    requires
        first_pair_valid(arcs),
    ensures
        decode_arcs(encode_arcs(arcs)) == Some(arcs),
{
    let s = subids(arcs);
    assert forall|k: int| 0 <= k < s.len() implies #[trigger] s[k] <= MAX_FIRST_SUBID by {
        if k > 0 {
            assert(s[k] == arcs[k + 1] as nat);
        }
    }
    lemma_scan_subids(s);
    assert(forall|k: int| 1 <= k < s.len() ==> #[trigger] s[k] == arcs[k + 1] as nat);
    let r = arcs_of_subids(s);
    assert(r == Some(arcs)) by {
        assert(!(exists|k: int| 1 <= k < s.len() && #[trigger] s[k] > u32::MAX));
        let pair: Seq<u32> = seq![arcs[0], arcs[1]];
        assert(pair + s.skip(1).map_values(|x: nat| x as u32) =~= arcs);
    }
}

/// Reading a dotted text, encoding it and decoding the octets gives back
/// the arcs of the text, whenever its first two arcs can be combined.
pub proof fn lemma_parse_encode_decode(s: Seq<char>)
    requires
        parse_arcs(s) is Some,
        parse_arcs(s)->Some_0.len() <= MAX_OBJECT_IDENTIFIER_LEN,
        first_pair_valid(parse_arcs(s)->Some_0),
    ensures
        decode_arcs(encode_arcs(parse_arcs(s)->Some_0)) == parse_arcs(s),
{
    lemma_decode_encode(parse_arcs(s)->Some_0);
}


// ---------------------------------------------------------------------------
// Messages
// ---------------------------------------------------------------------------

pub open spec fn digit_char(d: nat) -> char {
    seq!['0', '1', '2', '3', '4', '5', '6', '7', '8', '9'][d as int]
}

/// The decimal digits of a number, without leading zeros.
pub open spec fn decimal_chars(n: nat) -> Seq<char>
    decreases n,
{
    if n < 10 {
        seq![digit_char(n)]
    } else {
        decimal_chars(n / 10).push(digit_char(n % 10))
    }
}

fn digit_str(d: usize) -> (r: &'static str)
    requires
        d < 10,
    ensures
        r@ == seq![digit_char(d as nat)],
{
    proof {
        reveal_strlit("0");
        reveal_strlit("1");
        reveal_strlit("2");
        reveal_strlit("3");
        reveal_strlit("4");
        reveal_strlit("5");
        reveal_strlit("6");
        reveal_strlit("7");
        reveal_strlit("8");
        reveal_strlit("9");
    }
    let r = match d {
        0 => "0",
        1 => "1",
        2 => "2",
        3 => "3",
        4 => "4",
        5 => "5",
        6 => "6",
        7 => "7",
        8 => "8",
        _ => "9",
    };
    assert(r@ =~= seq![digit_char(d as nat)]);
    r
}

fn push_decimal(out: &mut String, n: usize)
    ensures
        final(out)@ == old(out)@ + decimal_chars(n as nat),
    decreases n,
{
    if n >= 10 {
        push_decimal(out, n / 10);
    }
    out.append(digit_str(n % 10));
    proof {
        if n >= 10 {
            assert(old(out)@ + decimal_chars(n as nat) =~= old(out)@ + decimal_chars((n / 10) as nat)
                + seq![digit_char((n % 10) as nat)]);
        } else {
            assert(decimal_chars(n as nat) =~= seq![digit_char((n % 10) as nat)]);
        }
    }
}

impl ObjectIdentifierError {
    /// A message for the user.
    pub fn to_string(&self) -> (r: String)
        ensures
            self matches ObjectIdentifierError::ParseError(e) ==> r@ == "Parse error: "@ + e@
                + " is not the right format"@,
            self matches ObjectIdentifierError::DecodeError(e) ==> r@ == "Decode error: "@ + e@,
            self matches ObjectIdentifierError::EncodeError(e) ==> r@ == "Encode error: "@ + e@,
            self matches ObjectIdentifierError::TooLong(n) ==> r@ == "OID of length "@
                + decimal_chars(n as nat) + " exceeds the maximum: "@ + decimal_chars(
                MAX_OBJECT_IDENTIFIER_LEN as nat,
            ),
    {
        match self {
            ObjectIdentifierError::ParseError(e) => {
                let mut r = "Parse error: ".to_string();
                r.append(e.as_str());
                r.append(" is not the right format");
                r
            },
            ObjectIdentifierError::DecodeError(e) => {
                let mut r = "Decode error: ".to_string();
                r.append(e.as_str());
                r
            },
            ObjectIdentifierError::EncodeError(e) => {
                let mut r = "Encode error: ".to_string();
                r.append(e.as_str());
                r
            },
            ObjectIdentifierError::TooLong(n) => {
                let mut r = "OID of length ".to_string();
                push_decimal(&mut r, *n);
                r.append(" exceeds the maximum: ");
                push_decimal(&mut r, MAX_OBJECT_IDENTIFIER_LEN);
                r
            },
        }
    }
}

// ---------------------------------------------------------------------------
// simple_asn1's identifiers
// ---------------------------------------------------------------------------

#[verifier::external_type_specification]
#[verifier::external_body]
pub struct ExOID(OID);

/// The arcs that a simple_asn1 identifier holds.
pub uninterp spec fn oid_arcs_of(o: OID) -> Seq<nat>;

pub open spec fn arcs_as_nat(a: Seq<u32>) -> Seq<nat> {
    a.map_values(|x: u32| x as nat)
}

/// Relies on simple_asn1's `OID::new`, with each arc made a `BigUint`: the
/// identifier stores the arcs as given.
#[verifier::external_body]
fn asn1_oid_from_arcs(arcs: &Vec<u32>) -> (r: OID)
    ensures
        oid_arcs_of(r) == arcs_as_nat(arcs@),
{
    OID::new(arcs.iter().map(|&v| BigUint::from(v)).collect())
}

/// Relies on simple_asn1's `OID::as_vec::<u32>`: the arcs, or `None` when
/// one does not fit in 32 bits.
#[verifier::external_body]
fn asn1_oid_arcs(o: &OID) -> (r: Option<Vec<u32>>)
    ensures
        r is Some <==> forall|i: int|
            0 <= i < oid_arcs_of(*o).len() ==> #[trigger] oid_arcs_of(*o)[i] <= u32::MAX,
        r matches Some(v) ==> arcs_as_nat(v@) == oid_arcs_of(*o),
{
    o.as_vec::<u32>().ok()
}

// ---------------------------------------------------------------------------
// The identifier
// ---------------------------------------------------------------------------

/// A numeric object identifier: a sequence of 32-bit arcs. Any length may
/// be held; only identifiers of at most `MAX_OBJECT_IDENTIFIER_LEN` arcs
/// can be encoded.
#[derive(Debug, PartialEq, Eq)]
pub struct ObjectIdentifier {
    value: Vec<u32>,
}

impl View for ObjectIdentifier {
    type V = Seq<u32>;

    closed spec fn view(&self) -> Seq<u32> {
        self.value@
    }
}

impl Clone for ObjectIdentifier {
    fn clone(&self) -> (r: Self)
        ensures
            r@ == self@,
    {
        ObjectIdentifier { value: self.value.clone() }
    }
}

fn push_base128_prefix(out: &mut Vec<u8>, w: u64)
    ensures
        final(out)@ == old(out)@ + base128_prefix(w as nat),
    decreases w,
{
    if w > 0 {
        push_base128_prefix(out, w / 128);
        out.push((w % 128 + 128) as u8);
        assert(final(out)@ =~= old(out)@ + base128_prefix(w as nat));
    } else {
        assert(old(out)@ + base128_prefix(w as nat) =~= old(out)@);
    }
}

fn push_subid(out: &mut Vec<u8>, v: u64)
    ensures
        final(out)@ == old(out)@ + subid_bytes(v as nat),
{
    push_base128_prefix(out, v / 128);
    out.push((v % 128) as u8);
    assert(final(out)@ =~= old(out)@ + subid_bytes(v as nat));
}

impl ObjectIdentifier {
    pub fn new(oid: Vec<u32>) -> (r: Self)
        ensures
            r@ == oid@,
    {
        Self { value: oid }
    }

    pub fn get_value(&self) -> (r: Vec<u32>)
        ensures
            r@ == self@,
    {
        self.value.clone()
    }

    pub fn length(&self) -> (r: usize)
        ensures
            r == self@.len(),
    {
        self.value.len()
    }

    /// The arc at position `i`.
    pub fn arc(&self, i: usize) -> (r: u32)
        requires
            i < self@.len(),
        ensures
            r == self@[i as int],
    {
        self.value[i]
    }

    /// The identifier as simple_asn1 holds it; only identifiers of at most
    /// `MAX_OBJECT_IDENTIFIER_LEN` arcs are converted.
    pub fn to_asn1_oid(&self) -> (r: Result<OID, ObjectIdentifierError>)
        ensures
            self@.len() <= MAX_OBJECT_IDENTIFIER_LEN <==> r is Ok,
            self@.len() > MAX_OBJECT_IDENTIFIER_LEN ==> (r matches Err(
                ObjectIdentifierError::TooLong(n),
            ) && n == self@.len()),
            r matches Ok(o) ==> oid_arcs_of(o) == arcs_as_nat(self@),
    {
        if self.value.len() > MAX_OBJECT_IDENTIFIER_LEN {
            return Err(ObjectIdentifierError::TooLong(self.value.len()));
        }
        Ok(asn1_oid_from_arcs(&self.value))
    }

    /// Reads a simple_asn1 identifier whose arcs all fit in 32 bits.
    pub fn from_asn1_oid(o: &OID) -> (r: Result<ObjectIdentifier, ObjectIdentifierError>)
        ensures
            r is Ok <==> forall|i: int|
                0 <= i < oid_arcs_of(*o).len() ==> #[trigger] oid_arcs_of(*o)[i] <= u32::MAX,
            r matches Ok(x) ==> arcs_as_nat(x@) == oid_arcs_of(*o),
            r matches Err(e) ==> e is DecodeError,
    {
        match asn1_oid_arcs(o) {
            Some(v) => Ok(ObjectIdentifier::new(v)),
            None => Err(ObjectIdentifierError::DecodeError("arc too large".to_string())),
        }
    }

    /// Reads a dotted-decimal identifier such as `1.3.6.1`.
    pub fn from_str(s: &str) -> (r: Result<ObjectIdentifier, ObjectIdentifierError>)
        ensures
            parse_arcs(s@) matches Some(a) ==> (r matches Ok(o) && o@ == a),
            parse_arcs(s@) is None ==> (r matches Err(ObjectIdentifierError::ParseError(t))
                && t@ == s@),
    {
        let n = s.unicode_len();
        let mut arcs: Vec<u32> = Vec::new();
        let mut cur: u32 = 0;
        let mut cur_len: usize = 0;
        let mut plus = false;
        let mut i: usize = 0;
        assert(s@.take(0) =~= seq![]);
        while i < n
            invariant
                n == s@.len(),
                i <= n,
                cur_len <= i,
                text_scan(s@.take(i as int)) == Some(
                    TextState { arcs: arcs@, cur: cur as nat, cur_len: cur_len as nat, plus },
                ),
            decreases n - i,
        {
            let c = s.get_char(i);
            assert(s@.take(i + 1).drop_last() =~= s@.take(i as int));
            if c == '.' {
                if cur_len == 0 {
                    proof {
                        lemma_text_scan_fails_on(s@, i + 1);
                    }
                    return Err(ObjectIdentifierError::ParseError(s.to_string()));
                }
                arcs.push(cur);
                cur = 0;
                cur_len = 0;
                plus = false;
            } else if c == '+' {
                if cur_len != 0 || plus {
                    proof {
                        lemma_text_scan_fails_on(s@, i + 1);
                    }
                    return Err(ObjectIdentifierError::ParseError(s.to_string()));
                }
                plus = true;
            } else if '0' <= c && c <= '9' {
                let v: u64 = cur as u64 * 10 + (c as u64 - '0' as u64);
                if v > u32::MAX as u64 {
                    proof {
                        lemma_text_scan_fails_on(s@, i + 1);
                    }
                    return Err(ObjectIdentifierError::ParseError(s.to_string()));
                }
                cur = v as u32;
                cur_len = cur_len + 1;
            } else {
                proof {
                    lemma_text_scan_fails_on(s@, i + 1);
                }
                return Err(ObjectIdentifierError::ParseError(s.to_string()));
            }
            i = i + 1;
        }
        assert(s@.take(n as int) =~= s@);
        if cur_len == 0 {
            return Err(ObjectIdentifierError::ParseError(s.to_string()));
        }
        arcs.push(cur);
        Ok(ObjectIdentifier::new(arcs))
    }

    /// The BER content octets of the identifier.
    pub fn encode(&self) -> (r: Result<Vec<u8>, ObjectIdentifierError>)
        ensures
            self@.len() > MAX_OBJECT_IDENTIFIER_LEN ==> (r matches Err(
                ObjectIdentifierError::TooLong(n),
            ) && n == self@.len()),
            self@.len() <= MAX_OBJECT_IDENTIFIER_LEN && !first_pair_valid(self@) ==> r matches Err(
                ObjectIdentifierError::EncodeError(_),
            ),
            self@.len() <= MAX_OBJECT_IDENTIFIER_LEN && first_pair_valid(self@) ==> (r matches Ok(b)
                && b@ == encode_arcs(self@)),
    {
        let a = &self.value;
        let n = a.len();
        if n > MAX_OBJECT_IDENTIFIER_LEN {
            return Err(ObjectIdentifierError::TooLong(n));
        }
        if n < 2 || a[0] > 2 || (a[0] < 2 && a[1] >= 40) {
            return Err(
                ObjectIdentifierError::EncodeError(
                    "the first two arcs cannot be combined".to_string(),
                ),
            );
        }
        let ghost s = subids(a@);
        let mut out: Vec<u8> = Vec::new();
        let first: u64 = 40 * (a[0] as u64) + (a[1] as u64);
        push_subid(&mut out, first);
        assert(s.take(1).drop_last() =~= s.take(0));
        assert(s[0] == first as nat);
        assert(s.take(0) =~= seq![]);
        assert(subids_bytes(s.take(0)) =~= seq![]);
        assert(s.take(1).last() == s[0]);
        assert(subids_bytes(s.take(1)) == subids_bytes(s.take(0)) + subid_bytes(s[0]));
        assert(out@ =~= subids_bytes(s.take(1)));
        let mut i: usize = 2;
        while i < n
            invariant
                2 <= i <= n,
                n == a@.len(),
                s == subids(a@),
                out@ == subids_bytes(s.take(i - 1)),
            decreases n - i,
        {
            push_subid(&mut out, a[i] as u64);
            assert(s.take(i as int).drop_last() =~= s.take(i - 1));
            assert(s[i - 1] == a@[i as int] as nat);
            i = i + 1;
        }
        assert(s.take(n - 1) =~= s);
        Ok(out)
    }

    /// Reads BER content octets back into an identifier.
    pub fn decode(b: &[u8]) -> (r: Result<ObjectIdentifier, ObjectIdentifierError>)
        ensures
            decode_arcs(b@) matches Some(a) ==> (r matches Ok(o) && o@ == a),
            decode_arcs(b@) is None ==> r matches Err(ObjectIdentifierError::DecodeError(_)),
    {
        let n = b.len();
        let mut ids: Vec<u64> = Vec::new();
        let mut cur: u64 = 0;
        let mut open = false;
        let mut i: usize = 0;
        assert(b@.take(0) =~= seq![]);
        assert(ids@.map_values(|x: u64| x as nat) =~= seq![]);
        while i < n
            invariant
                n == b@.len(),
                i <= n,
                cur <= MAX_FIRST_SUBID,
                wire_scan(b@.take(i as int)) == Some(
                    WireState { ids: ids@.map_values(|x: u64| x as nat), cur: cur as nat, open },
                ),
            decreases n - i,
        {
            let byte = b[i];
            assert(b@.take(i + 1).drop_last() =~= b@.take(i as int));
            let v: u64 = cur * 128 + (byte % 128) as u64;
            if v > MAX_FIRST_SUBID {
                proof {
                    lemma_wire_scan_fails_on(b@, i + 1);
                }
                return Err(ObjectIdentifierError::DecodeError("sub-identifier too large".to_string()));
            }
            if byte < 128 {
                let ghost old_ids = ids@;
                ids.push(v);
                assert(ids@.map_values(|x: u64| x as nat) =~= old_ids.map_values(|x: u64| x as nat).push(v as nat));
                cur = 0;
                open = false;
            } else {
                cur = v;
                open = true;
            }
            i = i + 1;
        }
        assert(b@.take(n as int) =~= b@);
        if open {
            return Err(ObjectIdentifierError::DecodeError("truncated sub-identifier".to_string()));
        }
        let ghost ns = ids@.map_values(|x: u64| x as nat);
        if ids.len() == 0 {
            return Err(ObjectIdentifierError::DecodeError("no sub-identifiers".to_string()));
        }
        let v0 = ids[0];
        let mut arcs: Vec<u32> = Vec::new();
        if v0 < 40 {
            arcs.push(0);
            arcs.push(v0 as u32);
        } else if v0 < 80 {
            arcs.push(1);
            arcs.push((v0 - 40) as u32);
        } else {
            if v0 - 80 > u32::MAX as u64 {
                return Err(ObjectIdentifierError::DecodeError("first sub-identifier too large".to_string()));
            }
            arcs.push(2);
            arcs.push((v0 - 80) as u32);
        }
        let ghost pair = arcs@;
        let mut k: usize = 1;
        while k < ids.len()
            invariant
                1 <= k <= ids@.len(),
                ns == ids@.map_values(|x: u64| x as nat),
                wire_scan(b@) == Some(WireState { ids: ns, cur: cur as nat, open: false }),
                arcs@ == pair + ns.subrange(1, k as int).map_values(|x: nat| x as u32),
                forall|j: int| 1 <= j < k ==> #[trigger] ns[j] <= u32::MAX,
            decreases ids@.len() - k,
        {
            if ids[k] > u32::MAX as u64 {
                assert(ns[k as int] > u32::MAX);
                return Err(ObjectIdentifierError::DecodeError("arc too large".to_string()));
            }
            arcs.push(ids[k] as u32);
            assert(ns.subrange(1, k + 1).map_values(|x: nat| x as u32) =~= ns.subrange(1, k as int).map_values(|x: nat| x as u32).push(ids@[k as int] as u32));
            k = k + 1;
        }
        assert(ns.subrange(1, ns.len() as int) =~= ns.skip(1));
        assert(pair =~= (if ns[0] < 40 { seq![0u32, ns[0] as u32] } else if ns[0] < 80 { seq![1u32, (ns[0] - 40) as u32] } else { seq![2u32, (ns[0] - 80) as u32] }));
        Ok(ObjectIdentifier::new(arcs))
    }
}

} // verus!
