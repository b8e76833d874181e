use vstd::prelude::*;

verus! {

/// Why a message could not be built or read.
#[derive(Debug, PartialEq, Eq)]
pub enum SNMPMessageError {
    DecodeError(String),
    EncodeError(String),
    ParseError(String),
    /// An identifier with this many arcs is too long for the wire.
    TooLong(usize),
}

/// The longest content that a length field here can carry.
pub const MAX_CONTENT_LEN: usize = 0xFF_FFFF;

/// The definite length field of a content of `n` octets: one octet below
/// 128, else `0x80 | k` followed by `k` big-endian octets.
pub open spec fn length_bytes(n: nat) -> Seq<u8> {
    if n < 128 {
        seq![n as u8]
    } else if n < 0x100 {
        seq![0x81u8, n as u8]
    } else if n < 0x1_0000 {
        seq![0x82u8, (n / 0x100) as u8, (n % 0x100) as u8]
    } else {
        seq![0x83u8, (n / 0x1_0000) as u8, ((n / 0x100) % 0x100) as u8, (n % 0x100) as u8]
    }
}

/// A tag, the length of the content, and the content.
pub open spec fn tlv(tag: u8, content: Seq<u8>) -> Seq<u8> {
    seq![tag] + length_bytes(content.len()) + content
}

/// The tag, header length and content length at the start of `b`.
pub open spec fn read_header(b: Seq<u8>) -> Option<(u8, nat, nat)> {
    if b.len() < 2 {
        None
    } else if b[1] < 128 {
        Some((b[0], 2nat, b[1] as nat))
    } else if b[1] == 0x81 && b.len() >= 3 {
        Some((b[0], 3nat, b[2] as nat))
    } else if b[1] == 0x82 && b.len() >= 4 {
        Some((b[0], 4nat, (b[2] * 0x100 + b[3]) as nat))
    } else if b[1] == 0x83 && b.len() >= 5 {
        Some((b[0], 5nat, (b[2] * 0x1_0000 + b[3] * 0x100 + b[4]) as nat))
    } else {
        None
    }
}

/// The element at the start of `b`: its tag, its content, and how many
/// octets it takes.
pub open spec fn read_tlv(b: Seq<u8>) -> Option<(u8, Seq<u8>, nat)> {
    match read_header(b) {
        Some((tag, h, n)) => if h + n <= b.len() {
            Some((tag, b.subrange(h as int, (h + n) as int), h + n))
        } else {
            None
        },
        None => None,
    }
}

/// An element is read back from its encoding, whatever follows it.
pub proof fn lemma_read_tlv(tag: u8, c: Seq<u8>, rest: Seq<u8>)
    requires
        c.len() <= MAX_CONTENT_LEN,
    ensures
        read_tlv(tlv(tag, c) + rest) == Some((tag, c, tlv(tag, c).len())),
{
    let b = tlv(tag, c) + rest;
    let h = 1 + length_bytes(c.len()).len();
    assert(b.subrange(h as int, (h + c.len()) as int) =~= c);
    let n = c.len();
    if n >= 0x100 && n < 0x1_0000 {
        assert((n / 0x100) * 0x100 + n % 0x100 == n);
    } else if n >= 0x1_0000 {
        assert((n / 0x1_0000) * 0x1_0000 + ((n / 0x100) % 0x100) * 0x100 + n % 0x100 == n);
    }
}

pub open spec fn signed_octet(b: u8) -> int {
    if b < 128 {
        b as int
    } else {
        b - 256
    }
}

/// Minimal two's-complement content of an INTEGER.
pub open spec fn int_content(v: int) -> Seq<u8>
    decreases (if v < 0 {
        -v
    } else {
        v
    }),
{
    if -128 <= v < 128 {
        seq![(v % 256) as u8]
    } else {
        int_content(v / 256).push((v % 256) as u8)
    }
}

/// The number that two's-complement content octets stand for.
pub open spec fn int_value(c: Seq<u8>) -> int
    decreases c.len(),
{
    if c.len() <= 1 {
        if c.len() == 0 {
            0
        } else {
            signed_octet(c[0])
        }
    } else {
        int_value(c.drop_last()) * 256 + c.last()
    }
}

/// Half the range of `k` two's-complement octets.
pub open spec fn half_range(k: nat) -> int
    decreases k,
{
    if k <= 1 {
        128
    } else {
        256 * half_range((k - 1) as nat)
    }
}

pub proof fn lemma_int_round_trip(v: int)
    ensures
        int_value(int_content(v)) == v,
        int_content(v).len() >= 1,
    decreases (if v < 0 {
        -v
    } else {
        v
    }),
{
    if -128 <= v < 128 {
    } else {
        lemma_int_round_trip(v / 256);
        assert(int_content(v).drop_last() =~= int_content(v / 256));
    }
}

pub proof fn lemma_int_content_len(v: int, k: nat)
    requires
        k >= 1,
        -half_range(k) <= v < half_range(k),
    ensures
        int_content(v).len() <= k,
    decreases k,
{
    if -128 <= v < 128 {
    } else {
        assert(k > 1);
        lemma_int_content_len(v / 256, (k - 1) as nat);
    }
}

pub proof fn lemma_half_range_values()
    ensures
        half_range(4) == 0x8000_0000,
        half_range(5) == 0x80_0000_0000,
        half_range(9) == 0x80_0000_0000_0000_0000,
{
    reveal_with_fuel(half_range, 10);
}


/// Appends the length field of a content of `n` octets.
pub fn push_length(out: &mut Vec<u8>, n: usize)
    requires
        n <= MAX_CONTENT_LEN,
    ensures
        final(out)@ == old(out)@ + length_bytes(n as nat),
{
    if n < 128 {
        out.push(n as u8);
    } else if n < 0x100 {
        out.push(0x81);
        out.push(n as u8);
    } else if n < 0x1_0000 {
        out.push(0x82);
        out.push((n / 0x100) as u8);
        out.push((n % 0x100) as u8);
    } else {
        out.push(0x83);
        out.push((n / 0x1_0000) as u8);
        out.push(((n / 0x100) % 0x100) as u8);
        out.push((n % 0x100) as u8);
    }
    assert(final(out)@ =~= old(out)@ + length_bytes(n as nat));
}

/// Appends one element: tag, length, content.
pub fn push_tlv(out: &mut Vec<u8>, tag: u8, content: &[u8])
    requires
        content@.len() <= MAX_CONTENT_LEN,
    ensures
        final(out)@ == old(out)@ + tlv(tag, content@),
{
    out.push(tag);
    push_length(out, content.len());
    let mut i: usize = 0;
    let ghost mid = out@;
    while i < content.len()
        invariant
            i <= content@.len(),
            out@ == mid + content@.take(i as int),
        decreases content@.len() - i,
    {
        out.push(content[i]);
        assert(content@.take(i + 1) =~= content@.take(i as int).push(content@[i as int]));
        i = i + 1;
    }
    assert(content@.take(content@.len() as int) =~= content@);
    assert(final(out)@ =~= old(out)@ + tlv(tag, content@));
}

/// Appends the minimal two's-complement content of `v`.
pub fn push_int_content(out: &mut Vec<u8>, v: i128)
    requires
        -0x80_0000_0000_0000_0000 <= v < 0x80_0000_0000_0000_0000,
    ensures
        final(out)@ == old(out)@ + int_content(v as int),
    decreases (if v < 0 {
        -(v as int)
    } else {
        v as int
    }),
{
    if -128 <= v && v < 128 {
        let b: u8 = if v < 0 {
            (v + 256) as u8
        } else {
            v as u8
        };
        out.push(b);
    } else {
        let q: i128;
        let r: u8;
        if v < 0 {
            let w = (-v - 1) as u128;
            q = -((w / 256) as i128) - 1;
            r = (255 - w % 256) as u8;
        } else {
            q = v / 256;
            r = (v % 256) as u8;
        }
        assert(q == v / 256 && r == v % 256);
        push_int_content(out, q);
        out.push(r);
    }
    assert(final(out)@ =~= old(out)@ + int_content(v as int));
}

/// The number that 1 to 9 content octets stand for.
pub fn read_int(c: &[u8]) -> (r: i128)
    requires
        1 <= c@.len() <= 9,
    ensures
        r == int_value(c@),
{
    let mut acc: i128 = if c[0] < 128 {
        c[0] as i128
    } else {
        c[0] as i128 - 256
    };
    let mut j: usize = 1;
    assert(c@.take(1).len() == 1);
    while j < c.len()
        invariant
            1 <= j <= c@.len() <= 9,
            acc == int_value(c@.take(j as int)),
            -half_range(j as nat) <= acc < half_range(j as nat),
        decreases c@.len() - j,
    {
        proof {
            reveal_with_fuel(half_range, 10);
            assert(half_range(j as nat) <= 0x80_0000_0000_0000_0000) by {
                assert(j <= 8);
            }
        }
        assert(c@.take(j + 1).drop_last() =~= c@.take(j as int));
        acc = acc * 256 + c[j] as i128;
        j = j + 1;
    }
    assert(c@.take(c@.len() as int) =~= c@);
    acc
}

/// The position, tag and content span of the element at `pos`.
pub fn read_tlv_at(b: &[u8], pos: usize) -> (r: Option<(u8, usize, usize)>)
    requires
        pos <= b@.len(),
    ensures
        match read_tlv(b@.skip(pos as int)) {
            None => r is None,
            Some((tag, c, n)) => r matches Some((t, start, len)) && t == tag && start + len
                <= b@.len() && c == b@.subrange(start as int, start + len) && n == start + len
                - pos,
        },
        r matches Some((t, start, len)) ==> pos <= start && start + len <= b@.len(),
{
    let ghost s = b@.skip(pos as int);
    let rem = b.len() - pos;
    if rem < 2 {
        return None;
    }
    let tag = b[pos];
    let l = b[pos + 1];
    let h: usize;
    let n: usize;
    if l < 128 {
        h = 2;
        n = l as usize;
    } else if l == 0x81 && rem >= 3 {
        h = 3;
        n = b[pos + 2] as usize;
    } else if l == 0x82 && rem >= 4 {
        h = 4;
        n = b[pos + 2] as usize * 0x100 + b[pos + 3] as usize;
    } else if l == 0x83 && rem >= 5 {
        h = 5;
        n = b[pos + 2] as usize * 0x1_0000 + b[pos + 3] as usize * 0x100 + b[pos + 4] as usize;
    } else {
        return None;
    }
    assert(read_header(s) == Some((tag, h as nat, n as nat)));
    if n > rem - h {
        return None;
    }
    assert(s.subrange(h as int, (h + n) as int) =~= b@.subrange(pos + h, pos + h + n));
    Some((tag, pos + h, n))
}

/// A copy of `b[start..start + len]`.
pub fn copy_range(b: &[u8], start: usize, len: usize) -> (r: Vec<u8>)
    requires
        start + len <= b@.len(),
    ensures
        r@ == b@.subrange(start as int, start + len),
{
    let mut r: Vec<u8> = Vec::new();
    let mut i: usize = 0;
    let total = b.len();
    while i < len
        invariant
            total == b@.len(),
            i <= len,
            start + len <= b@.len(),
            r@ == b@.subrange(start as int, start + i),
        decreases len - i,
    {
        assert(start + i < b@.len());
        r.push(b[start + i]);
        assert(b@.subrange(start as int, start + i + 1) =~= b@.subrange(start as int, start + i).push(b@[start + i]));
        i = i + 1;
    }
    r
}

} // verus!
