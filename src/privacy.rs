use vstd::prelude::*;

use aes::Aes128;
use cbc::cipher::block_padding::NoPadding;
use cbc::cipher::{AsyncStreamCipher, BlockDecryptMut, BlockEncryptMut, KeyIvInit};
use des::Des;

use crate::snmp::PrivacyProtocol;

verus! {

/// The length of the privacy parameters (the salt) of both ciphers.
pub const SALT_LEN: usize = 8;

/// Why a scoped PDU could not be encrypted or decrypted.
#[derive(Clone, Copy, Debug, PartialEq, Eq, Structural)]
pub enum PrivacyError {
    /// The localized key is shorter than 16 octets.
    KeyTooShort,
    /// The privacy parameters are not eight octets.
    BadSalt,
    /// DES ciphertext that is not a whole number of blocks.
    BadLength,
}

pub uninterp spec fn des_cbc_encrypt_of(key: Seq<u8>, iv: Seq<u8>, data: Seq<u8>) -> Seq<u8>;

pub uninterp spec fn des_cbc_decrypt_of(key: Seq<u8>, iv: Seq<u8>, data: Seq<u8>) -> Seq<u8>;

pub uninterp spec fn aes_cfb_encrypt_of(key: Seq<u8>, iv: Seq<u8>, data: Seq<u8>) -> Seq<u8>;

pub uninterp spec fn aes_cfb_decrypt_of(key: Seq<u8>, iv: Seq<u8>, data: Seq<u8>) -> Seq<u8>;

/// Relies on cbc's `Encryptor<Des>` with `NoPadding`: DES in CBC mode over
/// whole blocks, one output octet per input octet.
#[verifier::external_body]
fn des_cbc_encrypt(key: &[u8], iv: &[u8], data: &[u8]) -> (r: Vec<u8>)
    requires
        key@.len() == 8,
        iv@.len() == 8,
        data@.len() % 8 == 0,
    ensures
        r@ == des_cbc_encrypt_of(key@, iv@, data@),
        r@.len() == data@.len(),
{
    let mut buf = data.to_vec();
    let n = buf.len();
    match cbc::Encryptor::<Des>::new_from_slices(key, iv) {
        Ok(c) => match c.encrypt_padded_mut::<NoPadding>(&mut buf, n) {
            Ok(out) => out.to_vec(),
            Err(_) => Vec::new(),
        },
        Err(_) => Vec::new(),
    }
}

/// Relies on cbc's `Decryptor<Des>` with `NoPadding`: DES in CBC mode over
/// whole blocks, one output octet per input octet.
#[verifier::external_body]
fn des_cbc_decrypt(key: &[u8], iv: &[u8], data: &[u8]) -> (r: Vec<u8>)
    requires
        key@.len() == 8,
        iv@.len() == 8,
        data@.len() % 8 == 0,
    ensures
        r@ == des_cbc_decrypt_of(key@, iv@, data@),
        r@.len() == data@.len(),
{
    let mut buf = data.to_vec();
    match cbc::Decryptor::<Des>::new_from_slices(key, iv) {
        Ok(c) => match c.decrypt_padded_mut::<NoPadding>(&mut buf) {
            Ok(out) => out.to_vec(),
            Err(_) => Vec::new(),
        },
        Err(_) => Vec::new(),
    }
}

/// Relies on cfb-mode's `Encryptor<Aes128>`: AES-128 in CFB-128 mode, one
/// output octet per input octet.
#[verifier::external_body]
fn aes_cfb_encrypt(key: &[u8], iv: &[u8], data: &[u8]) -> (r: Vec<u8>)
    requires
        key@.len() == 16,
        iv@.len() == 16,
    ensures
        r@ == aes_cfb_encrypt_of(key@, iv@, data@),
        r@.len() == data@.len(),
{
    let mut buf = data.to_vec();
    match cfb_mode::Encryptor::<Aes128>::new_from_slices(key, iv) {
        Ok(c) => {
            c.encrypt(&mut buf);
            buf
        },
        Err(_) => Vec::new(),
    }
}

/// Relies on cfb-mode's `Decryptor<Aes128>`: AES-128 in CFB-128 mode, one
/// output octet per input octet.
#[verifier::external_body]
fn aes_cfb_decrypt(key: &[u8], iv: &[u8], data: &[u8]) -> (r: Vec<u8>)
    requires
        key@.len() == 16,
        iv@.len() == 16,
    ensures
        r@ == aes_cfb_decrypt_of(key@, iv@, data@),
        r@.len() == data@.len(),
{
    let mut buf = data.to_vec();
    match cfb_mode::Decryptor::<Aes128>::new_from_slices(key, iv) {
        Ok(c) => {
            c.decrypt(&mut buf);
            buf
        },
        Err(_) => Vec::new(),
    }
}

/// Four big-endian octets.
pub open spec fn be32(v: u32) -> Seq<u8> {
    seq![
        (v / 0x100_0000) as u8,
        ((v / 0x1_0000) % 0x100) as u8,
        ((v / 0x100) % 0x100) as u8,
        (v % 0x100) as u8,
    ]
}

/// Eight big-endian octets.
pub open spec fn be64(v: u64) -> Seq<u8> {
    be32((v / 0x1_0000_0000) as u32) + be32((v % 0x1_0000_0000) as u32)
}

/// The salt a DES message carries: the engine's boots, then a local
/// counter.
pub open spec fn des_salt(boots: u32, counter: u64) -> Seq<u8> {
    be32(boots) + be32((counter % 0x1_0000_0000) as u32)
}

/// The DES IV: the last eight octets of the key, each xor the salt's.
pub open spec fn des_iv(key: Seq<u8>, salt: Seq<u8>) -> Seq<u8> {
    Seq::new(8, |i: int| key[8 + i] ^ salt[i])
}

/// The AES IV: the engine's boots and time, then the salt.
pub open spec fn aes_iv(boots: u32, time: u32, salt: Seq<u8>) -> Seq<u8> {
    be32(boots) + be32(time) + salt
}

/// Zero octets appended up to a whole number of eight-octet blocks.
pub open spec fn pad8(m: Seq<u8>) -> Seq<u8> {
    m + Seq::new(((8 - m.len() % 8) % 8) as nat, |i: int| 0u8)
}

/// What an encrypted scoped PDU and its privacy parameters are.
pub open spec fn encrypted(
    p: PrivacyProtocol,
    key: Seq<u8>,
    boots: u32,
    time: u32,
    counter: u64,
    m: Seq<u8>,
) -> (Seq<u8>, Seq<u8>) {
    match p {
        PrivacyProtocol::DES => {
            let salt = des_salt(boots, counter);
            (des_cbc_encrypt_of(key.take(8), des_iv(key, salt), pad8(m)), salt)
        },
        PrivacyProtocol::AES => {
            let salt = be64(counter);
            (aes_cfb_encrypt_of(key.take(16), aes_iv(boots, time, salt), m), salt)
        },
    }
}

/// What a received encrypted scoped PDU decrypts to.
pub open spec fn decrypted(
    p: PrivacyProtocol,
    key: Seq<u8>,
    boots: u32,
    time: u32,
    salt: Seq<u8>,
    c: Seq<u8>,
) -> Seq<u8> {
    match p {
        PrivacyProtocol::DES => des_cbc_decrypt_of(key.take(8), des_iv(key, salt), c),
        PrivacyProtocol::AES => aes_cfb_decrypt_of(key.take(16), aes_iv(boots, time, salt), c),
    }
}

fn push_be32(out: &mut Vec<u8>, v: u32)
    ensures
        final(out)@ == old(out)@ + be32(v),
{
    out.push((v / 0x100_0000) as u8);
    out.push(((v / 0x1_0000) % 0x100) as u8);
    out.push(((v / 0x100) % 0x100) as u8);
    out.push((v % 0x100) as u8);
    assert(final(out)@ =~= old(out)@ + be32(v));
}

fn take(s: &[u8], n: usize) -> (r: Vec<u8>)
    requires
        n <= s@.len(),
    ensures
        r@ == s@.take(n as int),
{
    let mut r: Vec<u8> = Vec::new();
    let mut i: usize = 0;
    while i < n
        invariant
            i <= n <= s@.len(),
            r@ == s@.take(i as int),
        decreases n - i,
    {
        r.push(s[i]);
        assert(s@.take(i + 1) =~= s@.take(i as int).push(s@[i as int]));
        i = i + 1;
    }
    r
}

fn make_des_iv(key: &[u8], salt: &[u8]) -> (r: Vec<u8>)
    requires
        key@.len() >= 16,
        salt@.len() == 8,
    ensures
        r@ == des_iv(key@, salt@),
{
    let mut r: Vec<u8> = Vec::new();
    let mut i: usize = 0;
    while i < 8
        invariant
            i <= 8,
            key@.len() >= 16,
            salt@.len() == 8,
            r@.len() == i,
            forall|j: int| 0 <= j < i ==> r@[j] == key@[8 + j] ^ salt@[j],
        decreases 8 - i,
    {
        r.push(key[8 + i] ^ salt[i]);
        i = i + 1;
    }
    assert(r@ =~= des_iv(key@, salt@));
    r
}

/// Encrypts a serialized scoped PDU with a localized privacy key; also
/// returns the privacy parameters to send. DES pads with zero octets to
/// whole blocks; the counter gives the salt.
pub fn encrypt_scoped_pdu(
    p: PrivacyProtocol,
    key: &[u8],
    boots: u32,
    time: u32,
    counter: u64,
    m: &[u8],
) -> (r: Result<(Vec<u8>, Vec<u8>), PrivacyError>)
    ensures
        key@.len() < 16 <==> r is Err,
        r matches Ok((c, salt)) ==> (c@, salt@) == encrypted(p, key@, boots, time, counter, m@),
{
    if key.len() < 16 {
        return Err(PrivacyError::KeyTooShort);
    }
    let mut salt: Vec<u8> = Vec::new();
    match p {
        PrivacyProtocol::DES => {
            push_be32(&mut salt, boots);
            push_be32(&mut salt, (counter % 0x1_0000_0000) as u32);
            assert(salt@ =~= des_salt(boots, counter));
            let mut data: Vec<u8> = Vec::new();
            let mut i: usize = 0;
            while i < m.len()
                invariant
                    i <= m@.len(),
                    data@ == m@.take(i as int),
                decreases m@.len() - i,
            {
                data.push(m[i]);
                assert(m@.take(i + 1) =~= m@.take(i as int).push(m@[i as int]));
                i = i + 1;
            }
            assert(m@.take(m@.len() as int) =~= m@);
            let ghost unpadded = data@;
            while data.len() % 8 != 0
                invariant
                    unpadded == m@,
                    data@.len() >= m@.len(),
                    data@.len() - m@.len() < 8,
                    data@.len() - m@.len() <= (8 - m@.len() % 8) % 8,
                    data@.take(m@.len() as int) == m@,
                    forall|j: int| m@.len() <= j < data@.len() ==> data@[j] == 0u8,
                decreases 8 - (data@.len() - m@.len()),
            {
                data.push(0);
            }
            assert(data@ =~= pad8(m@));
            let k = take(key, 8);
            let iv = make_des_iv(key, salt.as_slice());
            let c = des_cbc_encrypt(k.as_slice(), iv.as_slice(), data.as_slice());
            Ok((c, salt))
        },
        PrivacyProtocol::AES => {
            push_be32(&mut salt, (counter / 0x1_0000_0000) as u32);
            push_be32(&mut salt, (counter % 0x1_0000_0000) as u32);
            assert(salt@ =~= be64(counter));
            let mut iv: Vec<u8> = Vec::new();
            push_be32(&mut iv, boots);
            push_be32(&mut iv, time);
            let ghost head = iv@;
            let mut i: usize = 0;
            while i < 8
                invariant
                    i <= 8,
                    salt@.len() == 8,
                    iv@ == head + salt@.take(i as int),
                decreases 8 - i,
            {
                iv.push(salt[i]);
                assert(salt@.take(i + 1) =~= salt@.take(i as int).push(salt@[i as int]));
                i = i + 1;
            }
            assert(salt@.take(8) =~= salt@);
            assert(iv@ =~= aes_iv(boots, time, salt@));
            let k = take(key, 16);
            let c = aes_cfb_encrypt(k.as_slice(), iv.as_slice(), m);
            Ok((c, salt))
        },
    }
}

/// Decrypts a received scoped PDU with the localized privacy key and the
/// message's privacy parameters.
pub fn decrypt_scoped_pdu(
    p: PrivacyProtocol,
    key: &[u8],
    boots: u32,
    time: u32,
    salt: &[u8],
    c: &[u8],
) -> (r: Result<Vec<u8>, PrivacyError>)
    ensures
        key@.len() < 16 ==> r == Err::<Vec<u8>, _>(PrivacyError::KeyTooShort),
        key@.len() >= 16 && salt@.len() != SALT_LEN ==> r == Err::<Vec<u8>, _>(
            PrivacyError::BadSalt,
        ),
        key@.len() >= 16 && salt@.len() == SALT_LEN && p == PrivacyProtocol::DES && c@.len() % 8
            != 0 ==> r == Err::<Vec<u8>, _>(PrivacyError::BadLength),
        r matches Ok(m) ==> m@ == decrypted(p, key@, boots, time, salt@, c@),
        key@.len() >= 16 && salt@.len() == SALT_LEN && (p == PrivacyProtocol::AES || c@.len() % 8
            == 0) ==> r is Ok,
{
    if key.len() < 16 {
        return Err(PrivacyError::KeyTooShort);
    }
    if salt.len() != SALT_LEN {
        return Err(PrivacyError::BadSalt);
    }
    match p {
        PrivacyProtocol::DES => {
            if c.len() % 8 != 0 {
                return Err(PrivacyError::BadLength);
            }
            let k = take(key, 8);
            let iv = make_des_iv(key, salt);
            Ok(des_cbc_decrypt(k.as_slice(), iv.as_slice(), c))
        },
        PrivacyProtocol::AES => {
            let mut iv: Vec<u8> = Vec::new();
            push_be32(&mut iv, boots);
            push_be32(&mut iv, time);
            let ghost head = iv@;
            let mut i: usize = 0;
            while i < 8
                invariant
                    i <= 8,
                    salt@.len() == 8,
                    iv@ == head + salt@.take(i as int),
                decreases 8 - i,
            {
                iv.push(salt[i]);
                assert(salt@.take(i + 1) =~= salt@.take(i as int).push(salt@[i as int]));
                i = i + 1;
            }
            assert(salt@.take(8) =~= salt@);
            assert(iv@ =~= aes_iv(boots, time, salt@));
            let k = take(key, 16);
            Ok(aes_cfb_decrypt(k.as_slice(), iv.as_slice(), c))
        },
    }
}

} // verus!
