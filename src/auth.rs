use vstd::prelude::*;

use hmac::{Hmac, Mac};
use md5::{Digest, Md5};
use sha1::Sha1;

use crate::snmp::AuthProtocol;

verus! {

/// The size of the buffer that a password is stretched to before hashing.
pub const EXPANSION_LEN: usize = 1_048_576;

/// The length of the authentication parameters of HMAC-MD5-96 and
/// HMAC-SHA-96.
pub const AUTH_PARAMS_LEN: usize = 12;

/// Why a key could not be derived.
#[derive(Clone, Copy, Debug, PartialEq, Eq, Structural)]
pub enum KeyError {
    EmptyPassword,
}

pub uninterp spec fn md5_of(m: Seq<u8>) -> Seq<u8>;

pub uninterp spec fn sha1_of(m: Seq<u8>) -> Seq<u8>;

pub uninterp spec fn hmac_md5_of(key: Seq<u8>, m: Seq<u8>) -> Seq<u8>;

pub uninterp spec fn hmac_sha1_of(key: Seq<u8>, m: Seq<u8>) -> Seq<u8>;

/// Relies on md-5's `Md5::digest`: the 16-octet MD5 digest of the input.
#[verifier::external_body]
fn md5_digest(m: &[u8]) -> (r: Vec<u8>)
    ensures
        r@ == md5_of(m@),
        r@.len() == 16,
{
    Md5::digest(m).to_vec()
}

/// Relies on sha1's `Sha1::digest`: the 20-octet SHA-1 digest of the input.
#[verifier::external_body]
fn sha1_digest(m: &[u8]) -> (r: Vec<u8>)
    ensures
        r@ == sha1_of(m@),
        r@.len() == 20,
{
    Sha1::digest(m).to_vec()
}

/// Relies on hmac's `Hmac<Md5>`: the 16-octet HMAC-MD5 of `m` under `key`;
/// `new_from_slice` takes a key of any length.
#[verifier::external_body]
fn hmac_md5(key: &[u8], m: &[u8]) -> (r: Vec<u8>)
    ensures
        r@ == hmac_md5_of(key@, m@),
        r@.len() == 16,
{
    match Hmac::<Md5>::new_from_slice(key) {
        Ok(mac) => mac.chain_update(m).finalize().into_bytes().to_vec(),
        Err(_) => Vec::new(),
    }
}

/// Relies on hmac's `Hmac<Sha1>`: the 20-octet HMAC-SHA-1 of `m` under
/// `key`; `new_from_slice` takes a key of any length.
#[verifier::external_body]
fn hmac_sha1(key: &[u8], m: &[u8]) -> (r: Vec<u8>)
    ensures
        r@ == hmac_sha1_of(key@, m@),
        r@.len() == 20,
{
    match Hmac::<Sha1>::new_from_slice(key) {
        Ok(mac) => mac.chain_update(m).finalize().into_bytes().to_vec(),
        Err(_) => Vec::new(),
    }
}

/// The digest of the protocol.
pub open spec fn digest_of(p: AuthProtocol, m: Seq<u8>) -> Seq<u8> {
    match p {
        AuthProtocol::MD5 => md5_of(m),
        AuthProtocol::SHA => sha1_of(m),
    }
}

/// The keyed digest of the protocol.
pub open spec fn hmac_of(p: AuthProtocol, key: Seq<u8>, m: Seq<u8>) -> Seq<u8> {
    match p {
        AuthProtocol::MD5 => hmac_md5_of(key, m),
        AuthProtocol::SHA => hmac_sha1_of(key, m),
    }
}

pub open spec fn digest_len(p: AuthProtocol) -> nat {
    match p {
        AuthProtocol::MD5 => 16,
        AuthProtocol::SHA => 20,
    }
}

/// The password repeated over and over to fill the expansion buffer.
pub open spec fn expand_password(pw: Seq<u8>) -> Seq<u8> {
    Seq::new(EXPANSION_LEN as nat, |i: int| pw[i % pw.len() as int])
}

/// The key a password stands for, before it is bound to an engine.
pub open spec fn password_key(p: AuthProtocol, pw: Seq<u8>) -> Seq<u8> {
    digest_of(p, expand_password(pw))
}

/// A key bound to one engine: the digest of key, engine id, key.
pub open spec fn localized_key(p: AuthProtocol, key: Seq<u8>, engine_id: Seq<u8>) -> Seq<u8> {
    digest_of(p, key + engine_id + key)
}

/// A message with the authentication parameters at `pos` set to zero.
pub open spec fn zeroed_at(m: Seq<u8>, pos: int) -> Seq<u8> {
    m.take(pos) + Seq::new(AUTH_PARAMS_LEN as nat, |i: int| 0u8) + m.skip(pos + AUTH_PARAMS_LEN)
}

/// The authentication parameters of a message: the leading octets of the
/// keyed digest of the message with those parameters zeroed.
pub open spec fn auth_params(p: AuthProtocol, key: Seq<u8>, m: Seq<u8>, pos: int) -> Seq<u8> {
    hmac_of(p, key, zeroed_at(m, pos)).take(AUTH_PARAMS_LEN as int)
}

/// The digest of the protocol.
pub fn digest(p: AuthProtocol, m: &[u8]) -> (r: Vec<u8>)
    ensures
        r@ == digest_of(p, m@),
        r@.len() == digest_len(p),
{
    match p {
        AuthProtocol::MD5 => md5_digest(m),
        AuthProtocol::SHA => sha1_digest(m),
    }
}

/// The keyed digest (HMAC) of the protocol.
pub fn keyed_digest(p: AuthProtocol, key: &[u8], m: &[u8]) -> (r: Vec<u8>)
    ensures
        r@ == hmac_of(p, key@, m@),
        r@.len() == digest_len(p),
{
    match p {
        AuthProtocol::MD5 => hmac_md5(key, m),
        AuthProtocol::SHA => hmac_sha1(key, m),
    }
}

/// Stretches a password to the expansion buffer.
pub fn expand(password: &[u8]) -> (r: Vec<u8>)
    requires
        password@.len() > 0,
    ensures
        r@ == expand_password(password@),
{
    let n = password.len();
    let mut buf: Vec<u8> = Vec::with_capacity(EXPANSION_LEN);
    let mut i: usize = 0;
    while i < EXPANSION_LEN
        invariant
            n == password@.len() > 0,
            i <= EXPANSION_LEN,
            buf@.len() == i,
            forall|j: int| 0 <= j < i ==> buf@[j] == password@[j % n as int],
        decreases EXPANSION_LEN - i,
    {
        buf.push(password[i % n]);
        i = i + 1;
    }
    assert(buf@ =~= expand_password(password@));
    buf
}

/// The key that a password stands for under the protocol's digest.
pub fn password_to_key(p: AuthProtocol, password: &[u8]) -> (r: Result<Vec<u8>, KeyError>)
    ensures
        password@.len() == 0 <==> r is Err,
        r matches Ok(k) ==> k@ == password_key(p, password@) && k@.len() == digest_len(p),
{
    if password.len() == 0 {
        return Err(KeyError::EmptyPassword);
    }
    let buf = expand(password);
    Ok(digest(p, buf.as_slice()))
}

/// Binds a key to an engine.
pub fn localize_key(p: AuthProtocol, key: &[u8], engine_id: &[u8]) -> (r: Vec<u8>)
    ensures
        r@ == localized_key(p, key@, engine_id@),
        r@.len() == digest_len(p),
{
    let mut m: Vec<u8> = Vec::new();
    append(&mut m, key);
    append(&mut m, engine_id);
    append(&mut m, key);
    assert(m@ =~= key@ + engine_id@ + key@);
    digest(p, m.as_slice())
}

/// The localized authentication key of a user for an engine.
pub fn user_key(p: AuthProtocol, password: &[u8], engine_id: &[u8]) -> (r: Result<Vec<u8>, KeyError>)
    ensures
        password@.len() == 0 <==> r is Err,
        r matches Ok(k) ==> k@ == localized_key(p, password_key(p, password@), engine_id@)
            && k@.len() == digest_len(p),
{
    let ku = password_to_key(p, password)?;
    Ok(localize_key(p, ku.as_slice(), engine_id))
}

fn append(out: &mut Vec<u8>, s: &[u8])
    ensures
        final(out)@ == old(out)@ + s@,
{
    let mut i: usize = 0;
    let ghost start = out@;
    while i < s.len()
        invariant
            i <= s@.len(),
            out@ == start + s@.take(i as int),
        decreases s@.len() - i,
    {
        out.push(s[i]);
        assert(s@.take(i + 1) =~= s@.take(i as int).push(s@[i as int]));
        i = i + 1;
    }
    assert(s@.take(s@.len() as int) =~= s@);
}

/// The message with the twelve octets at `pos` set to zero.
pub fn zero_auth_params(m: &[u8], pos: usize) -> (r: Vec<u8>)
    requires
        pos + AUTH_PARAMS_LEN <= m@.len(),
    ensures
        r@ == zeroed_at(m@, pos as int),
{
    let mut r: Vec<u8> = Vec::new();
    let n = m.len();
    let mut i: usize = 0;
    while i < n
        invariant
            n == m@.len(),
            pos + AUTH_PARAMS_LEN <= n,
            i <= n,
            r@.len() == i,
            forall|j: int| 0 <= j < i ==> r@[j] == zeroed_at(m@, pos as int)[j],
        decreases n - i,
    {
        if i >= pos && i < pos + AUTH_PARAMS_LEN {
            r.push(0);
        } else {
            r.push(m[i]);
        }
        i = i + 1;
    }
    assert(r@ =~= zeroed_at(m@, pos as int));
    r
}

/// The authentication parameters of a message whose parameters field
/// starts at `pos`: whatever the field holds, it counts as zero.
pub fn compute_auth_params(p: AuthProtocol, key: &[u8], m: &[u8], pos: usize) -> (r: Vec<u8>)
    requires
        pos + AUTH_PARAMS_LEN <= m@.len(),
    ensures
        r@ == auth_params(p, key@, m@, pos as int),
        r@.len() == AUTH_PARAMS_LEN,
{
    let z = zero_auth_params(m, pos);
    let d = keyed_digest(p, key, z.as_slice());
    let mut r: Vec<u8> = Vec::new();
    let mut i: usize = 0;
    while i < AUTH_PARAMS_LEN
        invariant
            i <= AUTH_PARAMS_LEN <= d@.len(),
            r@ == d@.take(i as int),
        decreases AUTH_PARAMS_LEN - i,
    {
        r.push(d[i]);
        assert(d@.take(i + 1) =~= d@.take(i as int).push(d@[i as int]));
        i = i + 1;
    }
    r
}

/// Writes the authentication parameters into a message before it is sent.
pub fn sign_message(p: AuthProtocol, key: &[u8], m: &mut Vec<u8>, pos: usize)
    requires
        pos + AUTH_PARAMS_LEN <= old(m)@.len(),
    ensures
        final(m)@ == old(m)@.take(pos as int) + auth_params(p, key@, old(m)@, pos as int) + old(
            m,
        )@.skip(pos + AUTH_PARAMS_LEN),
{
    let a = compute_auth_params(p, key, m.as_slice(), pos);
    let ghost before = m@;
    let n = m.len();
    let mut i: usize = 0;
    while i < AUTH_PARAMS_LEN
        invariant
            i <= AUTH_PARAMS_LEN,
            a@.len() == AUTH_PARAMS_LEN,
            m@.len() == before.len() == n,
            pos + AUTH_PARAMS_LEN <= before.len(),
            forall|j: int| 0 <= j < m@.len() && !(pos <= j < pos + i) ==> m@[j] == before[j],
            forall|j: int| pos <= j < pos + i ==> m@[j] == a@[j - pos],
        decreases AUTH_PARAMS_LEN - i,
    {
        m.set(pos + i, a[i]);
        i = i + 1;
    }
    assert(m@ =~= before.take(pos as int) + a@ + before.skip(pos + AUTH_PARAMS_LEN));
}

/// Checks the authentication parameters of a received message, in time
/// that does not depend on where they differ.
pub fn verify_message(p: AuthProtocol, key: &[u8], m: &[u8], pos: usize) -> (r: bool)
    requires
        pos + AUTH_PARAMS_LEN <= m@.len(),
    ensures
        r == (m@.subrange(pos as int, pos + AUTH_PARAMS_LEN) == auth_params(
            p,
            key@,
            m@,
            pos as int,
        )),
{
    let a = compute_auth_params(p, key, m, pos);
    let mut diff: u8 = 0;
    let n = m.len();
    let mut i: usize = 0;
    while i < AUTH_PARAMS_LEN
        invariant
            i <= AUTH_PARAMS_LEN,
            n == m@.len(),
            a@.len() == AUTH_PARAMS_LEN,
            pos + AUTH_PARAMS_LEN <= m@.len(),
            (diff == 0) <==> (forall|j: int| 0 <= j < i ==> m@[pos + j] == a@[j]),
        decreases AUTH_PARAMS_LEN - i,
    {
        let x = m[pos + i];
        let y = a[i];
        let d = diff | (x ^ y);
        assert((d == 0) <==> (diff == 0 && x == y)) by (bit_vector)
            requires
                d == diff | (x ^ y),
        ;
        diff = d;
        i = i + 1;
    }
    let r = diff == 0;
    assert(r == (m@.subrange(pos as int, pos + AUTH_PARAMS_LEN) =~= a@));
    r
}

} // verus!
