use snmp::auth::{
    compute_auth_params, digest, expand, keyed_digest, localize_key, password_to_key, sign_message,
    user_key, verify_message, KeyError,
};
use snmp::snmp::AuthProtocol;

fn hex(s: &str) -> Vec<u8> {
    (0..s.len())
        .step_by(2)
        .map(|i| u8::from_str_radix(&s[i..i + 2], 16).unwrap())
        .collect()
}

const ENGINE: &str = "000000000000000000000002";

#[test]
fn md5_key_derivation_matches_published_vector() {
    let ku = password_to_key(AuthProtocol::MD5, b"maplesyrup").unwrap();
    assert_eq!(ku, hex("9faf3283884e92834ebc9847d8edd963"));
    let kul = localize_key(AuthProtocol::MD5, &ku, &hex(ENGINE));
    assert_eq!(kul, hex("526f5eed9fcce26f8964c2930787d82b"));
}

#[test]
fn sha_key_derivation_matches_published_vector() {
    let ku = password_to_key(AuthProtocol::SHA, b"maplesyrup").unwrap();
    assert_eq!(ku, hex("9fb5cc0381497b3793528939ff788d5d79145211"));
    let kul = user_key(AuthProtocol::SHA, b"maplesyrup", &hex(ENGINE)).unwrap();
    assert_eq!(kul, hex("6695febc9288e36282235fc7151f128497b38f3f"));
}

#[test]
fn empty_password_is_refused() {
    assert_eq!(password_to_key(AuthProtocol::MD5, b""), Err(KeyError::EmptyPassword));
}

#[test]
fn expansion_repeats_the_password() {
    let buf = expand(b"abc");
    assert_eq!(buf.len(), 1_048_576);
    assert_eq!(&buf[..7], b"abcabca");
    assert_eq!(buf[1_048_575], b"abc"[1_048_575 % 3]);
}

#[test]
fn digests_and_keyed_digests() {
    assert_eq!(digest(AuthProtocol::MD5, b""), hex("d41d8cd98f00b204e9800998ecf8427e"));
    assert_eq!(
        digest(AuthProtocol::SHA, b"abc"),
        hex("a9993e364706816aba3e25717850c26c9cd0d89d")
    );
    assert_eq!(
        keyed_digest(AuthProtocol::MD5, &[0x0b; 16], b"Hi There"),
        hex("9294727a3638bb1c13f48ef8158bfc9d")
    );
    assert_eq!(
        keyed_digest(AuthProtocol::SHA, &[0x0b; 20], b"Hi There"),
        hex("b617318655057264e28bc0b6fb378c8ef146be00")
    );
}

#[test]
fn signing_fills_the_zeroed_field_and_verifies() {
    let key = hex("526f5eed9fcce26f8964c2930787d82b");
    let mut msg: Vec<u8> = (0u8..40).collect();
    let pos = 10;
    let mut zeroed = msg.clone();
    for b in &mut zeroed[pos..pos + 12] {
        *b = 0;
    }
    let expected = keyed_digest(AuthProtocol::MD5, &key, &zeroed)[..12].to_vec();
    assert_eq!(compute_auth_params(AuthProtocol::MD5, &key, &msg, pos), expected);
    sign_message(AuthProtocol::MD5, &key, &mut msg, pos);
    assert_eq!(&msg[pos..pos + 12], &expected[..]);
    assert_eq!(&msg[..pos], &(0u8..10).collect::<Vec<u8>>()[..]);
    assert!(verify_message(AuthProtocol::MD5, &key, &msg, pos));
    msg[pos + 11] ^= 1;
    assert!(!verify_message(AuthProtocol::MD5, &key, &msg, pos));
    msg[pos + 11] ^= 1;
    msg[39] ^= 1;
    assert!(!verify_message(AuthProtocol::MD5, &key, &msg, pos));
}
