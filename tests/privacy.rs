use snmp::privacy::{decrypt_scoped_pdu, encrypt_scoped_pdu, PrivacyError};
use snmp::snmp::PrivacyProtocol;

fn hex(s: &str) -> Vec<u8> {
    (0..s.len())
        .step_by(2)
        .map(|i| u8::from_str_radix(&s[i..i + 2], 16).unwrap())
        .collect()
}

#[test]
fn aes_matches_published_cfb_vector() {
    // IV 000102...0f is boots 0x00010203, time 0x04050607, salt 0x08090a0b0c0d0e0f.
    let key = hex("2b7e151628aed2a6abf7158809cf4f3c");
    let plain = hex("6bc1bee22e409f96e93d7e117393172a");
    let (c, salt) = encrypt_scoped_pdu(
        PrivacyProtocol::AES,
        &key,
        0x0001_0203,
        0x0405_0607,
        0x0809_0a0b_0c0d_0e0f,
        &plain,
    )
    .unwrap();
    assert_eq!(c, hex("3b3fd92eb72dad20333449f8e83cfb4a"));
    assert_eq!(salt, hex("08090a0b0c0d0e0f"));
    let back =
        decrypt_scoped_pdu(PrivacyProtocol::AES, &key, 0x0001_0203, 0x0405_0607, &salt, &c)
            .unwrap();
    assert_eq!(back, plain);
}

#[test]
fn des_matches_published_cbc_vector() {
    // The key's second half is the pre-IV; with boots 0 and counter 0 the
    // salt is zero and the IV is the pre-IV itself.
    let key = hex("0123456789abcdef1234567890abcdef");
    let plain = b"Now is the time for all ".to_vec();
    let (c, salt) = encrypt_scoped_pdu(PrivacyProtocol::DES, &key, 0, 0, 0, &plain).unwrap();
    assert_eq!(salt, vec![0; 8]);
    assert_eq!(
        c,
        hex("e5c7cdde872bf27c43e934008c389c0f683788499a7c05f6")
    );
    let back = decrypt_scoped_pdu(PrivacyProtocol::DES, &key, 0, 0, &salt, &c).unwrap();
    assert_eq!(back, plain);
}

#[test]
fn des_pads_and_salts() {
    let key = hex("00112233445566778899aabbccddeeff");
    let plain = vec![0x30, 0x03, 0x04, 0x01, 0x41];
    let (c, salt) = encrypt_scoped_pdu(PrivacyProtocol::DES, &key, 5, 0, 0x1_0000_0007, &plain).unwrap();
    assert_eq!(salt, vec![0, 0, 0, 5, 0, 0, 0, 7]);
    assert_eq!(c.len(), 8);
    let back = decrypt_scoped_pdu(PrivacyProtocol::DES, &key, 5, 0, &salt, &c).unwrap();
    assert_eq!(&back[..5], &plain[..]);
    assert_eq!(&back[5..], &[0, 0, 0]);
}

#[test]
fn privacy_errors() {
    let short = vec![1; 15];
    assert_eq!(
        encrypt_scoped_pdu(PrivacyProtocol::AES, &short, 0, 0, 0, b"x"),
        Err(PrivacyError::KeyTooShort)
    );
    let key = vec![1; 16];
    assert_eq!(
        decrypt_scoped_pdu(PrivacyProtocol::AES, &key, 0, 0, &[0; 7], b"x"),
        Err(PrivacyError::BadSalt)
    );
    assert_eq!(
        decrypt_scoped_pdu(PrivacyProtocol::DES, &key, 0, 0, &[0; 8], &[0; 9]),
        Err(PrivacyError::BadLength)
    );
}
