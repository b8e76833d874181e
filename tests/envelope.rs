use snmp::auth::{sign_message, user_key, verify_message};
use snmp::client::{ClientError, MAX_MESSAGE_SIZE};
use snmp::envelope::{
    decode_decrypted_scoped_bytes, decode_v3_message, decode_v3_private_message, encode_scoped_pdu,
    encode_v3_message, encode_v3_private_message, V3Header, FLAG_AUTH, FLAG_PRIV, FLAG_REPORTABLE,
};
use snmp::privacy::{decrypt_scoped_pdu, encrypt_scoped_pdu};
use snmp::obj_ident::ObjectIdentifier;
use snmp::params::{new_params_v2c, new_params_v3};
use snmp::pdu::{PDUType, PDU};
use snmp::snmp::{AuthProtocol, PrivacyProtocol, SNMPClientV3};
use snmp::usm::{EngineState, SecurityError};
use snmp::var_bind::{BindValue, ObjectValue, VarBind};

#[test]
fn discovery_request_layout() {
    let params = new_params_v3("h", "user", AuthProtocol::MD5, "maplesyrup", PrivacyProtocol::DES, "p");
    let client = SNMPClientV3::new(&params);
    let m = client.discovery_request(1, 1).unwrap();
    let expected = vec![
        0x30, 0x38, // message
        0x02, 0x01, 0x03, // version 3
        0x30, 0x0E, 0x02, 0x01, 0x01, 0x02, 0x03, 0x00, 0xFF, 0xE3, 0x04, 0x01, 0x04, 0x02, 0x01,
        0x03, // header
        0x04, 0x10, 0x30, 0x0E, 0x04, 0x00, 0x02, 0x01, 0x00, 0x02, 0x01, 0x00, 0x04, 0x00, 0x04,
        0x00, 0x04, 0x00, // security parameters
        0x30, 0x11, 0x04, 0x00, 0x04, 0x00, 0xA0, 0x0B, 0x02, 0x01, 0x01, 0x02, 0x01, 0x00, 0x02,
        0x01, 0x00, 0x30, 0x00, // scoped PDU
    ];
    assert_eq!(m, expected);
}

fn engine_id() -> Vec<u8> {
    vec![0, 0, 0, 0, 0, 0, 0, 0, 0, 0, 0, 2]
}

#[test]
fn authenticated_request_is_signed_with_the_localized_key() {
    let params = new_params_v3("h", "user", AuthProtocol::MD5, "maplesyrup", PrivacyProtocol::DES, "p");
    let client = SNMPClientV3::new(&params);
    let engine = EngineState::new(engine_id(), 7, 1234);
    let binds = vec![VarBind::new(
        ObjectIdentifier::from_str("1.3.6.1.2.1.1.1.0").unwrap(),
        BindValue::Unspecified,
    )];
    let same = vec![VarBind::new(
        ObjectIdentifier::from_str("1.3.6.1.2.1.1.1.0").unwrap(),
        BindValue::Unspecified,
    )];
    let m = client.request(&engine, 9, PDUType::GetRequest, 5, binds).unwrap();

    let pdu = PDU::with_request_id(5, same).encode(PDUType::GetRequest).unwrap();
    let h = V3Header {
        msg_id: 9,
        max_size: MAX_MESSAGE_SIZE,
        flags: FLAG_AUTH | FLAG_REPORTABLE,
        engine_id: engine_id(),
        engine_boots: 7,
        engine_time: 1234,
        user_name: b"user".to_vec(),
        privacy_params: vec![],
        context_engine_id: engine_id(),
        context_name: vec![],
    };
    let (zeroed, pos) = encode_v3_message(&h, &pdu).unwrap();
    assert_eq!(m.len(), zeroed.len());
    assert_eq!(&zeroed[pos - 2..pos], &[0x04, 0x0C]);
    assert_eq!(&zeroed[pos..pos + 12], &[0; 12]);
    assert_eq!(&m[..pos], &zeroed[..pos]);
    assert_eq!(&m[pos + 12..], &zeroed[pos + 12..]);
    assert_ne!(&m[pos..pos + 12], &[0; 12]);
    let key = user_key(AuthProtocol::MD5, b"maplesyrup", &engine_id()).unwrap();
    assert!(verify_message(AuthProtocol::MD5, &key, &m, pos));
    let other = user_key(AuthProtocol::MD5, b"maplesyrop", &engine_id()).unwrap();
    assert!(!verify_message(AuthProtocol::MD5, &other, &m, pos));
}

#[test]
fn v3_request_needs_a_v3_configuration() {
    let params = new_params_v2c("h", "user", "public");
    let client = SNMPClientV3::new(&params);
    let engine = EngineState::new(engine_id(), 0, 0);
    assert!(client.request(&engine, 1, PDUType::GetRequest, 1, vec![]).is_err());
}

fn agent_message(flags: u8, boots: u32, time: u32, id: i32, key: &[u8]) -> Vec<u8> {
    let binds = vec![VarBind::new(
        ObjectIdentifier::from_str("1.3.6.1.2.1.1.3.0").unwrap(),
        BindValue::Value(ObjectValue::TimeTicks(99)),
    )];
    let pdu = PDU::from_parts(id, 0, 0, binds).encode(PDUType::Response).unwrap();
    let h = V3Header {
        msg_id: 3,
        max_size: 1500,
        flags,
        engine_id: engine_id(),
        engine_boots: boots,
        engine_time: time,
        user_name: b"user".to_vec(),
        privacy_params: vec![],
        context_engine_id: engine_id(),
        context_name: vec![],
    };
    let (mut m, pos) = encode_v3_message(&h, &pdu).unwrap();
    if flags & FLAG_AUTH != 0 {
        sign_message(AuthProtocol::MD5, key, &mut m, pos);
    }
    m
}

fn v3_params() -> snmp::params::Params {
    new_params_v3("h", "user", AuthProtocol::MD5, "maplesyrup", PrivacyProtocol::DES, "p")
}

#[test]
fn discovery_answer_gives_the_engine() {
    let params = v3_params();
    let client = SNMPClientV3::new(&params);
    let m = agent_message(0, 7, 1234, 1, &[]);
    let e = client.handle_discovery(&m).unwrap();
    assert_eq!(e.engine_id(), &engine_id());
    assert_eq!((e.boots(), e.time()), (7, 1234));
    let parsed = decode_v3_message(&m).unwrap();
    assert_eq!(parsed.msg_id, 3);
    assert_eq!(parsed.kind, PDUType::Response);
    assert!(client.handle_discovery(&m[..m.len() - 1]).is_err());
}

#[test]
fn authenticated_answer_is_accepted_and_refreshes_the_engine() {
    let params = v3_params();
    let client = SNMPClientV3::new(&params);
    let key = user_key(AuthProtocol::MD5, b"maplesyrup", &engine_id()).unwrap();
    let mut engine = EngineState::new(engine_id(), 7, 1234);
    let m = agent_message(FLAG_AUTH, 7, 1300, 11, &key);
    let binds = client.handle_response(&mut engine, 60, 11, &m).unwrap();
    assert_eq!(binds.len(), 1);
    assert_eq!(
        binds[0].value(),
        &BindValue::Value(ObjectValue::TimeTicks(99))
    );
    assert_eq!((engine.boots(), engine.time()), (7, 1300));
}

#[test]
fn tampered_or_stale_answers_are_refused() {
    let params = v3_params();
    let client = SNMPClientV3::new(&params);
    let key = user_key(AuthProtocol::MD5, b"maplesyrup", &engine_id()).unwrap();

    let mut engine = EngineState::new(engine_id(), 7, 1234);
    let mut m = agent_message(FLAG_AUTH, 7, 1234, 11, &key);
    let last = m.len() - 1;
    m[last] ^= 1;
    assert_eq!(
        client.handle_response(&mut engine, 0, 11, &m),
        Err(ClientError::Security(SecurityError::WrongDigest))
    );

    let m = agent_message(FLAG_AUTH, 7, 2000, 11, &key);
    assert_eq!(
        client.handle_response(&mut engine, 0, 11, &m),
        Err(ClientError::Security(SecurityError::NotInTimeWindow))
    );
    let m = agent_message(FLAG_AUTH, 6, 1234, 11, &key);
    assert_eq!(
        client.handle_response(&mut engine, 0, 11, &m),
        Err(ClientError::Security(SecurityError::BootsRegressed))
    );
    assert_eq!((engine.boots(), engine.time()), (7, 1234));

    let m = agent_message(0, 7, 1234, 11, &key);
    assert_eq!(
        client.handle_response(&mut engine, 0, 11, &m),
        Err(ClientError::Security(SecurityError::Unauthenticated))
    );
    let mut other = EngineState::new(vec![1, 2, 3], 7, 1234);
    let m = agent_message(FLAG_AUTH, 7, 1234, 11, &key);
    assert_eq!(
        client.handle_response(&mut other, 0, 11, &m),
        Err(ClientError::Security(SecurityError::UnknownEngine))
    );
    let wrong = user_key(AuthProtocol::MD5, b"maplesyrop", &engine_id()).unwrap();
    let m = agent_message(FLAG_AUTH, 7, 1234, 11, &wrong);
    assert_eq!(
        client.handle_response(&mut engine, 0, 11, &m),
        Err(ClientError::Security(SecurityError::WrongDigest))
    );
}

fn private_answer(privacy: PrivacyProtocol, id: i32, boots: u32, time: u32) -> Vec<u8> {
    let key = user_key(AuthProtocol::MD5, b"maplesyrup", &engine_id()).unwrap();
    let pkey = user_key(AuthProtocol::MD5, b"privpass1", &engine_id()).unwrap();
    let binds = vec![VarBind::new(
        ObjectIdentifier::from_str("1.3.6.1.2.1.1.5.0").unwrap(),
        BindValue::Value(ObjectValue::OctetString(b"agent".to_vec())),
    )];
    let pdu = PDU::from_parts(id, 0, 0, binds).encode(PDUType::Response).unwrap();
    let mut h = V3Header {
        msg_id: 4,
        max_size: 1500,
        flags: FLAG_AUTH | FLAG_PRIV,
        engine_id: engine_id(),
        engine_boots: boots,
        engine_time: time,
        user_name: b"user".to_vec(),
        privacy_params: vec![],
        context_engine_id: engine_id(),
        context_name: vec![],
    };
    let scoped = encode_scoped_pdu(&h, &pdu).unwrap();
    let (c, salt) = encrypt_scoped_pdu(privacy, &pkey, boots, time, 77, &scoped).unwrap();
    h.privacy_params = salt;
    let (mut m, pos) = encode_v3_private_message(&h, &c).unwrap();
    sign_message(AuthProtocol::MD5, &key, &mut m, pos);
    m
}

#[test]
fn private_answers_are_decrypted() {
    for privacy in [PrivacyProtocol::DES, PrivacyProtocol::AES] {
        let params = new_params_v3("h", "user", AuthProtocol::MD5, "maplesyrup", privacy, "privpass1");
        let client = SNMPClientV3::new(&params);
        let mut engine = EngineState::new(engine_id(), 2, 500);
        let m = private_answer(privacy, 21, 2, 510);
        let binds = client.handle_private_response(&mut engine, 10, 21, &m).unwrap();
        assert_eq!(
            binds,
            vec![VarBind::new(
                ObjectIdentifier::from_str("1.3.6.1.2.1.1.5.0").unwrap(),
                BindValue::Value(ObjectValue::OctetString(b"agent".to_vec())),
            )]
        );
        assert_eq!(engine.time(), 510);
        let mut tampered = m.clone();
        let last = tampered.len() - 1;
        tampered[last] ^= 0x55;
        assert!(client.handle_private_response(&mut engine, 0, 21, &tampered).is_err());
        // A clear decoder does not take an encrypted message.
        assert!(decode_v3_message(&m).is_err());
    }
}

#[test]
fn private_request_can_be_read_back() {
    let params = new_params_v3("h", "user", AuthProtocol::MD5, "maplesyrup", PrivacyProtocol::AES, "privpass1");
    let client = SNMPClientV3::new(&params);
    let engine = EngineState::new(engine_id(), 3, 900);
    let binds = vec![VarBind::new(
        ObjectIdentifier::from_str("1.3.6.1.2.1.1.1.0").unwrap(),
        BindValue::Unspecified,
    )];
    let m = client.private_request(&engine, 12, PDUType::GetRequest, 34, binds, 5).unwrap();
    let parsed = decode_v3_private_message(&m).unwrap();
    assert_eq!(parsed.msg_id, 12);
    assert_eq!(parsed.flags, FLAG_AUTH | FLAG_PRIV | FLAG_REPORTABLE);
    assert_eq!(parsed.privacy_params, vec![0, 0, 0, 0, 0, 0, 0, 5]);
    let key = user_key(AuthProtocol::MD5, b"maplesyrup", &engine_id()).unwrap();
    assert!(verify_message(AuthProtocol::MD5, &key, &m, parsed.auth_pos));
    let pkey = user_key(AuthProtocol::MD5, b"privpass1", &engine_id()).unwrap();
    let plain = decrypt_scoped_pdu(PrivacyProtocol::AES, &pkey, 3, 900, &parsed.privacy_params, &parsed.encrypted).unwrap();
    let (kind, pdu) = decode_decrypted_scoped_bytes(&plain).unwrap();
    assert_eq!(kind, PDUType::GetRequest);
    assert_eq!(pdu.request_id(), 34);
}
