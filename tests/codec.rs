use snmp::ber::SNMPMessageError;
use snmp::obj_ident::ObjectIdentifier;
use snmp::pdu::{BulkPDU, PDUError, PDUType, PDU};
use snmp::var_bind::{BindValue, ObjectValue, VarBind};

fn round_trip(v: BindValue) {
    let bytes = v.encode().unwrap();
    assert_eq!(BindValue::decode(&bytes).unwrap(), v);
}

fn enc(v: ObjectValue) -> Vec<u8> {
    BindValue::Value(v).encode().unwrap()
}

#[test]
fn every_value_kind_round_trips_at_its_bounds() {
    for i in [0, 1, -1, 127, 128, -128, -129, 255, 256, i32::MAX, i32::MIN] {
        round_trip(BindValue::Value(ObjectValue::Integer(i)));
    }
    for n in [0, 1, 127, 128, 255, u32::MAX] {
        round_trip(BindValue::Value(ObjectValue::Counter32(n)));
        round_trip(BindValue::Value(ObjectValue::TimeTicks(n)));
        round_trip(BindValue::Value(ObjectValue::Unsigned32(n)));
    }
    for n in [0, 1, u32::MAX as u64, u64::MAX] {
        round_trip(BindValue::Value(ObjectValue::Counter64(n)));
    }
    round_trip(BindValue::Value(ObjectValue::OctetString(vec![])));
    round_trip(BindValue::Value(ObjectValue::OctetString(b"".to_vec())));
    round_trip(BindValue::Value(ObjectValue::OctetString(b"This is a test".to_vec())));
    round_trip(BindValue::Value(ObjectValue::OctetString(vec![7; 300])));
    round_trip(BindValue::Value(ObjectValue::OctetString(vec![1; 70000])));
    round_trip(BindValue::Value(ObjectValue::Opaque(vec![])));
    round_trip(BindValue::Value(ObjectValue::Opaque(vec![0, 255, 1])));
    round_trip(BindValue::Value(ObjectValue::IpAddress([192, 168, 0, 1])));
    round_trip(BindValue::Value(ObjectValue::ObjectIdentifier(ObjectIdentifier::new(
        vec![1, 3, 6, 1, u32::MAX],
    ))));
    round_trip(BindValue::Unspecified);
    round_trip(BindValue::NoSuchObject);
    round_trip(BindValue::NoSuchInstance);
    round_trip(BindValue::EndOfMibView);
}

#[test]
fn integer_encodings_are_minimal_twos_complement() {
    assert_eq!(enc(ObjectValue::Integer(0)), vec![0x02, 0x01, 0x00]);
    assert_eq!(enc(ObjectValue::Integer(42)), vec![0x02, 0x01, 0x2A]);
    assert_eq!(enc(ObjectValue::Integer(-1)), vec![0x02, 0x01, 0xFF]);
    assert_eq!(enc(ObjectValue::Integer(128)), vec![0x02, 0x02, 0x00, 0x80]);
    assert_eq!(enc(ObjectValue::Integer(-129)), vec![0x02, 0x02, 0xFF, 0x7F]);
    assert_eq!(
        enc(ObjectValue::Integer(i32::MIN)),
        vec![0x02, 0x04, 0x80, 0x00, 0x00, 0x00]
    );
    assert_eq!(
        enc(ObjectValue::Counter32(u32::MAX)),
        vec![0x41, 0x05, 0x00, 0xFF, 0xFF, 0xFF, 0xFF]
    );
    assert_eq!(enc(ObjectValue::Unsigned32(5)), vec![0x42, 0x01, 0x05]);
    assert_eq!(enc(ObjectValue::TimeTicks(256)), vec![0x43, 0x02, 0x01, 0x00]);
    let mut c64 = vec![0x46, 0x09, 0x00];
    c64.extend([0xFF; 8]);
    assert_eq!(enc(ObjectValue::Counter64(u64::MAX)), c64);
}

#[test]
fn other_tags() {
    assert_eq!(BindValue::Unspecified.encode().unwrap(), vec![0x05, 0x00]);
    assert_eq!(BindValue::NoSuchObject.encode().unwrap(), vec![0x80, 0x00]);
    assert_eq!(BindValue::NoSuchInstance.encode().unwrap(), vec![0x81, 0x00]);
    assert_eq!(BindValue::EndOfMibView.encode().unwrap(), vec![0x82, 0x00]);
    assert_eq!(
        enc(ObjectValue::OctetString(b"ab".to_vec())),
        vec![0x04, 0x02, b'a', b'b']
    );
    assert_eq!(
        enc(ObjectValue::IpAddress([10, 0, 0, 1])),
        vec![0x40, 0x04, 10, 0, 0, 1]
    );
    assert_eq!(enc(ObjectValue::Opaque(vec![9])), vec![0x44, 0x01, 9]);
    let long = enc(ObjectValue::OctetString(vec![0; 300]));
    assert_eq!(&long[..4], &[0x04, 0x82, 0x01, 0x2C]);
    assert_eq!(long.len(), 304);
}

#[test]
fn decode_rejects_unknown_tag_and_bad_content() {
    assert!(matches!(
        BindValue::decode(&[0x09, 0x00]),
        Err(SNMPMessageError::DecodeError(_))
    ));
    assert!(BindValue::decode(&[0x05, 0x01, 0x00]).is_err());
    assert!(BindValue::decode(&[0x40, 0x03, 1, 2, 3]).is_err());
    assert!(BindValue::decode(&[0x41, 0x01, 0xFF]).is_err());
    assert!(BindValue::decode(&[0x02, 0x05, 0x01, 0, 0, 0, 0]).is_err());
    assert!(BindValue::decode(&[0x04, 0x05, 1]).is_err());
    assert!(BindValue::decode(&[0x05, 0x00, 0x00]).is_err());
}

#[test]
fn var_bind_encoding() {
    let name = ObjectIdentifier::new(vec![1, 3, 5, 7, 9, 11, 13, 17]);
    let vb = VarBind::new(name, BindValue::Unspecified);
    let mut out = Vec::new();
    vb.encode_into(&mut out).unwrap();
    assert_eq!(
        out,
        vec![
            0x30, 0x0B, 0x06, 0x07, 0x2B, 0x05, 0x07, 0x09, 0x0B, 0x0D, 0x11, 0x05, 0x00
        ]
    );
    let (back, used) = VarBind::decode_at(&out, 0).unwrap();
    assert_eq!(back, vb);
    assert_eq!(used, out.len());
}

#[test]
fn var_bind_with_too_long_name_fails() {
    let vb = VarBind::new(ObjectIdentifier::new(vec![1; 129]), BindValue::Unspecified);
    let mut out = Vec::new();
    assert_eq!(vb.encode_into(&mut out), Err(SNMPMessageError::TooLong(129)));
    assert!(out.is_empty());
}

fn sample_binds() -> Vec<VarBind> {
    vec![
        VarBind::new(
            ObjectIdentifier::new(vec![1, 3, 6, 1, 2, 1, 1, 1, 0]),
            BindValue::Value(ObjectValue::OctetString(b"router".to_vec())),
        ),
        VarBind::new(
            ObjectIdentifier::new(vec![1, 3, 6, 1, 2, 1, 1, 3, 0]),
            BindValue::Value(ObjectValue::TimeTicks(12345)),
        ),
    ]
}

#[test]
fn pdu_encoding_layout() {
    let pdu = PDU::with_request_id(1, vec![]);
    assert_eq!(
        pdu.encode(PDUType::GetRequest).unwrap(),
        vec![0xA0, 0x0B, 0x02, 0x01, 0x01, 0x02, 0x01, 0x00, 0x02, 0x01, 0x00, 0x30, 0x00]
    );
    let bulk = BulkPDU::with_params(1, 0, 10, vec![]);
    assert_eq!(
        bulk.encode().unwrap(),
        vec![0xA5, 0x0B, 0x02, 0x01, 0x01, 0x02, 0x01, 0x00, 0x02, 0x01, 0x0A, 0x30, 0x00]
    );
}

#[test]
fn pdu_decodes_what_it_encodes() {
    let pdu = PDU::from_parts(-77, 0, 0, sample_binds());
    let bytes = pdu.encode(PDUType::Response).unwrap();
    let (kind, back) = PDU::decode(&bytes).unwrap();
    assert_eq!(kind, PDUType::Response);
    assert_eq!(back.request_id(), -77);
    assert_eq!(back.error_status(), 0);
    assert_eq!(back.error_index(), 0);
    assert_eq!(back.var_bindings(), &sample_binds());
}

#[test]
fn fresh_pdus_carry_no_error() {
    let pdu = PDU::new(sample_binds());
    assert_eq!(pdu.error_status(), 0);
    assert_eq!(pdu.error_index(), 0);
    let bulk = BulkPDU::new(vec![]);
    let _ = bulk.request_id();
}

#[test]
fn error_status_codes() {
    assert_eq!(PDUError::from_code(2), Some(PDUError::NoSuchName));
    assert_eq!(PDUError::from_code(18), Some(PDUError::InconsistentName));
    assert_eq!(PDUError::from_code(19), None);
    assert_eq!(PDUError::from_code(-1), None);
    assert_eq!(PDUError::NotWritable.code(), 17);
    assert_eq!(PDUType::from_tag(0xA4), None);
    assert_eq!(PDUType::from_tag(0xA8), Some(PDUType::Report));
}

fn encoded_var_bind(value: BindValue) -> Vec<u8> {
    let name = ObjectIdentifier::new(vec![1, 3, 5, 7, 9, 11, 13, 17]);
    let mut out = Vec::new();
    VarBind::new(name, value).encode_into(&mut out).unwrap();
    out
}

#[test]
fn test_create_var_bind_with_int_value() {
    let out = encoded_var_bind(BindValue::Value(ObjectValue::Integer(42)));
    assert_eq!(
        out,
        vec![
            0x30, 0x0C, 0x06, 0x07, 0x2B, 0x05, 0x07, 0x09, 0x0B, 0x0D, 0x11, 0x02, 0x01, 0x2A
        ]
    );
}

#[test]
fn test_create_var_bind_with_string_value() {
    let out = encoded_var_bind(BindValue::Value(ObjectValue::OctetString(
        "This is a test".as_bytes().to_vec(),
    )));
    let mut expected = vec![
        0x30, 0x19, 0x06, 0x07, 0x2B, 0x05, 0x07, 0x09, 0x0B, 0x0D, 0x11, 0x04, 0x0E,
    ];
    expected.extend_from_slice(b"This is a test");
    assert_eq!(out, expected);
}
