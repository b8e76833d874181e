use snmp::obj_ident::{ObjectIdentifier, ObjectIdentifierError};

#[test]
fn test_create_obj_ident_from_str() {
    let oid_str = "1.3.4.105.99.0.1";

    let oid = ObjectIdentifier::from_str(oid_str).unwrap();
    assert_eq!(oid.get_value(), vec![1, 3, 4, 105, 99, 0, 1]);
    assert_eq!(oid.length(), 7);
}

#[test]
fn test_create_obj_ident_from_vec() {
    let oid = ObjectIdentifier::new(vec![1, 3, 4, 105, 99, 0, 1]);
    assert_eq!(oid.get_value(), vec![1, 3, 4, 105, 99, 0, 1]);
    assert_eq!(oid.length(), 7);
}

#[test]
fn test_create_obj_ident_error() {
    let oid_str_arr = vec![
        (
            "1.2.3.4.5.a.6",
            "Parse error: 1.2.3.4.5.a.6 is not the right format",
        ),
        (
            "1,2,3,4,5",
            "Parse error: 1,2,3,4,5 is not the right format",
        ),
    ];
    for (oid, expected) in oid_str_arr {
        let oid = ObjectIdentifier::from_str(oid);
        assert!(oid.is_err());
        assert_eq!(oid.unwrap_err().to_string(), expected);
    }
}

#[test]
fn test_create_obj_really_bad_str() {
    let oid = ObjectIdentifier::from_str("1.3.4.105084028402984092840239840.99.0.1");
    assert!(oid.is_err());
}

#[test]
fn parse_rejects_empty_segments() {
    for s in ["", ".", "1..3", "1.3.", ".1.3"] {
        assert!(matches!(
            ObjectIdentifier::from_str(s),
            Err(ObjectIdentifierError::ParseError(_))
        ));
    }
}

#[test]
fn parse_accepts_u32_max_and_rejects_one_more() {
    let oid = ObjectIdentifier::from_str("1.3.4294967295").unwrap();
    assert_eq!(oid.get_value(), vec![1, 3, u32::MAX]);
    assert!(ObjectIdentifier::from_str("1.3.4294967296").is_err());
}

#[test]
fn system_description_example() {
    let oid = ObjectIdentifier::from_str("1.3.6.1.2.1.1.1.0").unwrap();
    assert_eq!(oid.get_value(), vec![1, 3, 6, 1, 2, 1, 1, 1, 0]);
    let bytes = oid.encode().unwrap();
    assert_eq!(bytes, vec![0x2B, 0x06, 0x01, 0x02, 0x01, 0x01, 0x01, 0x00]);
}

#[test]
fn multi_byte_arcs_use_continuation_bits() {
    let oid = ObjectIdentifier::new(vec![1, 3, 128, 16383, 16384, u32::MAX]);
    let bytes = oid.encode().unwrap();
    assert_eq!(
        bytes,
        vec![
            0x2B, 0x81, 0x00, 0xFF, 0x7F, 0x81, 0x80, 0x00, 0x8F, 0xFF, 0xFF, 0xFF, 0x7F
        ]
    );
    assert_eq!(ObjectIdentifier::decode(&bytes).unwrap(), oid);
}

#[test]
fn text_encode_decode_round_trip() {
    for s in [
        "1.3.6.1.2.1.1.1.0",
        "0.0",
        "0.39.7",
        "1.39",
        "2.0",
        "2.4294967295.4294967295",
        "1.3.6.1.4.1.2021.10.1.3.1",
    ] {
        let oid = ObjectIdentifier::from_str(s).unwrap();
        let bytes = oid.encode().unwrap();
        assert_eq!(ObjectIdentifier::decode(&bytes).unwrap(), oid);
    }
}

#[test]
fn encode_too_long_reports_arc_count() {
    let oid = ObjectIdentifier::new(vec![1; 129]);
    assert_eq!(oid.encode(), Err(ObjectIdentifierError::TooLong(129)));
    let oid = ObjectIdentifier::new(vec![1; 300]);
    let err = oid.encode().unwrap_err();
    assert_eq!(err, ObjectIdentifierError::TooLong(300));
    assert_eq!(err.to_string(), "OID of length 300 exceeds the maximum: 128");
    assert!(ObjectIdentifier::new(vec![1; 128]).encode().is_ok());
}

#[test]
fn encode_rejects_bad_first_pair() {
    for arcs in [vec![1], vec![], vec![3, 1], vec![0, 40], vec![1, 40, 2]] {
        assert!(matches!(
            ObjectIdentifier::new(arcs).encode(),
            Err(ObjectIdentifierError::EncodeError(_))
        ));
    }
    assert!(ObjectIdentifier::new(vec![2, 40]).encode().is_ok());
}

#[test]
fn decode_rejects_truncated_and_oversized() {
    assert!(matches!(
        ObjectIdentifier::decode(&[0x2B, 0x81]),
        Err(ObjectIdentifierError::DecodeError(_))
    ));
    assert!(ObjectIdentifier::decode(&[]).is_err());
    // 2^32 as a later arc does not fit in 32 bits.
    assert!(ObjectIdentifier::decode(&[0x2B, 0x90, 0x80, 0x80, 0x80, 0x00]).is_err());
}

#[test]
fn decode_splits_first_sub_identifier() {
    assert_eq!(
        ObjectIdentifier::decode(&[0x27]).unwrap().get_value(),
        vec![0, 39]
    );
    assert_eq!(
        ObjectIdentifier::decode(&[0x28]).unwrap().get_value(),
        vec![1, 0]
    );
    assert_eq!(
        ObjectIdentifier::decode(&[0x81, 0x00]).unwrap().get_value(),
        vec![2, 48]
    );
}

#[test]
fn error_messages() {
    assert_eq!(
        ObjectIdentifierError::DecodeError("x".to_string()).to_string(),
        "Decode error: x"
    );
    assert_eq!(
        ObjectIdentifierError::TooLong(7).to_string(),
        "OID of length 7 exceeds the maximum: 128"
    );
}

#[test]
fn test_ans1_encoding() {
    let oid = ObjectIdentifier::from_str("1.3.5.7.11.13.17").unwrap();
    let asn1_oid = oid.to_asn1_oid().unwrap();
    assert_eq!(
        asn1_oid.as_vec::<u32>().unwrap(),
        vec![1, 3, 5, 7, 11, 13, 17]
    );
}

#[test]
fn asn1_conversion_limits() {
    let long = ObjectIdentifier::new(vec![1; 129]);
    assert_eq!(long.to_asn1_oid(), Err(ObjectIdentifierError::TooLong(129)));
    let oid = ObjectIdentifier::new(vec![2, 999, 3]);
    let back = ObjectIdentifier::from_asn1_oid(&oid.to_asn1_oid().unwrap()).unwrap();
    assert_eq!(back, oid);
}

#[test]
fn parse_accepts_a_leading_plus_as_u32_does() {
    assert_eq!(ObjectIdentifier::from_str("1.+3").unwrap().get_value(), vec![1, 3]);
    assert_eq!(ObjectIdentifier::from_str("+1.+0").unwrap().get_value(), vec![1, 0]);
    for s in ["+", "1.+", "1.++3", "1.3+", "1.+.3", "-1.3"] {
        assert!(ObjectIdentifier::from_str(s).is_err(), "{}", s);
    }
}

#[test]
fn asn1_arcs_beyond_u32_are_refused() {
    let o = simple_asn1::OID::new(vec![
        simple_asn1::BigUint::from(1u32),
        simple_asn1::BigUint::from(5_000_000_000u64),
    ]);
    assert!(matches!(
        ObjectIdentifier::from_asn1_oid(&o),
        Err(ObjectIdentifierError::DecodeError(_))
    ));
    let o = simple_asn1::OID::new(vec![
        simple_asn1::BigUint::from(1u32),
        simple_asn1::BigUint::from(u32::MAX),
    ]);
    assert_eq!(
        ObjectIdentifier::from_asn1_oid(&o).unwrap().get_value(),
        vec![1, u32::MAX]
    );
}
