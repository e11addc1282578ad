use dns_codec::errors::DeserializationError;
use dns_codec::question::DNSQuestion;
use dns_codec::types::{ClassType, RecordType};

#[test]
fn test_name() {
    let name = "\x06google\x03com\x00".as_bytes().to_vec();
    let question = DNSQuestion::new(name);
    assert_eq!(question.record_type.to_code(), 1);

    let b = question.to_bytes();
    assert_eq!(
        b,
        vec![
            0x06, 0x67, 0x6f, 0x6f, 0x67, 0x6c, 0x65, 0x03, 0x63, 0x6f, 0x6d, 0x00, 0x00, 0x01,
            0x00, 0x01
        ]
    )
}

#[test]
fn question_test_name() {
    let name = "\x06google\x03com\x00".as_bytes().to_vec();
    let question = DNSQuestion::new(name);
    assert_eq!(question.record_type.to_code(), 1);

    let b = question.to_bytes();
    assert_eq!(
        b,
        vec![
            0x06, 0x67, 0x6f, 0x6f, 0x67, 0x6c, 0x65, 0x03, 0x63, 0x6f, 0x6d, 0x00, 0x00, 0x01,
            0x00, 0x01
        ]
    )
}

#[test]
fn question_decodes_from_its_own_encoding() {
    let name = b"\x07example\x03com\x00".to_vec();
    let question = DNSQuestion::new(name.clone());
    let bytes = question.to_bytes();
    let (decoded, consumed) = DNSQuestion::from_bytes(&bytes, 0).unwrap();
    assert_eq!(consumed, bytes.len());
    assert_eq!(decoded.domain_name, name);
    assert_eq!(decoded.record_type, RecordType::A);
    assert_eq!(decoded.class_type, ClassType::IN);
}

#[test]
fn question_decode_advances_past_class_field() {
    // name (5 bytes) + type (2) + class (2) = 9 bytes consumed, from offset 2
    let buf = b"zz\x03abc\x00\x00\x10\x00\x03trailing".to_vec();
    let (decoded, consumed) = DNSQuestion::from_bytes(&buf, 2).unwrap();
    assert_eq!(consumed, 9);
    assert_eq!(decoded.domain_name, b"\x03abc\x00".to_vec());
    assert_eq!(decoded.record_type, RecordType::TXT);
    assert_eq!(decoded.class_type, ClassType::CH);
}

#[test]
fn question_unknown_record_type_is_malformed() {
    // type code 99 maps to no record type
    let buf = b"\x01a\x00\x00\x63\x00\x01".to_vec();
    let err = DNSQuestion::from_bytes(&buf, 0).unwrap_err();
    assert_eq!(err, DeserializationError::MalformedField("record_type"));
}

#[test]
fn question_unknown_class_is_malformed() {
    // class code 9 maps to no class
    let buf = b"\x01a\x00\x00\x01\x00\x09".to_vec();
    let err = DNSQuestion::from_bytes(&buf, 0).unwrap_err();
    assert_eq!(err, DeserializationError::MalformedField("class_type"));
}

#[test]
fn question_truncated_type_field_is_eof() {
    let buf = b"\x01a\x00\x00".to_vec();
    let err = DNSQuestion::from_bytes(&buf, 0).unwrap_err();
    assert_eq!(err, DeserializationError::UnexpectedEOF);
}

#[test]
fn record_type_codes_round_trip() {
    let all = [
        (RecordType::A, 1u16),
        (RecordType::NS, 2),
        (RecordType::MD, 3),
        (RecordType::MF, 4),
        (RecordType::CNAME, 5),
        (RecordType::SOA, 6),
        (RecordType::MB, 7),
        (RecordType::MG, 8),
        (RecordType::MR, 9),
        (RecordType::NULL, 10),
        (RecordType::WKS, 11),
        (RecordType::PTR, 12),
        (RecordType::HINFO, 13),
        (RecordType::MINFO, 14),
        (RecordType::MX, 15),
        (RecordType::TXT, 16),
    ];
    for (t, code) in all {
        assert_eq!(t.to_code(), code);
        assert_eq!(RecordType::from_code(code), Some(t));
    }
    assert_eq!(RecordType::from_code(0), None);
    assert_eq!(RecordType::from_code(17), None);
}

#[test]
fn class_type_codes_round_trip() {
    let all = [
        (ClassType::IN, 1u16),
        (ClassType::CS, 2),
        (ClassType::CH, 3),
        (ClassType::HS, 4),
    ];
    for (c, code) in all {
        assert_eq!(c.to_code(), code);
        assert_eq!(ClassType::from_code(code), Some(c));
    }
    assert_eq!(ClassType::from_code(0), None);
    assert_eq!(ClassType::from_code(5), None);
}
