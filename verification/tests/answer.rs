use dns_codec::answer::DNSAnswer;
use dns_codec::errors::DeserializationError;
use dns_codec::types::{ClassType, RecordType};

#[test]
fn fresh_answer_is_an_address_record() {
    let answer = DNSAnswer::new(b"\x03foo\x00".to_vec(), vec![1, 2, 3, 4]);
    assert_eq!(answer.domain_name, b"\x03foo\x00".to_vec());
    assert_eq!(answer.record_type, RecordType::A);
    assert_eq!(answer.class_type, ClassType::IN);
    assert_eq!(answer.ttl, 60);
    assert_eq!(answer.rdlength, 4);
    assert_eq!(answer.rdata, vec![1, 2, 3, 4]);
}

#[test]
fn answer_encodes_every_field_big_endian() {
    let answer = DNSAnswer::new(b"\x03foo\x00".to_vec(), vec![127, 0, 0, 1]);
    assert_eq!(
        answer.to_bytes(),
        vec![
            0x03, b'f', b'o', b'o', 0x00, // name
            0x00, 0x01, // type A
            0x00, 0x01, // class IN
            0x00, 0x00, 0x00, 0x3c, // ttl 60
            0x00, 0x04, // rdlength
            127, 0, 0, 1, // rdata
        ]
    );
}

#[test]
fn answer_decodes_from_its_own_encoding() {
    let answer = DNSAnswer::new(b"\x03foo\x00".to_vec(), vec![10, 0, 0, 7]);
    let bytes = answer.to_bytes();
    let (decoded, consumed) = DNSAnswer::from_bytes(&bytes, 0).unwrap();
    assert_eq!(consumed, bytes.len());
    assert_eq!(decoded, answer);
}

#[test]
fn declared_rdata_length_past_the_buffer_is_eof() {
    // rdlength says 5 bytes of resource data but only 4 remain
    let buf = vec![
        0x03, b'f', b'o', b'o', 0x00, // name
        0x00, 0x01, // type A
        0x00, 0x01, // class IN
        0x00, 0x00, 0x00, 0x3c, // ttl
        0x00, 0x05, // rdlength overruns
        1, 2, 3, 4,
    ];
    assert_eq!(
        DNSAnswer::from_bytes(&buf, 0).unwrap_err(),
        DeserializationError::UnexpectedEOF
    );
}

#[test]
fn answer_rdata_length_to_the_byte_succeeds() {
    let buf = vec![
        0x03, b'f', b'o', b'o', 0x00, 0x00, 0x01, 0x00, 0x01, 0x00, 0x00, 0x00, 0x3c, 0x00, 0x04,
        1, 2, 3, 4,
    ];
    let (decoded, consumed) = DNSAnswer::from_bytes(&buf, 0).unwrap();
    assert_eq!(consumed, buf.len());
    assert_eq!(decoded.rdlength, 4);
    assert_eq!(decoded.rdata, vec![1, 2, 3, 4]);
    assert_eq!(decoded.ttl, 60);
}

#[test]
fn answer_with_unknown_record_type_is_malformed() {
    let buf = vec![0x01, b'a', 0x00, 0x00, 0x63, 0x00, 0x01];
    assert_eq!(
        DNSAnswer::from_bytes(&buf, 0).unwrap_err(),
        DeserializationError::MalformedField("record_type")
    );
}

#[test]
fn answer_with_unknown_class_is_malformed() {
    let buf = vec![0x01, b'a', 0x00, 0x00, 0x01, 0x00, 0x09];
    assert_eq!(
        DNSAnswer::from_bytes(&buf, 0).unwrap_err(),
        DeserializationError::MalformedField("class_type")
    );
}

#[test]
fn answer_truncated_before_ttl_is_eof() {
    let buf = vec![0x01, b'a', 0x00, 0x00, 0x01, 0x00, 0x01, 0x00, 0x00];
    assert_eq!(
        DNSAnswer::from_bytes(&buf, 0).unwrap_err(),
        DeserializationError::UnexpectedEOF
    );
}
