use dns_codec::answer::DNSAnswer;
use dns_codec::errors::DeserializationError;
use dns_codec::message::DNSMessage;
use dns_codec::question::DNSQuestion;
use dns_codec::types::{ClassType, RecordType};

fn example_question() -> DNSQuestion {
    DNSQuestion::new(b"\x07example\x03com\x00".to_vec())
}

#[test]
fn end_to_end_message_round_trip() {
    let mut message = DNSMessage::new();
    message.header.pid = 0x1234;
    message.add_question(example_question());
    assert_eq!(message.header.qdcount, 1);
    assert_eq!(message.header.ancount, 0);

    let bytes = message.to_bytes();
    let decoded = DNSMessage::from_bytes(&bytes).unwrap();

    assert_eq!(decoded.header.pid, 0x1234);
    assert_eq!(decoded.header.qdcount, 1);
    assert_eq!(decoded.header.ancount, 0);
    assert_eq!(decoded.questions.len(), 1);
    assert_eq!(decoded.questions[0].domain_name, b"\x07example\x03com\x00".to_vec());
    assert_eq!(decoded.questions[0].record_type, RecordType::A);
    assert_eq!(decoded.questions[0].class_type, ClassType::IN);
    assert_eq!(decoded.answers.len(), 0);
    assert_eq!(decoded, message);
}

#[test]
fn message_with_answers_round_trips() {
    let mut message = DNSMessage::new();
    message.header.pid = 0xbeef;
    message.add_question(example_question());
    message.add_answer(DNSAnswer::new(b"\x07example\x03com\x00".to_vec(), vec![93, 184, 216, 34]));
    assert_eq!(message.header.ancount, 1);

    let bytes = message.to_bytes();
    let decoded = DNSMessage::from_bytes(&bytes).unwrap();
    assert_eq!(decoded, message);
}

#[test]
fn decode_encode_decode_is_idempotent_on_compressed_input() {
    // a buffer whose question name uses a compression pointer into the header
    // area cannot be reproduced byte-for-byte by the encoder (encoding never
    // re-compresses), but re-decoding the re-encoded bytes gives the same
    // message. The count fields double as the pointer's target: bytes 4..8
    // spell the name "io", so the declared question count is large and the
    // decoder simply stops when the buffer ends.
    let mut buf: Vec<u8> = vec![
        0x12, 0x34, // id
        0x01, 0x00, // flags
        0x02, b'i', b'o', 0x00, // counts that double as the name "io"
        0x00, 0x00, 0x00, 0x00,
    ];
    // the question: "codecrafters" + pointer to offset 4, then type and class
    buf.extend_from_slice(b"\x0ccodecrafters");
    buf.extend_from_slice(&[0xc0, 4]);
    buf.extend_from_slice(&[0x00, 0x01, 0x00, 0x01]);

    let first = DNSMessage::from_bytes(&buf).unwrap();
    assert_eq!(first.header.qdcount, 0x0269);
    assert_eq!(first.questions.len(), 1);
    assert_eq!(
        first.questions[0].domain_name,
        b"\x0ccodecrafters\x02io\x00".to_vec()
    );
    assert_eq!(first.answers.len(), 0);

    let re_encoded = first.to_bytes();
    assert_ne!(re_encoded, buf);
    let second = DNSMessage::from_bytes(&re_encoded).unwrap();
    assert_eq!(second, first);
}

#[test]
fn short_message_buffer_is_eof() {
    let buf = [0u8; 11];
    assert_eq!(
        DNSMessage::from_bytes(&buf).unwrap_err(),
        DeserializationError::UnexpectedEOF
    );
}

#[test]
fn counts_larger_than_the_buffer_yield_fewer_records() {
    // the header declares three questions but the buffer holds one
    let mut message = DNSMessage::new();
    message.header.pid = 7;
    message.add_question(example_question());
    message.header.qdcount = 3;
    let bytes = message.to_bytes();

    let decoded = DNSMessage::from_bytes(&bytes).unwrap();
    assert_eq!(decoded.header.qdcount, 3);
    assert_eq!(decoded.questions.len(), 1);
    assert_eq!(decoded.answers.len(), 0);

    // and re-decoding its re-encoding still gives the same message
    let again = DNSMessage::from_bytes(&decoded.to_bytes()).unwrap();
    assert_eq!(again, decoded);
}

#[test]
fn malformed_record_fails_the_whole_decode() {
    let mut message = DNSMessage::new();
    message.add_question(example_question());
    let mut bytes = message.to_bytes();
    // corrupt the question's type code to an unknown value
    let n = bytes.len();
    bytes[n - 3] = 0x63;
    assert_eq!(
        DNSMessage::from_bytes(&bytes).unwrap_err(),
        DeserializationError::MalformedField("record_type")
    );
}

#[test]
fn add_multiple_updates_counts() {
    let mut message = DNSMessage::new();
    message.add_multiple_questions(vec![example_question(), example_question()]);
    assert_eq!(message.header.qdcount, 2);
    assert_eq!(message.questions.len(), 2);

    message.add_multiple_answers(vec![
        DNSAnswer::new(b"\x01a\x00".to_vec(), vec![1, 2, 3, 4]),
        DNSAnswer::new(b"\x01b\x00".to_vec(), vec![5, 6, 7, 8]),
        DNSAnswer::new(b"\x01c\x00".to_vec(), vec![9, 10, 11, 12]),
    ]);
    assert_eq!(message.header.ancount, 3);
    assert_eq!(message.answers.len(), 3);
}

#[test]
fn fresh_message_is_empty() {
    let message = DNSMessage::new();
    assert_eq!(message.header.qdcount, 0);
    assert_eq!(message.header.ancount, 0);
    assert_eq!(message.questions.len(), 0);
    assert_eq!(message.answers.len(), 0);
}
