use dns_codec::errors::DeserializationError;
use dns_codec::parser::{parse_domain_name, parse_u16_from_be_bytes, parse_u32_from_be_bytes};

#[test]
fn u16_reader_reads_big_endian() {
    let buf = [0x12u8, 0x34, 0x56];
    assert_eq!(parse_u16_from_be_bytes(&buf, 0).unwrap(), 0x1234);
    assert_eq!(parse_u16_from_be_bytes(&buf, 1).unwrap(), 0x3456);
    assert_eq!(
        parse_u16_from_be_bytes(&buf, 2).unwrap_err(),
        DeserializationError::UnexpectedEOF
    );
}

#[test]
fn u32_reader_reads_big_endian() {
    let buf = [0xdeu8, 0xad, 0xbe, 0xef, 0x01];
    assert_eq!(parse_u32_from_be_bytes(&buf, 0).unwrap(), 0xdeadbeef);
    assert_eq!(parse_u32_from_be_bytes(&buf, 1).unwrap(), 0xadbeef01);
    assert_eq!(
        parse_u32_from_be_bytes(&buf, 2).unwrap_err(),
        DeserializationError::UnexpectedEOF
    );
}

#[test]
fn uncompressed_name_round_trips() {
    // encoding a name is the identity, so decoding its own bytes at offset
    // zero must give the name back and consume exactly its length
    let name = b"\x0ccodecrafters\x02io\x00".to_vec();
    let (decoded, end) = parse_domain_name(&name, 0).unwrap();
    assert_eq!(decoded, name);
    assert_eq!(end, name.len());
}

#[test]
fn compressed_name_expands_to_the_spelled_out_form() {
    // offset 0 holds "io" with its terminator; offset 20 holds
    // "codecrafters" followed by a pointer back to offset 0
    let mut buf = vec![0u8; 20];
    buf[0] = 2;
    buf[1] = b'i';
    buf[2] = b'o';
    buf[3] = 0;
    buf.extend_from_slice(b"\x0ccodecrafters");
    buf.extend_from_slice(&[0xc0, 0x00]);

    let (compressed, end) = parse_domain_name(&buf, 20).unwrap();
    assert_eq!(end, buf.len());

    let spelled_out = b"\x0ccodecrafters\x02io\x00".to_vec();
    let (plain, _) = parse_domain_name(&spelled_out, 0).unwrap();
    assert_eq!(compressed, plain);
    assert_eq!(compressed, spelled_out);
}

#[test]
fn pointer_to_its_own_offset_is_invalid() {
    // the pointer at offset 4 targets offset 4: not strictly smaller
    let buf = [0x02, b'i', b'o', 0x00, 0xc0, 0x04];
    assert_eq!(
        parse_domain_name(&buf, 4).unwrap_err(),
        DeserializationError::InvalidCompressionPointer
    );
}

#[test]
fn pointer_forward_is_invalid() {
    let buf = [0xc0, 0x04, 0x00, 0x00, 0x02, b'i', b'o', 0x00];
    assert_eq!(
        parse_domain_name(&buf, 0).unwrap_err(),
        DeserializationError::InvalidCompressionPointer
    );
}

#[test]
fn pointer_chain_at_the_limit_succeeds() {
    // a real name at offset 0, then pointers at 3, 5 and 7 chaining back:
    // decoding from offset 7 follows exactly three jumps
    let buf = [
        0x01, b'a', 0x00, // offset 0: "a"
        0xc0, 0x00, // offset 3 -> 0
        0xc0, 0x03, // offset 5 -> 3
        0xc0, 0x05, // offset 7 -> 5
    ];
    let (name, end) = parse_domain_name(&buf, 7).unwrap();
    assert_eq!(name, b"\x01a\x00".to_vec());
    assert_eq!(end, 9);
}

#[test]
fn pointer_chain_past_the_limit_is_too_deep() {
    // one more pointer than the limit of three jumps
    let buf = [
        0x01, b'a', 0x00, // offset 0: "a"
        0xc0, 0x00, // offset 3 -> 0
        0xc0, 0x03, // offset 5 -> 3
        0xc0, 0x05, // offset 7 -> 5
        0xc0, 0x07, // offset 9 -> 7
    ];
    assert_eq!(
        parse_domain_name(&buf, 9).unwrap_err(),
        DeserializationError::CompressionTooDeep
    );
}

#[test]
fn name_without_terminator_is_eof() {
    let buf = b"\x03abc";
    assert_eq!(
        parse_domain_name(buf, 0).unwrap_err(),
        DeserializationError::UnexpectedEOF
    );
}

#[test]
fn label_longer_than_the_buffer_is_eof() {
    let buf = b"\x09abc";
    assert_eq!(
        parse_domain_name(buf, 0).unwrap_err(),
        DeserializationError::UnexpectedEOF
    );
}

#[test]
fn empty_buffer_is_eof() {
    let buf: [u8; 0] = [];
    assert_eq!(
        parse_domain_name(&buf, 0).unwrap_err(),
        DeserializationError::UnexpectedEOF
    );
}

#[test]
fn truncated_pointer_is_eof() {
    let buf = [0x00, 0xc0];
    assert_eq!(
        parse_domain_name(&buf, 1).unwrap_err(),
        DeserializationError::UnexpectedEOF
    );
}

#[test]
fn multiple_labels_before_the_terminator() {
    let buf = b"xx\x01a\x02bc\x03def\x00yy";
    let (name, end) = parse_domain_name(buf, 2).unwrap();
    assert_eq!(name, b"\x01a\x02bc\x03def\x00".to_vec());
    assert_eq!(end, 12);
}
