use dns_codec::errors::DeserializationError;
use dns_codec::header::DNSHeader;

fn zeroed_header() -> DNSHeader {
    DNSHeader { pid: 0, flags: 0, qdcount: 0, ancount: 0, nscount: 0, arcount: 0 }
}

#[test]
fn test_set_qr() {
    let mut header = zeroed_header();
    header.set_qr(true);
    assert_eq!(header.to_bytes(), [0, 0, 128, 0, 0, 0, 0, 0, 0, 0, 0, 0]);
    assert_eq!(header.flags, 0x8000);
}

#[test]
fn header_round_trip() {
    let header = DNSHeader {
        pid: 0x1234,
        flags: 0x8d80,
        qdcount: 3,
        ancount: 2,
        nscount: 1,
        arcount: 9,
    };
    let bytes = header.to_bytes();
    assert_eq!(
        bytes,
        [0x12, 0x34, 0x8d, 0x80, 0x00, 0x03, 0x00, 0x02, 0x00, 0x01, 0x00, 0x09]
    );
    let decoded = DNSHeader::from_bytes(&bytes).unwrap();
    assert_eq!(decoded, header);
}

#[test]
fn header_bytes_and_vector_encodings_agree() {
    let header = DNSHeader {
        pid: 0xfeed,
        flags: 0x0180,
        qdcount: 2,
        ancount: 1,
        nscount: 0,
        arcount: 0,
    };
    assert_eq!(header.to_bytes_vec(), header.to_bytes().to_vec());
}

#[test]
fn header_of_eleven_bytes_is_eof() {
    let buf = [0u8; 11];
    assert_eq!(
        DNSHeader::from_bytes(&buf).unwrap_err(),
        DeserializationError::UnexpectedEOF
    );
}

#[test]
fn header_of_exactly_twelve_bytes_decodes() {
    let buf = [
        0xab, 0xcd, 0x01, 0x00, 0x00, 0x01, 0x00, 0x00, 0x00, 0x00, 0x00, 0x00,
    ];
    let header = DNSHeader::from_bytes(&buf).unwrap();
    assert_eq!(header.pid, 0xabcd);
    assert_eq!(header.flags, 0x0100);
    assert_eq!(header.qdcount, 1);
    assert_eq!(header.ancount, 0);
}

#[test]
fn opcode_occupies_bits_fourteen_through_eleven() {
    let mut header = zeroed_header();
    header.set_opcode(5);
    assert_eq!(header.flags, 5 << 11);
    assert_eq!(header.get_opcode(), 5);
    // only the low four bits of the argument are used
    header.set_opcode(0xffff);
    assert_eq!(header.get_opcode(), 0xf);
}

#[test]
fn setters_do_not_disturb_other_bits() {
    let mut header = zeroed_header();
    header.set_qr(true);
    header.set_opcode(4);
    header.set_aa(true);
    header.set_tc(true);
    header.set_rd(true);
    header.set_ra(true);
    header.set_rcode(4);
    assert_eq!(header.flags, 0x8000 | (4 << 11) | 0x0400 | 0x0200 | 0x0100 | 0x0080 | 4);
    assert!(header.get_rd());
    assert_eq!(header.get_opcode(), 4);
    header.set_qr(false);
    assert_eq!(header.flags, (4 << 11) | 0x0400 | 0x0200 | 0x0100 | 0x0080 | 4);
    header.set_rd(false);
    assert!(!header.get_rd());
    header.clear_flags();
    assert_eq!(header.flags, 0);
}

#[test]
fn rcode_masking_keeps_high_bits() {
    let mut header = zeroed_header();
    header.set_opcode(7);
    header.set_rcode(0x34);
    // only the low four bits of the response code land in the flags word
    assert_eq!(header.flags, (7 << 11) | 0x4);
}

#[test]
fn count_setters() {
    let mut header = zeroed_header();
    header.set_qdcount(1);
    header.set_ancount(2);
    header.set_nscount(3);
    header.set_arcount(4);
    assert_eq!(header.qdcount, 1);
    assert_eq!(header.ancount, 2);
    assert_eq!(header.nscount, 3);
    assert_eq!(header.arcount, 4);
}

#[test]
fn unsupported_opcode_yields_not_implemented() {
    let mut request = zeroed_header();
    request.pid = 0x7777;
    request.set_opcode(5);
    request.set_rd(true);

    let mut response = zeroed_header();
    response.from_request_header(&request);
    assert_eq!(response.pid, 0x7777);
    assert_eq!(response.get_opcode(), 5);
    assert!(response.get_rd());
    // response flag set, response code 4 ("not implemented")
    assert_eq!(response.flags & 0x8000, 0x8000);
    assert_eq!(response.flags & 0x000f, 4);
}

#[test]
fn standard_query_opcode_yields_zero_rcode() {
    let mut request = zeroed_header();
    request.pid = 0x0102;
    request.set_rd(false);

    let mut response = zeroed_header();
    response.flags = 0xffff;
    response.from_request_header(&request);
    assert_eq!(response.pid, 0x0102);
    assert_eq!(response.get_opcode(), 0);
    assert!(!response.get_rd());
    assert_eq!(response.flags & 0x8000, 0x8000);
    assert_eq!(response.flags & 0x000f, 0);
}

#[test]
fn fresh_header_has_clear_flags_and_counts() {
    let header = DNSHeader::new();
    assert_eq!(header.flags, 0);
    assert_eq!(header.qdcount, 0);
    assert_eq!(header.ancount, 0);
    assert_eq!(header.nscount, 0);
    assert_eq!(header.arcount, 0);
}
