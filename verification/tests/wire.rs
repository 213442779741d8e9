use dns_codec::cursor::{push_u16, push_u32, push_u8, ByteCursor};
use dns_codec::error::ErrorKind;
use dns_codec::header::{DNSHeader, HEADER_LENGTH};
use dns_codec::name::Name;
use dns_codec::record::{DNSAnswer, DNSQuestion};

fn sample_header() -> DNSHeader {
    DNSHeader {
        id: 0xABCD,
        qr: true,
        opcode: 5,
        aa: true,
        tc: true,
        rd: true,
        ra: true,
        z: 7,
        rcode: 3,
        qdcount: 1,
        ancount: 2,
        nscount: 3,
        arcount: 4,
    }
}

#[test]
fn cursor_reads_advance_big_endian() {
    let mut cur = ByteCursor::new(vec![0x12, 0x34, 0x56, 0x78, 0x9A, 0xBC, 0xDE]);
    assert_eq!(cur.read_u8().unwrap(), 0x12);
    assert_eq!(cur.read_u16().unwrap(), 0x3456);
    assert_eq!(cur.read_u32().unwrap(), 0x789ABCDE);
    assert_eq!(cur.position(), 7);
    assert_eq!(cur.read_u8().unwrap_err().kind, ErrorKind::Truncated);
}

#[test]
fn cursor_read_bytes_and_peek() {
    let mut cur = ByteCursor::new(vec![1, 2, 3, 4, 5]);
    let chunk = cur.read_bytes(3).unwrap();
    assert_eq!(chunk, vec![1, 2, 3]);
    assert_eq!(cur.position(), 3);
    assert_eq!(cur.peek_at(0).unwrap(), 1);
    assert_eq!(cur.position(), 3);
    assert_eq!(cur.peek_at(5).unwrap_err().kind, ErrorKind::Truncated);
    assert_eq!(cur.read_bytes(3).unwrap_err().kind, ErrorKind::Truncated);
    assert_eq!(cur.position(), 3);
    cur.seek(1);
    assert_eq!(cur.read_u8().unwrap(), 2);
}

#[test]
fn push_helpers_write_big_endian() {
    let mut out: Vec<u8> = Vec::new();
    push_u8(&mut out, 0x01);
    push_u16(&mut out, 0x2345);
    push_u32(&mut out, 0x6789ABCD);
    assert_eq!(out, vec![0x01, 0x23, 0x45, 0x67, 0x89, 0xAB, 0xCD]);
}

#[test]
fn header_bit_packing_layout() {
    let h = DNSHeader {
        id: 0x1234,
        qr: true,
        opcode: 0,
        aa: false,
        tc: false,
        rd: true,
        ra: true,
        z: 0,
        rcode: 2,
        qdcount: 1,
        ancount: 0,
        nscount: 0,
        arcount: 0x0102,
    };
    let bytes = h.to_bytes();
    assert_eq!(bytes.len(), HEADER_LENGTH);
    assert_eq!(bytes[0], 0x12);
    assert_eq!(bytes[1], 0x34);
    assert_eq!(bytes[2], 0x81);
    assert_eq!(bytes[3], 0x82);
    assert_eq!(&bytes[4..12], &[0, 1, 0, 0, 0, 0, 1, 2]);
}

#[test]
fn header_round_trip_forces_reserved_bits_to_zero() {
    let h = sample_header();
    let bytes = h.to_bytes();
    assert_eq!(bytes.len(), 12);
    let back = DNSHeader::from_bytes(&bytes).unwrap();
    let mut expected = h;
    expected.z = 0;
    assert_eq!(back, expected);
}

#[test]
fn header_from_short_buffer_is_truncated() {
    let short = [0u8; 11];
    let e = DNSHeader::from_bytes(&short).unwrap_err();
    assert_eq!(e.kind, ErrorKind::Truncated);
    assert_eq!(DNSHeader::from_bytes(&[]).unwrap_err().kind, ErrorKind::Truncated);
}

#[test]
fn name_encodes_as_length_prefixed_labels() {
    let name = Name { labels: vec![b"a".to_vec(), b"b".to_vec(), b"c".to_vec()] };
    let mut out: Vec<u8> = Vec::new();
    name.encode(&mut out);
    assert_eq!(out, vec![1, b'a', 1, b'b', 1, b'c', 0]);
    let mut cur = ByteCursor::new(out);
    let back = Name::decode(&mut cur).unwrap();
    assert_eq!(back, name);
    assert_eq!(cur.position(), 7);
}

#[test]
fn name_decode_follows_compression_pointer() {
    // Offset 12 holds "foo" in full; offset 20 is a 2-byte pointer to it.
    let mut buf = vec![0u8; 22];
    buf[12] = 3;
    buf[13] = b'f';
    buf[14] = b'o';
    buf[15] = b'o';
    buf[16] = 0;
    buf[20] = 0xC0;
    buf[21] = 12;
    let mut cur = ByteCursor::new(buf);
    cur.seek(20);
    let name = Name::decode(&mut cur).unwrap();
    assert_eq!(name.labels, vec![b"foo".to_vec()]);
    assert_eq!(cur.position(), 22);
}

#[test]
fn name_decode_resumes_after_pointer() {
    // A label, then a pointer: ["bar", "foo"], resuming right after.
    let mut buf = vec![0u8; 32];
    buf[2] = 3;
    buf[3] = b'f';
    buf[4] = b'o';
    buf[5] = b'o';
    buf[6] = 0;
    buf[10] = 3;
    buf[11] = b'b';
    buf[12] = b'a';
    buf[13] = b'r';
    buf[14] = 0xC0;
    buf[15] = 2;
    let mut cur = ByteCursor::new(buf);
    cur.seek(10);
    let name = Name::decode(&mut cur).unwrap();
    assert_eq!(name.labels, vec![b"bar".to_vec(), b"foo".to_vec()]);
    assert_eq!(cur.position(), 16);
}

#[test]
fn name_pointer_cycle_is_rejected() {
    // Two pointers that point at each other.
    let buf = vec![0xC0, 2, 0xC0, 0];
    let mut cur = ByteCursor::new(buf);
    let e = Name::decode(&mut cur).unwrap_err();
    assert_eq!(e.kind, ErrorKind::PointerCycle);
}

#[test]
fn name_self_pointer_is_rejected() {
    let buf = vec![0xC0, 0];
    let mut cur = ByteCursor::new(buf);
    let e = Name::decode(&mut cur).unwrap_err();
    assert_eq!(e.kind, ErrorKind::PointerCycle);
}

#[test]
fn name_invalid_label_length_is_rejected() {
    // 0x50 is neither a plain length (0..=63) nor a pointer marker.
    let buf = vec![0x50, 0, 0];
    let mut cur = ByteCursor::new(buf);
    let e = Name::decode(&mut cur).unwrap_err();
    assert_eq!(e.kind, ErrorKind::InvalidLabelLength);
}

#[test]
fn name_truncated_label_is_rejected() {
    let buf = vec![3, b'a'];
    let mut cur = ByteCursor::new(buf);
    let e = Name::decode(&mut cur).unwrap_err();
    assert_eq!(e.kind, ErrorKind::Truncated);
}

#[test]
fn name_longest_label_round_trips() {
    let label = vec![b'x'; 63];
    let name = Name { labels: vec![label.clone()] };
    assert!(name.check_wf());
    let mut out: Vec<u8> = Vec::new();
    name.encode(&mut out);
    assert_eq!(out.len(), 65);
    assert_eq!(out[0], 63);
    let mut cur = ByteCursor::new(out);
    let back = Name::decode(&mut cur).unwrap();
    assert_eq!(back.labels, vec![label]);
}

#[test]
fn name_check_wf_rejects_oversized_label() {
    let name = Name { labels: vec![vec![b'x'; 64]] };
    assert!(!name.check_wf());
    let empty_label = Name { labels: vec![Vec::new()] };
    assert!(!empty_label.check_wf());
}

#[test]
fn question_round_trips_through_bytes() {
    let q = DNSQuestion {
        domain_name: Name { labels: vec![b"example".to_vec(), b"com".to_vec()] },
        query_type: 1,
        query_class: 1,
    };
    let bytes = q.to_bytes();
    assert_eq!(bytes.len(), 13 + 4);
    let back = DNSQuestion::from_bytes(&bytes).unwrap();
    assert_eq!(back, q);
}

#[test]
fn record_round_trips_through_cursor() {
    let a = DNSAnswer {
        domain_name: Name { labels: vec![b"example".to_vec(), b"com".to_vec()] },
        query_type: 1,
        query_class: 1,
        ttl: 3600,
        rdata: vec![93, 184, 216, 34],
    };
    let bytes = a.to_bytes();
    // Name (13) + type (2) + class (2) + TTL (4) + RDLENGTH (2) + RDATA (4).
    assert_eq!(bytes.len(), 27);
    assert_eq!(&bytes[21..23], &[0, 4]);
    let mut cur = ByteCursor::new(bytes);
    let back = DNSAnswer::decode(&mut cur).unwrap();
    assert_eq!(back, a);
    assert_eq!(cur.position(), 27);
}

#[test]
fn record_with_rdlength_past_end_is_truncated() {
    let a = DNSAnswer {
        domain_name: Name { labels: vec![b"x".to_vec()] },
        query_type: 1,
        query_class: 1,
        ttl: 0,
        rdata: vec![1, 2, 3, 4, 5],
    };
    let mut bytes = a.to_bytes();
    // Cut off part of the RDATA while RDLENGTH still declares 5 bytes.
    bytes.truncate(bytes.len() - 3);
    let mut cur = ByteCursor::new(bytes);
    let e = DNSAnswer::decode(&mut cur).unwrap_err();
    assert_eq!(e.kind, ErrorKind::Truncated);
}

#[test]
fn empty_rdata_round_trips() {
    let a = DNSAnswer {
        domain_name: Name { labels: vec![b"n".to_vec()] },
        query_type: 16,
        query_class: 1,
        ttl: 0,
        rdata: Vec::new(),
    };
    let bytes = a.to_bytes();
    let mut cur = ByteCursor::new(bytes);
    let back = DNSAnswer::decode(&mut cur).unwrap();
    assert_eq!(back, a);
}
