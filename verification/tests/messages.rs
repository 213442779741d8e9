use dns_codec::error::{ErrorKind, ServerError};
use dns_codec::header::DNSHeader;
use dns_codec::message::DNSMessage;
use dns_codec::name::Name;
use dns_codec::packet::{DNSPacket, DNSQuery};
use dns_codec::record::{DNSAnswer, DNSQuestion};
use dns_codec::response::build_response;

fn question(labels: &[&[u8]], qtype: u16, qclass: u16) -> DNSQuestion {
    DNSQuestion {
        domain_name: Name { labels: labels.iter().map(|l| l.to_vec()).collect() },
        query_type: qtype,
        query_class: qclass,
    }
}

fn answer(labels: &[&[u8]], rdata: &[u8]) -> DNSAnswer {
    DNSAnswer {
        domain_name: Name { labels: labels.iter().map(|l| l.to_vec()).collect() },
        query_type: 1,
        query_class: 1,
        ttl: 300,
        rdata: rdata.to_vec(),
    }
}

fn query_header(id: u16, opcode: u8, qdcount: u16) -> DNSHeader {
    DNSHeader {
        id,
        qr: false,
        opcode,
        aa: false,
        tc: false,
        rd: true,
        ra: false,
        z: 0,
        rcode: 0,
        qdcount,
        ancount: 0,
        nscount: 0,
        arcount: 0,
    }
}

#[test]
fn server_error_carries_its_kind() {
    let e = ServerError::new(ErrorKind::PointerCycle);
    assert_eq!(e.kind, ErrorKind::PointerCycle);
}

#[test]
fn message_round_trips_field_for_field() {
    let msg = DNSMessage {
        header: DNSHeader {
            id: 7,
            qr: true,
            opcode: 0,
            aa: true,
            tc: false,
            rd: true,
            ra: true,
            z: 0,
            rcode: 0,
            qdcount: 2,
            ancount: 1,
            nscount: 0,
            arcount: 1,
        },
        questions: vec![
            question(&[b"example", b"com"], 1, 1),
            question(&[b"example", b"org"], 28, 1),
        ],
        answers: vec![answer(&[b"example", b"com"], &[1, 2, 3, 4])],
        authority: Vec::new(),
        additional: vec![answer(&[b"ns", b"example", b"com"], &[5, 6, 7, 8])],
    };
    let bytes = msg.to_bytes();
    let back = DNSMessage::from_bytes(&bytes).unwrap();
    assert_eq!(back, msg);
}

#[test]
fn message_with_no_sections_is_twelve_bytes() {
    let msg = DNSMessage {
        header: query_header(1, 0, 0),
        questions: Vec::new(),
        answers: Vec::new(),
        authority: Vec::new(),
        additional: Vec::new(),
    };
    let bytes = msg.to_bytes();
    assert_eq!(bytes.len(), 12);
    let back = DNSMessage::from_bytes(&bytes).unwrap();
    assert_eq!(back, msg);
}

#[test]
fn message_encode_recomputes_counts() {
    // The stored header lies about every count; the wire must not.
    let msg = DNSMessage {
        header: query_header(9, 0, 40000),
        questions: vec![question(&[b"a"], 1, 1)],
        answers: Vec::new(),
        authority: Vec::new(),
        additional: Vec::new(),
    };
    let bytes = msg.to_bytes();
    let back = DNSMessage::from_bytes(&bytes).unwrap();
    assert_eq!(back.header.qdcount, 1);
    assert_eq!(back.header.ancount, 0);
    assert_eq!(back.header.nscount, 0);
    assert_eq!(back.header.arcount, 0);
    assert_eq!(back.questions.len(), 1);
}

#[test]
fn message_trailing_bytes_are_ignored() {
    let msg = DNSMessage {
        header: query_header(3, 0, 1),
        questions: vec![question(&[b"pad"], 1, 1)],
        answers: Vec::new(),
        authority: Vec::new(),
        additional: Vec::new(),
    };
    let mut bytes = msg.to_bytes();
    bytes.extend_from_slice(&[0xDE, 0xAD, 0xBE, 0xEF]);
    let back = DNSMessage::from_bytes(&bytes).unwrap();
    assert_eq!(back, msg);
}

#[test]
fn message_missing_counted_question_is_truncated() {
    // Header declares one question but the buffer ends at the header.
    let bytes = query_header(5, 0, 1).to_bytes();
    let e = DNSMessage::from_bytes(&bytes).unwrap_err();
    assert_eq!(e.kind, ErrorKind::Truncated);
}

#[test]
fn query_new_pairs_header_and_question() {
    let q = question(&[b"example", b"com"], 1, 1);
    let query = DNSQuery::new(0x42, q.clone());
    assert_eq!(query.header.id, 0x42);
    assert_eq!(query.header.qdcount, 0);
    assert_eq!(query.question_section, q);
}

#[test]
fn query_from_bytes_reads_header_and_first_question() {
    let header = query_header(0x77, 0, 1);
    let q = question(&[b"host", b"test"], 1, 1);
    let mut bytes = header.to_bytes();
    bytes.extend_from_slice(&q.to_bytes());
    let query = DNSQuery::from_bytes(&bytes).unwrap();
    assert_eq!(query.header, header);
    assert_eq!(query.question_section, q);
}

#[test]
fn query_from_short_bytes_is_truncated() {
    let e = DNSQuery::from_bytes(&[0u8; 12]).unwrap_err();
    assert_eq!(e.kind, ErrorKind::Truncated);
}

#[test]
fn for_request_answers_standard_query() {
    let header = query_header(0x1234, 0, 1);
    let q = question(&[b"example", b"com"], 1, 1);
    let query = DNSQuery { header, question_section: q.clone() };
    let packet = DNSPacket::for_request(query);
    assert_eq!(packet.header.id, 0x1234);
    assert!(packet.header.qr);
    assert_eq!(packet.header.rcode, 0);
    assert!(packet.header.rd);
    assert_eq!(packet.header.qdcount, 1);
    assert_eq!(packet.header.ancount, 1);
    assert_eq!(packet.question_section, q);
    assert_eq!(packet.answer_section.domain_name, q.domain_name);
    assert_eq!(packet.answer_section.ttl, 60);
    assert_eq!(packet.answer_section.rdata, vec![8, 8, 8, 8]);
}

#[test]
fn for_request_flags_unsupported_opcode() {
    let header = query_header(1, 2, 1);
    let query = DNSQuery { header, question_section: question(&[b"x"], 1, 1) };
    let packet = DNSPacket::for_request(query);
    assert_eq!(packet.header.opcode, 2);
    assert_eq!(packet.header.rcode, 4);
}

#[test]
fn end_to_end_standard_query() {
    // Request: id 0x1234, opcode 0, one question for example.com, type 1,
    // class 1.
    let q = question(&[b"example", b"com"], 1, 1);
    let mut request = query_header(0x1234, 0, 1).to_bytes();
    request.extend_from_slice(&q.to_bytes());

    let query = DNSQuery::from_bytes(&request).unwrap();
    let packet = DNSPacket::for_request(query);
    let response = packet.to_bytes();

    let msg = DNSMessage::from_bytes(&response).unwrap();
    assert_eq!(msg.header.id, 0x1234);
    assert!(msg.header.qr);
    assert_eq!(msg.header.rcode, 0);
    assert_eq!(msg.header.qdcount, 1);
    assert_eq!(msg.header.ancount, 1);
    assert_eq!(msg.header.nscount, 0);
    assert_eq!(msg.header.arcount, 0);
    assert_eq!(msg.questions.len(), 1);
    assert_eq!(msg.questions[0], q);
    assert_eq!(msg.answers.len(), 1);
    let a = &msg.answers[0];
    assert_eq!(a.domain_name, q.domain_name);
    assert_eq!(a.query_type, 1);
    assert_eq!(a.query_class, 1);
    assert_eq!(a.rdata, vec![8, 8, 8, 8]);
}

#[test]
fn build_response_with_answers_is_no_error() {
    let request = DNSMessage {
        header: query_header(0xBEEF, 0, 1),
        questions: vec![question(&[b"example", b"com"], 1, 1)],
        answers: Vec::new(),
        authority: Vec::new(),
        additional: Vec::new(),
    };
    let answers = vec![answer(&[b"example", b"com"], &[9, 9, 9, 9])];
    let response = build_response(&request, answers.clone());
    assert_eq!(response.header.id, 0xBEEF);
    assert!(response.header.qr);
    assert_eq!(response.header.rcode, 0);
    assert_eq!(response.header.qdcount, 1);
    assert_eq!(response.header.ancount, 1);
    assert_eq!(response.questions, request.questions);
    assert_eq!(response.answers, answers);
    assert!(response.authority.is_empty());
    assert!(response.additional.is_empty());
}

#[test]
fn build_response_without_answers_is_name_error() {
    let request = DNSMessage {
        header: query_header(2, 0, 1),
        questions: vec![question(&[b"nowhere"], 1, 1)],
        answers: Vec::new(),
        authority: Vec::new(),
        additional: Vec::new(),
    };
    let response = build_response(&request, Vec::new());
    assert_eq!(response.header.rcode, 3);
    assert_eq!(response.header.ancount, 0);
}

#[test]
fn build_response_rejects_other_opcodes() {
    let request = DNSMessage {
        header: query_header(2, 9, 1),
        questions: vec![question(&[b"ignored"], 1, 1)],
        answers: Vec::new(),
        authority: Vec::new(),
        additional: Vec::new(),
    };
    let dropped = vec![answer(&[b"ignored"], &[1, 1, 1, 1])];
    let response = build_response(&request, dropped);
    assert_eq!(response.header.rcode, 4);
    assert_eq!(response.header.ancount, 0);
    assert!(response.answers.is_empty());
    assert_eq!(response.questions, request.questions);
}

#[test]
fn built_response_round_trips_on_the_wire() {
    let request = DNSMessage {
        header: query_header(11, 0, 1),
        questions: vec![question(&[b"example", b"net"], 1, 1)],
        answers: Vec::new(),
        authority: Vec::new(),
        additional: Vec::new(),
    };
    let response = build_response(&request, vec![answer(&[b"example", b"net"], &[4, 3, 2, 1])]);
    let bytes = response.to_bytes();
    let back = DNSMessage::from_bytes(&bytes).unwrap();
    assert_eq!(back, response);
}
