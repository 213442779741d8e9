//! The single-question request and the fixed-shape response packet.
//!
//! `DNSQuery` is an inbound request reduced to its header and first
//! question. `DNSPacket` is the response this responder serves: the
//! echoed question plus one synthetic A record. Standard queries get
//! answer code 0; any other opcode is answered with not-implemented.

use vstd::prelude::*;

use crate::cursor::ByteCursor;
use crate::error::{ErrorKind, ServerError};
use crate::header::{spec_parse_header, DNSHeader, HEADER_LENGTH};
use crate::record::{spec_decode_question, spec_encode_question, spec_encode_record};
use crate::record::{DNSAnswer, DNSQuestion, QuestionView};
use crate::header::spec_header_bytes;

verus! {

/// Response code for a successfully answered standard query.
pub const RCODE_NO_ERROR: u8 = 0;

/// Response code for a name this server cannot answer.
pub const RCODE_NAME_ERROR: u8 = 3;

/// Response code for an opcode this server does not implement.
pub const RCODE_NOT_IMPLEMENTED: u8 = 4;

/// TTL served with every synthetic answer, in seconds.
pub const ANSWER_TTL: u32 = 60;

/// An inbound request: header and its first question.
#[derive(Clone, Debug, PartialEq, Eq)]
pub struct DNSQuery {
    pub header: DNSHeader,
    pub question_section: DNSQuestion,
}

/// What decoding a request yields: the header and the question that
/// starts right after it.
pub open spec fn spec_decode_query(buf: Seq<u8>) -> Result<(DNSHeader, QuestionView), ErrorKind> {
    if buf.len() < HEADER_LENGTH {
        Err(ErrorKind::Truncated)
    } else {
        match spec_decode_question(buf, HEADER_LENGTH as int) {
            Ok((q, _)) => Ok((spec_parse_header(buf), q)),
            Err(e) => Err(e),
        }
    }
}

impl DNSQuery {
    /// Pairs a fresh header carrying the id with the given question.
    pub fn new(id: u16, question: DNSQuestion) -> (r: DNSQuery)
        ensures
            r.header == crate::header::spec_fresh_header(id),
            r.question_section == question,
    {
        DNSQuery { header: DNSHeader::new(id, false), question_section: question }
    }

    /// Decodes a request: the 12-byte header, then one question.
    pub fn from_bytes(bytes: &[u8]) -> (r: Result<DNSQuery, ServerError>)
        ensures
            match r {
                Ok(q) => {
                    &&& spec_decode_query(bytes@) == Ok::<(DNSHeader, QuestionView), ErrorKind>(
                        (q.header, q.question_section@),
                    )
                    &&& q.header.wf()
                    &&& q.question_section.wf()
                },
                Err(e) => spec_decode_query(bytes@) == Err::<(DNSHeader, QuestionView), ErrorKind>(
                    e.kind,
                ),
            },
    {
        let mut cur = ByteCursor::new(vstd::slice::slice_to_vec(bytes));
        let header = match DNSHeader::decode(&mut cur) {
            Ok(h) => h,
            Err(e) => {
                return Err(e);
            },
        };
        proof {
            assert(spec_parse_header(bytes@.subrange(0, HEADER_LENGTH as int)) == spec_parse_header(
                bytes@,
            ));
        }
        let question_section = match DNSQuestion::decode(&mut cur) {
            Ok(q) => q,
            Err(e) => {
                return Err(e);
            },
        };
        Ok(DNSQuery { header, question_section })
    }
}

/// The outbound response: header, echoed question, one answer record.
#[derive(Clone, Debug, PartialEq, Eq)]
pub struct DNSPacket {
    pub header: DNSHeader,
    pub question_section: DNSQuestion,
    pub answer_section: DNSAnswer,
}

/// The header a response to the given request carries: the id echoed,
/// the response flag set, opcode and recursion-desired echoed, one
/// question and one answer counted, and not-implemented signalled for
/// any opcode but a standard query.
pub open spec fn spec_response_header(request: DNSHeader) -> DNSHeader {
    DNSHeader {
        id: request.id,
        qr: true,
        opcode: request.opcode,
        aa: false,
        tc: false,
        rd: request.rd,
        ra: false,
        z: 0,
        rcode: if request.opcode == 0 {
            RCODE_NO_ERROR
        } else {
            RCODE_NOT_IMPLEMENTED
        },
        qdcount: 1,
        ancount: 1,
        nscount: 0,
        arcount: 0,
    }
}

impl DNSPacket {
    /// Builds the response to a request: question echoed back, one
    /// synthetic A record as the answer.
    pub fn for_request(query: DNSQuery) -> (r: DNSPacket)
        requires
            query.header.wf(),
        ensures
            r.header == spec_response_header(query.header),
            r.header.wf(),
            r.question_section@ == query.question_section@,
            r.answer_section@.domain_name == query.question_section@.domain_name,
            r.answer_section@.query_type == query.question_section@.query_type,
            r.answer_section@.query_class == query.question_section@.query_class,
            r.answer_section@.ttl == ANSWER_TTL,
            r.answer_section@.rdata == seq![8u8, 8u8, 8u8, 8u8],
    {
        let mut header = DNSHeader::new(query.header.id, true);
        header.qdcount = 1;
        header.opcode = query.header.opcode;
        header.rd = query.header.rd;
        header.rcode = if query.header.opcode == 0 {
            RCODE_NO_ERROR
        } else {
            RCODE_NOT_IMPLEMENTED
        };
        header.ancount = 1;
        let mut rdata: Vec<u8> = Vec::new();
        rdata.push(8);
        rdata.push(8);
        rdata.push(8);
        rdata.push(8);
        assert(rdata@ =~= seq![8u8, 8u8, 8u8, 8u8]);
        let answer = DNSAnswer {
            domain_name: query.question_section.domain_name.duplicate(),
            query_type: query.question_section.query_type,
            query_class: query.question_section.query_class,
            ttl: ANSWER_TTL,
            rdata,
        };
        DNSPacket { header, question_section: query.question_section, answer_section: answer }
    }

    /// Serializes the packet: header as stored, then the question, then
    /// the answer record.
    pub fn to_bytes(&self) -> (r: Vec<u8>)
        requires
            self.header.wf(),
            self.question_section.wf(),
            self.answer_section.wf(),
        ensures
            r@ == spec_header_bytes(self.header) + spec_encode_question(self.question_section@)
                + spec_encode_record(self.answer_section@),
    {
        let mut out = self.header.to_bytes();
        self.question_section.encode(&mut out);
        self.answer_section.encode(&mut out);
        out
    }
}

} // verus!
