//! The pure request-to-response transformation over full messages.
//!
//! What to answer with is a policy decision made outside this crate: the
//! caller looks the questions up and hands the resulting records in. This
//! module wires them into a protocol-correct response: id echoed,
//! response flag set, opcode and recursion-desired echoed, questions
//! echoed verbatim, and the response code chosen from the opcode and from
//! whether any answer was produced.

use vstd::prelude::*;

use crate::header::DNSHeader;
use crate::message::{
    counts_consistent, message_wf, questions_view, questions_wf, records_view, records_wf,
    DNSMessage, MessageView,
};
use crate::packet::{RCODE_NAME_ERROR, RCODE_NOT_IMPLEMENTED, RCODE_NO_ERROR};
use crate::record::DNSAnswer;
use crate::record::DNSQuestion;

verus! {

/// The response code owed to a request: not-implemented for any opcode
/// but a standard query, else no-error when answers were produced and
/// name-error when none could be.
pub open spec fn spec_response_code(opcode: u8, answer_count: nat) -> u8 {
    if opcode != 0 {
        RCODE_NOT_IMPLEMENTED
    } else if answer_count > 0 {
        RCODE_NO_ERROR
    } else {
        RCODE_NAME_ERROR
    }
}

/// The full header of a response to `request` that carries
/// `answer_count` answers to `question_count` echoed questions.
pub open spec fn spec_response_message_header(
    request: DNSHeader,
    question_count: nat,
    answer_count: nat,
) -> DNSHeader {
    DNSHeader {
        id: request.id,
        qr: true,
        opcode: request.opcode,
        aa: false,
        tc: false,
        rd: request.rd,
        ra: false,
        z: 0,
        rcode: spec_response_code(request.opcode, answer_count),
        qdcount: question_count as u16,
        ancount: answer_count as u16,
        nscount: 0,
        arcount: 0,
    }
}

/// Echoes a question section.
#[verifier::loop_isolation(false)]
fn duplicate_questions(qs: &Vec<DNSQuestion>) -> (r: Vec<DNSQuestion>)
    ensures
        questions_view(r@) == questions_view(qs@),
{
    let mut out: Vec<DNSQuestion> = Vec::new();
    let mut i: usize = 0;
    while i < qs.len()
        invariant
            i <= qs@.len(),
            questions_view(out@) == questions_view(qs@).take(i as int),
        decreases qs@.len() - i,
    {
        let ghost before = questions_view(out@);
        let q = qs[i].duplicate();
        out.push(q);
        proof {
            assert(questions_view(out@) =~= before.push(qs@[i as int]@));
            assert(before.push(qs@[i as int]@) =~= questions_view(qs@).take(i + 1));
        }
        i = i + 1;
    }
    proof {
        assert(questions_view(qs@).take(i as int) =~= questions_view(qs@));
    }
    out
}

/// Builds the response to a decoded request from the answers a policy
/// collaborator produced for its questions. Standard queries get the
/// answers and code no-error (or name-error when there are none); any
/// other opcode gets an empty answer section and code not-implemented.
pub fn build_response(request: &DNSMessage, answers: Vec<DNSAnswer>) -> (r: DNSMessage)
    requires
        request@.header.wf(),
        questions_wf(request@.questions),
        records_wf(records_view(answers@)),
        request@.questions.len() <= 0xFFFF,
        answers@.len() <= 0xFFFF,
    ensures
        r@.questions == request@.questions,
        r@.answers == (if request@.header.opcode == 0 {
            records_view(answers@)
        } else {
            Seq::<crate::record::RecordView>::empty()
        }),
        r@.authority == Seq::<crate::record::RecordView>::empty(),
        r@.additional == Seq::<crate::record::RecordView>::empty(),
        r@.header == spec_response_message_header(
            request@.header,
            request@.questions.len(),
            r@.answers.len(),
        ),
        message_wf(r@),
        counts_consistent(r@),
        r@.header.z == 0,
{
    let questions = duplicate_questions(&request.questions);
    let kept_answers: Vec<DNSAnswer> = if request.header.opcode == 0 {
        answers
    } else {
        Vec::new()
    };
    let rcode: u8 = if request.header.opcode != 0 {
        RCODE_NOT_IMPLEMENTED
    } else if kept_answers.len() > 0 {
        RCODE_NO_ERROR
    } else {
        RCODE_NAME_ERROR
    };
    let header = DNSHeader {
        id: request.header.id,
        qr: true,
        opcode: request.header.opcode,
        aa: false,
        tc: false,
        rd: request.header.rd,
        ra: false,
        z: 0,
        rcode,
        qdcount: questions.len() as u16,
        ancount: kept_answers.len() as u16,
        nscount: 0,
        arcount: 0,
    };
    let r = DNSMessage {
        header,
        questions,
        answers: kept_answers,
        authority: Vec::new(),
        additional: Vec::new(),
    };
    proof {
        assert(records_view(Seq::<DNSAnswer>::empty()) =~= Seq::<
            crate::record::RecordView,
        >::empty());
        assert(questions_view(r.questions@).len() == request@.questions.len());
    }
    r
}

} // verus!
