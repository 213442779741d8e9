//! Whole DNS messages: header plus question, answer, authority and
//! additional sections.
//!
//! Decoding trusts the header's counts: it reads exactly that many
//! entries per section and fails with `Truncated` when the buffer runs
//! out first; trailing unconsumed bytes are ignored, since datagrams may
//! be padded. Encoding recomputes every count from the actual section
//! lengths, never trusting a caller-supplied count.

use vstd::prelude::*;

use crate::cursor::ByteCursor;
use crate::error::{ErrorKind, ServerError};
use crate::header::{spec_header_bytes, spec_parse_header, DNSHeader, HEADER_LENGTH};
use crate::header::lemma_header_round_trip;
use crate::record::{
    question_wf, record_wf, spec_decode_question, spec_decode_record, spec_encode_question,
    spec_encode_record, DNSAnswer, DNSQuestion, QuestionView, RecordView,
};
use crate::record::{lemma_decode_encoded_question, lemma_decode_encoded_record};

verus! {

/// The mathematical content of a full message.
pub ghost struct MessageView {
    pub header: DNSHeader,
    pub questions: Seq<QuestionView>,
    pub answers: Seq<RecordView>,
    pub authority: Seq<RecordView>,
    pub additional: Seq<RecordView>,
}

/// A full DNS message.
#[derive(Clone, Debug, PartialEq, Eq)]
pub struct DNSMessage {
    pub header: DNSHeader,
    pub questions: Vec<DNSQuestion>,
    pub answers: Vec<DNSAnswer>,
    pub authority: Vec<DNSAnswer>,
    pub additional: Vec<DNSAnswer>,
}

/// The views of a sequence of questions.
pub open spec fn questions_view(s: Seq<DNSQuestion>) -> Seq<QuestionView> {
    Seq::new(s.len(), |i: int| s[i]@)
}

/// The views of a sequence of records.
pub open spec fn records_view(s: Seq<DNSAnswer>) -> Seq<RecordView> {
    Seq::new(s.len(), |i: int| s[i]@)
}

impl View for DNSMessage {
    type V = MessageView;

    open spec fn view(&self) -> MessageView {
        MessageView {
            header: self.header,
            questions: questions_view(self.questions@),
            answers: records_view(self.answers@),
            authority: records_view(self.authority@),
            additional: records_view(self.additional@),
        }
    }
}

/// Every question of the section is encodable.
pub open spec fn questions_wf(qs: Seq<QuestionView>) -> bool {
    forall|i: int| 0 <= i < qs.len() ==> question_wf(#[trigger] qs[i])
}

/// Every record of the section is encodable.
pub open spec fn records_wf(rs: Seq<RecordView>) -> bool {
    forall|i: int| 0 <= i < rs.len() ==> record_wf(#[trigger] rs[i])
}

/// The concatenated wire form of a question section.
pub open spec fn spec_encode_questions(qs: Seq<QuestionView>) -> Seq<u8>
    decreases qs.len(),
{
    if qs.len() == 0 {
        Seq::empty()
    } else {
        spec_encode_question(qs[0]) + spec_encode_questions(qs.drop_first())
    }
}

/// The concatenated wire form of a record section.
pub open spec fn spec_encode_records(rs: Seq<RecordView>) -> Seq<u8>
    decreases rs.len(),
{
    if rs.len() == 0 {
        Seq::empty()
    } else {
        spec_encode_record(rs[0]) + spec_encode_records(rs.drop_first())
    }
}

/// What decoding exactly `n` questions in a row yields.
pub open spec fn spec_decode_questions(buf: Seq<u8>, pos: int, n: int) -> Result<
    (Seq<QuestionView>, int),
    ErrorKind,
>
    decreases n,
{
    if n <= 0 {
        Ok((Seq::empty(), pos))
    } else {
        match spec_decode_question(buf, pos) {
            Ok((q, p)) => match spec_decode_questions(buf, p, n - 1) {
                Ok((rest, end)) => Ok((seq![q] + rest, end)),
                Err(e) => Err(e),
            },
            Err(e) => Err(e),
        }
    }
}

/// What decoding exactly `n` records in a row yields.
pub open spec fn spec_decode_records(buf: Seq<u8>, pos: int, n: int) -> Result<
    (Seq<RecordView>, int),
    ErrorKind,
>
    decreases n,
{
    if n <= 0 {
        Ok((Seq::empty(), pos))
    } else {
        match spec_decode_record(buf, pos) {
            Ok((r, p)) => match spec_decode_records(buf, p, n - 1) {
                Ok((rest, end)) => Ok((seq![r] + rest, end)),
                Err(e) => Err(e),
            },
            Err(e) => Err(e),
        }
    }
}

/// The message's header with every count recomputed from the section it
/// counts.
pub open spec fn header_with_counts(m: MessageView) -> DNSHeader {
    DNSHeader {
        qdcount: m.questions.len() as u16,
        ancount: m.answers.len() as u16,
        nscount: m.authority.len() as u16,
        arcount: m.additional.len() as u16,
        ..m.header
    }
}

/// Every part of the message is encodable.
pub open spec fn message_wf(m: MessageView) -> bool {
    &&& m.header.wf()
    &&& questions_wf(m.questions)
    &&& records_wf(m.answers)
    &&& records_wf(m.authority)
    &&& records_wf(m.additional)
    &&& m.questions.len() <= 0xFFFF
    &&& m.answers.len() <= 0xFFFF
    &&& m.authority.len() <= 0xFFFF
    &&& m.additional.len() <= 0xFFFF
}

/// The header's counts agree with the actual section lengths.
pub open spec fn counts_consistent(m: MessageView) -> bool {
    &&& m.header.qdcount == m.questions.len()
    &&& m.header.ancount == m.answers.len()
    &&& m.header.nscount == m.authority.len()
    &&& m.header.arcount == m.additional.len()
}

/// The exact bytes a message encodes to: recounted header, then the four
/// sections in order.
pub open spec fn spec_encode_message(m: MessageView) -> Seq<u8> {
    spec_header_bytes(header_with_counts(m)) + spec_encode_questions(m.questions)
        + spec_encode_records(m.answers) + spec_encode_records(m.authority) + spec_encode_records(
        m.additional,
    )
}

/// What decoding a whole message yields: the header's counts decide how
/// many entries each section has; trailing bytes are ignored.
pub open spec fn spec_decode_message(buf: Seq<u8>) -> Result<MessageView, ErrorKind> {
    if buf.len() < HEADER_LENGTH {
        Err(ErrorKind::Truncated)
    } else {
        let h = spec_parse_header(buf);
        match spec_decode_questions(buf, HEADER_LENGTH as int, h.qdcount as int) {
            Ok((qs, p1)) => match spec_decode_records(buf, p1, h.ancount as int) {
                Ok((ans, p2)) => match spec_decode_records(buf, p2, h.nscount as int) {
                    Ok((auth, p3)) => match spec_decode_records(buf, p3, h.arcount as int) {
                        Ok((add, _)) => Ok(
                            MessageView {
                                header: h,
                                questions: qs,
                                answers: ans,
                                authority: auth,
                                additional: add,
                            },
                        ),
                        Err(e) => Err(e),
                    },
                    Err(e) => Err(e),
                },
                Err(e) => Err(e),
            },
            Err(e) => Err(e),
        }
    }
}

/// Appending one question to a section appends its wire form to the
/// section's encoding.
pub proof fn lemma_encode_questions_push(qs: Seq<QuestionView>, q: QuestionView)
    ensures
        spec_encode_questions(qs.push(q)) == spec_encode_questions(qs) + spec_encode_question(q),
    decreases qs.len(),
{
    if qs.len() == 0 {
        assert(qs.push(q)[0] == q);
        assert(qs.push(q).drop_first() =~= Seq::<QuestionView>::empty());
        assert(spec_encode_questions(Seq::<QuestionView>::empty()) == Seq::<u8>::empty());
        assert(spec_encode_questions(qs.push(q)) =~= spec_encode_questions(qs)
            + spec_encode_question(q));
    } else {
        lemma_encode_questions_push(qs.drop_first(), q);
        assert(qs.push(q)[0] == qs[0]);
        assert(qs.push(q).drop_first() =~= qs.drop_first().push(q));
        assert(spec_encode_questions(qs.push(q)) =~= spec_encode_questions(qs)
            + spec_encode_question(q));
    }
}

/// Appending one record to a section appends its wire form to the
/// section's encoding.
pub proof fn lemma_encode_records_push(rs: Seq<RecordView>, r: RecordView)
    ensures
        spec_encode_records(rs.push(r)) == spec_encode_records(rs) + spec_encode_record(r),
    decreases rs.len(),
{
    if rs.len() == 0 {
        assert(rs.push(r)[0] == r);
        assert(rs.push(r).drop_first() =~= Seq::<RecordView>::empty());
        assert(spec_encode_records(Seq::<RecordView>::empty()) == Seq::<u8>::empty());
        assert(spec_encode_records(rs.push(r)) =~= spec_encode_records(rs) + spec_encode_record(
            r,
        ));
    } else {
        lemma_encode_records_push(rs.drop_first(), r);
        assert(rs.push(r)[0] == rs[0]);
        assert(rs.push(r).drop_first() =~= rs.drop_first().push(r));
        assert(spec_encode_records(rs.push(r)) =~= spec_encode_records(rs) + spec_encode_record(
            r,
        ));
    }
}

/// Appends the wire form of a question section to the output.
#[verifier::loop_isolation(false)]
pub fn encode_questions(qs: &Vec<DNSQuestion>, out: &mut Vec<u8>)
    requires
        questions_wf(questions_view(qs@)),
    ensures
        final(out)@ == old(out)@ + spec_encode_questions(questions_view(qs@)),
{
    let ghost base = out@;
    let mut i: usize = 0;
    while i < qs.len()
        invariant
            i <= qs@.len(),
            out@ == base + spec_encode_questions(questions_view(qs@).take(i as int)),
        decreases qs@.len() - i,
    {
        proof {
            assert(question_wf(questions_view(qs@)[i as int]));
        }
        qs[i].encode(out);
        proof {
            lemma_encode_questions_push(
                questions_view(qs@).take(i as int),
                questions_view(qs@)[i as int],
            );
            assert(questions_view(qs@).take(i as int).push(questions_view(qs@)[i as int])
                =~= questions_view(qs@).take(i + 1));
        }
        i = i + 1;
    }
    proof {
        assert(questions_view(qs@).take(i as int) =~= questions_view(qs@));
    }
}

/// Appends the wire form of a record section to the output.
#[verifier::loop_isolation(false)]
pub fn encode_records(rs: &Vec<DNSAnswer>, out: &mut Vec<u8>)
    requires
        records_wf(records_view(rs@)),
    ensures
        final(out)@ == old(out)@ + spec_encode_records(records_view(rs@)),
{
    let ghost base = out@;
    let mut i: usize = 0;
    while i < rs.len()
        invariant
            i <= rs@.len(),
            out@ == base + spec_encode_records(records_view(rs@).take(i as int)),
        decreases rs@.len() - i,
    {
        proof {
            assert(record_wf(records_view(rs@)[i as int]));
        }
        rs[i].encode(out);
        proof {
            lemma_encode_records_push(
                records_view(rs@).take(i as int),
                records_view(rs@)[i as int],
            );
            assert(records_view(rs@).take(i as int).push(records_view(rs@)[i as int])
                =~= records_view(rs@).take(i + 1));
        }
        i = i + 1;
    }
    proof {
        assert(records_view(rs@).take(i as int) =~= records_view(rs@));
    }
}

/// Reads exactly `n` questions from the cursor.
#[verifier::loop_isolation(false)]
pub fn decode_questions(cur: &mut ByteCursor, n: u16) -> (r: Result<Vec<DNSQuestion>, ServerError>)
    requires
        old(cur).wf(),
    ensures
        final(cur).buf == old(cur).buf,
        final(cur).wf(),
        match r {
            Ok(v) => {
                &&& spec_decode_questions(old(cur).buf@, old(cur).pos as int, n as int) == Ok::<
                    _,
                    ErrorKind,
                >((questions_view(v@), final(cur).pos as int))
                &&& v@.len() == n
                &&& questions_wf(questions_view(v@))
            },
            Err(e) => spec_decode_questions(old(cur).buf@, old(cur).pos as int, n as int) == Err::<
                (Seq<QuestionView>, int),
                ErrorKind,
            >(e.kind),
        },
{
    let ghost buf = cur.buf@;
    let ghost pos0 = cur.pos as int;
    let mut v: Vec<DNSQuestion> = Vec::new();
    let mut i: u16 = 0;
    proof {
        match spec_decode_questions(buf, pos0, n as int) {
            Ok((ls, e)) => {
                assert(Seq::<QuestionView>::empty() + ls =~= ls);
            },
            Err(_) => {},
        }
    }
    while i < n
        invariant
            cur.wf(),
            cur.buf == old(cur).buf,
            i <= n,
            v@.len() == i,
            questions_wf(questions_view(v@)),
            spec_decode_questions(buf, pos0, n as int) == (
            match spec_decode_questions(buf, cur.pos as int, n - i) {
                Ok((rest, end)) => Ok::<_, ErrorKind>((questions_view(v@) + rest, end)),
                Err(e) => Err::<(Seq<QuestionView>, int), ErrorKind>(e),
            }),
        decreases n - i,
    {
        let ghost acc = questions_view(v@);
        let ghost p = cur.pos as int;
        let q = match DNSQuestion::decode(cur) {
            Ok(q) => q,
            Err(e) => {
                return Err(e);
            },
        };
        proof {
            match spec_decode_questions(buf, cur.pos as int, n - i - 1) {
                Ok((rest, end)) => {
                    assert(acc.push(q@) + rest =~= acc + (seq![q@] + rest));
                },
                Err(_) => {},
            }
        }
        v.push(q);
        proof {
            assert(questions_view(v@) =~= acc.push(q@));
        }
        i = i + 1;
    }
    proof {
        assert(questions_view(v@) + Seq::<QuestionView>::empty() =~= questions_view(v@));
    }
    Ok(v)
}

/// Reads exactly `n` resource records from the cursor.
#[verifier::loop_isolation(false)]
pub fn decode_records(cur: &mut ByteCursor, n: u16) -> (r: Result<Vec<DNSAnswer>, ServerError>)
    requires
        old(cur).wf(),
    ensures
        final(cur).buf == old(cur).buf,
        final(cur).wf(),
        match r {
            Ok(v) => {
                &&& spec_decode_records(old(cur).buf@, old(cur).pos as int, n as int) == Ok::<
                    _,
                    ErrorKind,
                >((records_view(v@), final(cur).pos as int))
                &&& v@.len() == n
                &&& records_wf(records_view(v@))
            },
            Err(e) => spec_decode_records(old(cur).buf@, old(cur).pos as int, n as int) == Err::<
                (Seq<RecordView>, int),
                ErrorKind,
            >(e.kind),
        },
{
    let ghost buf = cur.buf@;
    let ghost pos0 = cur.pos as int;
    let mut v: Vec<DNSAnswer> = Vec::new();
    let mut i: u16 = 0;
    proof {
        match spec_decode_records(buf, pos0, n as int) {
            Ok((ls, e)) => {
                assert(Seq::<RecordView>::empty() + ls =~= ls);
            },
            Err(_) => {},
        }
    }
    while i < n
        invariant
            cur.wf(),
            cur.buf == old(cur).buf,
            i <= n,
            v@.len() == i,
            records_wf(records_view(v@)),
            spec_decode_records(buf, pos0, n as int) == (
            match spec_decode_records(buf, cur.pos as int, n - i) {
                Ok((rest, end)) => Ok::<_, ErrorKind>((records_view(v@) + rest, end)),
                Err(e) => Err::<(Seq<RecordView>, int), ErrorKind>(e),
            }),
        decreases n - i,
    {
        let ghost acc = records_view(v@);
        let a = match DNSAnswer::decode(cur) {
            Ok(a) => a,
            Err(e) => {
                return Err(e);
            },
        };
        proof {
            match spec_decode_records(buf, cur.pos as int, n - i - 1) {
                Ok((rest, end)) => {
                    assert(acc.push(a@) + rest =~= acc + (seq![a@] + rest));
                },
                Err(_) => {},
            }
        }
        v.push(a);
        proof {
            assert(records_view(v@) =~= acc.push(a@));
        }
        i = i + 1;
    }
    proof {
        assert(records_view(v@) + Seq::<RecordView>::empty() =~= records_view(v@));
    }
    Ok(v)
}

impl DNSMessage {
    /// Every part of the message is encodable.
    pub open spec fn wf(&self) -> bool {
        message_wf(self@)
    }

    /// Serializes the message: recounted header, then each section's
    /// entries in order.
    pub fn to_bytes(&self) -> (r: Vec<u8>)
        requires
            self.wf(),
        ensures
            r@ == spec_encode_message(self@),
    {
        let mut counted = self.header;
        counted.qdcount = self.questions.len() as u16;
        counted.ancount = self.answers.len() as u16;
        counted.nscount = self.authority.len() as u16;
        counted.arcount = self.additional.len() as u16;
        proof {
            assert(counted == header_with_counts(self@));
        }
        let mut out = counted.to_bytes();
        encode_questions(&self.questions, &mut out);
        encode_records(&self.answers, &mut out);
        encode_records(&self.authority, &mut out);
        encode_records(&self.additional, &mut out);
        assert(out@ == spec_encode_message(self@));
        out
    }

    /// Decodes a whole message from a datagram; trailing bytes after the
    /// counted sections are ignored.
    pub fn from_bytes(bytes: &[u8]) -> (r: Result<DNSMessage, ServerError>)
        ensures
            match r {
                Ok(m) => {
                    &&& spec_decode_message(bytes@) == Ok::<MessageView, ErrorKind>(m@)
                    &&& m.wf()
                    &&& counts_consistent(m@)
                },
                Err(e) => spec_decode_message(bytes@) == Err::<MessageView, ErrorKind>(e.kind),
            },
    {
        let mut cur = ByteCursor::new(vstd::slice::slice_to_vec(bytes));
        let header = match DNSHeader::decode(&mut cur) {
            Ok(h) => h,
            Err(e) => {
                return Err(e);
            },
        };
        proof {
            assert(spec_parse_header(bytes@.subrange(0, HEADER_LENGTH as int)) == spec_parse_header(
                bytes@,
            ));
        }
        let questions = match decode_questions(&mut cur, header.qdcount) {
            Ok(v) => v,
            Err(e) => {
                return Err(e);
            },
        };
        let answers = match decode_records(&mut cur, header.ancount) {
            Ok(v) => v,
            Err(e) => {
                return Err(e);
            },
        };
        let authority = match decode_records(&mut cur, header.nscount) {
            Ok(v) => v,
            Err(e) => {
                return Err(e);
            },
        };
        let additional = match decode_records(&mut cur, header.arcount) {
            Ok(v) => v,
            Err(e) => {
                return Err(e);
            },
        };
        Ok(DNSMessage { header, questions, answers, authority, additional })
    }
}

/// Decoding at the position of a freshly written question section gives
/// the questions back, ending just past them.
pub proof fn lemma_decode_encoded_questions(buf: Seq<u8>, pos: int, qs: Seq<QuestionView>)
    requires
        questions_wf(qs),
        0 <= pos,
        pos + spec_encode_questions(qs).len() <= buf.len(),
        buf.subrange(pos, pos + spec_encode_questions(qs).len()) == spec_encode_questions(qs),
    ensures
        spec_decode_questions(buf, pos, qs.len() as int) == Ok::<_, ErrorKind>(
            (qs, pos + spec_encode_questions(qs).len()),
        ),
    decreases qs.len(),
{
    let enc = spec_encode_questions(qs);
    if qs.len() == 0 {
        assert(qs =~= Seq::<QuestionView>::empty());
    } else {
        let q0 = qs[0];
        let e0 = spec_encode_question(q0);
        let rest = qs.drop_first();
        let enc_rest = spec_encode_questions(rest);
        assert(enc == e0 + enc_rest);
        let sub = buf.subrange(pos, pos + enc.len());
        assert(buf.subrange(pos, pos + e0.len()) =~= sub.subrange(0, e0.len() as int));
        assert(enc.subrange(0, e0.len() as int) =~= e0);
        lemma_decode_encoded_question(buf, pos, q0);
        assert(buf.subrange(pos + e0.len(), pos + enc.len()) =~= sub.subrange(
            e0.len() as int,
            enc.len() as int,
        ));
        assert(enc.subrange(e0.len() as int, enc.len() as int) =~= enc_rest);
        lemma_decode_encoded_questions(buf, pos + e0.len(), rest);
        assert(seq![q0] + rest =~= qs);
    }
}

/// Decoding at the position of a freshly written record section gives
/// the records back, ending just past them.
pub proof fn lemma_decode_encoded_records(buf: Seq<u8>, pos: int, rs: Seq<RecordView>)
    requires
        records_wf(rs),
        0 <= pos,
        pos + spec_encode_records(rs).len() <= buf.len(),
        buf.subrange(pos, pos + spec_encode_records(rs).len()) == spec_encode_records(rs),
    ensures
        spec_decode_records(buf, pos, rs.len() as int) == Ok::<_, ErrorKind>(
            (rs, pos + spec_encode_records(rs).len()),
        ),
    decreases rs.len(),
{
    let enc = spec_encode_records(rs);
    if rs.len() == 0 {
        assert(rs =~= Seq::<RecordView>::empty());
    } else {
        let r0 = rs[0];
        let e0 = spec_encode_record(r0);
        let rest = rs.drop_first();
        let enc_rest = spec_encode_records(rest);
        assert(enc == e0 + enc_rest);
        let sub = buf.subrange(pos, pos + enc.len());
        assert(buf.subrange(pos, pos + e0.len()) =~= sub.subrange(0, e0.len() as int));
        assert(enc.subrange(0, e0.len() as int) =~= e0);
        lemma_decode_encoded_record(buf, pos, r0);
        assert(buf.subrange(pos + e0.len(), pos + enc.len()) =~= sub.subrange(
            e0.len() as int,
            enc.len() as int,
        ));
        assert(enc.subrange(e0.len() as int, enc.len() as int) =~= enc_rest);
        lemma_decode_encoded_records(buf, pos + e0.len(), rest);
        assert(seq![r0] + rest =~= rs);
    }
}

/// A slice taken inside the left part of a concatenation reads from the
/// left part alone.
proof fn lemma_concat_subrange_left(a: Seq<u8>, b: Seq<u8>, x: int, y: int)
    requires
        0 <= x <= y <= a.len(),
    ensures
        (a + b).subrange(x, y) == a.subrange(x, y),
{
    assert((a + b).subrange(x, y) =~= a.subrange(x, y));
}

/// The right part of a concatenation is the slice after the left part.
proof fn lemma_concat_subrange_right(a: Seq<u8>, b: Seq<u8>)
    ensures
        (a + b).subrange(a.len() as int, a.len() + b.len() as int) == b,
{
    assert((a + b).subrange(a.len() as int, a.len() + b.len() as int) =~= b);
}

/// Message round-trip: decoding an encoded message reproduces it
/// field-for-field, for any valid message whose counts match its
/// sections and whose reserved header bits are clear.
#[verifier::rlimit(100)]
pub proof fn lemma_message_round_trip(m: MessageView)
    requires
        message_wf(m),
        m.header.z == 0,
        counts_consistent(m),
    ensures
        spec_decode_message(spec_encode_message(m)) == Ok::<MessageView, ErrorKind>(m),
{
    let hc = header_with_counts(m);
    let hb = spec_header_bytes(hc);
    let qb = spec_encode_questions(m.questions);
    let ab = spec_encode_records(m.answers);
    let nb = spec_encode_records(m.authority);
    let rb = spec_encode_records(m.additional);
    let t1 = hb + qb;
    let t2 = t1 + ab;
    let t3 = t2 + nb;
    let buf = spec_encode_message(m);
    assert(buf == t3 + rb);
    assert(hb.len() == HEADER_LENGTH);
    let p1 = HEADER_LENGTH + qb.len();
    let p2 = p1 + ab.len();
    let p3 = p2 + nb.len();
    let p4 = p3 + rb.len();
    assert(buf.len() == p4);
    // The header bytes are the first 12 of the buffer.
    lemma_concat_subrange_left(t3, rb, 0, HEADER_LENGTH as int);
    lemma_concat_subrange_left(t2, nb, 0, HEADER_LENGTH as int);
    lemma_concat_subrange_left(t1, ab, 0, HEADER_LENGTH as int);
    lemma_concat_subrange_left(hb, qb, 0, HEADER_LENGTH as int);
    assert(hb.subrange(0, HEADER_LENGTH as int) =~= hb);
    assert(buf.subrange(0, HEADER_LENGTH as int) == hb);
    assert(spec_parse_header(buf) == spec_parse_header(buf.subrange(0, HEADER_LENGTH as int)));
    lemma_header_round_trip(hc);
    assert(spec_parse_header(hb) == hc);
    assert(hc == m.header);
    // The question section sits right after the header.
    lemma_concat_subrange_left(t3, rb, HEADER_LENGTH as int, p1 as int);
    lemma_concat_subrange_left(t2, nb, HEADER_LENGTH as int, p1 as int);
    lemma_concat_subrange_left(t1, ab, HEADER_LENGTH as int, p1 as int);
    lemma_concat_subrange_right(hb, qb);
    assert(buf.subrange(HEADER_LENGTH as int, p1 as int) == qb);
    lemma_decode_encoded_questions(buf, HEADER_LENGTH as int, m.questions);
    // Then the answer section.
    lemma_concat_subrange_left(t3, rb, p1 as int, p2 as int);
    lemma_concat_subrange_left(t2, nb, p1 as int, p2 as int);
    lemma_concat_subrange_right(t1, ab);
    assert(buf.subrange(p1 as int, p2 as int) == ab);
    lemma_decode_encoded_records(buf, p1 as int, m.answers);
    // Then the authority section.
    lemma_concat_subrange_left(t3, rb, p2 as int, p3 as int);
    lemma_concat_subrange_right(t2, nb);
    assert(buf.subrange(p2 as int, p3 as int) == nb);
    lemma_decode_encoded_records(buf, p2 as int, m.authority);
    // Then the additional section.
    lemma_concat_subrange_right(t3, rb);
    assert(buf.subrange(p3 as int, p4 as int) == rb);
    lemma_decode_encoded_records(buf, p3 as int, m.additional);
    assert(spec_decode_message(buf) == Ok::<MessageView, ErrorKind>(m));
}

} // verus!
