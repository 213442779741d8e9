//! Questions and resource records on the wire.
//!
//! A question is a name followed by two 16-bit fields. A resource record
//! is a name, type, class, 32-bit TTL, then a 16-bit length prefix and
//! exactly that many RDATA bytes. RDATA is opaque at this layer: the
//! length field on the wire is always derived from the actual bytes,
//! never taken from a caller.

use vstd::prelude::*;

use crate::cursor::{be16_bytes, be32_bytes, combine16, push_u16, push_u32, ByteCursor};
use crate::cursor::lemma_combine16_round_trip;
use crate::cursor::lemma_combine32_round_trip;
use crate::error::{ErrorKind, ServerError};
use crate::name::{name_wf, spec_decode_name, spec_encode_name, Name};
use crate::name::lemma_decode_encoded_name;

verus! {

/// The mathematical content of a question.
pub ghost struct QuestionView {
    pub domain_name: Seq<Seq<u8>>,
    pub query_type: u16,
    pub query_class: u16,
}

/// The mathematical content of a resource record.
pub ghost struct RecordView {
    pub domain_name: Seq<Seq<u8>>,
    pub query_type: u16,
    pub query_class: u16,
    pub ttl: u32,
    pub rdata: Seq<u8>,
}

/// A DNS question: queried name, query type, query class.
#[derive(Clone, Debug, PartialEq, Eq)]
pub struct DNSQuestion {
    pub domain_name: Name,
    pub query_type: u16,
    pub query_class: u16,
}

impl View for DNSQuestion {
    type V = QuestionView;

    open spec fn view(&self) -> QuestionView {
        QuestionView {
            domain_name: self.domain_name@,
            query_type: self.query_type,
            query_class: self.query_class,
        }
    }
}

/// A DNS resource record; RDATA is an opaque byte string.
#[derive(Clone, Debug, PartialEq, Eq)]
pub struct DNSAnswer {
    pub domain_name: Name,
    pub query_type: u16,
    pub query_class: u16,
    pub ttl: u32,
    pub rdata: Vec<u8>,
}

impl View for DNSAnswer {
    type V = RecordView;

    open spec fn view(&self) -> RecordView {
        RecordView {
            domain_name: self.domain_name@,
            query_type: self.query_type,
            query_class: self.query_class,
            ttl: self.ttl,
            rdata: self.rdata@,
        }
    }
}

/// The question's name is encodable.
pub open spec fn question_wf(q: QuestionView) -> bool {
    name_wf(q.domain_name)
}

/// The record's name is encodable and its RDATA length fits the 16-bit
/// length prefix.
pub open spec fn record_wf(r: RecordView) -> bool {
    name_wf(r.domain_name) && r.rdata.len() <= 0xFFFF
}

/// The exact bytes a question encodes to.
pub open spec fn spec_encode_question(q: QuestionView) -> Seq<u8> {
    spec_encode_name(q.domain_name) + be16_bytes(q.query_type) + be16_bytes(q.query_class)
}

/// The exact bytes a record encodes to; the length prefix is derived
/// from the RDATA itself.
pub open spec fn spec_encode_record(r: RecordView) -> Seq<u8> {
    spec_encode_name(r.domain_name) + be16_bytes(r.query_type) + be16_bytes(r.query_class)
        + be32_bytes(r.ttl) + be16_bytes(r.rdata.len() as u16) + r.rdata
}

/// What decoding a question at `pos` yields.
pub open spec fn spec_decode_question(buf: Seq<u8>, pos: int) -> Result<(QuestionView, int), ErrorKind> {
    match spec_decode_name(buf, pos, 0) {
        Ok((labels, p)) => if p + 4 <= buf.len() {
            Ok(
                (
                    QuestionView {
                        domain_name: labels,
                        query_type: combine16(buf[p], buf[p + 1]),
                        query_class: combine16(buf[p + 2], buf[p + 3]),
                    },
                    p + 4,
                ),
            )
        } else {
            Err(ErrorKind::Truncated)
        },
        Err(e) => Err(e),
    }
}

/// What decoding a resource record at `pos` yields: the declared RDLENGTH
/// bytes of RDATA must all be present.
pub open spec fn spec_decode_record(buf: Seq<u8>, pos: int) -> Result<(RecordView, int), ErrorKind> {
    match spec_decode_name(buf, pos, 0) {
        Ok((labels, p)) => if p + 10 <= buf.len() {
            if p + 10 + combine16(buf[p + 8], buf[p + 9]) <= buf.len() {
                Ok(
                    (
                        RecordView {
                            domain_name: labels,
                            query_type: combine16(buf[p], buf[p + 1]),
                            query_class: combine16(buf[p + 2], buf[p + 3]),
                            ttl: crate::cursor::combine32(
                                buf[p + 4],
                                buf[p + 5],
                                buf[p + 6],
                                buf[p + 7],
                            ),
                            rdata: buf.subrange(
                                p + 10,
                                p + 10 + combine16(buf[p + 8], buf[p + 9]),
                            ),
                        },
                        p + 10 + combine16(buf[p + 8], buf[p + 9]),
                    ),
                )
            } else {
                Err(ErrorKind::Truncated)
            }
        } else {
            Err(ErrorKind::Truncated)
        },
        Err(e) => Err(e),
    }
}

impl DNSQuestion {
    /// The name's labels are encodable.
    pub open spec fn wf(&self) -> bool {
        question_wf(self@)
    }

    /// Appends the wire form of the question to the output.
    pub fn encode(&self, out: &mut Vec<u8>)
        requires
            self.wf(),
        ensures
            final(out)@ == old(out)@ + spec_encode_question(self@),
    {
        let ghost base = out@;
        self.domain_name.encode(out);
        push_u16(out, self.query_type);
        push_u16(out, self.query_class);
        assert(out@ == base + spec_encode_question(self@));
    }

    /// The wire form of the question as a fresh buffer.
    pub fn to_bytes(&self) -> (r: Vec<u8>)
        requires
            self.wf(),
        ensures
            r@ == spec_encode_question(self@),
    {
        let mut out: Vec<u8> = Vec::new();
        self.encode(&mut out);
        out
    }

    /// Reads one question from the cursor.
    pub fn decode(cur: &mut ByteCursor) -> (r: Result<DNSQuestion, ServerError>)
        requires
            old(cur).wf(),
        ensures
            final(cur).buf == old(cur).buf,
            final(cur).wf(),
            match r {
                Ok(q) => {
                    &&& spec_decode_question(old(cur).buf@, old(cur).pos as int) == Ok::<
                        _,
                        ErrorKind,
                    >((q@, final(cur).pos as int))
                    &&& q.wf()
                    &&& old(cur).pos < final(cur).pos
                },
                Err(e) => spec_decode_question(old(cur).buf@, old(cur).pos as int) == Err::<
                    (QuestionView, int),
                    ErrorKind,
                >(e.kind),
            },
    {
        let domain_name = match Name::decode(cur) {
            Ok(n) => n,
            Err(e) => {
                return Err(e);
            },
        };
        let query_type = match cur.read_u16() {
            Ok(v) => v,
            Err(e) => {
                return Err(e);
            },
        };
        let query_class = match cur.read_u16() {
            Ok(v) => v,
            Err(e) => {
                return Err(e);
            },
        };
        Ok(DNSQuestion { domain_name, query_type, query_class })
    }

    /// Decides at run time whether the question is encodable.
    pub fn check_wf(&self) -> (r: bool)
        ensures
            r == self.wf(),
    {
        self.domain_name.check_wf()
    }

    /// A fresh copy of the question with the same content.
    pub fn duplicate(&self) -> (r: DNSQuestion)
        ensures
            r@ == self@,
    {
        DNSQuestion {
            domain_name: self.domain_name.duplicate(),
            query_type: self.query_type,
            query_class: self.query_class,
        }
    }

    /// Decodes a question from the start of a buffer.
    pub fn from_bytes(bytes: &[u8]) -> (r: Result<DNSQuestion, ServerError>)
        ensures
            match r {
                Ok(q) => (spec_decode_question(bytes@, 0) matches Ok(p) && p.0 == q@) && q.wf(),
                Err(e) => spec_decode_question(bytes@, 0) == Err::<(QuestionView, int), ErrorKind>(
                    e.kind,
                ),
            },
    {
        let mut cur = ByteCursor::new(vstd::slice::slice_to_vec(bytes));
        DNSQuestion::decode(&mut cur)
    }
}

impl DNSAnswer {
    /// The name is encodable and the RDATA fits its length prefix.
    pub open spec fn wf(&self) -> bool {
        record_wf(self@)
    }

    /// Decides at run time whether the record is encodable.
    pub fn check_wf(&self) -> (r: bool)
        ensures
            r == self.wf(),
    {
        self.domain_name.check_wf() && self.rdata.len() <= 0xFFFF
    }

    /// Appends the wire form of the record to the output; the RDLENGTH
    /// field is recomputed from the RDATA, never taken from a caller.
    pub fn encode(&self, out: &mut Vec<u8>)
        requires
            self.wf(),
        ensures
            final(out)@ == old(out)@ + spec_encode_record(self@),
    {
        let ghost base = out@;
        self.domain_name.encode(out);
        push_u16(out, self.query_type);
        push_u16(out, self.query_class);
        push_u32(out, self.ttl);
        push_u16(out, self.rdata.len() as u16);
        out.extend_from_slice(self.rdata.as_slice());
        assert(out@ == base + spec_encode_record(self@));
    }

    /// The wire form of the record as a fresh buffer.
    pub fn to_bytes(&self) -> (r: Vec<u8>)
        requires
            self.wf(),
        ensures
            r@ == spec_encode_record(self@),
    {
        let mut out: Vec<u8> = Vec::new();
        self.encode(&mut out);
        out
    }

    /// Reads one resource record from the cursor.
    pub fn decode(cur: &mut ByteCursor) -> (r: Result<DNSAnswer, ServerError>)
        requires
            old(cur).wf(),
        ensures
            final(cur).buf == old(cur).buf,
            final(cur).wf(),
            match r {
                Ok(a) => {
                    &&& spec_decode_record(old(cur).buf@, old(cur).pos as int) == Ok::<
                        _,
                        ErrorKind,
                    >((a@, final(cur).pos as int))
                    &&& a.wf()
                    &&& old(cur).pos < final(cur).pos
                },
                Err(e) => spec_decode_record(old(cur).buf@, old(cur).pos as int) == Err::<
                    (RecordView, int),
                    ErrorKind,
                >(e.kind),
            },
    {
        let domain_name = match Name::decode(cur) {
            Ok(n) => n,
            Err(e) => {
                return Err(e);
            },
        };
        let query_type = match cur.read_u16() {
            Ok(v) => v,
            Err(e) => {
                return Err(e);
            },
        };
        let query_class = match cur.read_u16() {
            Ok(v) => v,
            Err(e) => {
                return Err(e);
            },
        };
        let ttl = match cur.read_u32() {
            Ok(v) => v,
            Err(e) => {
                return Err(e);
            },
        };
        let rdlength = match cur.read_u16() {
            Ok(v) => v,
            Err(e) => {
                return Err(e);
            },
        };
        let rdata = match cur.read_bytes(rdlength as usize) {
            Ok(v) => v,
            Err(e) => {
                return Err(e);
            },
        };
        Ok(DNSAnswer { domain_name, query_type, query_class, ttl, rdata })
    }
}

/// Decoding at the position of a freshly written question gives the
/// question back, ending just past it.
pub proof fn lemma_decode_encoded_question(buf: Seq<u8>, pos: int, q: QuestionView)
    requires
        question_wf(q),
        0 <= pos,
        pos + spec_encode_question(q).len() <= buf.len(),
        buf.subrange(pos, pos + spec_encode_question(q).len()) == spec_encode_question(q),
    ensures
        spec_decode_question(buf, pos) == Ok::<_, ErrorKind>(
            (q, pos + spec_encode_question(q).len()),
        ),
{
    let enc = spec_encode_question(q);
    let sub = buf.subrange(pos, pos + enc.len());
    let enc_name = spec_encode_name(q.domain_name);
    let nl = enc_name.len() as int;
    assert(enc.len() == nl + 4);
    assert(buf.subrange(pos, pos + nl) =~= sub.subrange(0, nl));
    assert(enc.subrange(0, nl) =~= enc_name);
    lemma_decode_encoded_name(buf, pos, q.domain_name, 0);
    let p = pos + nl;
    assert(buf[p] == sub[nl]);
    assert(buf[p + 1] == sub[nl + 1]);
    assert(buf[p + 2] == sub[nl + 2]);
    assert(buf[p + 3] == sub[nl + 3]);
    assert(enc[nl] == be16_bytes(q.query_type)[0]);
    assert(enc[nl + 1] == be16_bytes(q.query_type)[1]);
    assert(enc[nl + 2] == be16_bytes(q.query_class)[0]);
    assert(enc[nl + 3] == be16_bytes(q.query_class)[1]);
    lemma_combine16_round_trip(q.query_type);
    lemma_combine16_round_trip(q.query_class);
}

/// Decoding at the position of a freshly written record gives the record
/// back, ending just past it.
pub proof fn lemma_decode_encoded_record(buf: Seq<u8>, pos: int, r: RecordView)
    requires
        record_wf(r),
        0 <= pos,
        pos + spec_encode_record(r).len() <= buf.len(),
        buf.subrange(pos, pos + spec_encode_record(r).len()) == spec_encode_record(r),
    ensures
        spec_decode_record(buf, pos) == Ok::<_, ErrorKind>((r, pos + spec_encode_record(r).len())),
{
    let enc = spec_encode_record(r);
    let sub = buf.subrange(pos, pos + enc.len());
    let enc_name = spec_encode_name(r.domain_name);
    let nl = enc_name.len() as int;
    let dl = r.rdata.len() as int;
    assert(enc.len() == nl + 10 + dl);
    assert(buf.subrange(pos, pos + nl) =~= sub.subrange(0, nl));
    assert(enc.subrange(0, nl) =~= enc_name);
    lemma_decode_encoded_name(buf, pos, r.domain_name, 0);
    let p = pos + nl;
    assert(buf[p] == sub[nl]);
    assert(buf[p + 1] == sub[nl + 1]);
    assert(buf[p + 2] == sub[nl + 2]);
    assert(buf[p + 3] == sub[nl + 3]);
    assert(buf[p + 4] == sub[nl + 4]);
    assert(buf[p + 5] == sub[nl + 5]);
    assert(buf[p + 6] == sub[nl + 6]);
    assert(buf[p + 7] == sub[nl + 7]);
    assert(buf[p + 8] == sub[nl + 8]);
    assert(buf[p + 9] == sub[nl + 9]);
    assert(enc[nl] == be16_bytes(r.query_type)[0]);
    assert(enc[nl + 1] == be16_bytes(r.query_type)[1]);
    assert(enc[nl + 2] == be16_bytes(r.query_class)[0]);
    assert(enc[nl + 3] == be16_bytes(r.query_class)[1]);
    assert(enc[nl + 4] == be32_bytes(r.ttl)[0]);
    assert(enc[nl + 5] == be32_bytes(r.ttl)[1]);
    assert(enc[nl + 6] == be32_bytes(r.ttl)[2]);
    assert(enc[nl + 7] == be32_bytes(r.ttl)[3]);
    assert(enc[nl + 8] == be16_bytes(r.rdata.len() as u16)[0]);
    assert(enc[nl + 9] == be16_bytes(r.rdata.len() as u16)[1]);
    lemma_combine16_round_trip(r.query_type);
    lemma_combine16_round_trip(r.query_class);
    lemma_combine32_round_trip(r.ttl);
    lemma_combine16_round_trip(r.rdata.len() as u16);
    assert(combine16(buf[p + 8], buf[p + 9]) == r.rdata.len());
    assert(buf.subrange(p + 10, p + 10 + dl) =~= sub.subrange(nl + 10, nl + 10 + dl));
    assert(enc.subrange(nl + 10, nl + 10 + dl) =~= r.rdata);
}

} // verus!
