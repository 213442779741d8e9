//! The fixed 12-byte DNS header and its bit-field packing.
//!
//! Byte layout, big-endian throughout: bytes 0-1 the id; byte 2 packs
//! `QR(1) OPCODE(4) AA(1) TC(1) RD(1)`; byte 3 packs `RA(1) Z(3) RCODE(4)`;
//! bytes 4-11 the four section counts in order QD, AN, NS, AR. The
//! reserved `Z` bits are always written as zero, whatever a caller put in
//! the field.

use vstd::prelude::*;

use crate::cursor::{be16_bytes, combine16, ByteCursor};
use crate::error::{ErrorKind, ServerError};
use crate::cursor::push_u16;

verus! {

/// Encoded size of a DNS header in bytes.
pub const HEADER_LENGTH: usize = 12;

/// The fixed DNS header: correlation id, packed flag fields, and the four
/// section counts.
#[derive(Clone, Copy, Debug, PartialEq, Eq, Structural)]
pub struct DNSHeader {
    /// Opaque correlation token, echoed verbatim in a response.
    pub id: u16,
    /// True in a response, false in a query.
    pub qr: bool,
    /// 4-bit operation code; 0 is a standard query.
    pub opcode: u8,
    /// Authoritative answer.
    pub aa: bool,
    /// Truncated message.
    pub tc: bool,
    /// Recursion desired.
    pub rd: bool,
    /// Recursion available.
    pub ra: bool,
    /// 3-bit reserved field; must be zero on encode.
    pub z: u8,
    /// 4-bit response code; 0 is no-error.
    pub rcode: u8,
    /// Number of questions.
    pub qdcount: u16,
    /// Number of answer records.
    pub ancount: u16,
    /// Number of authority records.
    pub nscount: u16,
    /// Number of additional records.
    pub arcount: u16,
}

/// 1 for a set flag, 0 for a clear one.
pub open spec fn bit(b: bool) -> int {
    if b {
        1
    } else {
        0
    }
}

/// Byte 2 of the encoded header: QR, OPCODE, AA, TC, RD.
pub open spec fn spec_flags_hi(h: DNSHeader) -> u8 {
    (bit(h.qr) * 128 + (h.opcode as int) * 8 + bit(h.aa) * 4 + bit(h.tc) * 2 + bit(h.rd)) as u8
}

/// Byte 3 of the encoded header: RA, then zeroed reserved bits, then RCODE.
pub open spec fn spec_flags_lo(h: DNSHeader) -> u8 {
    (bit(h.ra) * 128 + (h.rcode as int)) as u8
}

/// The exact 12 bytes a header encodes to.
pub open spec fn spec_header_bytes(h: DNSHeader) -> Seq<u8> {
    be16_bytes(h.id) + seq![spec_flags_hi(h), spec_flags_lo(h)] + be16_bytes(h.qdcount)
        + be16_bytes(h.ancount) + be16_bytes(h.nscount) + be16_bytes(h.arcount)
}

/// The header the first 12 bytes of a buffer denote.
pub open spec fn spec_parse_header(b: Seq<u8>) -> DNSHeader
    recommends
        b.len() >= 12,
{
    DNSHeader {
        id: combine16(b[0], b[1]),
        qr: (b[2] as int) / 128 % 2 == 1,
        opcode: ((b[2] as int) / 8 % 16) as u8,
        aa: (b[2] as int) / 4 % 2 == 1,
        tc: (b[2] as int) / 2 % 2 == 1,
        rd: (b[2] as int) % 2 == 1,
        ra: (b[3] as int) / 128 % 2 == 1,
        z: ((b[3] as int) / 16 % 8) as u8,
        rcode: ((b[3] as int) % 16) as u8,
        qdcount: combine16(b[4], b[5]),
        ancount: combine16(b[6], b[7]),
        nscount: combine16(b[8], b[9]),
        arcount: combine16(b[10], b[11]),
    }
}

/// A header carrying only an id and the response flag: every other
/// field cleared.
pub open spec fn spec_fresh_header(id: u16) -> DNSHeader {
    DNSHeader {
        id,
        qr: true,
        opcode: 0,
        aa: false,
        tc: false,
        rd: false,
        ra: false,
        z: 0,
        rcode: 0,
        qdcount: 0,
        ancount: 0,
        nscount: 0,
        arcount: 0,
    }
}

impl DNSHeader {
    /// The sub-byte fields stay inside their bit widths.
    pub open spec fn wf(&self) -> bool {
        self.opcode < 16 && self.z < 8 && self.rcode < 16
    }

    /// Decides at run time whether the sub-byte fields are in range.
    pub fn check_wf(&self) -> (r: bool)
        ensures
            r == self.wf(),
    {
        self.opcode < 16 && self.z < 8 && self.rcode < 16
    }

    /// A fresh response header with the given id, everything else cleared.
    pub fn new(id: u16, _response: bool) -> (h: DNSHeader)
        ensures
            h == spec_fresh_header(id),
            h.wf(),
    {
        DNSHeader {
            id,
            qr: true,
            opcode: 0,
            aa: false,
            tc: false,
            rd: false,
            ra: false,
            z: 0,
            rcode: 0,
            qdcount: 0,
            ancount: 0,
            nscount: 0,
            arcount: 0,
        }
    }

    /// Packs the header into exactly 12 bytes; the reserved bits go out
    /// as zero regardless of the `z` field.
    pub fn to_bytes(&self) -> (r: Vec<u8>)
        requires
            self.wf(),
        ensures
            r@ == spec_header_bytes(*self),
            r@.len() == HEADER_LENGTH,
    {
        let mut out: Vec<u8> = Vec::new();
        push_u16(&mut out, self.id);
        let flags_hi: u8 = (if self.qr {
            128u8
        } else {
            0u8
        }) + self.opcode * 8 + (if self.aa {
            4u8
        } else {
            0u8
        }) + (if self.tc {
            2u8
        } else {
            0u8
        }) + (if self.rd {
            1u8
        } else {
            0u8
        });
        out.push(flags_hi);
        let flags_lo: u8 = (if self.ra {
            128u8
        } else {
            0u8
        }) + self.rcode;
        out.push(flags_lo);
        push_u16(&mut out, self.qdcount);
        push_u16(&mut out, self.ancount);
        push_u16(&mut out, self.nscount);
        push_u16(&mut out, self.arcount);
        assert(out@ == spec_header_bytes(*self));
        out
    }

    /// Unpacks a header from the next 12 bytes of the cursor; fails with
    /// `Truncated`, leaving the position alone, when fewer remain.
    pub fn decode(cur: &mut ByteCursor) -> (r: Result<DNSHeader, ServerError>)
        requires
            old(cur).wf(),
        ensures
            final(cur).buf == old(cur).buf,
            final(cur).wf(),
            old(cur).pos + HEADER_LENGTH <= old(cur).buf@.len() ==> (r matches Ok(h) && h
                == spec_parse_header(
                old(cur).buf@.subrange(old(cur).pos as int, old(cur).pos + HEADER_LENGTH),
            ) && h.wf()) && final(cur).pos == old(cur).pos + HEADER_LENGTH,
            old(cur).pos + HEADER_LENGTH > old(cur).buf@.len() ==> r == Err::<
                DNSHeader,
                ServerError,
            >(ServerError { kind: ErrorKind::Truncated }) && final(cur).pos == old(cur).pos,
    {
        if cur.buf.len() - cur.position() < HEADER_LENGTH {
            return Err(ServerError { kind: ErrorKind::Truncated });
        }
        let id = match cur.read_u16() {
            Ok(v) => v,
            Err(e) => {
                return Err(e);
            },
        };
        let b2 = match cur.read_u8() {
            Ok(v) => v,
            Err(e) => {
                return Err(e);
            },
        };
        let b3 = match cur.read_u8() {
            Ok(v) => v,
            Err(e) => {
                return Err(e);
            },
        };
        let qdcount = match cur.read_u16() {
            Ok(v) => v,
            Err(e) => {
                return Err(e);
            },
        };
        let ancount = match cur.read_u16() {
            Ok(v) => v,
            Err(e) => {
                return Err(e);
            },
        };
        let nscount = match cur.read_u16() {
            Ok(v) => v,
            Err(e) => {
                return Err(e);
            },
        };
        let arcount = match cur.read_u16() {
            Ok(v) => v,
            Err(e) => {
                return Err(e);
            },
        };
        Ok(
            DNSHeader {
                id,
                qr: b2 / 128 % 2 == 1,
                opcode: b2 / 8 % 16,
                aa: b2 / 4 % 2 == 1,
                tc: b2 / 2 % 2 == 1,
                rd: b2 % 2 == 1,
                ra: b3 / 128 % 2 == 1,
                z: b3 / 16 % 8,
                rcode: b3 % 16,
                qdcount,
                ancount,
                nscount,
                arcount,
            },
        )
    }

    /// Unpacks a header from the start of a buffer; fails with
    /// `Truncated` when fewer than 12 bytes are given.
    pub fn from_bytes(bytes: &[u8]) -> (r: Result<DNSHeader, ServerError>)
        ensures
            bytes@.len() >= HEADER_LENGTH ==> (r matches Ok(h) && h == spec_parse_header(bytes@)
                && h.wf()),
            bytes@.len() < HEADER_LENGTH ==> r == Err::<DNSHeader, ServerError>(
                ServerError { kind: ErrorKind::Truncated },
            ),
    {
        let mut cur = ByteCursor::new(vstd::slice::slice_to_vec(bytes));
        let r = DNSHeader::decode(&mut cur);
        proof {
            if bytes@.len() >= HEADER_LENGTH {
                assert(spec_parse_header(bytes@.subrange(0, HEADER_LENGTH as int))
                    == spec_parse_header(bytes@));
            }
        }
        r
    }
}

/// Unpacking the bits of a packed flag byte gives each field back.
proof fn lemma_unpack_hi(b: u8, qr: u8, opcode: u8, aa: u8, tc: u8, rd: u8)
    requires
        qr < 2,
        opcode < 16,
        aa < 2,
        tc < 2,
        rd < 2,
        b == qr * 128 + opcode * 8 + aa * 4 + tc * 2 + rd,
    ensures
        b / 128 % 2 == qr,
        b / 8 % 16 == opcode,
        b / 4 % 2 == aa,
        b / 2 % 2 == tc,
        b % 2 == rd,
{
    assert(b / 128 % 2 == qr && b / 8 % 16 == opcode && b / 4 % 2 == aa && b / 2 % 2 == tc && b % 2
        == rd) by (bit_vector)
        requires
            qr < 2,
            opcode < 16,
            aa < 2,
            tc < 2,
            rd < 2,
            b == qr * 128 + opcode * 8 + aa * 4 + tc * 2 + rd,
    ;
}

/// Unpacking byte 3 recovers RA and RCODE and reads the zeroed reserved
/// bits as zero.
proof fn lemma_unpack_lo(b: u8, ra: u8, rcode: u8)
    requires
        ra < 2,
        rcode < 16,
        b == ra * 128 + rcode,
    ensures
        b / 128 % 2 == ra,
        b / 16 % 8 == 0,
        b % 16 == rcode,
{
    assert(b / 128 % 2 == ra && b / 16 % 8 == 0 && b % 16 == rcode) by (bit_vector)
        requires
            ra < 2,
            rcode < 16,
            b == ra * 128 + rcode,
    ;
}

/// Header bit-packing round-trip: decoding an encoded header gives every
/// field back, with the reserved bits forced to zero whatever they were.
pub proof fn lemma_header_round_trip(h: DNSHeader)
    requires
        h.wf(),
    ensures
        spec_parse_header(spec_header_bytes(h)) == (DNSHeader { z: 0, ..h }),
{
    let b = spec_header_bytes(h);
    crate::cursor::lemma_combine16_round_trip(h.id);
    crate::cursor::lemma_combine16_round_trip(h.qdcount);
    crate::cursor::lemma_combine16_round_trip(h.ancount);
    crate::cursor::lemma_combine16_round_trip(h.nscount);
    crate::cursor::lemma_combine16_round_trip(h.arcount);
    lemma_unpack_hi(
        spec_flags_hi(h),
        bit(h.qr) as u8,
        h.opcode,
        bit(h.aa) as u8,
        bit(h.tc) as u8,
        bit(h.rd) as u8,
    );
    lemma_unpack_lo(spec_flags_lo(h), bit(h.ra) as u8, h.rcode);
    assert(spec_parse_header(b) == (DNSHeader { z: 0, ..h }));
}

} // verus!
