//! Domain names as DNS label sequences, with compression-pointer
//! resolution on decode.
//!
//! On the wire a name is a run of labels, each a length byte (1..=63)
//! followed by that many bytes, ended by a zero length byte — or by a
//! 2-byte compression pointer whose top two bits are set and whose
//! remaining 14 bits are an absolute offset into the whole message
//! buffer. Decoding follows pointers; the total number of jumps is
//! bounded so that adversarial pointer cycles fail with `PointerCycle`
//! instead of looping. Encoding writes names in full: compression on
//! encode is an optimization the wire format does not require.

use vstd::prelude::*;

use crate::cursor::ByteCursor;
use crate::error::{ErrorKind, ServerError};

verus! {

/// Upper bound on compression-pointer jumps while decoding one name.
pub const MAX_POINTER_JUMPS: usize = 128;

/// Longest label the wire format can carry.
pub const MAX_LABEL_LENGTH: usize = 63;

/// An ordered sequence of labels naming a domain.
#[derive(Clone, Debug, PartialEq, Eq)]
pub struct Name {
    pub labels: Vec<Vec<u8>>,
}

impl View for Name {
    type V = Seq<Seq<u8>>;

    open spec fn view(&self) -> Seq<Seq<u8>> {
        Seq::new(self.labels@.len() as nat, |i: int| self.labels@[i]@)
    }
}

/// A label fits the length byte: one to 63 bytes.
pub open spec fn label_wf(l: Seq<u8>) -> bool {
    1 <= l.len() <= MAX_LABEL_LENGTH
}

/// Every label of the name is encodable.
pub open spec fn name_wf(labels: Seq<Seq<u8>>) -> bool {
    forall|i: int| 0 <= i < labels.len() ==> label_wf(#[trigger] labels[i])
}

/// The length-prefixed bytes of the labels, without the terminator.
pub open spec fn spec_encode_labels(labels: Seq<Seq<u8>>) -> Seq<u8>
    decreases labels.len(),
{
    if labels.len() == 0 {
        Seq::empty()
    } else {
        seq![labels[0].len() as u8] + labels[0] + spec_encode_labels(labels.drop_first())
    }
}

/// The full uncompressed encoding of a name: labels then a zero byte.
pub open spec fn spec_encode_name(labels: Seq<Seq<u8>>) -> Seq<u8> {
    spec_encode_labels(labels) + seq![0u8]
}

/// Appending one label to a name appends its length byte and bytes to
/// the encoding.
pub proof fn lemma_encode_labels_push(labels: Seq<Seq<u8>>, l: Seq<u8>)
    ensures
        spec_encode_labels(labels.push(l)) == spec_encode_labels(labels) + seq![l.len() as u8] + l,
    decreases labels.len(),
{
    if labels.len() == 0 {
        assert(labels.push(l)[0] == l);
        assert(labels.push(l).drop_first() =~= Seq::<Seq<u8>>::empty());
        assert(spec_encode_labels(Seq::<Seq<u8>>::empty()) == Seq::<u8>::empty());
        assert(spec_encode_labels(labels.push(l)) == seq![l.len() as u8] + l + Seq::<u8>::empty());
        assert(spec_encode_labels(labels.push(l)) =~= spec_encode_labels(labels) + seq![
            l.len() as u8,
        ] + l);
    } else {
        lemma_encode_labels_push(labels.drop_first(), l);
        assert(labels.push(l)[0] == labels[0]);
        assert(labels.push(l).drop_first() =~= labels.drop_first().push(l));
        assert(spec_encode_labels(labels.push(l)) == seq![labels[0].len() as u8] + labels[0] + (
        spec_encode_labels(labels.drop_first()) + seq![l.len() as u8] + l));
        assert(spec_encode_labels(labels.push(l)) =~= spec_encode_labels(labels) + seq![
            l.len() as u8,
        ] + l);
    }
}

/// What decoding a name at `pos` yields: the labels and the position
/// just after the name in the referencing stream, or the kind of
/// malformation found. `jumps` counts pointer indirections already taken.
pub open spec fn spec_decode_name(buf: Seq<u8>, pos: int, jumps: int) -> Result<
    (Seq<Seq<u8>>, int),
    ErrorKind,
>
    decreases MAX_POINTER_JUMPS - jumps, buf.len() - pos,
        when 0 <= jumps <= MAX_POINTER_JUMPS
{
    if !(0 <= pos < buf.len()) {
        Err(ErrorKind::Truncated)
    } else {
        let l = buf[pos] as int;
        if l == 0 {
            Ok((Seq::empty(), pos + 1))
        } else if l <= MAX_LABEL_LENGTH {
            if pos + 1 + l <= buf.len() {
                match spec_decode_name(buf, pos + 1 + l, jumps) {
                    Ok((rest, end)) => Ok((seq![buf.subrange(pos + 1, pos + 1 + l)] + rest, end)),
                    Err(e) => Err(e),
                }
            } else {
                Err(ErrorKind::Truncated)
            }
        } else if l >= 192 {
            if pos + 1 < buf.len() {
                if jumps >= MAX_POINTER_JUMPS {
                    Err(ErrorKind::PointerCycle)
                } else {
                    let target = (l - 192) * 256 + buf[pos + 1];
                    if target < buf.len() {
                        match spec_decode_name(buf, target, jumps + 1) {
                            Ok((labels, _)) => Ok((labels, pos + 2)),
                            Err(e) => Err(e),
                        }
                    } else {
                        Err(ErrorKind::Truncated)
                    }
                }
            } else {
                Err(ErrorKind::Truncated)
            }
        } else {
            Err(ErrorKind::InvalidLabelLength)
        }
    }
}

/// Composes labels already collected (and a saved resume position, once
/// a pointer was taken) with the outcome of decoding the remainder.
pub open spec fn compose_decode(
    acc: Seq<Seq<u8>>,
    saved: Option<int>,
    r: Result<(Seq<Seq<u8>>, int), ErrorKind>,
) -> Result<(Seq<Seq<u8>>, int), ErrorKind> {
    match r {
        Ok((rest, end)) => Ok(
            (
                acc + rest,
                match saved {
                    Some(q) => q,
                    None => end,
                },
            ),
        ),
        Err(e) => Err(e),
    }
}

impl Name {
    /// Every label is encodable.
    pub open spec fn wf(&self) -> bool {
        name_wf(self@)
    }

    /// Appends the uncompressed encoding of the name to the output.
    pub fn encode(&self, out: &mut Vec<u8>)
        requires
            self.wf(),
        ensures
            final(out)@ == old(out)@ + spec_encode_name(self@),
    {
        let ghost base = out@;
        let mut i: usize = 0;
        while i < self.labels.len()
            invariant
                i <= self.labels@.len(),
                self.wf(),
                out@ == base + spec_encode_labels(self@.take(i as int)),
            decreases self.labels@.len() - i,
        {
            let label: &Vec<u8> = &self.labels[i];
            assert(label@ == self@[i as int]);
            assert(label_wf(label@));
            out.push(label.len() as u8);
            out.extend_from_slice(label.as_slice());
            proof {
                lemma_encode_labels_push(self@.take(i as int), self@[i as int]);
                assert(self@.take(i as int).push(self@[i as int]) =~= self@.take(i + 1));
            }
            i = i + 1;
            assert(out@ == base + spec_encode_labels(self@.take(i as int)));
        }
        proof {
            assert(self@.take(i as int) =~= self@);
        }
        out.push(0u8);
        assert(out@ == base + spec_encode_name(self@));
    }

    /// Decides at run time whether every label is encodable.
    #[verifier::loop_isolation(false)]
    pub fn check_wf(&self) -> (r: bool)
        ensures
            r == self.wf(),
    {
        let mut i: usize = 0;
        while i < self.labels.len()
            invariant
                i <= self.labels@.len(),
                forall|j: int| 0 <= j < i ==> label_wf(#[trigger] self@[j]),
            decreases self.labels@.len() - i,
        {
            let len = self.labels[i].len();
            if len < 1 || len > MAX_LABEL_LENGTH {
                assert(!label_wf(self@[i as int]));
                return false;
            }
            i = i + 1;
        }
        true
    }

    /// A fresh copy of the name with the same labels.
    #[verifier::loop_isolation(false)]
    pub fn duplicate(&self) -> (r: Name)
        ensures
            r@ == self@,
    {
        let mut labels: Vec<Vec<u8>> = Vec::new();
        let mut i: usize = 0;
        while i < self.labels.len()
            invariant
                i <= self.labels@.len(),
                (Name { labels: labels })@ == self@.take(i as int),
            decreases self.labels@.len() - i,
        {
            let ghost before = Name { labels: labels }@;
            let l: Vec<u8> = self.labels[i].clone();
            assert(l@ =~= self.labels@[i as int]@);
            labels.push(l);
            proof {
                assert(Name { labels: labels }@ =~= before.push(self@[i as int]));
                assert(before.push(self@[i as int]) =~= self@.take(i + 1));
            }
            i = i + 1;
        }
        proof {
            assert(self@.take(i as int) =~= self@);
        }
        Name { labels }
    }

    /// Reads one name from the cursor, following compression pointers
    /// through the whole buffer and resuming just after the name.
    #[verifier::loop_isolation(false)]
    pub fn decode(cur: &mut ByteCursor) -> (r: Result<Name, ServerError>)
        requires
            old(cur).wf(),
        ensures
            final(cur).buf == old(cur).buf,
            final(cur).wf(),
            match r {
                Ok(name) => {
                    &&& spec_decode_name(old(cur).buf@, old(cur).pos as int, 0) == Ok::<
                        _,
                        ErrorKind,
                    >((name@, final(cur).pos as int))
                    &&& name_wf(name@)
                    &&& old(cur).pos < final(cur).pos
                },
                Err(e) => spec_decode_name(old(cur).buf@, old(cur).pos as int, 0) == Err::<
                    (Seq<Seq<u8>>, int),
                    ErrorKind,
                >(e.kind),
            },
    {
        let ghost buf = cur.buf@;
        let ghost pos0 = cur.pos as int;
        let mut labels: Vec<Vec<u8>> = Vec::new();
        let mut jumps: usize = 0;
        let mut resume: Option<usize> = None;
        proof {
            match spec_decode_name(buf, pos0, 0) {
                Ok((ls, e)) => {
                    assert(Seq::<Seq<u8>>::empty() + ls =~= ls);
                },
                Err(_) => {},
            }
        }
        loop
            invariant
                cur.wf(),
                cur.buf == old(cur).buf,
                cur.buf@ == buf,
                jumps <= MAX_POINTER_JUMPS,
                name_wf(Name { labels: labels }@),
                (resume matches Some(q) ==> q <= buf.len() && pos0 < q),
                (resume is None ==> pos0 <= cur.pos as int),
                spec_decode_name(buf, pos0, 0) == compose_decode(
                    Name { labels: labels }@,
                    match resume {
                        Some(q) => Some(q as int),
                        None => None,
                    },
                    spec_decode_name(buf, cur.pos as int, jumps as int),
                ),
            decreases MAX_POINTER_JUMPS - jumps, cur.buf@.len() - cur.pos,
        {
            let ghost acc = Name { labels: labels }@;
            let p = cur.position();
            let l = match cur.read_u8() {
                Ok(b) => b,
                Err(e) => {
                    proof {
                        assert(spec_decode_name(buf, p as int, jumps as int) == Err::<
                            (Seq<Seq<u8>>, int),
                            ErrorKind,
                        >(ErrorKind::Truncated));
                    }
                    return Err(e);
                },
            };
            if l == 0 {
                proof {
                    assert(spec_decode_name(buf, p as int, jumps as int) == Ok::<_, ErrorKind>((
                        Seq::<Seq<u8>>::empty(),
                        p + 1,
                    )));
                    assert(acc + Seq::<Seq<u8>>::empty() =~= acc);
                }
                match resume {
                    Some(q) => {
                        cur.seek(q);
                    },
                    None => {},
                }
                return Ok(Name { labels });
            } else if l <= MAX_LABEL_LENGTH as u8 {
                let label = match cur.read_bytes(l as usize) {
                    Ok(v) => v,
                    Err(e) => {
                        proof {
                            assert(spec_decode_name(buf, p as int, jumps as int) == Err::<
                                (Seq<Seq<u8>>, int),
                                ErrorKind,
                            >(ErrorKind::Truncated));
                        }
                        return Err(e);
                    },
                };
                proof {
                    let li = l as int;
                    assert(spec_decode_name(buf, p as int, jumps as int) == (
                    match spec_decode_name(buf, p + 1 + li, jumps as int) {
                        Ok((rest, end)) => Ok::<_, ErrorKind>(
                            (seq![buf.subrange(p + 1, p + 1 + li)] + rest, end),
                        ),
                        Err(e) => Err::<(Seq<Seq<u8>>, int), ErrorKind>(e),
                    }));
                    match spec_decode_name(buf, p + 1 + li, jumps as int) {
                        Ok((rest, end)) => {
                            assert(acc.push(label@) + rest =~= acc + (seq![label@] + rest));
                        },
                        Err(_) => {},
                    }
                }
                labels.push(label);
                proof {
                    assert(Name { labels: labels }@ =~= acc.push(
                        buf.subrange(p + 1, p + 1 + l as int),
                    ));
                }
            } else if l >= 192 {
                let hi = l - 192;
                let lo = match cur.read_u8() {
                    Ok(b) => b,
                    Err(e) => {
                        proof {
                            assert(spec_decode_name(buf, p as int, jumps as int) == Err::<
                                (Seq<Seq<u8>>, int),
                                ErrorKind,
                            >(ErrorKind::Truncated));
                        }
                        return Err(e);
                    },
                };
                if jumps >= MAX_POINTER_JUMPS {
                    proof {
                        assert(spec_decode_name(buf, p as int, jumps as int) == Err::<
                            (Seq<Seq<u8>>, int),
                            ErrorKind,
                        >(ErrorKind::PointerCycle));
                    }
                    return Err(ServerError { kind: ErrorKind::PointerCycle });
                }
                let target: usize = (hi as usize) * 256 + (lo as usize);
                proof {
                    assert(target as int == ((l as int) - 192) * 256 + (buf[p + 1] as int));
                }
                if target >= cur.buf.len() {
                    proof {
                        assert(spec_decode_name(buf, p as int, jumps as int) == Err::<
                            (Seq<Seq<u8>>, int),
                            ErrorKind,
                        >(ErrorKind::Truncated));
                    }
                    return Err(ServerError { kind: ErrorKind::Truncated });
                }
                if resume.is_none() {
                    resume = Some(p + 2);
                }
                jumps = jumps + 1;
                cur.seek(target);
                proof {
                    assert(spec_decode_name(buf, p as int, (jumps - 1) as int) == (
                    match spec_decode_name(buf, target as int, jumps as int) {
                        Ok((ls, e)) => Ok::<_, ErrorKind>((ls, p + 2)),
                        Err(e) => Err::<(Seq<Seq<u8>>, int), ErrorKind>(e),
                    }));
                }
            } else {
                proof {
                    assert(spec_decode_name(buf, p as int, jumps as int) == Err::<
                        (Seq<Seq<u8>>, int),
                        ErrorKind,
                    >(ErrorKind::InvalidLabelLength));
                }
                return Err(ServerError { kind: ErrorKind::InvalidLabelLength });
            }
        }
    }
}

/// Decoding at the position of a freshly written uncompressed name gives
/// exactly the labels that were encoded, ending just past them.
pub proof fn lemma_decode_encoded_name(buf: Seq<u8>, pos: int, labels: Seq<Seq<u8>>, jumps: int)
    requires
        name_wf(labels),
        0 <= pos,
        0 <= jumps <= MAX_POINTER_JUMPS,
        pos + spec_encode_name(labels).len() <= buf.len(),
        buf.subrange(pos, pos + spec_encode_name(labels).len()) == spec_encode_name(labels),
    ensures
        spec_decode_name(buf, pos, jumps) == Ok::<_, ErrorKind>(
            (labels, pos + spec_encode_name(labels).len()),
        ),
    decreases labels.len(),
{
    let enc = spec_encode_name(labels);
    let sub = buf.subrange(pos, pos + enc.len());
    assert(buf[pos] == sub[0]);
    if labels.len() == 0 {
        assert(spec_encode_labels(labels) == Seq::<u8>::empty());
        assert(enc =~= seq![0u8]);
        assert(buf[pos] == 0);
        assert(labels =~= Seq::<Seq<u8>>::empty());
        assert(spec_decode_name(buf, pos, jumps) == Ok::<_, ErrorKind>(
            (Seq::<Seq<u8>>::empty(), pos + 1),
        ));
    } else {
        let l0 = labels[0];
        let li = l0.len() as int;
        let rest = labels.drop_first();
        let enc_rest = spec_encode_name(rest);
        assert(spec_encode_labels(labels) == seq![l0.len() as u8] + l0 + spec_encode_labels(rest));
        assert(enc =~= seq![l0.len() as u8] + l0 + enc_rest);
        assert(label_wf(l0));
        assert(enc[0] == l0.len() as u8);
        assert(buf[pos] as int == li);
        assert(enc.len() == 1 + li + enc_rest.len());
        assert(buf.subrange(pos + 1, pos + 1 + li) =~= sub.subrange(1, 1 + li));
        assert(sub.subrange(1, 1 + li) == enc.subrange(1, 1 + li));
        assert(enc.subrange(1, 1 + li) =~= l0);
        assert(buf.subrange(pos + 1 + li, pos + 1 + li + enc_rest.len()) =~= sub.subrange(
            1 + li,
            1 + li + enc_rest.len(),
        ));
        assert(sub.subrange(1 + li, 1 + li + enc_rest.len()) == enc.subrange(
            1 + li,
            1 + li + enc_rest.len(),
        ));
        assert(enc.subrange(1 + li, 1 + li + enc_rest.len()) =~= enc_rest);
        lemma_decode_encoded_name(buf, pos + 1 + li, rest, jumps);
        assert(seq![buf.subrange(pos + 1, pos + 1 + li)] + rest =~= labels);
    }
}

} // verus!
