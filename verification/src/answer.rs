//! The answer (resource record) codec: a name, its record type and class, a
//! time-to-live, and a length-prefixed resource-data payload.

use vstd::prelude::*;

use crate::errors::DeserializationError;
use crate::parser::{
    be_bytes_of_u16, be_bytes_of_u32, is_wire_name, lemma_parse_name_end_bounds,
    lemma_parse_wire_name_in_context, lemma_u16_be_round_trip, lemma_u32_be_round_trip,
    parse_domain_name, parse_u16_from_be_bytes, parse_u32_from_be_bytes, push_range, push_u16_be,
    push_u32_be, spec_parse_name, u16_of_be_bytes, u32_of_be_bytes,
};
use crate::types::{
    lemma_class_type_code_round_trip, lemma_record_type_code_round_trip, spec_class_type_code,
    spec_class_type_of_code, spec_record_type_code, spec_record_type_of_code, ClassType,
    RecordType,
};

verus! {

/// A default time-to-live, in seconds, for answers built fresh.
pub const DEFAULT_TTL: u32 = 60;

/// One answer record. The resource data is opaque to the codec; for an
/// address record it is the four address bytes.
#[derive(Debug, Clone, PartialEq, Eq)]
pub struct DNSAnswer {
    /// the expanded wire-form domain name, trailing zero byte included
    pub domain_name: Vec<u8>,
    /// which kind of record this is
    pub record_type: RecordType,
    /// which class the record belongs to
    pub class_type: ClassType,
    /// how long the record may be cached, in seconds
    pub ttl: u32,
    /// the declared length of the resource data
    pub rdlength: u16,
    /// the resource data itself
    pub rdata: Vec<u8>,
}

/// The mathematical content of an answer.
pub ghost struct AnswerView {
    /// the expanded wire-form domain name
    pub name: Seq<u8>,
    /// which kind of record this is
    pub record_type: RecordType,
    /// which class the record belongs to
    pub class_type: ClassType,
    /// how long the record may be cached, in seconds
    pub ttl: u32,
    /// the declared length of the resource data
    pub rdlength: u16,
    /// the resource data itself
    pub rdata: Seq<u8>,
}

impl View for DNSAnswer {
    type V = AnswerView;

    open spec fn view(&self) -> AnswerView {
        AnswerView {
            name: self.domain_name@,
            record_type: self.record_type,
            class_type: self.class_type,
            ttl: self.ttl,
            rdlength: self.rdlength,
            rdata: self.rdata@,
        }
    }
}

/// The bytes an answer is written as: the name verbatim, the two codes, the
/// time-to-live, the declared resource-data length, then the resource data.
pub open spec fn spec_answer_bytes(a: AnswerView) -> Seq<u8> {
    a.name + be_bytes_of_u16(spec_record_type_code(a.record_type)) + be_bytes_of_u16(
        spec_class_type_code(a.class_type),
    ) + be_bytes_of_u32(a.ttl) + be_bytes_of_u16(a.rdlength) + a.rdata
}

/// What decoding an answer at `start` returns: the answer and how many bytes
/// it spanned from `start` through the end of its resource data.
pub open spec fn spec_parse_answer(buf: Seq<u8>, start: nat) -> Result<
    (AnswerView, nat),
    DeserializationError,
> {
    match spec_parse_name(buf, start, 0) {
        Err(e) => Err(e),
        Ok((name, pos)) => {
            if pos + 2 > buf.len() {
                Err(DeserializationError::UnexpectedEOF)
            } else {
                match spec_record_type_of_code(
                    u16_of_be_bytes(buf[pos as int], buf[pos as int + 1]),
                ) {
                    None => Err(DeserializationError::MalformedField("record_type")),
                    Some(record_type) => {
                        if pos + 4 > buf.len() {
                            Err(DeserializationError::UnexpectedEOF)
                        } else {
                            match spec_class_type_of_code(
                                u16_of_be_bytes(buf[pos as int + 2], buf[pos as int + 3]),
                            ) {
                                None => Err(DeserializationError::MalformedField("class_type")),
                                Some(class_type) => {
                                    if pos + 8 > buf.len() {
                                        Err(DeserializationError::UnexpectedEOF)
                                    } else {
                                        let ttl = u32_of_be_bytes(
                                            buf[pos as int + 4],
                                            buf[pos as int + 5],
                                            buf[pos as int + 6],
                                            buf[pos as int + 7],
                                        );
                                        if pos + 10 > buf.len() {
                                            Err(DeserializationError::UnexpectedEOF)
                                        } else {
                                            let rdlength = u16_of_be_bytes(
                                                buf[pos as int + 8],
                                                buf[pos as int + 9],
                                            );
                                            if pos + 10 + rdlength > buf.len() {
                                                Err(DeserializationError::UnexpectedEOF)
                                            } else {
                                                Ok(
                                                    (
                                                        AnswerView {
                                                            name,
                                                            record_type,
                                                            class_type,
                                                            ttl,
                                                            rdlength,
                                                            rdata: buf.subrange(
                                                                pos as int + 10,
                                                                pos as int + 10 + rdlength,
                                                            ),
                                                        },
                                                        (pos + 10 + rdlength - start) as nat,
                                                    ),
                                                )
                                            }
                                        }
                                    }
                                },
                            }
                        }
                    },
                }
            }
        },
    }
}

/// Whether the executable decode result agrees with the specification-level
/// one.
pub open spec fn answer_parse_matches(
    r: Result<(DNSAnswer, usize), DeserializationError>,
    s: Result<(AnswerView, nat), DeserializationError>,
) -> bool {
    match (r, s) {
        (Ok(p), Ok(q)) => p.0@ == q.0 && p.1 as nat == q.1,
        (Err(e1), Err(e2)) => e1 == e2,
        _ => false,
    }
}

impl DNSAnswer {
    /// An address-record answer for `name` carrying `rdata` as its payload,
    /// in the internet class with the default time-to-live. The declared
    /// resource-data length is the literal byte length of the payload; the
    /// payload is not checked to be four bytes.
    pub fn new(name: Vec<u8>, rdata: Vec<u8>) -> (a: Self)
        requires
            rdata@.len() <= u16::MAX,
        ensures
            a@.name == name@,
            a@.record_type == RecordType::A,
            a@.class_type == ClassType::IN,
            a@.ttl == DEFAULT_TTL,
            a@.rdlength == rdata@.len(),
            a@.rdata == rdata@,
    {
        let rdlength = rdata.len() as u16;
        Self {
            domain_name: name,
            record_type: RecordType::A,
            class_type: ClassType::IN,
            ttl: DEFAULT_TTL,
            rdlength,
            rdata,
        }
    }

    /// Decodes one answer starting at `start`: name, record type, class,
    /// time-to-live, resource-data length, then exactly that many resource
    /// data bytes. A declared length that would read past the buffer end is
    /// an error.
    pub fn from_bytes(buf: &[u8], start: usize) -> (r: Result<
        (Self, usize),
        DeserializationError,
    >)
        ensures
            answer_parse_matches(r, spec_parse_answer(buf@, start as nat)),
    {
        let (domain_name, pos) = match parse_domain_name(buf, start) {
            Ok(p) => p,
            Err(e) => {
                return Err(e);
            },
        };
        proof {
            lemma_parse_name_end_bounds(buf@, start as nat, 0);
            assert(buf@.len() == vstd::slice::spec_slice_len(buf));
        }

        let record_type_code = match parse_u16_from_be_bytes(buf, pos) {
            Ok(w) => w,
            Err(e) => {
                return Err(e);
            },
        };
        let record_type = match RecordType::from_code(record_type_code) {
            Some(t) => t,
            None => {
                return Err(DeserializationError::MalformedField("record_type"));
            },
        };

        let class_type_code = match parse_u16_from_be_bytes(buf, pos + 2) {
            Ok(w) => w,
            Err(e) => {
                return Err(e);
            },
        };
        let class_type = match ClassType::from_code(class_type_code) {
            Some(c) => c,
            None => {
                return Err(DeserializationError::MalformedField("class_type"));
            },
        };

        let ttl = match parse_u32_from_be_bytes(buf, pos + 4) {
            Ok(w) => w,
            Err(e) => {
                return Err(e);
            },
        };
        let rdlength = match parse_u16_from_be_bytes(buf, pos + 8) {
            Ok(w) => w,
            Err(e) => {
                return Err(e);
            },
        };

        let rdata_start = pos + 10;
        if rdlength as usize > buf.len() - rdata_start {
            return Err(DeserializationError::UnexpectedEOF);
        }
        let rdata_end = rdata_start + rdlength as usize;
        let mut rdata: Vec<u8> = Vec::new();
        push_range(&mut rdata, buf, rdata_start, rdata_end);

        // number of bytes consumed from `start` through the resource data
        let bytes_parsed = pos + 10 + rdlength as usize - start;

        Ok((Self { domain_name, record_type, class_type, ttl, rdlength, rdata }, bytes_parsed))
    }

    /// Encodes the answer: the name bytes unchanged, the two codes, the
    /// time-to-live, the declared resource-data length, then the resource
    /// data, numeric fields big-endian.
    pub fn to_bytes(&self) -> (r: Vec<u8>)
        ensures
            r@ == spec_answer_bytes(self@),
    {
        let mut bytes: Vec<u8> = Vec::new();
        push_range(&mut bytes, self.domain_name.as_slice(), 0, self.domain_name.len());
        push_u16_be(&mut bytes, self.record_type.to_code());
        push_u16_be(&mut bytes, self.class_type.to_code());
        push_u32_be(&mut bytes, self.ttl);
        push_u16_be(&mut bytes, self.rdlength);
        push_range(&mut bytes, self.rdata.as_slice(), 0, self.rdata.len());
        proof {
            assert(self.domain_name@.subrange(0, self.domain_name@.len() as int) =~= self
                .domain_name@);
            assert(self.rdata@.subrange(0, self.rdata@.len() as int) =~= self.rdata@);
            assert(bytes@ =~= spec_answer_bytes(self@));
        }
        bytes
    }
}

/// An answer whose name is a well-formed uncompressed wire name and whose
/// declared resource-data length matches its payload decodes from its own
/// encoding, wherever that encoding sits in a larger buffer, back to exactly
/// itself, consuming exactly its own bytes.
pub proof fn lemma_parse_answer_in_context(buf: Seq<u8>, pos: nat, a: AnswerView)
    requires
        is_wire_name(a.name),
        a.rdlength == a.rdata.len(),
        pos + spec_answer_bytes(a).len() <= buf.len(),
        buf.subrange(pos as int, (pos + spec_answer_bytes(a).len()) as int) == spec_answer_bytes(
            a,
        ),
    ensures
        spec_parse_answer(buf, pos) == Ok::<(AnswerView, nat), DeserializationError>(
            (a, spec_answer_bytes(a).len() as nat),
        ),
{
    let ab = spec_answer_bytes(a);
    let name_end = pos + a.name.len();
    assert(buf.subrange(pos as int, name_end as int) =~= a.name);
    lemma_parse_wire_name_in_context(buf, pos, 0, a.name);

    let rt_code = spec_record_type_code(a.record_type);
    let ct_code = spec_class_type_code(a.class_type);
    let nl = a.name.len() as int;
    assert(ab[nl] == be_bytes_of_u16(rt_code)[0]);
    assert(ab[nl + 1] == be_bytes_of_u16(rt_code)[1]);
    assert(ab[nl + 2] == be_bytes_of_u16(ct_code)[0]);
    assert(ab[nl + 3] == be_bytes_of_u16(ct_code)[1]);
    assert(ab[nl + 4] == be_bytes_of_u32(a.ttl)[0]);
    assert(ab[nl + 5] == be_bytes_of_u32(a.ttl)[1]);
    assert(ab[nl + 6] == be_bytes_of_u32(a.ttl)[2]);
    assert(ab[nl + 7] == be_bytes_of_u32(a.ttl)[3]);
    assert(ab[nl + 8] == be_bytes_of_u16(a.rdlength)[0]);
    assert(ab[nl + 9] == be_bytes_of_u16(a.rdlength)[1]);
    assert(buf[pos as int + nl] == ab[nl]);
    assert(buf[pos as int + nl + 1] == ab[nl + 1]);
    assert(buf[pos as int + nl + 2] == ab[nl + 2]);
    assert(buf[pos as int + nl + 3] == ab[nl + 3]);
    assert(buf[pos as int + nl + 4] == ab[nl + 4]);
    assert(buf[pos as int + nl + 5] == ab[nl + 5]);
    assert(buf[pos as int + nl + 6] == ab[nl + 6]);
    assert(buf[pos as int + nl + 7] == ab[nl + 7]);
    assert(buf[pos as int + nl + 8] == ab[nl + 8]);
    assert(buf[pos as int + nl + 9] == ab[nl + 9]);
    lemma_u16_be_round_trip(rt_code);
    lemma_u16_be_round_trip(ct_code);
    lemma_u32_be_round_trip(a.ttl);
    lemma_u16_be_round_trip(a.rdlength);
    lemma_record_type_code_round_trip(a.record_type);
    lemma_class_type_code_round_trip(a.class_type);

    assert forall|i: int| 0 <= i < a.rdata.len() implies buf[pos as int + nl + 10 + i]
        == #[trigger] a.rdata[i] by {
        assert(ab[nl + 10 + i] == a.rdata[i]);
        assert(buf.subrange(pos as int, (pos + ab.len()) as int)[nl + 10 + i] == buf[pos as int
            + nl + 10 + i]);
    }
    assert(buf.subrange(pos as int + nl + 10, pos as int + nl + 10 + a.rdlength) =~= a.rdata);
}

} // verus!
