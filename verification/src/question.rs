//! The question record: a domain name asked about, with its record type and
//! class.

use vstd::prelude::*;

use crate::errors::DeserializationError;
use crate::parser::{
    is_wire_name, lemma_parse_name_end_bounds, lemma_parse_wire_name_in_context,
    lemma_u16_be_round_trip, parse_domain_name, parse_u16_from_be_bytes, push_range, push_u16_be,
    spec_parse_name, u16_of_be_bytes, be_bytes_of_u16,
};
use crate::types::{
    lemma_class_type_code_round_trip, lemma_record_type_code_round_trip, spec_class_type_code,
    spec_class_type_of_code, spec_record_type_code, spec_record_type_of_code, ClassType,
    RecordType,
};

verus! {

/// One question record: the name asked about (kept in expanded wire form,
/// terminator included), the record type wanted, and the class.
#[derive(Debug, Clone, PartialEq, Eq)]
pub struct DNSQuestion {
    /// the expanded wire-form domain name, trailing zero byte included
    pub domain_name: Vec<u8>,
    /// which kind of record is asked for
    pub record_type: RecordType,
    /// which class the question belongs to
    pub class_type: ClassType,
}

/// The mathematical content of a question: its name bytes and its two codes.
pub ghost struct QuestionView {
    /// the expanded wire-form domain name
    pub name: Seq<u8>,
    /// which kind of record is asked for
    pub record_type: RecordType,
    /// which class the question belongs to
    pub class_type: ClassType,
}

impl View for DNSQuestion {
    type V = QuestionView;

    open spec fn view(&self) -> QuestionView {
        QuestionView {
            name: self.domain_name@,
            record_type: self.record_type,
            class_type: self.class_type,
        }
    }
}

/// The bytes a question is written as: the name verbatim, then the record
/// type and class codes, each big-endian.
pub open spec fn spec_question_bytes(q: QuestionView) -> Seq<u8> {
    q.name + be_bytes_of_u16(spec_record_type_code(q.record_type)) + be_bytes_of_u16(
        spec_class_type_code(q.class_type),
    )
}

/// What decoding a question at `start` returns: the question and how many
/// bytes it spanned from `start` through the end of its class field.
pub open spec fn spec_parse_question(buf: Seq<u8>, start: nat) -> Result<
    (QuestionView, nat),
    DeserializationError,
> {
    match spec_parse_name(buf, start, 0) {
        Err(e) => Err(e),
        Ok((name, pos)) => {
            if pos + 2 > buf.len() {
                Err(DeserializationError::UnexpectedEOF)
            } else {
                match spec_record_type_of_code(u16_of_be_bytes(buf[pos as int], buf[pos as int + 1])) {
                    None => Err(DeserializationError::MalformedField("record_type")),
                    Some(record_type) => {
                        if pos + 4 > buf.len() {
                            Err(DeserializationError::UnexpectedEOF)
                        } else {
                            match spec_class_type_of_code(
                                u16_of_be_bytes(buf[pos as int + 2], buf[pos as int + 3]),
                            ) {
                                None => Err(DeserializationError::MalformedField("class_type")),
                                Some(class_type) => Ok(
                                    (
                                        QuestionView { name, record_type, class_type },
                                        (pos + 4 - start) as nat,
                                    ),
                                ),
                            }
                        }
                    },
                }
            }
        },
    }
}

/// Whether the executable decode result agrees with the specification-level
/// one.
pub open spec fn question_parse_matches(
    r: Result<(DNSQuestion, usize), DeserializationError>,
    s: Result<(QuestionView, nat), DeserializationError>,
) -> bool {
    match (r, s) {
        (Ok(p), Ok(q)) => p.0@ == q.0 && p.1 as nat == q.1,
        (Err(e1), Err(e2)) => e1 == e2,
        _ => false,
    }
}

impl DNSQuestion {
    /// A question for the address record of `name`, in the internet class.
    pub fn new(name: Vec<u8>) -> (q: Self)
        ensures
            q@.name == name@,
            q@.record_type == RecordType::A,
            q@.class_type == ClassType::IN,
    {
        Self { domain_name: name, record_type: RecordType::A, class_type: ClassType::IN }
    }

    /// Decodes one question starting at `start`: the domain name, then the
    /// record-type and class codes right after the name's end. Unknown codes
    /// are rejected as malformed rather than mapped to a default.
    pub fn from_bytes(buf: &[u8], start: usize) -> (r: Result<
        (Self, usize),
        DeserializationError,
    >)
        ensures
            question_parse_matches(r, spec_parse_question(buf@, start as nat)),
    {
        let (domain_name, pos) = match parse_domain_name(buf, start) {
            Ok(p) => p,
            Err(e) => {
                return Err(e);
            },
        };
        proof {
            lemma_parse_name_end_bounds(buf@, start as nat, 0);
            assert(buf@.len() == vstd::slice::spec_slice_len(buf));
        }

        let record_type_code = match parse_u16_from_be_bytes(buf, pos) {
            Ok(w) => w,
            Err(e) => {
                return Err(e);
            },
        };
        let record_type = match RecordType::from_code(record_type_code) {
            Some(t) => t,
            None => {
                return Err(DeserializationError::MalformedField("record_type"));
            },
        };

        let class_type_code = match parse_u16_from_be_bytes(buf, pos + 2) {
            Ok(w) => w,
            Err(e) => {
                return Err(e);
            },
        };
        let class_type = match ClassType::from_code(class_type_code) {
            Some(c) => c,
            None => {
                return Err(DeserializationError::MalformedField("class_type"));
            },
        };

        Ok((Self { domain_name, record_type, class_type }, pos + 4 - start))
    }

    /// Encodes the question: the name bytes unchanged (encoding never
    /// re-compresses), then the two codes, big-endian.
    pub fn to_bytes(&self) -> (r: Vec<u8>)
        ensures
            r@ == spec_question_bytes(self@),
    {
        let mut bytes: Vec<u8> = Vec::new();
        push_range(&mut bytes, self.domain_name.as_slice(), 0, self.domain_name.len());
        push_u16_be(&mut bytes, self.record_type.to_code());
        push_u16_be(&mut bytes, self.class_type.to_code());
        proof {
            assert(self.domain_name@.subrange(0, self.domain_name@.len() as int) =~= self
                .domain_name@);
            assert(bytes@ =~= spec_question_bytes(self@));
        }
        bytes
    }
}

/// A question whose name is a well-formed uncompressed wire name decodes from
/// its own encoding, wherever that encoding sits in a larger buffer, back to
/// exactly itself, consuming exactly its own bytes.
pub proof fn lemma_parse_question_in_context(buf: Seq<u8>, pos: nat, q: QuestionView)
    requires
        is_wire_name(q.name),
        pos + spec_question_bytes(q).len() <= buf.len(),
        buf.subrange(pos as int, (pos + spec_question_bytes(q).len()) as int)
            == spec_question_bytes(q),
    ensures
        spec_parse_question(buf, pos) == Ok::<(QuestionView, nat), DeserializationError>(
            (q, spec_question_bytes(q).len() as nat),
        ),
{
    let qb = spec_question_bytes(q);
    let name_end = pos + q.name.len();
    assert(buf.subrange(pos as int, name_end as int) =~= q.name);
    lemma_parse_wire_name_in_context(buf, pos, 0, q.name);

    let rt_code = spec_record_type_code(q.record_type);
    let ct_code = spec_class_type_code(q.class_type);
    let nl = q.name.len() as int;
    assert(qb[nl] == be_bytes_of_u16(rt_code)[0]);
    assert(qb[nl + 1] == be_bytes_of_u16(rt_code)[1]);
    assert(qb[nl + 2] == be_bytes_of_u16(ct_code)[0]);
    assert(qb[nl + 3] == be_bytes_of_u16(ct_code)[1]);
    assert(buf[pos as int + nl] == qb[nl]);
    assert(buf[pos as int + nl + 1] == qb[nl + 1]);
    assert(buf[pos as int + nl + 2] == qb[nl + 2]);
    assert(buf[pos as int + nl + 3] == qb[nl + 3]);
    lemma_u16_be_round_trip(rt_code);
    lemma_u16_be_round_trip(ct_code);
    lemma_record_type_code_round_trip(q.record_type);
    lemma_class_type_code_round_trip(q.class_type);
}

} // verus!
