//! The message assembler: one header, the questions, and the answers,
//! composed to and from one buffer.

use vstd::prelude::*;

use crate::answer::{
    lemma_parse_answer_in_context, spec_answer_bytes, spec_parse_answer, AnswerView, DNSAnswer,
};
use crate::errors::DeserializationError;
use crate::header::{spec_header_bytes, spec_parse_header, DNSHeader};
use crate::parser::{
    is_wire_name, lemma_parse_name_end_bounds, lemma_parse_name_yields_wire_name,
    lemma_subrange_split, lemma_u16_be_round_trip, push_range,
};
use crate::question::{
    lemma_parse_question_in_context, spec_parse_question, spec_question_bytes, DNSQuestion,
    QuestionView,
};

verus! {

/// A whole message: one header, then the questions, then the answers.
#[derive(Debug, Clone, PartialEq, Eq)]
pub struct DNSMessage {
    /// the fixed-size header; its counts drive how many records a decode
    /// attempts and are recomputed by the append operations
    pub header: DNSHeader,
    /// the question records, in wire order
    pub questions: Vec<DNSQuestion>,
    /// the answer records, in wire order
    pub answers: Vec<DNSAnswer>,
}

/// The mathematical content of a message.
pub ghost struct MessageView {
    /// the fixed-size header
    pub header: DNSHeader,
    /// the question records, in wire order
    pub questions: Seq<QuestionView>,
    /// the answer records, in wire order
    pub answers: Seq<AnswerView>,
}

impl View for DNSMessage {
    type V = MessageView;

    open spec fn view(&self) -> MessageView {
        MessageView {
            header: self.header,
            questions: self.questions@.map_values(|q: DNSQuestion| q@),
            answers: self.answers@.map_values(|a: DNSAnswer| a@),
        }
    }
}

/// The bytes a question list is written as: each question in order.
pub open spec fn spec_questions_bytes(qs: Seq<QuestionView>) -> Seq<u8>
    decreases qs.len(),
{
    if qs.len() == 0 {
        Seq::empty()
    } else {
        spec_question_bytes(qs[0]) + spec_questions_bytes(qs.drop_first())
    }
}

/// The bytes an answer list is written as: each answer in order.
pub open spec fn spec_answers_bytes(ans: Seq<AnswerView>) -> Seq<u8>
    decreases ans.len(),
{
    if ans.len() == 0 {
        Seq::empty()
    } else {
        spec_answer_bytes(ans[0]) + spec_answers_bytes(ans.drop_first())
    }
}

/// The bytes a message is written as: header, questions, answers — pure
/// concatenation in field order.
pub open spec fn spec_message_bytes(m: MessageView) -> Seq<u8> {
    spec_header_bytes(m.header) + spec_questions_bytes(m.questions) + spec_answers_bytes(m.answers)
}

/// What decoding up to `count` questions starting at `pos` returns: the
/// questions decoded and the offset just past them. Decoding stops early,
/// without error, when the buffer is exhausted before `count` records were
/// read; a record that fails to decode fails the whole call.
pub open spec fn spec_parse_questions(buf: Seq<u8>, pos: nat, count: nat) -> Result<
    (Seq<QuestionView>, nat),
    DeserializationError,
>
    decreases count,
{
    if count == 0 || pos >= buf.len() {
        Ok((Seq::empty(), pos))
    } else {
        match spec_parse_question(buf, pos) {
            Err(e) => Err(e),
            Ok((q, consumed)) => match spec_parse_questions(
                buf,
                (pos + consumed) as nat,
                (count - 1) as nat,
            ) {
                Err(e) => Err(e),
                Ok((rest, end)) => Ok((seq![q] + rest, end)),
            },
        }
    }
}

/// What decoding up to `count` answers starting at `pos` returns, under the
/// same stopping rules as question decoding.
pub open spec fn spec_parse_answers(buf: Seq<u8>, pos: nat, count: nat) -> Result<
    (Seq<AnswerView>, nat),
    DeserializationError,
>
    decreases count,
{
    if count == 0 || pos >= buf.len() {
        Ok((Seq::empty(), pos))
    } else {
        match spec_parse_answer(buf, pos) {
            Err(e) => Err(e),
            Ok((a, consumed)) => match spec_parse_answers(
                buf,
                (pos + consumed) as nat,
                (count - 1) as nat,
            ) {
                Err(e) => Err(e),
                Ok((rest, end)) => Ok((seq![a] + rest, end)),
            },
        }
    }
}

/// What decoding a whole message returns: the header from the first twelve
/// bytes, then as many questions as the header declares (or as the buffer
/// holds, whichever ends first), then answers likewise. A buffer shorter than
/// a header is an error, and so is any record that fails to decode — the
/// decode is all-or-nothing rather than keeping the records read so far.
pub open spec fn spec_parse_message(buf: Seq<u8>) -> Result<MessageView, DeserializationError> {
    if buf.len() < 12 {
        Err(DeserializationError::UnexpectedEOF)
    } else {
        let header = spec_parse_header(buf);
        match spec_parse_questions(buf, 12, header.qdcount as nat) {
            Err(e) => Err(e),
            Ok((questions, pos)) => match spec_parse_answers(buf, pos, header.ancount as nat) {
                Err(e) => Err(e),
                Ok((answers, _)) => Ok(MessageView { header, questions, answers }),
            },
        }
    }
}

/// Whether the executable decode result agrees with the specification-level
/// one.
pub open spec fn message_parse_matches(
    r: Result<DNSMessage, DeserializationError>,
    s: Result<MessageView, DeserializationError>,
) -> bool {
    match (r, s) {
        (Ok(m), Ok(v)) => m@ == v,
        (Err(e1), Err(e2)) => e1 == e2,
        _ => false,
    }
}

impl DNSMessage {
    /// A fresh, empty message: a new header (random identifier, zero counts)
    /// and no records. The count-matches-length invariant holds trivially.
    pub fn new() -> (m: Self)
        ensures
            m@.header.flags == 0,
            m@.header.qdcount == 0,
            m@.header.ancount == 0,
            m@.header.nscount == 0,
            m@.header.arcount == 0,
            m@.questions.len() == 0,
            m@.answers.len() == 0,
    {
        let m = Self { header: DNSHeader::new(), questions: Vec::new(), answers: Vec::new() };
        proof {
            assert(m@.questions =~= Seq::<QuestionView>::empty());
            assert(m@.answers =~= Seq::<AnswerView>::empty());
        }
        m
    }

    /// Appends one question and recomputes the question count to the new list
    /// length.
    pub fn add_question(&mut self, question: DNSQuestion)
        requires
            old(self).questions@.len() < 0xffff,
        ensures
            final(self).questions@ == old(self).questions@.push(question),
            final(self).header == (DNSHeader {
                qdcount: (old(self).questions@.len() + 1) as u16,
                ..old(self).header
            }),
            final(self).answers@ == old(self).answers@,
            final(self)@.questions == old(self)@.questions.push(question@),
    {
        self.questions.push(question);
        self.header.qdcount = self.questions.len() as u16;
        proof {
            assert(self@.questions =~= old(self)@.questions.push(question@));
        }
    }

    /// Appends several questions at once and recomputes the question count to
    /// the new list length.
    pub fn add_multiple_questions(&mut self, questions: Vec<DNSQuestion>)
        requires
            old(self).questions@.len() + questions@.len() <= 0xffff,
        ensures
            final(self).questions@ == old(self).questions@ + questions@,
            final(self).header == (DNSHeader {
                qdcount: (old(self).questions@.len() + questions@.len()) as u16,
                ..old(self).header
            }),
            final(self).answers@ == old(self).answers@,
            final(self)@.questions == old(self)@.questions + questions@.map_values(
                |q: DNSQuestion| q@,
            ),
    {
        let mut incoming = questions;
        self.questions.append(&mut incoming);
        self.header.qdcount = self.questions.len() as u16;
        proof {
            assert(self@.questions =~= old(self)@.questions + questions@.map_values(
                |q: DNSQuestion| q@,
            ));
        }
    }

    /// Appends one answer and recomputes the answer count to the new list
    /// length.
    pub fn add_answer(&mut self, answer: DNSAnswer)
        requires
            old(self).answers@.len() < 0xffff,
        ensures
            final(self).answers@ == old(self).answers@.push(answer),
            final(self).header == (DNSHeader {
                ancount: (old(self).answers@.len() + 1) as u16,
                ..old(self).header
            }),
            final(self).questions@ == old(self).questions@,
            final(self)@.answers == old(self)@.answers.push(answer@),
    {
        self.answers.push(answer);
        self.header.ancount = self.answers.len() as u16;
        proof {
            assert(self@.answers =~= old(self)@.answers.push(answer@));
        }
    }

    /// Appends several answers at once and recomputes the answer count to the
    /// new list length.
    pub fn add_multiple_answers(&mut self, answers: Vec<DNSAnswer>)
        requires
            old(self).answers@.len() + answers@.len() <= 0xffff,
        ensures
            final(self).answers@ == old(self).answers@ + answers@,
            final(self).header == (DNSHeader {
                ancount: (old(self).answers@.len() + answers@.len()) as u16,
                ..old(self).header
            }),
            final(self).questions@ == old(self).questions@,
            final(self)@.answers == old(self)@.answers + answers@.map_values(|a: DNSAnswer| a@),
    {
        let mut incoming = answers;
        self.answers.append(&mut incoming);
        self.header.ancount = self.answers.len() as u16;
        proof {
            assert(self@.answers =~= old(self)@.answers + answers@.map_values(|a: DNSAnswer| a@));
        }
    }

    /// Decodes a whole message: the header, then the declared number of
    /// questions, then the declared number of answers, each section stopping
    /// early without error if the buffer runs out between records. Any record
    /// that fails to decode fails the whole message decode.
    pub fn from_bytes(buf: &[u8]) -> (r: Result<Self, DeserializationError>)
        ensures
            message_parse_matches(r, spec_parse_message(buf@)),
    {
        let buf_size = buf.len();
        if buf_size < 12 {
            return Err(DeserializationError::UnexpectedEOF);
        }

        let header = match DNSHeader::from_bytes(buf) {
            Ok(h) => h,
            Err(e) => {
                return Err(e);
            },
        };
        let mut pos: usize = 12;

        let qdcount = header.qdcount as usize;
        let mut questions: Vec<DNSQuestion> = Vec::new();
        proof {
            assert(questions@.map_values(|q: DNSQuestion| q@) =~= Seq::<QuestionView>::empty());
        }
        while questions.len() < qdcount && pos < buf_size
            invariant
                12 <= pos <= buf_size == buf@.len(),
                header == spec_parse_header(buf@),
                questions@.len() <= qdcount == header.qdcount as nat,
                spec_parse_questions(buf@, 12, header.qdcount as nat) == (match spec_parse_questions(
                    buf@,
                    pos as nat,
                    (qdcount - questions@.len()) as nat,
                ) {
                    Ok(p) => Ok::<(Seq<QuestionView>, nat), DeserializationError>(
                        (questions@.map_values(|q: DNSQuestion| q@) + p.0, p.1),
                    ),
                    Err(e) => Err::<(Seq<QuestionView>, nat), DeserializationError>(e),
                }),
            decreases qdcount - questions@.len(),
        {
            let (question, bytes_parsed) = match DNSQuestion::from_bytes(buf, pos) {
                Ok(p) => p,
                Err(e) => {
                    return Err(e);
                },
            };
            proof {
                lemma_parse_name_end_bounds(buf@, pos as nat, 0);
                let ghost_parsed = spec_parse_question(buf@, pos as nat)->Ok_0;
                assert(pos + ghost_parsed.1 <= buf@.len());
                let before = questions@.map_values(|q: DNSQuestion| q@);
                let after_rest = spec_parse_questions(
                    buf@,
                    (pos + ghost_parsed.1) as nat,
                    (qdcount - questions@.len() - 1) as nat,
                );
                if after_rest is Ok {
                    let p = after_rest->Ok_0;
                    assert(before + (seq![ghost_parsed.0] + p.0) =~= (before.push(ghost_parsed.0))
                        + p.0);
                }
            }
            let ghost before_views = questions@.map_values(|q: DNSQuestion| q@);
            pos = pos + bytes_parsed;
            questions.push(question);
            proof {
                assert(questions@.map_values(|q: DNSQuestion| q@) =~= before_views.push(
                    question@,
                ));
            }
        }
        proof {
            let views = questions@.map_values(|q: DNSQuestion| q@);
            assert(spec_parse_questions(buf@, pos as nat, (qdcount - questions@.len()) as nat)
                == Ok::<(Seq<QuestionView>, nat), DeserializationError>(
                (Seq::empty(), pos as nat),
            ));
            assert(views + Seq::<QuestionView>::empty() =~= views);
            let s = spec_parse_answers(buf@, pos as nat, header.ancount as nat);
            if s is Ok {
                assert(Seq::<AnswerView>::empty() + s->Ok_0.0 =~= s->Ok_0.0);
            }
        }

        let ancount = header.ancount as usize;
        let mut answers: Vec<DNSAnswer> = Vec::new();
        proof {
            assert(answers@.map_values(|a: DNSAnswer| a@) =~= Seq::<AnswerView>::empty());
        }
        while answers.len() < ancount && pos < buf_size
            invariant
                12 <= buf@.len(),
                pos <= buf_size == buf@.len(),
                header == spec_parse_header(buf@),
                answers@.len() <= ancount == header.ancount as nat,
                spec_parse_questions(buf@, 12, header.qdcount as nat) matches Ok(p)
                    && p.0 == questions@.map_values(|q: DNSQuestion| q@),
                spec_parse_answers(
                    buf@,
                    spec_parse_questions(buf@, 12, header.qdcount as nat)->Ok_0.1,
                    header.ancount as nat,
                ) == (match spec_parse_answers(
                    buf@,
                    pos as nat,
                    (ancount - answers@.len()) as nat,
                ) {
                    Ok(p) => Ok::<(Seq<AnswerView>, nat), DeserializationError>(
                        (answers@.map_values(|a: DNSAnswer| a@) + p.0, p.1),
                    ),
                    Err(e) => Err::<(Seq<AnswerView>, nat), DeserializationError>(e),
                }),
            decreases ancount - answers@.len(),
        {
            let (answer, bytes_parsed) = match DNSAnswer::from_bytes(buf, pos) {
                Ok(p) => p,
                Err(e) => {
                    return Err(e);
                },
            };
            proof {
                lemma_parse_name_end_bounds(buf@, pos as nat, 0);
                let ghost_parsed = spec_parse_answer(buf@, pos as nat)->Ok_0;
                assert(pos + ghost_parsed.1 <= buf@.len());
                let before = answers@.map_values(|a: DNSAnswer| a@);
                let after_rest = spec_parse_answers(
                    buf@,
                    (pos + ghost_parsed.1) as nat,
                    (ancount - answers@.len() - 1) as nat,
                );
                if after_rest is Ok {
                    let p = after_rest->Ok_0;
                    assert(before + (seq![ghost_parsed.0] + p.0) =~= (before.push(ghost_parsed.0))
                        + p.0);
                }
            }
            let ghost before_views = answers@.map_values(|a: DNSAnswer| a@);
            pos = pos + bytes_parsed;
            answers.push(answer);
            proof {
                assert(answers@.map_values(|a: DNSAnswer| a@) =~= before_views.push(answer@));
            }
        }
        proof {
            let views = answers@.map_values(|a: DNSAnswer| a@);
            assert(spec_parse_answers(buf@, pos as nat, (ancount - answers@.len()) as nat)
                == Ok::<(Seq<AnswerView>, nat), DeserializationError>((Seq::empty(), pos as nat)));
            assert(views + Seq::<AnswerView>::empty() =~= views);
        }

        Ok(Self { header, questions, answers })
    }

    /// Encodes the message: the header's twelve bytes, then each question in
    /// list order, then each answer in list order — pure concatenation.
    pub fn to_bytes(&self) -> (r: Vec<u8>)
        ensures
            r@ == spec_message_bytes(self@),
    {
        let mut bytes: Vec<u8> = Vec::new();
        let header_bytes = self.header.to_bytes();
        push_range(&mut bytes, header_bytes.as_slice(), 0, 12);
        proof {
            assert(header_bytes@.subrange(0, 12) =~= header_bytes@);
        }

        let mut i: usize = 0;
        while i < self.questions.len()
            invariant
                i <= self.questions@.len(),
                bytes@ == spec_header_bytes(self.header) + spec_questions_bytes(
                    self@.questions.take(i as int),
                ),
            decreases self.questions@.len() - i,
        {
            let ghost prefix = self@.questions.take(i as int);
            let question_bytes = self.questions[i].to_bytes();
            push_range(&mut bytes, question_bytes.as_slice(), 0, question_bytes.len());
            proof {
                assert(question_bytes@.subrange(0, question_bytes@.len() as int)
                    =~= question_bytes@);
                lemma_questions_bytes_push(prefix, self@.questions[i as int]);
                assert(self@.questions.take(i + 1) =~= prefix.push(self@.questions[i as int]));
                assert(bytes@ =~= spec_header_bytes(self.header) + spec_questions_bytes(
                    self@.questions.take(i + 1),
                ));
            }
            i = i + 1;
        }
        proof {
            assert(self@.questions.take(self.questions@.len() as int) =~= self@.questions);
        }

        let mut j: usize = 0;
        while j < self.answers.len()
            invariant
                j <= self.answers@.len(),
                bytes@ == spec_header_bytes(self.header) + spec_questions_bytes(self@.questions)
                    + spec_answers_bytes(self@.answers.take(j as int)),
            decreases self.answers@.len() - j,
        {
            let ghost prefix = self@.answers.take(j as int);
            let answer_bytes = self.answers[j].to_bytes();
            push_range(&mut bytes, answer_bytes.as_slice(), 0, answer_bytes.len());
            proof {
                assert(answer_bytes@.subrange(0, answer_bytes@.len() as int) =~= answer_bytes@);
                lemma_answers_bytes_push(prefix, self@.answers[j as int]);
                assert(self@.answers.take(j + 1) =~= prefix.push(self@.answers[j as int]));
                assert(bytes@ =~= spec_header_bytes(self.header) + spec_questions_bytes(
                    self@.questions,
                ) + spec_answers_bytes(self@.answers.take(j + 1)));
            }
            j = j + 1;
        }
        proof {
            assert(self@.answers.take(self.answers@.len() as int) =~= self@.answers);
            assert(bytes@ =~= spec_message_bytes(self@));
        }
        bytes
    }
}

/// Whether a message value can survive an encode-decode trip: every name is
/// a well-formed uncompressed wire name, every answer's declared
/// resource-data length matches its payload, no list is longer than its
/// declared count, and a question deficit (fewer questions than declared,
/// as a truncated buffer leaves behind) implies there are no answers, since
/// decoding stops reading questions only at the buffer's end.
pub open spec fn spec_message_decodable(m: MessageView) -> bool {
    &&& forall|i: int| 0 <= i < m.questions.len() ==> is_wire_name(#[trigger] m.questions[i].name)
    &&& forall|i: int|
        0 <= i < m.answers.len() ==> is_wire_name(#[trigger] m.answers[i].name)
            && m.answers[i].rdlength == m.answers[i].rdata.len()
    &&& m.questions.len() <= m.header.qdcount
    &&& m.answers.len() <= m.header.ancount
    &&& (m.questions.len() < m.header.qdcount ==> m.answers.len() == 0)
}

/// A list of well-formed questions decodes from its own encoding embedded in
/// a buffer back to exactly itself, provided the declared count either equals
/// the list length or the encoding runs to the buffer's end.
#[verifier::rlimit(50)]
pub proof fn lemma_parse_questions_in_context(buf: Seq<u8>, pos: nat, qs: Seq<QuestionView>, count: nat)
    requires
        forall|i: int| 0 <= i < qs.len() ==> is_wire_name(#[trigger] qs[i].name),
        qs.len() <= count,
        pos + spec_questions_bytes(qs).len() <= buf.len(),
        buf.subrange(pos as int, (pos + spec_questions_bytes(qs).len()) as int)
            == spec_questions_bytes(qs),
        count > qs.len() ==> pos + spec_questions_bytes(qs).len() == buf.len(),
    ensures
        spec_parse_questions(buf, pos, count) == Ok::<(Seq<QuestionView>, nat), DeserializationError>(
            (qs, (pos + spec_questions_bytes(qs).len()) as nat),
        ),
    decreases qs.len(),
{
    let qbs = spec_questions_bytes(qs);
    if qs.len() == 0 {
        assert(qs =~= Seq::<QuestionView>::empty());
    } else {
        let q0 = qs[0];
        let qb0 = spec_question_bytes(q0);
        let rest = qs.drop_first();
        let rest_bytes = spec_questions_bytes(rest);
        assert(is_wire_name(q0.name));
        assert(q0.name.len() > 0);
        assert(qbs == qb0 + rest_bytes);
        assert(pos < buf.len());

        lemma_subrange_split(buf, pos, qbs, qb0.len());
        assert(qbs.subrange(0, qb0.len() as int) =~= qb0);
        assert(qbs.subrange(qb0.len() as int, qbs.len() as int) =~= rest_bytes);
        lemma_parse_question_in_context(buf, pos, q0);

        let pos_rest = (pos + qb0.len()) as nat;
        assert(forall|i: int| 0 <= i < rest.len() ==> is_wire_name(#[trigger] rest[i].name)) by {
            assert(forall|i: int| 0 <= i < rest.len() ==> rest[i] == qs[i + 1]);
        }
        lemma_parse_questions_in_context(buf, pos_rest, rest, (count - 1) as nat);
        assert(seq![q0] + rest =~= qs);
        assert(spec_parse_questions(buf, pos, count) == Ok::<
            (Seq<QuestionView>, nat),
            DeserializationError,
        >((seq![q0] + rest, (pos_rest + rest_bytes.len()) as nat)));
    }
}

/// A list of well-formed answers decodes from its own encoding embedded in a
/// buffer back to exactly itself, under the same conditions as questions.
#[verifier::rlimit(50)]
pub proof fn lemma_parse_answers_in_context(buf: Seq<u8>, pos: nat, ans: Seq<AnswerView>, count: nat)
    requires
        forall|i: int|
            0 <= i < ans.len() ==> is_wire_name(#[trigger] ans[i].name) && ans[i].rdlength
                == ans[i].rdata.len(),
        ans.len() <= count,
        pos + spec_answers_bytes(ans).len() <= buf.len(),
        buf.subrange(pos as int, (pos + spec_answers_bytes(ans).len()) as int)
            == spec_answers_bytes(ans),
        count > ans.len() ==> pos + spec_answers_bytes(ans).len() == buf.len(),
    ensures
        spec_parse_answers(buf, pos, count) == Ok::<(Seq<AnswerView>, nat), DeserializationError>(
            (ans, (pos + spec_answers_bytes(ans).len()) as nat),
        ),
    decreases ans.len(),
{
    let abs = spec_answers_bytes(ans);
    if ans.len() == 0 {
        assert(ans =~= Seq::<AnswerView>::empty());
    } else {
        let a0 = ans[0];
        let ab0 = spec_answer_bytes(a0);
        let rest = ans.drop_first();
        let rest_bytes = spec_answers_bytes(rest);
        assert(is_wire_name(a0.name));
        assert(a0.name.len() > 0);
        assert(abs == ab0 + rest_bytes);
        assert(pos < buf.len());

        lemma_subrange_split(buf, pos, abs, ab0.len());
        assert(abs.subrange(0, ab0.len() as int) =~= ab0);
        assert(abs.subrange(ab0.len() as int, abs.len() as int) =~= rest_bytes);
        lemma_parse_answer_in_context(buf, pos, a0);

        let pos_rest = (pos + ab0.len()) as nat;
        assert(forall|i: int|
            0 <= i < rest.len() ==> is_wire_name(#[trigger] rest[i].name) && rest[i].rdlength
                == rest[i].rdata.len()) by {
            assert(forall|i: int| 0 <= i < rest.len() ==> rest[i] == ans[i + 1]);
        }
        lemma_parse_answers_in_context(buf, pos_rest, rest, (count - 1) as nat);
        assert(seq![a0] + rest =~= ans);
        assert(spec_parse_answers(buf, pos, count) == Ok::<
            (Seq<AnswerView>, nat),
            DeserializationError,
        >((seq![a0] + rest, (pos_rest + rest_bytes.len()) as nat)));
    }
}

/// Round trip for messages: a decodable message — in particular any message
/// whose counts equal its list lengths, whose names are well-formed wire
/// names, and whose answers declare their true resource-data lengths —
/// decodes from its own encoding back to exactly itself.
pub proof fn lemma_message_round_trip(m: MessageView)
    requires
        spec_message_decodable(m),
    ensures
        spec_message_bytes(m).len() >= 12,
        spec_parse_message(spec_message_bytes(m)) == Ok::<MessageView, DeserializationError>(m),
{
    let mb = spec_message_bytes(m);
    let hb = spec_header_bytes(m.header);
    let qbs = spec_questions_bytes(m.questions);
    let abs = spec_answers_bytes(m.answers);
    assert(hb.len() == 12);

    // the first twelve bytes read back as the header
    assert forall|i: int| 0 <= i < 12 implies mb[i] == #[trigger] hb[i] by {
        assert(mb[i] == (hb + qbs)[i]);
    }
    lemma_u16_be_round_trip(m.header.pid);
    lemma_u16_be_round_trip(m.header.flags);
    lemma_u16_be_round_trip(m.header.qdcount);
    lemma_u16_be_round_trip(m.header.ancount);
    lemma_u16_be_round_trip(m.header.nscount);
    lemma_u16_be_round_trip(m.header.arcount);
    assert(spec_parse_header(mb) == m.header);

    // the question section reads back as the question list
    assert forall|i: int| 0 <= i < qbs.len() implies mb[12 + i] == #[trigger] qbs[i] by {
        assert(mb[12 + i] == (hb + qbs)[12 + i]);
    }
    assert(mb.subrange(12, 12 + qbs.len() as int) =~= qbs);
    if m.questions.len() < m.header.qdcount {
        assert(m.answers.len() == 0);
        assert(abs =~= Seq::<u8>::empty());
    }
    lemma_parse_questions_in_context(mb, 12, m.questions, m.header.qdcount as nat);

    // the answer section reads back as the answer list
    let apos = 12 + qbs.len();
    assert forall|i: int| 0 <= i < abs.len() implies mb[apos + i] == #[trigger] abs[i] by {
        assert((hb + qbs).len() == apos);
    }
    assert(mb.subrange(apos as int, apos as int + abs.len() as int) =~= abs);
    lemma_parse_answers_in_context(mb, apos as nat, m.answers, m.header.ancount as nat);
}

/// Everything a successful question-section decode guarantees: no more
/// records than asked for, an end offset inside the buffer, the buffer
/// exhausted whenever fewer records than asked for came back, and every name
/// a well-formed wire name.
pub proof fn lemma_parse_questions_props(buf: Seq<u8>, pos: nat, count: nat)
    requires
        pos <= buf.len(),
    ensures
        spec_parse_questions(buf, pos, count) matches Ok(p) ==> p.0.len() <= count && pos <= p.1
            <= buf.len() && (p.0.len() < count ==> p.1 == buf.len()) && (forall|i: int|
            0 <= i < p.0.len() ==> is_wire_name(#[trigger] p.0[i].name)),
    decreases count,
{
    if count > 0 && pos < buf.len() {
        if spec_parse_question(buf, pos) is Ok {
            let parsed = spec_parse_question(buf, pos)->Ok_0;
            lemma_parse_name_end_bounds(buf, pos, 0);
            lemma_parse_name_yields_wire_name(buf, pos, 0);
            lemma_parse_questions_props(buf, (pos + parsed.1) as nat, (count - 1) as nat);
            let rest = spec_parse_questions(buf, (pos + parsed.1) as nat, (count - 1) as nat);
            if rest is Ok {
                let p = rest->Ok_0;
                assert(forall|i: int|
                    1 <= i < (seq![parsed.0] + p.0).len() ==> (seq![parsed.0] + p.0)[i] == p.0[i
                        - 1]);
            }
        }
    }
}

/// Everything a successful answer-section decode guarantees, as for
/// questions, plus that each answer's declared resource-data length is the
/// length of the resource data it carries.
pub proof fn lemma_parse_answers_props(buf: Seq<u8>, pos: nat, count: nat)
    requires
        pos <= buf.len(),
    ensures
        spec_parse_answers(buf, pos, count) matches Ok(p) ==> p.0.len() <= count && pos <= p.1
            <= buf.len() && (p.0.len() < count ==> p.1 == buf.len()) && (forall|i: int|
            0 <= i < p.0.len() ==> is_wire_name(#[trigger] p.0[i].name) && p.0[i].rdlength
                == p.0[i].rdata.len()),
    decreases count,
{
    if count > 0 && pos < buf.len() {
        if spec_parse_answer(buf, pos) is Ok {
            let parsed = spec_parse_answer(buf, pos)->Ok_0;
            lemma_parse_name_end_bounds(buf, pos, 0);
            lemma_parse_name_yields_wire_name(buf, pos, 0);
            lemma_parse_answers_props(buf, (pos + parsed.1) as nat, (count - 1) as nat);
            let rest = spec_parse_answers(buf, (pos + parsed.1) as nat, (count - 1) as nat);
            if rest is Ok {
                let p = rest->Ok_0;
                assert(forall|i: int|
                    1 <= i < (seq![parsed.0] + p.0).len() ==> (seq![parsed.0] + p.0)[i] == p.0[i
                        - 1]);
            }
        }
    }
}

/// Whatever a message decode returns is decodable: its names are well-formed
/// wire names, its answers declare their true lengths, its lists fit the
/// declared counts, and a question deficit leaves no answers.
pub proof fn lemma_parse_message_decodable(buf: Seq<u8>)
    ensures
        spec_parse_message(buf) matches Ok(m) ==> spec_message_decodable(m) && m.header
            == spec_parse_header(buf),
{
    if buf.len() >= 12 {
        let header = spec_parse_header(buf);
        lemma_parse_questions_props(buf, 12, header.qdcount as nat);
        if spec_parse_questions(buf, 12, header.qdcount as nat) is Ok {
            let qp = spec_parse_questions(buf, 12, header.qdcount as nat)->Ok_0;
            lemma_parse_answers_props(buf, qp.1, header.ancount as nat);
        }
    }
}

/// Idempotence of the codec: whenever a buffer decodes at all, re-encoding
/// the decoded message and decoding again gives the same message back, even
/// though the re-encoded bytes may differ from the original buffer (encoding
/// never re-compresses names).
pub proof fn lemma_decode_encode_decode(buf: Seq<u8>)
    ensures
        spec_parse_message(buf) matches Ok(m) ==> spec_parse_message(spec_message_bytes(m))
            == Ok::<MessageView, DeserializationError>(m),
{
    if spec_parse_message(buf) is Ok {
        let m = spec_parse_message(buf)->Ok_0;
        lemma_parse_message_decodable(buf);
        lemma_message_round_trip(m);
    }
}

/// Appending one question to a list appends its bytes to the list's encoding.
pub proof fn lemma_questions_bytes_push(qs: Seq<QuestionView>, q: QuestionView)
    ensures
        spec_questions_bytes(qs.push(q)) == spec_questions_bytes(qs) + spec_question_bytes(q),
    decreases qs.len(),
{
    reveal_with_fuel(spec_questions_bytes, 3);
    if qs.len() == 0 {
        assert(qs.push(q)[0] == q);
        assert(qs.push(q).drop_first() =~= Seq::<QuestionView>::empty());
        assert(spec_questions_bytes(qs.push(q)) =~= spec_questions_bytes(qs)
            + spec_question_bytes(q));
    } else {
        assert(qs.push(q).drop_first() =~= qs.drop_first().push(q));
        lemma_questions_bytes_push(qs.drop_first(), q);
        assert(qs.push(q)[0] == qs[0]);
        assert(spec_questions_bytes(qs.push(q)) == spec_question_bytes(qs[0]) + (
        spec_questions_bytes(qs.drop_first()) + spec_question_bytes(q)));
        assert(spec_question_bytes(qs[0]) + (spec_questions_bytes(qs.drop_first())
            + spec_question_bytes(q)) =~= (spec_question_bytes(qs[0]) + spec_questions_bytes(
            qs.drop_first(),
        )) + spec_question_bytes(q));
    }
}

/// Appending one answer to a list appends its bytes to the list's encoding.
pub proof fn lemma_answers_bytes_push(ans: Seq<AnswerView>, a: AnswerView)
    ensures
        spec_answers_bytes(ans.push(a)) == spec_answers_bytes(ans) + spec_answer_bytes(a),
    decreases ans.len(),
{
    reveal_with_fuel(spec_answers_bytes, 3);
    if ans.len() == 0 {
        assert(ans.push(a)[0] == a);
        assert(ans.push(a).drop_first() =~= Seq::<AnswerView>::empty());
        assert(spec_answers_bytes(ans.push(a)) =~= spec_answers_bytes(ans) + spec_answer_bytes(a));
    } else {
        assert(ans.push(a).drop_first() =~= ans.drop_first().push(a));
        lemma_answers_bytes_push(ans.drop_first(), a);
        assert(ans.push(a)[0] == ans[0]);
        assert(spec_answers_bytes(ans.push(a)) == spec_answer_bytes(ans[0]) + (spec_answers_bytes(
            ans.drop_first(),
        ) + spec_answer_bytes(a)));
        assert(spec_answer_bytes(ans[0]) + (spec_answers_bytes(ans.drop_first())
            + spec_answer_bytes(a)) =~= (spec_answer_bytes(ans[0]) + spec_answers_bytes(
            ans.drop_first(),
        )) + spec_answer_bytes(a));
    }
}

} // verus!
