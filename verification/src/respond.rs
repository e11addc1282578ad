//! Building a response from a request: deriving the response header and
//! deciding, question by question, how each is answered.

use vstd::prelude::*;

use crate::answer::{DNSAnswer, DEFAULT_TTL};
use crate::header::{
    flag_aa, flag_opcode, flag_qr, flag_ra, flag_rcode, flag_rd, flag_reserved, flag_tc,
};
use crate::helpers::random_ip;
use crate::message::DNSMessage;
use crate::parser::copy_bytes;
use crate::question::DNSQuestion;
use crate::store::DNSStore;
use crate::types::{ClassType, RecordType};

verus! {

/// How one question is to be answered.
#[derive(Debug, Clone, PartialEq, Eq)]
pub enum QuestionPlan {
    /// The answer is ready: a record was found locally, or one was improvised
    /// and remembered.
    Answered(DNSAnswer),
    /// No local record exists and an upstream resolver is configured: the
    /// caller must forward the question there and fold the reply's answers in.
    ForwardUpstream,
}

/// Starts a response to `request`: a fresh message whose header carries the
/// request's transaction identifier, the response flag, the request's opcode
/// and recursion-desired flag, and response code 4 ("not implemented") when
/// the request's opcode is not the standard query 0. No records yet.
pub fn init_dns_response(request: &DNSMessage) -> (r: DNSMessage)
    ensures
        r@.questions.len() == 0,
        r@.answers.len() == 0,
        r@.header.qdcount == 0,
        r@.header.ancount == 0,
        r@.header.nscount == 0,
        r@.header.arcount == 0,
        r@.header.pid == request@.header.pid,
        flag_qr(r@.header.flags),
        flag_opcode(r@.header.flags) == flag_opcode(request@.header.flags),
        flag_rd(r@.header.flags) == flag_rd(request@.header.flags),
        flag_rcode(r@.header.flags) == (if flag_opcode(request@.header.flags) != 0 {
            4u16
        } else {
            0u16
        }),
        !flag_aa(r@.header.flags),
        !flag_tc(r@.header.flags),
        !flag_ra(r@.header.flags),
        flag_reserved(r@.header.flags) == 0,
{
    let mut response = DNSMessage::new();
    response.header.from_request_header(&request.header);
    response
}

/// Decides how `question` is answered, and answers it where that is possible
/// locally: a name the store knows is answered from the store; an unknown
/// name is forwarded when an upstream resolver exists, and otherwise answered
/// with a fresh random address that is remembered in the store for next time.
pub fn resolve_question(store: &mut DNSStore, question: &DNSQuestion, has_resolver: bool) -> (plan:
    QuestionPlan)
    requires
        old(store).wf(),
    ensures
        final(store).wf(),
        old(store)@.contains_key(question@.name) ==> final(store)@ == old(store)@
            && (plan matches QuestionPlan::Answered(a) && a@.name == question@.name && a@.rdata
            == old(store)@[question@.name] && a@.record_type == RecordType::A && a@.class_type
            == ClassType::IN && a@.ttl == DEFAULT_TTL && a@.rdlength == a@.rdata.len()),
        !old(store)@.contains_key(question@.name) && has_resolver ==> final(store)@ == old(store)@
            && plan == QuestionPlan::ForwardUpstream,
        !old(store)@.contains_key(question@.name) && !has_resolver ==> (
        plan matches QuestionPlan::Answered(a) && a@.name == question@.name && a@.rdata.len() == 4
            && a@.record_type == RecordType::A && a@.class_type == ClassType::IN && a@.ttl
            == DEFAULT_TTL && a@.rdlength == 4 && final(store)@ == old(store)@.insert(
            question@.name,
            a@.rdata,
        )),
{
    let found = match store.lookup(question.domain_name.as_slice()) {
        Some(record) => Some(copy_bytes(record.as_slice())),
        None => None,
    };
    match found {
        Some(record) => {
            let name = copy_bytes(question.domain_name.as_slice());
            QuestionPlan::Answered(DNSAnswer::new(name, record))
        },
        None => {
            if has_resolver {
                QuestionPlan::ForwardUpstream
            } else {
                let ip = random_ip();
                let name = copy_bytes(question.domain_name.as_slice());
                let stored_ip = copy_bytes(ip.as_slice());
                store.insert(name, stored_ip);
                let answer_name = copy_bytes(question.domain_name.as_slice());
                QuestionPlan::Answered(DNSAnswer::new(answer_name, ip))
            }
        },
    }
}

} // verus!
