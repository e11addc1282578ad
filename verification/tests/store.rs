use dns_codec::helpers::random_ip;
use dns_codec::respond::{init_dns_response, resolve_question, QuestionPlan};
use dns_codec::message::DNSMessage;
use dns_codec::question::DNSQuestion;
use dns_codec::store::DNSStore;
use dns_codec::types::{ClassType, RecordType};

#[test]
fn lookup_misses_in_an_empty_store() {
    let store = DNSStore::init();
    assert_eq!(store.lookup(b"\x03foo\x00"), None);
}

#[test]
fn insert_then_lookup_finds_the_record() {
    let mut store = DNSStore::init();
    store.insert(b"\x03foo\x00".to_vec(), vec![1, 2, 3, 4]);
    assert_eq!(store.lookup(b"\x03foo\x00"), Some(&vec![1, 2, 3, 4]));
    assert_eq!(store.lookup(b"\x03bar\x00"), None);
}

#[test]
fn insert_replaces_an_existing_binding() {
    let mut store = DNSStore::init();
    store.insert(b"\x03foo\x00".to_vec(), vec![1, 2, 3, 4]);
    store.insert(b"\x03bar\x00".to_vec(), vec![9, 9, 9, 9]);
    store.insert(b"\x03foo\x00".to_vec(), vec![5, 6, 7, 8]);
    assert_eq!(store.lookup(b"\x03foo\x00"), Some(&vec![5, 6, 7, 8]));
    assert_eq!(store.lookup(b"\x03bar\x00"), Some(&vec![9, 9, 9, 9]));
}

#[test]
fn random_ip_is_four_bytes() {
    assert_eq!(random_ip().len(), 4);
}

#[test]
fn response_header_derives_from_the_request() {
    let mut request = DNSMessage::new();
    request.header.pid = 0x1234;
    request.header.set_opcode(5);
    request.header.set_rd(true);
    let response = init_dns_response(&request);
    assert_eq!(response.header.pid, 0x1234);
    assert_eq!(response.header.get_opcode(), 5);
    assert!(response.header.get_rd());
    assert_eq!(response.header.flags & 0x8000, 0x8000);
    assert_eq!(response.header.flags & 0x000f, 4);
    assert_eq!(response.questions.len(), 0);
    assert_eq!(response.answers.len(), 0);
}

#[test]
fn known_name_is_answered_from_the_store() {
    let mut store = DNSStore::init();
    store.insert(b"\x03foo\x00".to_vec(), vec![10, 0, 0, 1]);
    let question = DNSQuestion::new(b"\x03foo\x00".to_vec());
    match resolve_question(&mut store, &question, true) {
        QuestionPlan::Answered(answer) => {
            assert_eq!(answer.domain_name, b"\x03foo\x00".to_vec());
            assert_eq!(answer.rdata, vec![10, 0, 0, 1]);
            assert_eq!(answer.record_type, RecordType::A);
            assert_eq!(answer.class_type, ClassType::IN);
            assert_eq!(answer.ttl, 60);
            assert_eq!(answer.rdlength, 4);
        },
        QuestionPlan::ForwardUpstream => panic!("expected a local answer"),
    }
}

#[test]
fn unknown_name_with_a_resolver_is_forwarded() {
    let mut store = DNSStore::init();
    let question = DNSQuestion::new(b"\x03foo\x00".to_vec());
    assert_eq!(
        resolve_question(&mut store, &question, true),
        QuestionPlan::ForwardUpstream
    );
    // nothing was remembered
    assert_eq!(store.lookup(b"\x03foo\x00"), None);
}

#[test]
fn unknown_name_without_a_resolver_is_improvised_and_remembered() {
    let mut store = DNSStore::init();
    let question = DNSQuestion::new(b"\x03foo\x00".to_vec());
    let improvised = match resolve_question(&mut store, &question, false) {
        QuestionPlan::Answered(answer) => {
            assert_eq!(answer.domain_name, b"\x03foo\x00".to_vec());
            assert_eq!(answer.rdata.len(), 4);
            assert_eq!(answer.rdlength, 4);
            answer.rdata
        },
        QuestionPlan::ForwardUpstream => panic!("expected an improvised answer"),
    };
    // the improvised address was remembered, and is returned from now on
    assert_eq!(store.lookup(b"\x03foo\x00"), Some(&improvised));
    match resolve_question(&mut store, &question, false) {
        QuestionPlan::Answered(answer) => assert_eq!(answer.rdata, improvised),
        QuestionPlan::ForwardUpstream => panic!("expected the remembered answer"),
    }
}
