use cq_message::cq_code::{CQCode, CQCodeType};
use cq_message::cq_codes::{Face, FaceInner, Voice, VoiceInner};
use cq_message::message_chain::{InvalidState, MessageChain, MessageChainBuilder, Segment};

fn face(id: &str) -> Segment {
    Segment::Face(Face { typ: CQCodeType::Face, data: FaceInner { id: id.to_string() } })
}

fn voice() -> Segment {
    Segment::Voice(Voice {
        typ: CQCodeType::Record,
        data: VoiceInner {
            file: Some("v.amr".to_string()),
            magic: None,
            url: None,
            cache: None,
            proxy: None,
            timeout: None,
        },
    })
}

#[test]
fn filter_keeps_order() {
    let a = face("1");
    let b = voice();
    let c = face("2");
    let mut chain = MessageChain::new();
    chain.add(a.clone()).unwrap();
    chain.add(b.clone()).unwrap();
    chain.add(c.clone()).unwrap();

    let faces = chain.filter_instance(CQCodeType::Face);
    assert_eq!(faces.len(), 2);
    assert_eq!(faces[0], &a);
    assert_eq!(faces[1], &c);

    let records = chain.filter_instance(CQCodeType::Record);
    assert_eq!(records.len(), 1);
    assert_eq!(records[0], &b);

    let none = chain.filter_instance(CQCodeType::Xml);
    assert_eq!(none.len(), 0);
}

#[test]
fn filter_works_in_both_states() {
    let mut chain = MessageChain::new();
    chain.add(face("7")).unwrap();
    assert_eq!(chain.filter_instance(CQCodeType::Face).len(), 1);
    chain.finalize();
    assert_eq!(chain.filter_instance(CQCodeType::Face).len(), 1);
}

#[test]
fn add_after_finalize_fails() {
    let mut chain = MessageChain::new();
    chain.add(face("1")).unwrap();
    chain.finalize();
    assert_eq!(chain.add(face("2")), Err(InvalidState));
    assert_eq!(chain.filter_instance(CQCodeType::Face).len(), 1);
}

#[test]
fn raw_message_before_finalize_fails() {
    let mut chain = MessageChain::new();
    chain.add(face("1")).unwrap();
    assert_eq!(chain.raw_message(), Err(InvalidState));
}

#[test]
fn raw_message_concatenates_in_order() {
    let a = face("1");
    let b = voice();
    let ta = a.encode();
    let tb = b.encode();
    let mut chain = MessageChain::new();
    chain.add(a).unwrap();
    chain.add(b).unwrap();
    chain.finalize();
    let text = chain.raw_message().unwrap();
    assert_eq!(text, format!("{}{}", ta, tb));
    assert_eq!(
        text,
        r#"{"type":"face","data":{"id":"1"}}{"type":"record","data":{"file":"v.amr"}}"#
    );
}

#[test]
fn empty_finalized_chain_renders_empty_text() {
    let mut chain = MessageChain::new();
    chain.finalize();
    assert_eq!(chain.raw_message().unwrap(), "");
}

#[test]
fn segment_kind_and_encode_delegate() {
    let s = face("9");
    assert_eq!(s.kind(), CQCodeType::Face);
    assert_eq!(s.encode(), r#"{"type":"face","data":{"id":"9"}}"#);
}

#[test]
fn builder_trait_drives_the_chain() {
    let mut chain = MessageChain::new();
    MessageChainBuilder::add(&mut chain, face("5")).unwrap();
    assert_eq!(MessageChainBuilder::raw_message(&chain), Err(InvalidState));
    chain.finalize();
    assert_eq!(
        MessageChainBuilder::raw_message(&chain).unwrap(),
        r#"{"type":"face","data":{"id":"5"}}"#
    );
    assert_eq!(MessageChainBuilder::filter_instance(&chain, CQCodeType::Face).len(), 1);
}
