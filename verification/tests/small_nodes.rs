use rustgen::echo::{EchoMessage, EchoNode};
use rustgen::unique::{decimal_text, Generation, UniqueNode};
use rustgen::{Body, InitBody, Message, Node};

fn init(id: &str) -> InitBody {
    InitBody { node_id: id.to_string(), node_ids: vec![id.to_string()] }
}

fn request<M>(id: usize, payload: M) -> Message<M> {
    Message {
        src: "c1".to_string(),
        dst: "n1".to_string(),
        body: Body { id: Some(id), in_reply_to: None, payload },
    }
}

#[test]
fn echo_returns_the_text() {
    let mut node = EchoNode::init_from(&init("n1")).unwrap();
    assert_eq!(node.msg_id(), 1);
    for (turn, text) in ["hello", "", "zxk"].iter().enumerate() {
        let sent = node.step(request(30 + turn, EchoMessage::Echo { echo: text.to_string() })).unwrap();
        assert_eq!(sent.len(), 1);
        assert_eq!(sent[0].src, "n1");
        assert_eq!(sent[0].dst, "c1");
        assert_eq!(sent[0].body.id, Some(1 + turn));
        assert_eq!(sent[0].body.in_reply_to, Some(30 + turn));
        match &sent[0].body.payload {
            EchoMessage::EchoOk { echo } => assert_eq!(echo, text),
            other => panic!("not echo_ok: {other:?}"),
        }
    }
    assert_eq!(node.msg_id(), 4);
}

#[test]
fn echo_ignores_a_reply() {
    let mut node = EchoNode::init_from(&init("n1")).unwrap();
    let sent = node.step(request(1, EchoMessage::EchoOk { echo: "x".to_string() })).unwrap();
    assert!(sent.is_empty());
    assert_eq!(node.msg_id(), 1);
}

#[test]
fn generate_hands_out_ids_that_differ() {
    let mut node = UniqueNode::init_from(&init("n3")).unwrap();
    assert_eq!(node.id(), "n3");
    let mut seen = Vec::new();
    for turn in 0..12usize {
        let sent = node.step(request(50 + turn, Generation::Generate)).unwrap();
        assert_eq!(sent.len(), 1);
        assert_eq!(sent[0].body.id, Some(1 + turn));
        assert_eq!(sent[0].body.in_reply_to, Some(50 + turn));
        match &sent[0].body.payload {
            Generation::GenerateOk { unique_id } => {
                assert_eq!(unique_id, &format!("n3-{}", 2 + turn));
                assert!(!seen.contains(unique_id));
                seen.push(unique_id.clone());
            }
            other => panic!("not generate_ok: {other:?}"),
        }
    }
    assert_eq!(seen[0], "n3-2");
    assert_eq!(seen[11], "n3-13");
    assert_eq!(node.msg_id(), 13);
}

#[test]
fn generate_ignores_a_reply() {
    let mut node = UniqueNode::init_from(&init("n1")).unwrap();
    let sent =
        node.step(request(1, Generation::GenerateOk { unique_id: "n1-1".to_string() })).unwrap();
    assert!(sent.is_empty());
    assert_eq!(node.msg_id(), 1);
}

#[test]
fn numbers_are_written_in_decimal() {
    assert_eq!(decimal_text(0), "0");
    assert_eq!(decimal_text(7), "7");
    assert_eq!(decimal_text(10), "10");
    assert_eq!(decimal_text(1234567890), "1234567890");
    assert_eq!(decimal_text(usize::MAX), usize::MAX.to_string());
}
