use rustgen::broadcast::{BroadcastMessage, GossipProtocol};
use rustgen::echo::EchoMessage;
use rustgen::{Body, InitBody, InitError, InitMsg, Message};
use std::collections::HashSet;
use std::io::Write;

fn init_request() -> Message<InitMsg> {
    Message {
        src: "c1".to_string(),
        dst: "n1".to_string(),
        body: Body {
            payload: InitMsg::Init(InitBody {
                node_id: "n1".to_string(),
                node_ids: vec!["n1".to_string(), "n2".to_string()],
            }),
            id: Some(1),
            in_reply_to: Some(1),
        },
    }
}

fn id_value(id: Option<usize>) -> serde_json::Value {
    match id {
        Some(id) => serde_json::Value::from(id),
        None => serde_json::Value::Null,
    }
}

/// The wire form of a message whose payload fields are given.
fn wire<M>(msg: &Message<M>, payload: serde_json::Map<String, serde_json::Value>) -> serde_json::Value {
    let mut body = payload;
    body.insert("msg_id".to_string(), id_value(msg.body.id));
    body.insert("in_reply_to".to_string(), id_value(msg.body.in_reply_to));
    let mut top = serde_json::Map::new();
    top.insert("src".to_string(), serde_json::Value::from(msg.src.clone()));
    top.insert("dest".to_string(), serde_json::Value::from(msg.dst.clone()));
    top.insert("body".to_string(), serde_json::Value::Object(body));
    serde_json::Value::Object(top)
}

#[test]
fn broadcast_3b_test_echo_node_msg() -> anyhow::Result<()> {
    let ext = BroadcastMessage::Extended(GossipProtocol::Gossip { messages: HashSet::default() });
    let msg = Message {
        src: "c1".to_string(),
        dst: "n1".to_string(),
        body: Body { payload: ext, id: None, in_reply_to: None },
    }
    .into_reply(Some(&mut 1));
    assert_eq!(msg.src, "n1");
    assert_eq!(msg.dst, "c1");
    assert_eq!(msg.body.id, Some(1));
    assert_eq!(msg.body.in_reply_to, None);
    let mut gossip = serde_json::Map::new();
    match &msg.body.payload {
        BroadcastMessage::Extended(GossipProtocol::Gossip { messages }) => {
            assert!(messages.is_empty());
            gossip.insert("messages".to_string(), serde_json::Value::Array(Vec::new()));
        }
        other => panic!("the reply carries {other:?}"),
    }
    let mut payload = serde_json::Map::new();
    payload.insert("type".to_string(), serde_json::Value::from("extended"));
    payload.insert("Gossip".to_string(), serde_json::Value::Object(gossip));
    let stdout = std::io::stdout().lock();
    serde_json::to_writer(stdout, &wire(&msg, payload))?;
    Ok(())
}

#[test]
fn echo_test_echo_node_msg() -> anyhow::Result<()> {
    let echo_ok_msg = EchoMessage::EchoOk { echo: "echo".to_string() };
    let msg = Message {
        src: "c1".to_string(),
        dst: "n1".to_string(),
        body: Body { payload: echo_ok_msg, id: None, in_reply_to: None },
    }
    .into_reply(Some(&mut 1));
    assert_eq!(msg.src, "n1");
    assert_eq!(msg.dst, "c1");
    assert_eq!(msg.body.id, Some(1));
    let mut payload = serde_json::Map::new();
    payload.insert("type".to_string(), serde_json::Value::from("echo_ok"));
    match &msg.body.payload {
        EchoMessage::EchoOk { echo } => {
            assert_eq!(echo, "echo");
            payload.insert("echo".to_string(), serde_json::Value::from(echo.clone()));
        }
        other => panic!("the reply carries {other:?}"),
    }
    let stdout = std::io::stdout().lock();
    serde_json::to_writer(stdout, &wire(&msg, payload))?;
    Ok(())
}

#[test]
fn test_stdout() -> anyhow::Result<()> {
    let mut out = std::io::stdout().lock();
    out.write(b"hello")?;
    out.flush()?;
    out.write(b"zxk")?;
    Ok(())
}

#[test]
fn name() -> anyhow::Result<()> {
    let msg = init_request();
    let mut payload = serde_json::Map::new();
    payload.insert("type".to_string(), serde_json::Value::from("init"));
    match &msg.body.payload {
        InitMsg::Init(init) => {
            payload.insert("node_id".to_string(), serde_json::Value::from(init.node_id.clone()));
            payload.insert("node_ids".to_string(), serde_json::Value::from(init.node_ids.clone()));
        }
        InitMsg::InitOk => panic!("the request is an acknowledgment"),
    }
    let stdout = std::io::stdout().lock();
    serde_json::to_writer(stdout, &wire(&msg, payload))?;
    Ok(())
}

#[test]
fn serde_from_str() -> anyhow::Result<()> {
    let content = r#"{"src":"c1","dest":"n1","body":{"type":"init","node_id":"n1","node_ids":["n1","n2"],"msg_id":1,"in_reply_to":1}}"#;
    let value: serde_json::Value = serde_json::from_str(content)?;
    let body = &value["body"];
    assert_eq!(body["type"].as_str(), Some("init"));
    let node_ids = body["node_ids"]
        .as_array()
        .unwrap()
        .iter()
        .map(|id| id.as_str().unwrap().to_string())
        .collect::<Vec<String>>();
    let msg: Message<InitMsg> = Message {
        src: value["src"].as_str().unwrap().to_string(),
        dst: value["dest"].as_str().unwrap().to_string(),
        body: Body {
            id: body["msg_id"].as_u64().map(|id| id as usize),
            in_reply_to: body["in_reply_to"].as_u64().map(|id| id as usize),
            payload: InitMsg::Init(InitBody {
                node_id: body["node_id"].as_str().unwrap().to_string(),
                node_ids,
            }),
        },
    };
    println!("{msg:?}");
    assert_eq!(msg.src, "c1");
    assert_eq!(msg.dst, "n1");
    assert_eq!(msg.body.id, Some(1));
    assert_eq!(msg.body.in_reply_to, Some(1));
    Ok(())
}

#[test]
fn reply_swaps_the_ends_and_refers_to_the_request() {
    let mut counter: usize = 41;
    let request = Message {
        src: "c7".to_string(),
        dst: "n3".to_string(),
        body: Body { id: Some(9), in_reply_to: None, payload: 17u8 },
    };
    let reply = request.into_reply(Some(&mut counter));
    assert_eq!(reply.src, "n3");
    assert_eq!(reply.dst, "c7");
    assert_eq!(reply.body.in_reply_to, Some(9));
    assert_eq!(reply.body.id, Some(41));
    assert_eq!(reply.body.payload, 17);
    assert_eq!(counter, 42);
}

#[test]
fn reply_ids_rise_by_one() {
    let mut counter: usize = 1;
    for expected in 1..=5usize {
        let request = Message {
            src: "c1".to_string(),
            dst: "n1".to_string(),
            body: Body { id: Some(100 + expected), in_reply_to: None, payload: () },
        };
        let reply = request.into_reply(Some(&mut counter));
        assert_eq!(reply.body.id, Some(expected));
        assert_eq!(reply.body.in_reply_to, Some(100 + expected));
    }
    assert_eq!(counter, 6);
}

#[test]
fn reply_without_a_counter_has_no_id() {
    let request = Message {
        src: "a".to_string(),
        dst: "b".to_string(),
        body: Body { id: None, in_reply_to: Some(3), payload: "x".to_string() },
    };
    let reply = request.into_reply(None);
    assert_eq!(reply.src, "b");
    assert_eq!(reply.dst, "a");
    assert_eq!(reply.body.id, None);
    assert_eq!(reply.body.in_reply_to, None);
    assert_eq!(reply.body.payload, "x");
}

#[test]
fn init_ok_answers_the_handshake() {
    let request = init_request();
    let ack = request.into_init_ok().unwrap();
    assert_eq!(ack.src, "n1");
    assert_eq!(ack.dst, "c1");
    assert_eq!(ack.body.in_reply_to, Some(1));
    assert_eq!(ack.body.id, None);
    assert!(matches!(ack.body.payload, InitMsg::InitOk));
    assert_eq!(request.src, "c1");
}

#[test]
fn init_ok_is_not_a_request() {
    let ack = Message {
        src: "n1".to_string(),
        dst: "c1".to_string(),
        body: Body { id: None, in_reply_to: Some(1), payload: InitMsg::InitOk },
    };
    assert_eq!(ack.into_init_ok().unwrap_err(), InitError::NotARequest);
}
