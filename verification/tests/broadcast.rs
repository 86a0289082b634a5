use rustgen::broadcast::{BroadcastMessage, BroadcastNode, GossipProtocol};
use rustgen::{Body, InitBody, Message, Node, NodeError, NodeMap};
use std::collections::HashSet;

fn ids(names: &[&str]) -> Vec<String> {
    names.iter().map(|name| name.to_string()).collect()
}

fn node(id: &str, all: &[&str]) -> BroadcastNode {
    BroadcastNode::init_from(&InitBody { node_id: id.to_string(), node_ids: ids(all) }).unwrap()
}

fn request(src: &str, dst: &str, id: usize, payload: BroadcastMessage) -> Message<BroadcastMessage> {
    Message {
        src: src.to_string(),
        dst: dst.to_string(),
        body: Body { id: Some(id), in_reply_to: None, payload },
    }
}

fn tick() -> Message<BroadcastMessage> {
    Message {
        src: String::new(),
        dst: String::new(),
        body: Body {
            id: None,
            in_reply_to: None,
            payload: BroadcastMessage::Extended(GossipProtocol::GossipAlert),
        },
    }
}

fn topology(entries: &[(&str, &[&str])]) -> BroadcastMessage {
    let mut map = NodeMap::new();
    for (name, neighbors) in entries {
        map.insert(name.to_string(), ids(neighbors));
    }
    BroadcastMessage::Topology { topology: map }
}

fn set(values: &[usize]) -> HashSet<usize> {
    values.iter().copied().collect()
}

fn gossip_values(message: &Message<BroadcastMessage>) -> HashSet<usize> {
    match &message.body.payload {
        BroadcastMessage::Extended(GossipProtocol::Gossip { messages }) => messages.clone(),
        other => panic!("not gossip: {other:?}"),
    }
}

fn read(node: &mut BroadcastNode) -> HashSet<usize> {
    let dst = node.id().clone();
    let sent = node.step(request("c9", &dst, 77, BroadcastMessage::Read)).unwrap();
    assert_eq!(sent.len(), 1);
    match &sent[0].body.payload {
        BroadcastMessage::ReadOk { messages } => messages.clone(),
        other => panic!("not read_ok: {other:?}"),
    }
}

/// Lets every node tick once and hands every message of gossip to the node
/// it is addressed to.
fn round(cluster: &mut Vec<BroadcastNode>) {
    let mut in_flight = Vec::new();
    for node in cluster.iter_mut() {
        in_flight.extend(node.step(tick()).unwrap());
    }
    for message in in_flight {
        let target = cluster.iter_mut().find(|node| *node.id() == message.dst).unwrap();
        assert!(target.step(message).unwrap().is_empty());
    }
}

#[test]
fn a_new_node_knows_nothing_and_gossips_to_all() {
    let n = node("n1", &["n1", "n2", "n3"]);
    assert_eq!(n.id(), "n1");
    assert_eq!(n.msg_id(), 1);
    assert!(n.messages().is_empty());
    assert_eq!(n.neighbors(), &ids(&["n1", "n2", "n3"]));
    assert_eq!(n.redundancy(), 3236);
    for name in ["n1", "n2", "n3"] {
        assert_eq!(n.known(&name.to_string()), Some(&HashSet::new()));
    }
    assert_eq!(n.known(&"n4".to_string()), None);
}

#[test]
fn broadcast_is_stored_and_acknowledged() {
    let mut n = node("n1", &["n1", "n2"]);
    let sent = n.step(request("c1", "n1", 10, BroadcastMessage::Broadcast { message: 5 })).unwrap();
    assert_eq!(sent.len(), 1);
    assert_eq!(sent[0].src, "n1");
    assert_eq!(sent[0].dst, "c1");
    assert_eq!(sent[0].body.id, Some(1));
    assert_eq!(sent[0].body.in_reply_to, Some(10));
    assert!(matches!(sent[0].body.payload, BroadcastMessage::BroadcastOk));
    assert_eq!(n.messages(), &set(&[5]));
    assert_eq!(n.msg_id(), 2);
}

#[test]
fn broadcasting_a_value_again_changes_nothing() {
    let mut n = node("n1", &["n1", "n2"]);
    for turn in 0..4usize {
        let sent =
            n.step(request("c1", "n1", 20 + turn, BroadcastMessage::Broadcast { message: 8 })).unwrap();
        assert_eq!(sent[0].body.id, Some(1 + turn));
        assert_eq!(sent[0].body.in_reply_to, Some(20 + turn));
        assert_eq!(n.messages().len(), 1);
    }
    assert_eq!(n.messages(), &set(&[8]));
    assert_eq!(read(&mut n), set(&[8]));
}

#[test]
fn read_returns_a_copy_of_the_values() {
    let mut n = node("n1", &["n1"]);
    n.step(request("c1", "n1", 1, BroadcastMessage::Broadcast { message: 1 })).unwrap();
    n.step(request("c1", "n1", 2, BroadcastMessage::Broadcast { message: 2 })).unwrap();
    let sent = n.step(request("c2", "n1", 3, BroadcastMessage::Read)).unwrap();
    assert_eq!(sent.len(), 1);
    assert_eq!(sent[0].dst, "c2");
    assert_eq!(sent[0].body.id, Some(3));
    assert_eq!(sent[0].body.in_reply_to, Some(3));
    let snapshot = gossip_free_read(&sent[0]);
    assert_eq!(snapshot, set(&[1, 2]));
    n.step(request("c1", "n1", 4, BroadcastMessage::Broadcast { message: 3 })).unwrap();
    assert_eq!(snapshot, set(&[1, 2]));
    assert_eq!(n.messages(), &set(&[1, 2, 3]));
}

fn gossip_free_read(message: &Message<BroadcastMessage>) -> HashSet<usize> {
    match &message.body.payload {
        BroadcastMessage::ReadOk { messages } => messages.clone(),
        other => panic!("not read_ok: {other:?}"),
    }
}

#[test]
fn topology_replaces_the_neighbors() {
    let mut n = node("n1", &["n1", "n2", "n3"]);
    let sent = n
        .step(request(
            "c1",
            "n1",
            4,
            topology(&[("n1", &["n3"]), ("n2", &["n1"]), ("n3", &["n1", "n2"])]),
        ))
        .unwrap();
    assert_eq!(sent.len(), 1);
    assert_eq!(sent[0].src, "n1");
    assert_eq!(sent[0].dst, "c1");
    assert_eq!(sent[0].body.id, Some(1));
    assert_eq!(sent[0].body.in_reply_to, Some(4));
    assert!(matches!(sent[0].body.payload, BroadcastMessage::TopologyOk));
    assert_eq!(n.neighbors(), &ids(&["n3"]));
    let sent = n.step(request("c1", "n1", 5, topology(&[("n1", &[])]))).unwrap();
    assert_eq!(sent[0].body.id, Some(2));
    assert!(n.neighbors().is_empty());
}

#[test]
fn topology_without_this_node_is_refused() {
    let mut n = node("n1", &["n1", "n2", "n3"]);
    let refused = n.step(request("c1", "n1", 4, topology(&[("n2", &["n1"]), ("n3", &["n1"])])));
    assert_eq!(refused.unwrap_err(), NodeError::MissingTopology);
    assert_eq!(n.neighbors(), &ids(&["n1", "n2", "n3"]));
    assert_eq!(n.msg_id(), 1);
    let refused = n.step(request("c1", "n1", 5, topology(&[])));
    assert_eq!(refused.unwrap_err(), NodeError::MissingTopology);
}

#[test]
fn replies_that_come_in_are_ignored() {
    let mut n = node("n1", &["n1", "n2"]);
    n.step(request("c1", "n1", 1, BroadcastMessage::Broadcast { message: 4 })).unwrap();
    for payload in [
        BroadcastMessage::BroadcastOk,
        BroadcastMessage::TopologyOk,
        BroadcastMessage::ReadOk { messages: set(&[1, 2, 3]) },
    ] {
        assert!(n.step(request("n2", "n1", 9, payload)).unwrap().is_empty());
    }
    assert_eq!(n.messages(), &set(&[4]));
    assert_eq!(n.msg_id(), 2);
}

#[test]
fn gossip_is_merged_into_values_and_record() {
    let mut n = node("n1", &["n1", "n2", "n3"]);
    n.step(request("c1", "n1", 1, BroadcastMessage::Broadcast { message: 1 })).unwrap();
    let gossip = Message {
        src: "n2".to_string(),
        dst: "n1".to_string(),
        body: Body {
            id: None,
            in_reply_to: None,
            payload: BroadcastMessage::Extended(GossipProtocol::Gossip { messages: set(&[1, 7, 9]) }),
        },
    };
    assert!(n.step(gossip).unwrap().is_empty());
    assert_eq!(n.messages(), &set(&[1, 7, 9]));
    assert_eq!(n.known(&"n2".to_string()), Some(&set(&[1, 7, 9])));
    assert_eq!(n.known(&"n3".to_string()), Some(&set(&[])));
    assert_eq!(n.msg_id(), 2);
}

#[test]
fn gossip_from_a_stranger_is_refused() {
    let mut n = node("n1", &["n1", "n2"]);
    let gossip = Message {
        src: "n9".to_string(),
        dst: "n1".to_string(),
        body: Body {
            id: None,
            in_reply_to: None,
            payload: BroadcastMessage::Extended(GossipProtocol::Gossip { messages: set(&[3]) }),
        },
    };
    assert_eq!(n.step(gossip).unwrap_err(), NodeError::UnknownSender);
    assert!(n.messages().is_empty());
    assert_eq!(n.known(&"n9".to_string()), None);
}

#[test]
fn tick_to_a_stranger_is_refused() {
    let mut n = node("n1", &["n1", "n2"]);
    n.step(request("c1", "n1", 1, topology(&[("n1", &["n2", "n9"])]))).unwrap();
    assert_eq!(n.step(tick()).unwrap_err(), NodeError::UnknownNeighbor);
}

#[test]
fn tick_sends_the_delta_to_every_neighbor() {
    let mut n = node("n1", &["n1", "n2", "n3"]);
    n.step(request("c1", "n1", 1, topology(&[("n1", &["n2", "n3"])]))).unwrap();
    for value in [5, 6] {
        n.step(request("c1", "n1", 2, BroadcastMessage::Broadcast { message: value })).unwrap();
    }
    let sent = n.step(tick()).unwrap();
    assert_eq!(sent.len(), 2);
    for (message, neighbor) in sent.iter().zip(["n2", "n3"]) {
        assert_eq!(message.src, "n1");
        assert_eq!(message.dst, neighbor);
        assert_eq!(message.body.id, None);
        assert_eq!(message.body.in_reply_to, None);
        assert_eq!(gossip_values(message), set(&[5, 6]));
    }
    assert_eq!(n.msg_id(), 4);
    assert_eq!(n.messages(), &set(&[5, 6]));
}

#[test]
fn tick_without_neighbors_sends_nothing() {
    let mut n = node("n1", &["n1", "n2"]);
    n.step(request("c1", "n1", 1, topology(&[("n1", &[])]))).unwrap();
    n.step(request("c1", "n1", 2, BroadcastMessage::Broadcast { message: 5 })).unwrap();
    assert!(n.step(tick()).unwrap().is_empty());
}

/// A node with the values 0..20 whose neighbor n2 is known to have 0..12.
fn node_with_overlap(redundancy: Option<u32>) -> BroadcastNode {
    let mut n = node("n1", &["n1", "n2"]);
    if let Some(parts) = redundancy {
        n = n.with_redundancy(parts);
    }
    n.step(request("c1", "n1", 1, topology(&[("n1", &["n2"])]))).unwrap();
    let gossip = Message {
        src: "n2".to_string(),
        dst: "n1".to_string(),
        body: Body {
            id: None,
            in_reply_to: None,
            payload: BroadcastMessage::Extended(GossipProtocol::Gossip {
                messages: (0..12).collect(),
            }),
        },
    };
    n.step(gossip).unwrap();
    for value in 12..20 {
        n.step(request("c1", "n1", 2, BroadcastMessage::Broadcast { message: value })).unwrap();
    }
    n
}

#[test]
fn gossip_holds_the_delta_and_only_known_values_besides() {
    let mut n = node_with_overlap(None);
    let delta: HashSet<usize> = (12..20).collect();
    for _ in 0..50 {
        let sent = n.step(tick()).unwrap();
        assert_eq!(sent.len(), 1);
        let payload = gossip_values(&sent[0]);
        assert!(delta.is_subset(&payload));
        assert!(payload.is_subset(n.messages()));
        let repeated: HashSet<usize> = payload.difference(&delta).copied().collect();
        assert!(repeated.iter().all(|value| *value < 12));
    }
}

#[test]
fn gossip_without_redundancy_is_the_delta() {
    let mut n = node_with_overlap(Some(0));
    assert_eq!(n.redundancy(), 0);
    for _ in 0..20 {
        let sent = n.step(tick()).unwrap();
        assert_eq!(gossip_values(&sent[0]), (12..20).collect::<HashSet<usize>>());
    }
}

#[test]
fn gossip_with_a_small_overlap_is_the_delta() {
    let mut n = node("n1", &["n1", "n2"]);
    n.step(request("c1", "n1", 1, topology(&[("n1", &["n2"])]))).unwrap();
    let gossip = Message {
        src: "n2".to_string(),
        dst: "n1".to_string(),
        body: Body {
            id: None,
            in_reply_to: None,
            payload: BroadcastMessage::Extended(GossipProtocol::Gossip { messages: set(&[1, 2, 3]) }),
        },
    };
    n.step(gossip).unwrap();
    n.step(request("c1", "n1", 2, BroadcastMessage::Broadcast { message: 4 })).unwrap();
    for _ in 0..20 {
        let sent = n.step(tick()).unwrap();
        assert_eq!(gossip_values(&sent[0]), set(&[4]));
    }
}

#[test]
fn gossip_with_nothing_new_is_empty() {
    let mut n = node("n1", &["n1", "n2"]);
    n.step(request("c1", "n1", 1, topology(&[("n1", &["n2"])]))).unwrap();
    let gossip = Message {
        src: "n2".to_string(),
        dst: "n1".to_string(),
        body: Body {
            id: None,
            in_reply_to: None,
            payload: BroadcastMessage::Extended(GossipProtocol::Gossip {
                messages: (0..100).collect(),
            }),
        },
    };
    n.step(gossip).unwrap();
    for _ in 0..20 {
        let sent = n.step(tick()).unwrap();
        assert!(gossip_values(&sent[0]).is_empty());
    }
}

#[test]
fn gossip_with_full_redundancy_repeats_everything() {
    for parts in [10000u32, 50000] {
        let mut n = node("n1", &["n1", "n2"]).with_redundancy(parts);
        n.step(request("c1", "n1", 1, topology(&[("n1", &["n2"])]))).unwrap();
        let gossip = Message {
            src: "n2".to_string(),
            dst: "n1".to_string(),
            body: Body {
                id: None,
                in_reply_to: None,
                payload: BroadcastMessage::Extended(GossipProtocol::Gossip {
                    messages: (0..5).collect(),
                }),
            },
        };
        n.step(gossip).unwrap();
        for value in 5..12 {
            n.step(request("c1", "n1", 2, BroadcastMessage::Broadcast { message: value })).unwrap();
        }
        for _ in 0..20 {
            let sent = n.step(tick()).unwrap();
            assert_eq!(gossip_values(&sent[0]), (0..12).collect::<HashSet<usize>>());
        }
    }
}

#[test]
fn three_nodes_see_a_broadcast_after_two_ticks() {
    let all = ["n1", "n2", "n3"];
    let mut cluster: Vec<BroadcastNode> = all.iter().map(|id| node(id, &all)).collect();
    for n in cluster.iter_mut() {
        let dst = n.id().clone();
        let sent = n
            .step(request(
                "c1",
                &dst,
                1,
                topology(&[("n1", &["n2", "n3"]), ("n2", &["n1"]), ("n3", &["n1"])]),
            ))
            .unwrap();
        assert!(matches!(sent[0].body.payload, BroadcastMessage::TopologyOk));
    }
    cluster[0].step(request("c1", "n1", 2, BroadcastMessage::Broadcast { message: 5 })).unwrap();
    round(&mut cluster);
    round(&mut cluster);
    assert_eq!(read(&mut cluster[1]), set(&[5]));
    assert_eq!(read(&mut cluster[2]), set(&[5]));
    assert_eq!(read(&mut cluster[0]), set(&[5]));
}

#[test]
fn a_line_of_nodes_converges_within_its_diameter() {
    let all = ["n1", "n2", "n3", "n4", "n5", "n6"];
    let mut cluster: Vec<BroadcastNode> = all.iter().map(|id| node(id, &all)).collect();
    let lines: [(&str, &[&str]); 6] = [
        ("n1", &["n2"]),
        ("n2", &["n1", "n3"]),
        ("n3", &["n2", "n4"]),
        ("n4", &["n3", "n5"]),
        ("n5", &["n4", "n6"]),
        ("n6", &["n5"]),
    ];
    for n in cluster.iter_mut() {
        let dst = n.id().clone();
        n.step(request("c1", &dst, 1, topology(&lines))).unwrap();
    }
    for (at, value) in [(0usize, 10usize), (0, 11), (3, 40), (5, 60), (5, 10)] {
        let dst = cluster[at].id().clone();
        cluster[at].step(request("c1", &dst, 2, BroadcastMessage::Broadcast { message: value })).unwrap();
    }
    for _ in 0..5 {
        round(&mut cluster);
    }
    for n in cluster.iter_mut() {
        assert_eq!(read(n), set(&[10, 11, 40, 60]));
    }
    for _ in 0..3 {
        round(&mut cluster);
    }
    for n in cluster.iter_mut() {
        assert_eq!(read(n), set(&[10, 11, 40, 60]));
    }
}

#[test]
fn payloads_can_be_cloned() {
    let payload = BroadcastMessage::ReadOk { messages: set(&[1, 2]) };
    match payload.clone() {
        BroadcastMessage::ReadOk { messages } => assert_eq!(messages, set(&[1, 2])),
        other => panic!("not read_ok: {other:?}"),
    }
    let payload = BroadcastMessage::Extended(GossipProtocol::Gossip { messages: set(&[3]) });
    assert_eq!(
        gossip_values(&Message {
            src: String::new(),
            dst: String::new(),
            body: Body { id: None, in_reply_to: None, payload: payload.clone() },
        }),
        set(&[3])
    );
    match topology(&[("n1", &["n2"])]).clone() {
        BroadcastMessage::Topology { topology } => {
            assert_eq!(topology.get(&"n1".to_string()), Some(&ids(&["n2"])))
        }
        other => panic!("not a topology: {other:?}"),
    }
}
