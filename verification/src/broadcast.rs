//! The broadcast node: it collects the values that clients broadcast and
//! spreads them to its neighbors by gossip.

use vstd::prelude::*;
use std::collections::HashSet;
use vstd::std_specs::hash::group_hash_axioms;
use crate::gossip::{gossip_payload, overlap, valid_payload, DEFAULT_REDUNDANCY};
use crate::message::{Body, InitBody, Message};
use crate::node::{copy_names, names, Node, NodeError};
use crate::node_map::NodeMap;
use crate::values::{absorb, copy_values};

verus! {

broadcast use group_hash_axioms;

/// The payloads of the broadcast workload.
#[derive(Debug)]
pub enum BroadcastMessage {
    /// A client hands the node a value.
    Broadcast { message: usize },
    /// The answer to `Broadcast`.
    BroadcastOk,
    /// A client asks for the values that the node has seen.
    Read,
    /// The answer to `Read`: the values.
    ReadOk { messages: HashSet<usize> },
    /// For every node of the cluster, the nodes that it is to gossip to.
    Topology { topology: NodeMap<Vec<String>> },
    /// The answer to `Topology`.
    TopologyOk,
    /// What only nodes send each other.
    Extended(GossipProtocol),
}

/// The payloads that only nodes exchange.
#[derive(Debug)]
pub enum GossipProtocol {
    /// The periodic tick: time to gossip.
    GossipAlert,
    /// Values that the sender holds.
    Gossip { messages: HashSet<usize> },
}

impl Clone for GossipProtocol {
    /// The same payload, with the same values.
    fn clone(&self) -> (copy: Self)
        ensures
            match *self {
                GossipProtocol::GossipAlert => copy is GossipAlert,
                GossipProtocol::Gossip { messages } => copy matches GossipProtocol::Gossip {
                    messages: copied,
                } && copied@ == messages@,
            },
    {
        match self {
            GossipProtocol::GossipAlert => GossipProtocol::GossipAlert,
            GossipProtocol::Gossip { messages } => GossipProtocol::Gossip {
                messages: copy_values(messages),
            },
        }
    }
}

impl Clone for BroadcastMessage {
    /// The same payload: the same variant with the same value or values, and
    /// of a topology every node's entry cloned.
    fn clone(&self) -> (copy: Self)
        ensures
            match *self {
                BroadcastMessage::Broadcast { message } => copy matches BroadcastMessage::Broadcast {
                    message: copied,
                } && copied == message,
                BroadcastMessage::BroadcastOk => copy is BroadcastOk,
                BroadcastMessage::Read => copy is Read,
                BroadcastMessage::ReadOk { messages } => copy matches BroadcastMessage::ReadOk {
                    messages: copied,
                } && copied@ == messages@,
                BroadcastMessage::Topology { topology } => copy matches BroadcastMessage::Topology {
                    topology: copied,
                } && copied@.dom() == topology@.dom() && forall|node: Seq<char>| #[trigger]
                    topology@.contains_key(node) ==> cloned(topology@[node], copied@[node]),
                BroadcastMessage::TopologyOk => copy is TopologyOk,
                BroadcastMessage::Extended(GossipProtocol::GossipAlert) => copy
                    matches BroadcastMessage::Extended(GossipProtocol::GossipAlert),
                BroadcastMessage::Extended(GossipProtocol::Gossip { messages }) => copy
                    matches BroadcastMessage::Extended(GossipProtocol::Gossip { messages: copied })
                    && copied@ == messages@,
            },
    {
        match self {
            BroadcastMessage::Broadcast { message } => BroadcastMessage::Broadcast {
                message: *message,
            },
            BroadcastMessage::BroadcastOk => BroadcastMessage::BroadcastOk,
            BroadcastMessage::Read => BroadcastMessage::Read,
            BroadcastMessage::ReadOk { messages } => BroadcastMessage::ReadOk {
                messages: copy_values(messages),
            },
            BroadcastMessage::Topology { topology } => BroadcastMessage::Topology {
                topology: topology.clone(),
            },
            BroadcastMessage::TopologyOk => BroadcastMessage::TopologyOk,
            BroadcastMessage::Extended(external) => BroadcastMessage::Extended(external.clone()),
        }
    }
}

/// The message `request` with `external` as its payload.
pub open spec fn carrying(
    request: Message<BroadcastMessage>,
    external: GossipProtocol,
) -> Message<BroadcastMessage> {
    Message {
        src: request.src,
        dst: request.dst,
        body: Body {
            id: request.body.id,
            in_reply_to: request.body.in_reply_to,
            payload: BroadcastMessage::Extended(external),
        },
    }
}

/// The records of a node as sets of values.
pub open spec fn known_sets(records: Map<Seq<char>, HashSet<usize>>) -> Map<
    Seq<char>,
    Set<usize>,
> {
    records.map_values(|values: HashSet<usize>| values@)
}

/// A broadcast node.
#[derive(Debug)]
pub struct BroadcastNode {
    id: String,
    msg_id: usize,
    messages: HashSet<usize>,
    neighbors: Vec<String>,
    known: NodeMap<HashSet<usize>>,
    redundancy: u32,
}

/// What a broadcast node is, as plain values.
pub struct BroadcastState {
    /// The node's own id.
    pub id: Seq<char>,
    /// The id that the next reply will carry.
    pub next_id: nat,
    /// The values that the node has seen.
    pub messages: Set<usize>,
    /// The nodes that it gossips to, in order.
    pub neighbors: Seq<Seq<char>>,
    /// For each node on record, the values that it is known to have.
    pub known: Map<Seq<char>, Set<usize>>,
    /// The redundancy ratio, in parts of ten thousand.
    pub redundancy: nat,
}

impl BroadcastState {
    /// The state after a `broadcast` of `value` was answered.
    pub open spec fn after_broadcast(self, value: usize) -> Self {
        BroadcastState {
            messages: self.messages.insert(value),
            next_id: self.next_id + 1,
            ..self
        }
    }

    /// The state after a `read` was answered.
    pub open spec fn after_read(self) -> Self {
        BroadcastState { next_id: self.next_id + 1, ..self }
    }

    /// The state after a `topology` that gives this node `neighbors` was
    /// answered.
    pub open spec fn after_topology(self, neighbors: Seq<Seq<char>>) -> Self {
        BroadcastState { neighbors, next_id: self.next_id + 1, ..self }
    }

    /// The state after gossip with `values` came in from `sender`.
    pub open spec fn after_gossip(self, sender: Seq<char>, values: Set<usize>) -> Self {
        BroadcastState {
            messages: self.messages.union(values),
            known: self.known.insert(sender, self.known[sender].union(values)),
            ..self
        }
    }

    /// Every neighbor is on record.
    pub open spec fn knows_neighbors(self) -> bool {
        forall|i: int|
            0 <= i < self.neighbors.len() ==> self.known.contains_key(#[trigger] self.neighbors[i])
    }

    /// What this node and its `i`-th neighbor are both known to hold.
    pub open spec fn overlap_with(self, i: int) -> Set<usize> {
        overlap(self.messages, self.known[self.neighbors[i]])
    }

    /// The overlap with every neighbor is small enough to sample from.
    pub open spec fn can_sample(self) -> bool {
        forall|i: int|
            0 <= i < self.neighbors.len() ==> (#[trigger] self.overlap_with(i)).len() <= u32::MAX
    }

    /// `message` is gossip from this node to its `i`-th neighbor, with a
    /// payload that this node may send to it.
    pub open spec fn gossips(self, message: Message<BroadcastMessage>, i: int) -> bool {
        &&& message.src@ == self.id
        &&& message.dst@ == self.neighbors[i]
        &&& message.body.id is None
        &&& message.body.in_reply_to is None
        &&& message.body.payload matches BroadcastMessage::Extended(
            GossipProtocol::Gossip { messages },
        )
        &&& valid_payload(
            self.messages,
            self.known[self.neighbors[i]],
            self.redundancy,
            messages@,
        )
    }

    /// Why the node refuses `request`, if it does.
    pub open spec fn refusal(self, request: Message<BroadcastMessage>) -> Option<NodeError> {
        match request.body.payload {
            BroadcastMessage::Broadcast { .. } | BroadcastMessage::Read => {
                if self.next_id >= usize::MAX {
                    Some(NodeError::IdsExhausted)
                } else {
                    None
                }
            },
            BroadcastMessage::Topology { topology } => {
                if !topology@.contains_key(self.id) {
                    Some(NodeError::MissingTopology)
                } else if self.next_id >= usize::MAX {
                    Some(NodeError::IdsExhausted)
                } else {
                    None
                }
            },
            BroadcastMessage::BroadcastOk
            | BroadcastMessage::ReadOk { .. }
            | BroadcastMessage::TopologyOk => None,
            BroadcastMessage::Extended(GossipProtocol::GossipAlert) => {
                if !self.knows_neighbors() {
                    Some(NodeError::UnknownNeighbor)
                } else if !self.can_sample() {
                    Some(NodeError::TooManyValues)
                } else {
                    None
                }
            },
            BroadcastMessage::Extended(GossipProtocol::Gossip { .. }) => {
                if !self.known.contains_key(request.src@) {
                    Some(NodeError::UnknownSender)
                } else {
                    None
                }
            },
        }
    }

    /// `sent` is one message, and it answers `request` under the id that
    /// was next.
    pub open spec fn replied(
        self,
        request: Message<BroadcastMessage>,
        sent: Seq<Message<BroadcastMessage>>,
    ) -> bool {
        &&& sent.len() == 1
        &&& sent[0].answers(request)
        &&& sent[0].body.id == Some(self.next_id as usize)
    }

    /// The node in state `self` accepts `request`, goes to `next` and sends
    /// `sent`.
    pub open spec fn accepts(
        self,
        request: Message<BroadcastMessage>,
        next: Self,
        sent: Seq<Message<BroadcastMessage>>,
    ) -> bool {
        match request.body.payload {
            BroadcastMessage::Broadcast { message } => {
                &&& next == self.after_broadcast(message)
                &&& self.replied(request, sent)
                &&& sent[0].body.payload is BroadcastOk
            },
            BroadcastMessage::Read => {
                &&& next == self.after_read()
                &&& self.replied(request, sent)
                &&& sent[0].body.payload matches BroadcastMessage::ReadOk { messages }
                &&& messages@ == self.messages
            },
            BroadcastMessage::Topology { topology } => {
                &&& next == self.after_topology(names(topology@[self.id]@))
                &&& self.replied(request, sent)
                &&& sent[0].body.payload is TopologyOk
            },
            BroadcastMessage::BroadcastOk
            | BroadcastMessage::ReadOk { .. }
            | BroadcastMessage::TopologyOk => {
                &&& next == self
                &&& sent.len() == 0
            },
            BroadcastMessage::Extended(GossipProtocol::GossipAlert) => {
                &&& next == self
                &&& sent.len() == self.neighbors.len()
                &&& forall|i: int| 0 <= i < sent.len() ==> self.gossips(#[trigger] sent[i], i)
            },
            BroadcastMessage::Extended(GossipProtocol::Gossip { messages }) => {
                &&& next == self.after_gossip(request.src@, messages@)
                &&& sent.len() == 0
            },
        }
    }
}

/// The state after `count` broadcasts of the same value were answered.
pub open spec fn after_broadcasts(state: BroadcastState, value: usize, count: nat) -> BroadcastState
    decreases count,
{
    if count == 0 {
        state
    } else {
        after_broadcasts(state, value, (count - 1) as nat).after_broadcast(value)
    }
}

/// Broadcasting a value once more changes nothing in the node's values:
/// after one broadcast or many the node holds what it held before and the
/// value, once.
pub proof fn lemma_broadcast_idempotent(state: BroadcastState, value: usize, count: nat)
    requires
        count >= 1,
    ensures
        after_broadcasts(state, value, count).messages == state.messages.insert(value),
        after_broadcasts(state, value, count).messages == state.after_broadcast(value).messages,
        state.messages.finite() ==> after_broadcasts(state, value, count).messages.len() == (
        if state.messages.contains(value) {
            state.messages.len()
        } else {
            state.messages.len() + 1
        }),
        after_broadcasts(state, value, count).next_id == state.next_id + count,
    decreases count,
{
    if count == 1 {
        assert(after_broadcasts(state, value, 0) == state);
    } else {
        lemma_broadcast_idempotent(state, value, (count - 1) as nat);
        assert(state.messages.insert(value).insert(value) =~= state.messages.insert(value));
    }
    if state.messages.finite() && state.messages.contains(value) {
        assert(state.messages.insert(value) =~= state.messages);
    }
}

/// Whatever event a node accepts, it stays the node it was and loses no
/// value, no record and no value of a record. A message that it sends with
/// an id carries the id that was next, and the counter has then moved on by
/// one; when it sends no message with an id, the counter has not moved.
pub proof fn lemma_step_grows(
    state: BroadcastState,
    request: Message<BroadcastMessage>,
    next: BroadcastState,
    sent: Seq<Message<BroadcastMessage>>,
)
    requires
        state.refusal(request) is None,
        state.accepts(request, next, sent),
    ensures
        next.id == state.id,
        next.redundancy == state.redundancy,
        forall|i: int|
            0 <= i < sent.len() && (#[trigger] sent[i]).body.id is Some ==> sent[i].body.id
                == Some(state.next_id as usize) && next.next_id == state.next_id + 1,
        (forall|i: int| 0 <= i < sent.len() ==> (#[trigger] sent[i]).body.id is None)
            ==> next.next_id == state.next_id,
        state.messages.subset_of(next.messages),
        forall|node: Seq<char>| #[trigger]
            state.known.contains_key(node) ==> next.known.contains_key(node)
                && state.known[node].subset_of(next.known[node]),
{
    if request.body.payload is Extended && request.body.payload->0 is GossipAlert {
        assert forall|i: int| 0 <= i < sent.len() implies (#[trigger] sent[i]).body.id is None by {
            assert(state.gossips(sent[i], i));
        }
    }
}

impl View for BroadcastNode {
    type V = BroadcastState;

    closed spec fn view(&self) -> BroadcastState {
        BroadcastState {
            id: self.id@,
            next_id: self.msg_id as nat,
            messages: self.messages@,
            neighbors: names(self.neighbors@),
            known: known_sets(self.known@),
            redundancy: self.redundancy as nat,
        }
    }
}

impl BroadcastNode {
    /// The node's own id.
    pub fn id(&self) -> (id: &String)
        ensures
            id@ == self@.id,
    {
        &self.id
    }

    /// The id that the next reply will carry.
    pub fn msg_id(&self) -> (next: usize)
        ensures
            next == self@.next_id,
    {
        self.msg_id
    }

    /// The values that the node has seen.
    pub fn messages(&self) -> (values: &HashSet<usize>)
        ensures
            values@ == self@.messages,
    {
        &self.messages
    }

    /// The nodes that the node gossips to.
    pub fn neighbors(&self) -> (list: &Vec<String>)
        ensures
            names(list@) == self@.neighbors,
    {
        &self.neighbors
    }

    /// The values that `node` is known to have, if it is on record.
    pub fn known(&self, node: &String) -> (values: Option<&HashSet<usize>>)
        ensures
            match values {
                Some(v) => self@.known.contains_key(node@) && v@ == self@.known[node@],
                None => !self@.known.contains_key(node@),
            },
    {
        self.known.get(node)
    }

    /// The redundancy ratio, in parts of ten thousand.
    pub fn redundancy(&self) -> (parts: u32)
        ensures
            parts == self@.redundancy,
    {
        self.redundancy
    }

    /// The same node with another redundancy ratio, given in parts of ten
    /// thousand.
    pub fn with_redundancy(self, parts: u32) -> (node: Self)
        ensures
            node@ == (BroadcastState { redundancy: parts as nat, ..self@ }),
    {
        BroadcastNode {
            id: self.id,
            msg_id: self.msg_id,
            messages: self.messages,
            neighbors: self.neighbors,
            known: self.known,
            redundancy: parts,
        }
    }

    /// Answers `request` with `payload` under the next id.
    fn reply_with(
        &mut self,
        request: Message<BroadcastMessage>,
        payload: BroadcastMessage,
    ) -> (reply: Message<BroadcastMessage>)
        requires
            old(self).msg_id < usize::MAX,
        ensures
            reply.answers(request),
            reply.body.id == Some(old(self).msg_id),
            reply.body.payload == payload,
            final(self).msg_id == old(self).msg_id + 1,
            final(self).id == old(self).id,
            final(self).messages == old(self).messages,
            final(self).neighbors == old(self).neighbors,
            final(self).known == old(self).known,
            final(self).redundancy == old(self).redundancy,
    {
        let mut reply = request.into_reply(Some(&mut self.msg_id));
        reply.body.payload = payload;
        reply
    }

    /// Takes what only nodes send each other, as the payload of `req`: on the
    /// periodic tick it gossips to every neighbor, and gossip that comes in
    /// it merges into its own values and into what the sender is known to
    /// have.
    pub fn handle_external(
        &mut self,
        req: &Message<BroadcastMessage>,
        external: &GossipProtocol,
    ) -> (sent: Result<Vec<Message<BroadcastMessage>>, NodeError>)
        ensures
            match sent {
                Ok(messages) => old(self)@.refusal(carrying(*req, *external)) is None && old(
                    self,
                )@.accepts(carrying(*req, *external), final(self)@, messages@),
                Err(error) => old(self)@.refusal(carrying(*req, *external)) == Some(error)
                    && *final(self) == *old(self),
            },
    {
        match external {
            GossipProtocol::GossipAlert => self.gossip_round(),
            GossipProtocol::Gossip { messages } => {
                let record = self.known.remove(&req.src);
                match record {
                    None => Err(NodeError::UnknownSender),
                    Some(mut values) => {
                        absorb(&mut values, messages);
                        self.known.insert(req.src.clone(), values);
                        absorb(&mut self.messages, messages);
                        proof {
                            let before = old(self)@;
                            let sender = req.src@;
                            assert(self@.known =~= before.known.insert(
                                sender,
                                before.known[sender].union(messages@),
                            ));
                            assert(self@ == before.after_gossip(sender, messages@));
                        }
                        Ok(Vec::new())
                    },
                }
            },
        }
    }

    /// One message of gossip for every neighbor, in the neighbors' order.
    fn gossip_round(&self) -> (sent: Result<Vec<Message<BroadcastMessage>>, NodeError>)
        ensures
            match sent {
                Ok(messages) => {
                    &&& self@.knows_neighbors()
                    &&& self@.can_sample()
                    &&& messages@.len() == self@.neighbors.len()
                    &&& forall|i: int|
                        0 <= i < messages@.len() ==> self@.gossips(#[trigger] messages@[i], i)
                },
                Err(error) => if self@.knows_neighbors() {
                    !self@.can_sample() && error == NodeError::TooManyValues
                } else {
                    error == NodeError::UnknownNeighbor
                },
            },
    {
        let mut checked: usize = 0;
        while checked < self.neighbors.len()
            invariant
                checked <= self.neighbors@.len(),
                forall|i: int|
                    0 <= i < checked ==> self@.known.contains_key(#[trigger] self@.neighbors[i]),
            decreases self.neighbors@.len() - checked,
        {
            if !self.known.contains_key(&self.neighbors[checked]) {
                assert(!self@.known.contains_key(self@.neighbors[checked as int]));
                return Err(NodeError::UnknownNeighbor);
            }
            checked += 1;
        }
        let mut rng = rand::thread_rng();
        let mut sent: Vec<Message<BroadcastMessage>> = Vec::new();
        let mut i: usize = 0;
        while i < self.neighbors.len()
            invariant
                i <= self.neighbors@.len(),
                self@.knows_neighbors(),
                sent@.len() == i,
                forall|k: int| 0 <= k < i ==> self@.gossips(#[trigger] sent@[k], k),
                forall|k: int| 0 <= k < i ==> (#[trigger] self@.overlap_with(k)).len() <= u32::MAX,
            decreases self.neighbors@.len() - i,
        {
            let neighbor = &self.neighbors[i];
            assert(self@.known.contains_key(self@.neighbors[i as int]));
            let known = match self.known.get(neighbor) {
                Some(values) => values,
                None => {
                    return Err(NodeError::UnknownNeighbor);
                },
            };
            match gossip_payload(&self.messages, known, self.redundancy, &mut rng) {
                None => {
                    assert(self@.overlap_with(i as int).len() > u32::MAX);
                    return Err(NodeError::TooManyValues);
                },
                Some(payload) => {
                    sent.push(
                        Message {
                            src: self.id.clone(),
                            dst: neighbor.clone(),
                            body: Body {
                                id: None,
                                in_reply_to: None,
                                payload: BroadcastMessage::Extended(
                                    GossipProtocol::Gossip { messages: payload },
                                ),
                            },
                        },
                    );
                },
            }
            i += 1;
        }
        Ok(sent)
    }
}

impl Node<BroadcastMessage> for BroadcastNode {
    /// A node that has seen no value yet, gossips to every node of the
    /// cluster and keeps an empty record for each of them.
    fn init_from(init: &InitBody) -> (node: Result<Self, NodeError>)
        ensures
            node matches Ok(n) && n@ == (BroadcastState {
                id: init.node_id@,
                next_id: 1,
                messages: Set::empty(),
                neighbors: names(init.node_ids@),
                known: Map::new(
                    |id: Seq<char>| names(init.node_ids@).contains(id),
                    |id: Seq<char>| Set::<usize>::empty(),
                ),
                redundancy: DEFAULT_REDUNDANCY as nat,
            }),
    {
        let neighbors = copy_names(&init.node_ids);
        let mut known: NodeMap<HashSet<usize>> = NodeMap::new();
        let mut i: usize = 0;
        while i < neighbors.len()
            invariant
                i <= neighbors@.len(),
                known_sets(known@) == Map::new(
                    |id: Seq<char>| names(neighbors@.take(i as int)).contains(id),
                    |id: Seq<char>| Set::<usize>::empty(),
                ),
            decreases neighbors@.len() - i,
        {
            let ghost before = known@;
            let empty: HashSet<usize> = HashSet::new();
            known.insert(neighbors[i].clone(), empty);
            proof {
                assert(known@ == before.insert(neighbors@[i as int]@, empty));
                let shorter = names(neighbors@.take(i as int));
                let longer = names(neighbors@.take(i + 1));
                assert forall|id: Seq<char>| longer.contains(id) <==> (shorter.contains(id) || id
                    == neighbors@[i as int]@) by {
                    if shorter.contains(id) {
                        let k = shorter.index_of(id);
                        assert(longer[k] == id);
                    }
                    if longer.contains(id) {
                        let k = longer.index_of(id);
                        if k < i {
                            assert(shorter[k] == id);
                        }
                    }
                    assert(longer[i as int] == neighbors@[i as int]@);
                }
                let key = neighbors@[i as int]@;
                assert forall|id: Seq<char>| known_sets(known@).contains_key(id) <==> longer.contains(
                    id,
                ) by {
                    assert(known_sets(before).contains_key(id) <==> shorter.contains(id));
                }
                assert forall|id: Seq<char>| known_sets(known@).contains_key(id) implies known_sets(
                    known@,
                )[id] == Set::<usize>::empty() by {
                    if id != key {
                        assert(known_sets(before).contains_key(id));
                        assert(known_sets(before)[id] == Set::<usize>::empty());
                    }
                }
                assert(known_sets(known@) =~= Map::new(
                    |id: Seq<char>| longer.contains(id),
                    |id: Seq<char>| Set::<usize>::empty(),
                ));
            }
            i += 1;
        }
        assert(neighbors@.take(i as int) =~= neighbors@);
        Ok(
            BroadcastNode {
                id: init.node_id.clone(),
                msg_id: 1,
                messages: HashSet::new(),
                neighbors,
                known,
                redundancy: DEFAULT_REDUNDANCY,
            },
        )
    }

    /// Takes one event. A `broadcast` adds its value to the node's values,
    /// a `read` is answered with a copy of them, a `topology` replaces the
    /// neighbors by those it gives for this node; each is answered under the
    /// next id. The tick and gossip are handled as `handle_external` says,
    /// and a reply that comes in is ignored.
    fn step(&mut self, req: Message<BroadcastMessage>) -> (sent: Result<
        Vec<Message<BroadcastMessage>>,
        NodeError,
    >)
        ensures
            match sent {
                Ok(messages) => old(self)@.refusal(req) is None && old(self)@.accepts(
                    req,
                    final(self)@,
                    messages@,
                ),
                Err(error) => old(self)@.refusal(req) == Some(error) && *final(self) == *old(self),
            },
    {
        let mut request = req;
        let mut payload = BroadcastMessage::TopologyOk;
        std::mem::swap(&mut request.body.payload, &mut payload);
        match payload {
            BroadcastMessage::Broadcast { message } => {
                if self.msg_id == usize::MAX {
                    return Err(NodeError::IdsExhausted);
                }
                self.messages.insert(message);
                let reply = self.reply_with(request, BroadcastMessage::BroadcastOk);
                Ok(vec![reply])
            },
            BroadcastMessage::Read => {
                if self.msg_id == usize::MAX {
                    return Err(NodeError::IdsExhausted);
                }
                let messages = copy_values(&self.messages);
                let reply = self.reply_with(request, BroadcastMessage::ReadOk { messages });
                Ok(vec![reply])
            },
            BroadcastMessage::Topology { topology } => {
                let mut topology = topology;
                match topology.remove(&self.id) {
                    None => Err(NodeError::MissingTopology),
                    Some(neighbors) => {
                        if self.msg_id == usize::MAX {
                            return Err(NodeError::IdsExhausted);
                        }
                        self.neighbors = neighbors;
                        let reply = self.reply_with(request, BroadcastMessage::TopologyOk);
                        Ok(vec![reply])
                    },
                }
            },
            BroadcastMessage::TopologyOk
            | BroadcastMessage::BroadcastOk
            | BroadcastMessage::ReadOk { .. } => Ok(Vec::new()),
            BroadcastMessage::Extended(external) => {
                std::mem::swap(
                    &mut request.body.payload,
                    &mut BroadcastMessage::Extended(external),
                );
                match &request.body.payload {
                    BroadcastMessage::Extended(external) => self.handle_external(
                        &request,
                        external,
                    ),
                    _ => Ok(Vec::new()),
                }
            },
        }
    }
}

} // verus!
