//! The counter node: it counts what clients add, and spreads its counter to
//! the other nodes by gossip.

use vstd::prelude::*;
use crate::counter::{merged, slot, total, Counter};
use crate::message::{Body, InitBody, Message};
use crate::node::{copy_names, names, Node, NodeError};

verus! {

/// The payloads of the counter workload.
#[derive(Debug, Clone)]
pub enum GlobalCounter {
    /// A client adds to the counter.
    Add { delta: usize },
    /// The answer to `Add`.
    AddOk,
    /// A client asks for the counter's value.
    Read,
    /// The answer to `Read`: the value.
    ReadOk { value: usize },
    /// What only nodes send each other.
    Extended(GossipProtocol),
}

/// The payloads that only counter nodes exchange.
#[derive(Debug, Clone)]
pub enum GossipProtocol {
    /// The periodic tick: time to gossip.
    GossipAlert,
    /// The sender's counter.
    Gossip { counter: Counter },
}

/// A counter node.
#[derive(Debug)]
pub struct CounterNode {
    id: String,
    msg_id: usize,
    neighbors: Vec<String>,
    inner: Counter,
}

/// What a counter node is, as plain values.
pub struct CounterState {
    /// The node's own id.
    pub id: Seq<char>,
    /// The id that the next reply will carry.
    pub next_id: nat,
    /// The nodes of the cluster, in order.
    pub neighbors: Seq<Seq<char>>,
    /// The slots of the node's counter.
    pub counter: Map<Seq<char>, usize>,
}

impl CounterState {
    /// The nodes that the node gossips to: all but itself, in order.
    pub open spec fn targets(self) -> Seq<Seq<char>> {
        self.neighbors.filter(|name: Seq<char>| name != self.id)
    }

    /// `message` is gossip from this node to `target` and carries this
    /// node's counter.
    pub open spec fn gossips(self, message: Message<GlobalCounter>, target: Seq<char>) -> bool {
        &&& message.src@ == self.id
        &&& message.dst@ == target
        &&& message.body.id is None
        &&& message.body.in_reply_to is None
        &&& message.body.payload matches GlobalCounter::Extended(GossipProtocol::Gossip { counter })
        &&& counter@ == self.counter
    }

    /// Why the node refuses `request`, if it does.
    pub open spec fn refusal(self, request: Message<GlobalCounter>) -> Option<NodeError> {
        match request.body.payload {
            GlobalCounter::Add { delta } => {
                if slot(self.counter, self.id) + delta > usize::MAX {
                    Some(NodeError::CountOverflow)
                } else if self.next_id >= usize::MAX {
                    Some(NodeError::IdsExhausted)
                } else {
                    None
                }
            },
            GlobalCounter::Read => {
                if self.next_id >= usize::MAX {
                    Some(NodeError::IdsExhausted)
                } else if total(self.counter) > usize::MAX {
                    Some(NodeError::CountOverflow)
                } else {
                    None
                }
            },
            GlobalCounter::AddOk
            | GlobalCounter::ReadOk { .. }
            | GlobalCounter::Extended(_) => None,
        }
    }

    /// `sent` is one message, and it answers `request` under the id that
    /// was next.
    pub open spec fn replied(
        self,
        request: Message<GlobalCounter>,
        sent: Seq<Message<GlobalCounter>>,
    ) -> bool {
        &&& sent.len() == 1
        &&& sent[0].answers(request)
        &&& sent[0].body.id == Some(self.next_id as usize)
    }

    /// The node in state `self` accepts `request`, goes to `next` and sends
    /// `sent`.
    pub open spec fn accepts(
        self,
        request: Message<GlobalCounter>,
        next: Self,
        sent: Seq<Message<GlobalCounter>>,
    ) -> bool {
        match request.body.payload {
            GlobalCounter::Add { delta } => {
                &&& next == (CounterState {
                    counter: self.counter.insert(
                        self.id,
                        (slot(self.counter, self.id) + delta) as usize,
                    ),
                    next_id: self.next_id + 1,
                    ..self
                })
                &&& self.replied(request, sent)
                &&& sent[0].body.payload is AddOk
            },
            GlobalCounter::Read => {
                &&& next == (CounterState { next_id: self.next_id + 1, ..self })
                &&& self.replied(request, sent)
                &&& sent[0].body.payload matches GlobalCounter::ReadOk { value }
                &&& value == total(self.counter)
            },
            GlobalCounter::AddOk | GlobalCounter::ReadOk { .. } => {
                &&& next == self
                &&& sent.len() == 0
            },
            GlobalCounter::Extended(GossipProtocol::GossipAlert) => {
                &&& next == self
                &&& sent.len() == self.targets().len()
                &&& forall|i: int|
                    0 <= i < sent.len() ==> self.gossips(#[trigger] sent[i], self.targets()[i])
            },
            GlobalCounter::Extended(GossipProtocol::Gossip { counter }) => {
                &&& next == (CounterState { counter: merged(self.counter, counter@), ..self })
                &&& sent.len() == 0
            },
        }
    }
}

impl View for CounterNode {
    type V = CounterState;

    closed spec fn view(&self) -> CounterState {
        CounterState {
            id: self.id@,
            next_id: self.msg_id as nat,
            neighbors: names(self.neighbors@),
            counter: self.inner@,
        }
    }
}

impl CounterNode {
    /// The node's own id.
    pub fn id(&self) -> (id: &String)
        ensures
            id@ == self@.id,
    {
        &self.id
    }

    /// The id that the next reply will carry.
    pub fn msg_id(&self) -> (next: usize)
        ensures
            next == self@.next_id,
    {
        self.msg_id
    }

    /// The nodes of the cluster.
    pub fn neighbors(&self) -> (list: &Vec<String>)
        ensures
            names(list@) == self@.neighbors,
    {
        &self.neighbors
    }

    /// The node's counter.
    pub fn counter(&self) -> (inner: &Counter)
        ensures
            inner@ == self@.counter,
    {
        &self.inner
    }

    /// The node's counter, to change it.
    pub fn counter_mut(&mut self) -> (inner: &mut Counter)
        ensures
            inner@ == old(self)@.counter,
            final(self)@ == (CounterState { counter: final(inner)@, ..old(self)@ }),
    {
        &mut self.inner
    }

    /// The gossip that takes this node's counter to `neighbor`.
    pub fn send_to_neighbor(&self, neighbor: &str) -> (message: Message<GlobalCounter>)
        ensures
            self@.gossips(message, neighbor@),
    {
        Message {
            src: self.id.clone(),
            dst: neighbor.to_owned(),
            body: Body {
                id: None,
                in_reply_to: None,
                payload: GlobalCounter::Extended(
                    GossipProtocol::Gossip { counter: self.counter().clone() },
                ),
            },
        }
    }

    /// Answers `request` with `payload` under the next id.
    fn reply_with(&mut self, request: Message<GlobalCounter>, payload: GlobalCounter) -> (reply:
        Message<GlobalCounter>)
        requires
            old(self).msg_id < usize::MAX,
        ensures
            reply.answers(request),
            reply.body.id == Some(old(self).msg_id),
            reply.body.payload == payload,
            final(self).msg_id == old(self).msg_id + 1,
            final(self).id == old(self).id,
            final(self).neighbors == old(self).neighbors,
            final(self).inner == old(self).inner,
    {
        let mut reply = request.into_reply(Some(&mut self.msg_id));
        reply.body.payload = payload;
        reply
    }

    /// One message of gossip for every node but this one, in the nodes'
    /// order.
    fn gossip_round(&self) -> (sent: Vec<Message<GlobalCounter>>)
        ensures
            sent@.len() == self@.targets().len(),
            forall|i: int|
                0 <= i < sent@.len() ==> self@.gossips(#[trigger] sent@[i], self@.targets()[i]),
    {
        let ghost others = |name: Seq<char>| name != self@.id;
        let mut sent: Vec<Message<GlobalCounter>> = Vec::new();
        let mut i: usize = 0;
        proof {
            reveal(Seq::filter);
            assert(names(self.neighbors@).take(0).filter(others) =~= Seq::<Seq<char>>::empty());
        }
        while i < self.neighbors.len()
            invariant
                i <= self.neighbors@.len(),
                others == |name: Seq<char>| name != self@.id,
                sent@.len() == names(self.neighbors@).take(i as int).filter(others).len(),
                forall|k: int|
                    0 <= k < sent@.len() ==> self@.gossips(
                        #[trigger] sent@[k],
                        names(self.neighbors@).take(i as int).filter(others)[k],
                    ),
            decreases self.neighbors@.len() - i,
        {
            proof {
                reveal(Seq::filter);
                let all = names(self.neighbors@);
                assert(all.take(i + 1).drop_last() =~= all.take(i as int));
                assert(all.take(i + 1).last() == self.neighbors@[i as int]@);
            }
            if !(self.neighbors[i] == self.id) {
                let message = self.send_to_neighbor(self.neighbors[i].as_str());
                sent.push(message);
            }
            i += 1;
        }
        proof {
            let all = names(self.neighbors@);
            assert(all.take(i as int) =~= all);
        }
        sent
    }
}

impl Node<GlobalCounter> for CounterNode {
    /// A node whose counter has a slot that counts nothing for every node
    /// of the cluster.
    fn init_from(init: &InitBody) -> (node: Result<Self, NodeError>)
        ensures
            node matches Ok(n) && n@ == (CounterState {
                id: init.node_id@,
                next_id: 1,
                neighbors: names(init.node_ids@),
                counter: Map::new(
                    |id: Seq<char>| names(init.node_ids@).contains(id),
                    |id: Seq<char>| 0usize,
                ),
            }),
    {
        let neighbors = copy_names(&init.node_ids);
        let mut inner = Counter::new();
        let mut i: usize = 0;
        while i < neighbors.len()
            invariant
                i <= neighbors@.len(),
                inner@ == Map::new(
                    |id: Seq<char>| names(neighbors@.take(i as int)).contains(id),
                    |id: Seq<char>| 0usize,
                ),
            decreases neighbors@.len() - i,
        {
            let ghost before = inner@;
            inner.add(neighbors[i].clone(), 0);
            proof {
                let shorter = names(neighbors@.take(i as int));
                let longer = names(neighbors@.take(i + 1));
                assert forall|id: Seq<char>| longer.contains(id) <==> (shorter.contains(id) || id
                    == neighbors@[i as int]@) by {
                    if shorter.contains(id) {
                        let k = shorter.index_of(id);
                        assert(longer[k] == id);
                    }
                    if longer.contains(id) {
                        let k = longer.index_of(id);
                        if k < i {
                            assert(shorter[k] == id);
                        }
                    }
                    assert(longer[i as int] == neighbors@[i as int]@);
                }
                assert(inner@ =~= Map::new(
                    |id: Seq<char>| longer.contains(id),
                    |id: Seq<char>| 0usize,
                ));
            }
            i += 1;
        }
        assert(neighbors@.take(i as int) =~= neighbors@);
        Ok(CounterNode { id: init.node_id.clone(), msg_id: 1, neighbors, inner })
    }

    /// Takes one event. An `add` adds its amount to the node's own slot, a
    /// `read` is answered with the counter's value; each is answered under
    /// the next id. On the tick the node gossips its counter to every other
    /// node, and a counter that comes in is merged into its own. A reply
    /// that comes in is ignored.
    fn step(&mut self, req: Message<GlobalCounter>) -> (sent: Result<
        Vec<Message<GlobalCounter>>,
        NodeError,
    >)
        ensures
            match sent {
                Ok(messages) => old(self)@.refusal(req) is None && old(self)@.accepts(
                    req,
                    final(self)@,
                    messages@,
                ),
                Err(error) => old(self)@.refusal(req) == Some(error) && *final(self) == *old(self),
            },
    {
        let mut request = req;
        let mut payload = GlobalCounter::AddOk;
        std::mem::swap(&mut request.body.payload, &mut payload);
        match payload {
            GlobalCounter::Add { delta } => {
                let count = match self.inner.get(&self.id) {
                    Some(count) => count,
                    None => 0,
                };
                if count > usize::MAX - delta {
                    return Err(NodeError::CountOverflow);
                }
                if self.msg_id == usize::MAX {
                    return Err(NodeError::IdsExhausted);
                }
                self.inner.add(self.id.clone(), delta);
                let reply = self.reply_with(request, GlobalCounter::AddOk);
                Ok(vec![reply])
            },
            GlobalCounter::Read => {
                if self.msg_id == usize::MAX {
                    return Err(NodeError::IdsExhausted);
                }
                match self.counter().checked_sum() {
                    None => Err(NodeError::CountOverflow),
                    Some(value) => {
                        let reply = self.reply_with(request, GlobalCounter::ReadOk { value });
                        Ok(vec![reply])
                    },
                }
            },
            GlobalCounter::Extended(GossipProtocol::GossipAlert) => Ok(self.gossip_round()),
            GlobalCounter::Extended(GossipProtocol::Gossip { counter }) => {
                self.counter_mut().merge(counter);
                Ok(Vec::new())
            },
            GlobalCounter::ReadOk { .. } | GlobalCounter::AddOk => Ok(Vec::new()),
        }
    }
}

} // verus!
