//! The unique-id node: it answers every request with an id that no other
//! request gets.

use vstd::prelude::*;
use vstd::string::StringExecFns;
use crate::message::{InitBody, Message};
use crate::node::{Node, NodeError};

verus! {

/// The payloads of the unique-id workload.
#[derive(Debug, Clone)]
pub enum Generation {
    /// A client asks for an id.
    Generate,
    /// The answer: the id.
    GenerateOk { unique_id: String },
}

/// A unique-id node.
#[derive(Debug, Clone)]
pub struct UniqueNode {
    id: String,
    msg_id: usize,
}

/// The character of one decimal digit.
pub open spec fn digit(d: nat) -> char {
    if d == 0 {
        '0'
    } else if d == 1 {
        '1'
    } else if d == 2 {
        '2'
    } else if d == 3 {
        '3'
    } else if d == 4 {
        '4'
    } else if d == 5 {
        '5'
    } else if d == 6 {
        '6'
    } else if d == 7 {
        '7'
    } else if d == 8 {
        '8'
    } else {
        '9'
    }
}

/// A number written in decimal digits.
pub open spec fn decimal(n: nat) -> Seq<char>
    decreases n,
{
    if n < 10 {
        seq![digit(n)]
    } else {
        decimal(n / 10).push(digit(n % 10))
    }
}

/// The id that a node hands out when its counter stands at `count`: the
/// node's id, a hyphen and the count in decimal digits.
pub open spec fn unique_id(node: Seq<char>, count: nat) -> Seq<char> {
    node + seq!['-'] + decimal(count)
}

/// One decimal digit as text.
fn digit_text(d: usize) -> (text: &'static str)
    requires
        d < 10,
    ensures
        text@ == seq![digit(d as nat)],
{
    proof {
        reveal_strlit("0");
        reveal_strlit("1");
        reveal_strlit("2");
        reveal_strlit("3");
        reveal_strlit("4");
        reveal_strlit("5");
        reveal_strlit("6");
        reveal_strlit("7");
        reveal_strlit("8");
        reveal_strlit("9");
    }
    let text = if d == 0 {
        "0"
    } else if d == 1 {
        "1"
    } else if d == 2 {
        "2"
    } else if d == 3 {
        "3"
    } else if d == 4 {
        "4"
    } else if d == 5 {
        "5"
    } else if d == 6 {
        "6"
    } else if d == 7 {
        "7"
    } else if d == 8 {
        "8"
    } else {
        "9"
    };
    assert(text@ =~= seq![digit(d as nat)]);
    text
}

/// Writes a number in decimal digits.
pub fn decimal_text(n: usize) -> (text: String)
    ensures
        text@ == decimal(n as nat),
    decreases n,
{
    if n < 10 {
        String::from_str(digit_text(n))
    } else {
        let text = decimal_text(n / 10).concat(digit_text(n % 10));
        assert(text@ =~= decimal(n as nat));
        text
    }
}

impl UniqueNode {
    /// The node's own id.
    pub closed spec fn name(self) -> Seq<char> {
        self.id@
    }

    /// The id that the next reply will carry.
    pub closed spec fn next_id(self) -> nat {
        self.msg_id as nat
    }

    /// The node's own id.
    pub fn id(&self) -> (id: &String)
        ensures
            id@ == self.name(),
    {
        &self.id
    }

    /// The id that the next reply will carry.
    pub fn msg_id(&self) -> (next: usize)
        ensures
            next == self.next_id(),
    {
        self.msg_id
    }

    /// Why the node refuses `request`, if it does.
    pub open spec fn refusal(self, request: Message<Generation>) -> Option<NodeError> {
        if request.body.payload is Generate && self.next_id() >= usize::MAX {
            Some(NodeError::IdsExhausted)
        } else {
            None
        }
    }
}

impl Node<Generation> for UniqueNode {
    /// A node with the id that the handshake gives it, whose first reply
    /// will carry the id 1.
    fn init_from(init: &InitBody) -> (node: Result<Self, NodeError>)
        ensures
            node matches Ok(n) && n.next_id() == 1 && n.name() == init.node_id@,
    {
        Ok(UniqueNode { id: init.node_id.clone(), msg_id: 1 })
    }

    /// Answers a `generate` with a `generate_ok` under the next id. The id
    /// that it hands out is made of the node's id and the counter as it
    /// stands after the reply took its id. A reply that comes in is ignored.
    fn step(&mut self, req: Message<Generation>) -> (sent: Result<
        Vec<Message<Generation>>,
        NodeError,
    >)
        ensures
            match sent {
                Ok(messages) => old(self).refusal(req) is None && match req.body.payload {
                    Generation::Generate => {
                        &&& final(self).next_id() == old(self).next_id() + 1
                        &&& final(self).name() == old(self).name()
                        &&& messages@.len() == 1
                        &&& messages@[0].answers(req)
                        &&& messages@[0].body.id == Some(old(self).next_id() as usize)
                        &&& messages@[0].body.payload matches Generation::GenerateOk {
                            unique_id: id,
                        }
                        &&& id@ == unique_id(old(self).name(), old(self).next_id() + 1)
                    },
                    Generation::GenerateOk { .. } => {
                        &&& *final(self) == *old(self)
                        &&& messages@.len() == 0
                    },
                },
                Err(error) => old(self).refusal(req) == Some(error) && *final(self) == *old(self),
            },
    {
        if let Generation::GenerateOk { .. } = &req.body.payload {
            return Ok(Vec::new());
        }
        if self.msg_id == usize::MAX {
            return Err(NodeError::IdsExhausted);
        }
        let mut reply = req.into_reply(Some(&mut self.msg_id));
        proof {
            reveal_strlit("-");
        }
        let id = self.id.clone().concat("-").concat(decimal_text(self.msg_id).as_str());
        assert(id@ =~= unique_id(old(self).name(), old(self).next_id() + 1));
        reply.body.payload = Generation::GenerateOk { unique_id: id };
        Ok(vec![reply])
    }
}

} // verus!
