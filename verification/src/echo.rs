//! The echo node: it answers every request with the text it was sent.

use vstd::prelude::*;
use crate::message::{InitBody, Message};
use crate::node::{Node, NodeError};

verus! {

/// The payloads of the echo workload.
#[derive(Debug, Clone)]
pub enum EchoMessage {
    /// A client sends a text.
    Echo { echo: String },
    /// The answer: the same text.
    EchoOk { echo: String },
}

/// An echo node: all it keeps is the id of its next reply.
#[derive(Debug, Clone)]
pub struct EchoNode {
    msg_id: usize,
}

impl EchoNode {
    /// The id that the next reply will carry.
    pub closed spec fn next_id(self) -> nat {
        self.msg_id as nat
    }

    /// The id that the next reply will carry.
    pub fn msg_id(&self) -> (next: usize)
        ensures
            next == self.next_id(),
    {
        self.msg_id
    }

    /// Why the node refuses `request`, if it does.
    pub open spec fn refusal(self, request: Message<EchoMessage>) -> Option<NodeError> {
        if request.body.payload is Echo && self.next_id() >= usize::MAX {
            Some(NodeError::IdsExhausted)
        } else {
            None
        }
    }
}

impl Node<EchoMessage> for EchoNode {
    /// A node whose first reply will carry the id 1.
    fn init_from(init: &InitBody) -> (node: Result<Self, NodeError>)
        ensures
            node matches Ok(n) && n.next_id() == 1,
    {
        Ok(EchoNode { msg_id: 1 })
    }

    /// Answers an `echo` with an `echo_ok` that carries the same text, under
    /// the next id. A reply that comes in is ignored.
    fn step(&mut self, req: Message<EchoMessage>) -> (sent: Result<
        Vec<Message<EchoMessage>>,
        NodeError,
    >)
        ensures
            match sent {
                Ok(messages) => old(self).refusal(req) is None && match req.body.payload {
                    EchoMessage::Echo { echo: text } => {
                        &&& final(self).next_id() == old(self).next_id() + 1
                        &&& messages@.len() == 1
                        &&& messages@[0].answers(req)
                        &&& messages@[0].body.id == Some(old(self).next_id() as usize)
                        &&& messages@[0].body.payload matches EchoMessage::EchoOk { echo }
                        &&& echo@ == text@
                    },
                    EchoMessage::EchoOk { .. } => {
                        &&& *final(self) == *old(self)
                        &&& messages@.len() == 0
                    },
                },
                Err(error) => old(self).refusal(req) == Some(error) && *final(self) == *old(self),
            },
    {
        let mut request = req;
        let mut payload = EchoMessage::EchoOk { echo: String::new() };
        std::mem::swap(&mut request.body.payload, &mut payload);
        match payload {
            EchoMessage::EchoOk { .. } => Ok(Vec::new()),
            EchoMessage::Echo { echo } => {
                if self.msg_id == usize::MAX {
                    return Err(NodeError::IdsExhausted);
                }
                let mut reply = request.into_reply(Some(&mut self.msg_id));
                reply.body.payload = EchoMessage::EchoOk { echo };
                Ok(vec![reply])
            },
        }
    }
}

} // verus!
