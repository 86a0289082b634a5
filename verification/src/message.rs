//! The envelope that every message travels in, and how a reply is derived
//! from a request.

use vstd::prelude::*;

verus! {

/// One message on the wire: who sent it, whom it is for, and its body.
#[derive(Debug, Clone)]
pub struct Message<MessageType> {
    pub src: String,
    pub dst: String,
    pub body: Body<MessageType>,
}

/// The body of a message: its own id, the id of the request it answers,
/// and the payload proper.
#[derive(Debug, Clone)]
pub struct Body<MessageType> {
    pub id: Option<usize>,
    pub in_reply_to: Option<usize>,
    pub payload: MessageType,
}

/// The handshake payloads.
#[derive(Debug, Clone)]
pub enum InitMsg {
    /// The handshake request.
    Init(InitBody),
    /// The handshake acknowledgment.
    InitOk,
}

/// What the handshake request carries: this node's id and the ids of all
/// nodes of the cluster.
#[derive(Debug, Clone)]
pub struct InitBody {
    pub node_id: String,
    pub node_ids: Vec<String>,
}

/// Why a handshake acknowledgment could not be derived.
#[derive(Debug, Clone, Copy, PartialEq, Eq, Structural)]
pub enum InitError {
    /// The message is itself an acknowledgment.
    NotARequest,
}

impl<MessageType> Message<MessageType> {
    /// True when `self` answers `request`: addressed back to the sender and
    /// correlated with the request's id.
    pub open spec fn answers(self, request: Self) -> bool {
        &&& self.src == request.dst
        &&& self.dst == request.src
        &&& self.body.in_reply_to == request.body.id
    }

    /// Turns a request into its reply. The reply goes back to the sender,
    /// refers to the request's id and still carries the request's payload.
    /// With a counter, the reply takes the counter's value as its id and the
    /// counter moves on by one.
    pub fn into_reply(self, msg_id: Option<&mut usize>) -> (reply: Self)
        requires
            msg_id matches Some(counter) ==> *counter < usize::MAX,
        ensures
            reply.answers(self),
            reply.body.payload == self.body.payload,
            match msg_id {
                Some(counter) => reply.body.id == Some(*counter) && *final(counter) == *counter + 1,
                None => reply.body.id is None,
            },
    {
        let id = match msg_id {
            Some(counter) => {
                let mid: usize = *counter;
                *counter = mid + 1;
                Some(mid)
            },
            None => None,
        };
        Message {
            src: self.dst,
            dst: self.src,
            body: Body { payload: self.body.payload, id, in_reply_to: self.body.id },
        }
    }
}

impl Message<InitMsg> {
    /// Derives the handshake acknowledgment from the handshake request: it
    /// goes back to the sender, refers to the request's id and has no id of
    /// its own. An acknowledgment has none.
    pub fn into_init_ok(&self) -> (ack: Result<Self, InitError>)
        ensures
            match ack {
                Ok(m) => {
                    &&& self.body.payload is Init
                    &&& m.answers(*self)
                    &&& m.body.id is None
                    &&& m.body.payload is InitOk
                },
                Err(e) => self.body.payload is InitOk && e == InitError::NotARequest,
            },
    {
        match &self.body.payload {
            InitMsg::Init(_) => Ok(
                Message {
                    src: self.dst.clone(),
                    dst: self.src.clone(),
                    body: Body { id: None, in_reply_to: self.body.id, payload: InitMsg::InitOk },
                },
            ),
            InitMsg::InitOk => Err(InitError::NotARequest),
        }
    }
}

} // verus!
