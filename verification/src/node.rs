//! What every kind of node has in common: it is built from the handshake
//! and then takes one event at a time.

use vstd::prelude::*;
use crate::message::{InitBody, Message};

verus! {

/// Why a node refused an event. After a refusal the node is as it was.
#[derive(Debug, Clone, Copy, PartialEq, Eq, Structural)]
pub enum NodeError {
    /// A topology that has no entry for this node.
    MissingTopology,
    /// A neighbor of which the node keeps no record of known values.
    UnknownNeighbor,
    /// Gossip from a node of which this node keeps no record.
    UnknownSender,
    /// The message id counter has reached its last value.
    IdsExhausted,
    /// More values than the random choice of a sample can count.
    TooManyValues,
    /// A count that no longer fits the machine's integers.
    CountOverflow,
}

/// The node ids that a list of strings holds.
pub open spec fn names(list: Seq<String>) -> Seq<Seq<char>> {
    list.map_values(|name: String| name@)
}

/// A list with the same strings.
pub fn copy_names(list: &Vec<String>) -> (copy: Vec<String>)
    ensures
        copy@ == list@,
{
    let mut copy: Vec<String> = Vec::new();
    let mut i: usize = 0;
    while i < list.len()
        invariant
            i <= list@.len(),
            copy@ == list@.take(i as int),
        decreases list@.len() - i,
    {
        copy.push(list[i].clone());
        assert(copy@ =~= list@.take(i + 1));
        i += 1;
    }
    assert(list@.take(i as int) =~= list@);
    copy
}

/// A node of the cluster: a state machine over messages of one payload type.
pub trait Node<MessageType>: Sized {
    /// Builds the node from the body of the handshake request.
    fn init_from(init: &InitBody) -> Result<Self, NodeError>;

    /// Takes one event and returns the messages to send in answer, in the
    /// order in which they are to be sent.
    fn step(&mut self, req: Message<MessageType>) -> Result<
        Vec<Message<MessageType>>,
        NodeError,
    >;
}

} // verus!
