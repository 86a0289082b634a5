//! A node of a message-passing cluster: the envelope protocol, and the
//! state machines that turn one inbound event into outbound messages.
//!
//! A node never reads or writes by itself. Whoever runs it hands it the
//! events in the order in which they came, the periodic tick among them, and
//! sends what it returns.
//!
//! - `message`: the envelope, and how a reply is derived from a request;
//! - `node`: what all nodes have in common;
//! - `broadcast`: the broadcast node, which spreads values by gossip;
//! - `gossip`: what one gossip message carries;
//! - `convergence`: why gossip reaches every node when nothing is lost;
//! - `counter`, `counter_node`: the grow-only counter and its node;
//! - `echo`, `unique`: the two nodes that only answer;
//! - `node_map`, `values`: the collections these are built on;
//! - `random`: the random number generator, which is not the library's own.

pub mod broadcast;
pub mod convergence;
pub mod counter;
pub mod counter_node;
pub mod echo;
pub mod gossip;
pub mod message;
pub mod node;
pub mod node_map;
pub mod random;
pub mod unique;
pub mod values;

pub use message::{Body, InitBody, InitError, InitMsg, Message};
pub use node::{Node, NodeError};
pub use node_map::NodeMap;
