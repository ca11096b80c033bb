//! A sharded, peer-replicated social graph, written as verified state machines.
//!
//! Every component (the replicated shard inners, the peering protocol, the
//! per-user state and the routing decisions of inboxes, outboxes and the
//! dispatcher) is a plain value with methods that take an event and return the
//! next state together with the messages to send. A runtime drives them.
pub mod ids;
pub mod user_set;
pub mod post_set;
pub mod user;
pub mod blocklist;
pub mod peered;
pub mod store;
pub mod posts;
pub mod users;
pub mod dispatch;
pub mod outbox;
pub mod inbox;
pub mod laws;
