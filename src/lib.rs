//! A Viewstamped Replication engine: the per-replica protocol state machine,
//! the wire codec of its messages, and the small collaborators it relies on.

pub mod wire;
pub mod op;
pub mod message;
pub mod stm;
pub mod config;
pub mod client_table;
pub mod protocol;
pub mod replica;
pub mod client;
pub mod laws;

pub use client::{Client, Request};
pub use client_table::{ClientEntry, ClientTable, Consultation};
pub use config::{Address, ReplicaConfig};
pub use message::Message;
pub use op::{Op, ProtocolError, MAX_OP_SIZE};
pub use protocol::{PendingRequest, Status};
pub use replica::{Action, Replica, DEFAULT_IDLE_THRESHOLD};
pub use stm::StateMachine;
