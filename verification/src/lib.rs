//! A Raft replicated file store: the log, the replicated state machine and the
//! decisions each node takes on messages, timeouts and operator commands.

pub mod entry;
pub mod state;
pub mod text;
pub mod message;
pub mod parse;
pub mod quorum;
pub mod config;
pub mod role;
pub mod node;
pub mod persistent_state;
pub mod server;
pub mod clients;
pub mod repl;
pub mod events;
pub mod client;
pub mod laws;
