//! Protocol core of a distributed dataflow platform: the message catalog,
//! the drop-token ledger that governs shared-memory buffers, the daemon-side
//! node sessions and supervisor, and the coordinator's control plane.

pub mod cli;
pub mod config;
pub mod coordinator;
pub mod daemon;
pub mod daemon_messages;
pub mod dataflow;
pub mod descriptor;
pub mod ledger;
pub mod run;
pub mod session;
pub mod supervisor;
pub mod topics;
pub mod tracker;
pub mod trusted;
