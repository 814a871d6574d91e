//! Verified core of the sshx terminal-sharing service: the in-memory session
//! state of the server, the decisions taken on each WebSocket and gRPC message,
//! and the chunking of file transfers.

pub mod controller;
pub mod ids;
pub mod pending;
pub mod protocol;
pub mod session;
pub mod shell;
pub mod text;
pub mod upload;
pub mod web;
