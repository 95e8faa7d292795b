//! The core of a small multi-user text chat: the policy of a token-authenticated
//! broadcast server, and the editing logic of its terminal client.
//!
//! The server side never touches a socket. Every operation takes the current
//! time as an argument and answers with the list of things to do on the wire.

pub mod acceptor;
pub mod command;
pub mod config;
pub mod laws;
pub mod model;
pub mod prompt;
pub mod screen;
pub mod server;
pub mod sinner;
pub mod stress;
pub mod text;
pub mod token;
pub mod wellformed;
pub mod wire;
