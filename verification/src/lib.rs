//! Port manager core: discovery of listening sockets, filtering by port range
//! and process name, and the interactive session state machine.

pub mod binding;
pub mod config;
pub mod filter;
pub mod host;
pub mod keys;
pub mod mutator;
pub mod registry;
pub mod scanner;
pub mod sequences;
pub mod session;
pub mod text;
