//! The IRC wire protocol: line parsing and the upstream client.

pub mod client;
pub mod parser;
