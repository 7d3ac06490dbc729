//! A DNS loss compensator: it watches DNS queries and replies on a network
//! interface, pairs them up, remembers the addresses that real replies carried
//! and, when too many queries go unanswered, answers pending queries itself
//! from what it remembers.
//!
//! The crate holds the decisions and the byte formats; reading and writing the
//! raw socket is left to the caller.

pub mod bytes;
pub mod cache;
pub mod classifier;
pub mod correlator;
pub mod flow;
pub mod frame;
pub mod history;
pub mod injector;
pub mod message;
pub mod parser;
pub mod pending;
pub mod reply;
