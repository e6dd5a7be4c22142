//! Passive OS fingerprinting core: parses raw IPv4/IPv6 + TCP headers,
//! derives a canonical signature string from connection-initiation packets,
//! matches a fixed rule table to guess the sender's operating system, and
//! caches one result per endpoint in a bounded, insertion-ordered store.

pub mod addr;
pub mod classifier;
pub mod parser;
pub mod store;
pub mod text;
