//! DNS blocklist (DNSBL) lookups: how a candidate and a blocklist zone become
//! one query name, and how the answers to the two queries become a verdict.
//!
//! The library sends no query itself. [`DNSBL`] turns a candidate into a
//! [`Lookup`]; whoever holds a resolver makes the query that the lookup asks
//! for and hands back what came of it, until the lookup ends in a
//! [`BlockStatus`].

pub mod address;
pub mod compare;
pub mod domain;
pub mod engine;
pub mod error;
pub mod lookup;
pub mod name;
pub mod plain;
pub mod presentation;
pub mod status;
pub mod txt;

pub use address::IpAddress;
pub use domain::{BlockList, Domain};
pub use engine::DNSBL;
pub use error::Error;
pub use lookup::{Event, Lookup, Phase, Progress, Query};
pub use status::BlockStatus;
