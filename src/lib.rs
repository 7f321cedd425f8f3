//! Message data model of a cross-chain relay: chain identifiers, the message
//! envelope with its proof and observation records, and their wire encoding.

pub mod chain;
pub mod message;
pub mod wire;
pub mod codec;
