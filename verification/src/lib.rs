//! A small message-bus kernel: objects exposed at hierarchical paths,
//! remote method calls correlated by per-connection serials, broadcast
//! signals delivered independently to each subscription, and properties
//! with change notification — all over an opaque, reliable, ordered
//! transport that the surrounding program supplies.

pub mod connection;
pub mod greeter;
pub mod msg;
pub mod proxy;
pub mod registrar;
pub mod server;
pub mod value;
