//! Decision logic of a TCP load balancer: the configuration model, the health
//! map, path-prefix and round-robin routing, the request-line peek, the
//! synthesized failure response and the per-connection state machine.
//!
//! Nothing here touches a socket or a clock. The process around the library
//! reads, connects, writes and waits, and hands plain values in and out.
//! The module `dns` holds the wire format of the name service through which
//! clients find the balancer.

pub mod config;
pub mod connection;
pub mod dns;
pub mod fairness;
pub mod health;
pub mod request;
pub mod response;
pub mod routing;
pub mod text;
