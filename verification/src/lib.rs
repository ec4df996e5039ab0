//! Measuring how long secure-transport handshakes take.
//!
//! A [`Session`] attempts a number of handshakes against one address, over
//! TLS on a TCP stream or over QUIC on UDP datagrams, and keeps the times
//! that were measured in a log-scale histogram of milliseconds.
//!
//! This library holds the decisions and the bookkeeping, and proves them:
//! which token names which [`Transport`]; what an attempt leaves behind
//! ([`HandshakeResult`]); what the driver of a datagram handshake does next
//! ([`driver`]); when all attempts of a run have ended ([`fanout`]); and what
//! the distribution holds after a run ([`session`], [`recorder`],
//! [`geometry`]). Sockets, timers and tasks are the caller's: the library
//! says what is to be done and is told what happened.

pub mod config;
pub mod conn_id;
pub mod driver;
pub mod fanout;
pub mod geometry;
pub mod outcome;
pub mod recorder;
pub mod resolve;
pub mod session;
pub mod transport;

pub use crate::config::Args;
pub use crate::outcome::{Elapsed, HandshakeResult, StreamAttempt};
pub use crate::session::Session;
pub use crate::transport::Transport;
