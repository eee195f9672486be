//! An in-memory, topic-based publish/subscribe broker.
//!
//! A publisher sends a message that names a topic, and every subscription to
//! that topic gets a copy. Clients talk to the broker in lines of text.
//!
//! The crate holds the broker's logic, and every function of it is verified:
//!
//! * [`command`] reads a command from a line, and [`codec`] writes the lines
//!   that go back to a connection;
//! * [`broker`] is the topic registry with its fan-out;
//! * [`session`] says what each command of a connection does to the registry
//!   and what the connection is told;
//! * [`model`] is the registry as a mathematical state machine, over which
//!   the contracts are stated, and [`laws`] proves what holds of it;
//! * [`armor`] and [`channel`] are the two places where the crate relies on
//!   code that is not verified: the `base64` engine and the queues of `tokio`.
//!
//! Sockets, tasks and locks are left to the program that embeds the crate.

#![allow(unused_imports)]

pub mod armor;
pub mod broker;
pub mod channel;
pub mod codec;
pub mod command;
pub mod error;
pub mod laws;
pub mod message;
pub mod model;
pub mod session;
