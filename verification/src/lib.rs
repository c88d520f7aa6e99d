//! Core of an address-addressed, message-passing actor runtime, modelled as a
//! serialized state machine.
//!
//! Independent actors ("workers" and "processors") are identified by logical
//! addresses, communicate only by routed messages, and are supervised by a
//! central router that owns the address registry, actor lifecycle, cluster
//! membership and ordered shutdown.  In the running system every component is
//! an asynchronous task and all coordination goes through bounded channels;
//! the router serializes every registry mutation, so the observable behaviour
//! is that of a single-threaded transition system.  This crate is that
//! transition system, written out as verified executable code: a [`node::Node`]
//! value holds the registry and every actor's mailbox, and each operation a
//! context may request of the router is a method with a contract that pins the
//! registry transition down exactly.
//!
//! Scheduling, channel backpressure and wall-clock timeouts belong to the
//! asynchronous substrate and have no representation here: an operation that
//! would suspend forever in the serialized model (a wait with nobody left to
//! wake it) reports `Timeout` instead.

pub mod access;
pub mod address;
pub mod context;
pub mod error;
pub mod laws;
pub mod message;
pub mod node;
pub mod relay;
pub mod route;
pub mod tcp_router;
