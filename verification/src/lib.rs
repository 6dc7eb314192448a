//! Edge protection for an MQTT broker: framing primitives, per-source
//! admission control and the per-connection inspection and relay decisions.
//!
//! The crate does no socket work. The engine modules are written as step
//! functions: they say which read, peek or write to perform next, and take
//! its outcome. Their contracts are proved with Verus. The proofs rest on
//! two things that are taken from elsewhere and only described here: the
//! UTF-8 validation of the standard library and the concurrent map of
//! `dashmap`. Both are marked where they are called.

pub mod config;
pub mod engine;
pub mod metrics;
pub mod parser;
