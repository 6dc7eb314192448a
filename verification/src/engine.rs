//! Admission and inspection logic of the proxy.

pub mod connection;
pub mod http;
pub mod inspector;
pub mod limiter;
pub mod relay;
pub mod slowloris;
