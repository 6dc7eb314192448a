//! Wire-format parsers.

pub mod mqtt;
