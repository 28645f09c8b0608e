//! A blocking TLS client connection driver for allocation-averse
//! environments: it drives a handshake to completion, then pumps encrypted
//! application data over a byte-stream transport one record at a time,
//! using a single caller-sized record buffer.

pub mod alert;
pub mod blocking;
pub mod config;
pub mod error;
pub mod handshake;
pub mod key_schedule;
pub mod memory;
pub mod record;
pub mod traits;
