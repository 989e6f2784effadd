//! A single-publisher, multi-subscriber line relay.
//!
//! One authenticated control connection emits text lines; the relay fans them
//! out to every authenticated listener connection. At most one control session
//! is current at any instant: a newly authorized control connection evicts the
//! previous one and rotates the shared control credential.

pub mod config;
pub mod control;
pub mod line_codec;
pub mod listen;
pub mod message;
pub mod password;
pub mod shared_data;
